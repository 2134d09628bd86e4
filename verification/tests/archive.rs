use std::io::{Cursor, Read};

use jianpu::{zip_split_pdfs, SplitPdfEntry};

fn entry(name: &str, bytes: &[u8]) -> SplitPdfEntry {
    SplitPdfEntry { track_name: name.to_string(), filename: format!("{name}.pdf"), pdf: bytes.to_vec() }
}

#[test]
fn split_pdfs_are_zipped_one_file_per_entry_in_order() {
    let entries = vec![entry("song - Soprano", b"%PDF-1.7 soprano"), entry("song - Alto", b"%PDF-1.7 alto")];
    let bytes = zip_split_pdfs(&entries).unwrap();
    assert_eq!(&bytes[..4], b"PK\x03\x04");
    let mut archive = zip::ZipArchive::new(Cursor::new(bytes)).unwrap();
    assert_eq!(archive.len(), 2);
    let mut names = Vec::new();
    for i in 0..archive.len() {
        let mut f = archive.by_index(i).unwrap();
        let mut data = Vec::new();
        f.read_to_end(&mut data).unwrap();
        names.push((f.name().to_string(), data));
    }
    assert_eq!(
        names,
        vec![
            ("song - Soprano.pdf".to_string(), b"%PDF-1.7 soprano".to_vec()),
            ("song - Alto.pdf".to_string(), b"%PDF-1.7 alto".to_vec()),
        ]
    );
}

#[test]
fn the_same_entries_give_the_same_archive() {
    let entries = vec![entry("a", b"one")];
    assert_eq!(zip_split_pdfs(&entries).unwrap(), zip_split_pdfs(&entries).unwrap());
    let empty = zip_split_pdfs(&[]).unwrap();
    let archive = zip::ZipArchive::new(Cursor::new(empty)).unwrap();
    assert_eq!(archive.len(), 0);
}

#[test]
fn a_duplicate_file_name_is_a_start_file_error() {
    let entries = vec![entry("a", b"one"), entry("a", b"two")];
    let e = zip_split_pdfs(&entries).err().unwrap();
    assert!(e.message.starts_with("zip start_file: "), "{}", e.message);
    assert_eq!((e.span.start, e.span.end), (0, 0));
}
