//! Writing a zip archive in memory with the `zip` crate: one file per entry, in order.
use vstd::prelude::*;

use std::io::{Cursor, Write};
use zip::write::SimpleFileOptions;
use zip::{CompressionMethod, ZipWriter};

verus! {

/// A zip writer over an in-memory buffer. Verus does not take a declaration of
/// `ZipWriter<W>` (its bounds name `std::io::Write` and `Seek`), so the writer is held
/// in a private field, out of Verus's sight; `zip_written` names what it holds.
#[verifier::external_body]
pub struct ZipBuffer {
    writer: ZipWriter<Cursor<Vec<u8>>>,
}

/// The files written so far to an in-memory zip writer: each file's name and bytes,
/// in the order they were started.
pub uninterp spec fn zip_written(w: ZipBuffer) -> Seq<(Seq<char>, Seq<u8>)>;

/// Every call made on the writer so far has succeeded. In such a writer the file
/// started last, if there is one, is the one still being written.
pub uninterp spec fn zip_clean(w: ZipBuffer) -> bool;

/// The bytes of the zip archive that holds the given files, in order, each deflated,
/// with the writer's default options (no timestamps: the date of every entry is the
/// format's 1980-01-01 default).
pub uninterp spec fn zip_archive(files: Seq<(Seq<char>, Seq<u8>)>) -> Seq<u8>;

/// The names of the files.
pub open spec fn zip_names(files: Seq<(Seq<char>, Seq<u8>)>) -> Seq<Seq<char>> {
    files.map_values(|f: (Seq<char>, Seq<u8>)| f.0)
}

/// The largest file whose deflated size the writer is sure to fit in a 32-bit size field
/// without the large-file option: deflate spends at most 9 bits on a byte of input, plus
/// a few bytes per block, so three billion bytes stay well below `u32::MAX`.
pub open spec fn zip_file_limit() -> nat {
    3_000_000_000
}

/// `ZipWriter::new` over an empty in-memory buffer: a writer with no file.
#[verifier::external_body]
pub(crate) fn zip_writer_new() -> (w: ZipBuffer)
    ensures
        zip_written(w) == Seq::<(Seq<char>, Seq<u8>)>::empty(),
        zip_clean(w),
{
    ZipBuffer { writer: ZipWriter::new(Cursor::new(Vec::new())) }
}

/// `ZipWriter::start_file` with deflate compression and otherwise default options:
/// on success the writer holds a new, empty file of that name after the others. It
/// finishes the file written before, which fails when that file's deflated size does not
/// fit in 32 bits, and it refuses a name already in the archive (`insert_file_data`);
/// on a clean writer neither happens for a new name and a previous file within
/// `zip_file_limit`, and the in-memory buffer never fails a write. A name longer than
/// `u16::MAX` bytes makes zip panic (`local_block`), so it is not admitted. What the
/// writer holds after a failure is not stated.
#[verifier::external_body]
pub(crate) fn zip_start_file(w: &mut ZipBuffer, name: &String) -> (r: Result<(), String>)
    requires
        crate::scan::utf8_len(name@) <= 0xFFFF,
    ensures
        r is Ok ==> zip_written(*final(w)) == zip_written(*old(w)).push((name@, Seq::<u8>::empty())),
        zip_names(zip_written(*old(w))).contains(name@) ==> r is Err,
        r is Ok && zip_clean(*old(w)) ==> zip_clean(*final(w)),
        zip_clean(*old(w)) && !zip_names(zip_written(*old(w))).contains(name@) && (zip_written(
            *old(w),
        ).len() > 0 ==> zip_written(*old(w)).last().1.len() <= zip_file_limit()) ==> r is Ok,
{
    let options = SimpleFileOptions::default().compression_method(CompressionMethod::Deflated);
    w.writer.start_file(name.as_str(), options).map_err(|e| e.to_string())
}

/// `Write::write_all` on the writer. With no data it returns at once and leaves the
/// writer as it was (std's `write_all` does not call `write`). Otherwise, on success,
/// the bytes are appended to the file started last (there is one: `ZipWriter::write`
/// fails when no file is being written). It fails when a file grows past `u32::MAX`
/// bytes without the large-file option; a clean writer with a file started does not
/// fail below that. What the writer holds after a failure is not stated.
#[verifier::external_body]
pub(crate) fn zip_write_all(w: &mut ZipBuffer, data: &Vec<u8>) -> (r: Result<(), String>)
    ensures
        data@.len() == 0 ==> r is Ok && zip_written(*final(w)) == zip_written(*old(w)) && zip_clean(
            *final(w),
        ) == zip_clean(*old(w)),
        r is Ok && data@.len() > 0 ==> {
            let before = zip_written(*old(w));
            &&& before.len() > 0
            &&& zip_written(*final(w)) == before.update(
                before.len() - 1,
                (before.last().0, before.last().1 + data@),
            )
        },
        r is Ok && zip_clean(*old(w)) ==> zip_clean(*final(w)),
        zip_clean(*old(w)) && zip_written(*old(w)).len() > 0 && zip_written(*old(w)).last().1.len()
            + data@.len() <= u32::MAX ==> r is Ok,
{
    w.writer.write_all(data.as_slice()).map_err(|e| e.to_string())
}

/// `ZipWriter::finish`, then the buffer taken out of its cursor: on success from a
/// clean writer, the archive of the files written. Finishing fails when the last file's
/// deflated size does not fit in 32 bits; on a clean writer whose last file is within
/// `zip_file_limit` it succeeds.
#[verifier::external_body]
pub(crate) fn zip_finish(w: ZipBuffer) -> (r: Result<Vec<u8>, String>)
    ensures
        zip_clean(w) ==> (r matches Ok(b) ==> b@ == zip_archive(zip_written(w))),
        zip_clean(w) && (zip_written(w).len() > 0 ==> zip_written(w).last().1.len()
            <= zip_file_limit()) ==> r is Ok,
{
    w.writer.finish().map(|c| c.into_inner()).map_err(|e| e.to_string())
}

} // verus!
