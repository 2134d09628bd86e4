use jianpu::ast::grouped::{Metadata, MultiPartMeasure, Notes, PartRow, PartSlice, Score};
use jianpu::ast::parsed::PartKind;
use jianpu::error::Span;
use jianpu::{effective_tracks, part_display_name_map, split_track_label, PartInfo};

fn score(names: &[&str]) -> Score {
    let parts = names
        .iter()
        .map(|n| {
            PartRow::Timed(PartSlice {
                name: Some(n.to_string()),
                kind: PartKind::Notes,
                notes: Notes { events: vec![] },
                lyrics: None,
            })
        })
        .collect();
    Score {
        metadata: Metadata {
            title: "t".to_string(),
            subtitle: None,
            author: "a".to_string(),
            row_height: 24,
            max_columns: 28,
            label_width: 40,
            note_number_width: 8,
        },
        measures: vec![MultiPartMeasure {
            time_signature: None,
            bpm: None,
            key: None,
            label: None,
            parts,
            source_span: Span::new(0, 0),
        }],
    }
}

#[test]
fn effective_tracks_default_to_every_part() {
    let s = score(&["S", "A", "S"]);
    assert_eq!(effective_tracks(&[], &s), vec!["S".to_string(), "A".to_string()]);
    assert_eq!(effective_tracks(&["A".to_string()], &s), vec!["A".to_string()]);
}

#[test]
fn display_names_label_split_tracks() {
    let parts = vec![
        PartInfo { abbreviation: "S".to_string(), display_name: "Soprano".to_string(), has_lyrics: true },
        PartInfo { abbreviation: "A".to_string(), display_name: "Alto".to_string(), has_lyrics: false },
    ];
    let map = part_display_name_map(&parts);
    assert_eq!(map, vec![("S".to_string(), "Soprano".to_string()), ("A".to_string(), "Alto".to_string())]);
    assert_eq!(split_track_label(&map, "A"), "Alto");
    assert_eq!(split_track_label(&map, "T"), "T");
}
