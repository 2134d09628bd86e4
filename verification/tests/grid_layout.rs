use jianpu::ast::parsed::JianPuPitch;
use jianpu::compiler::types::{ColumnElement, ElementContent, MeasureBlock, MeasureRow, RowId};
use jianpu::grid_layout::layout::{
    block_column_width, has_lyrics, is_chord_only_row, is_lyric_row, pack_into_systems,
};
use jianpu::render_config::RenderConfig;

fn note_row(id: &str) -> MeasureRow {
    MeasureRow {
        id: RowId(id.to_string()),
        label: id.to_string(),
        elements: vec![ColumnElement {
            column: 0,
            content: ElementContent::NoteHead { pitch: JianPuPitch::One, octave: 0, dotted: false },
        }],
    }
}

fn chord_row(id: &str) -> MeasureRow {
    MeasureRow {
        id: RowId(id.to_string()),
        label: id.to_string(),
        elements: vec![ColumnElement { column: 0, content: ElementContent::ChordSymbol("Am".to_string()) }],
    }
}

fn lyric_row(id: &str) -> MeasureRow {
    MeasureRow {
        id: RowId(id.to_string()),
        label: id.to_string(),
        elements: vec![ColumnElement { column: 0, content: ElementContent::Lyric("la".to_string()) }],
    }
}

fn make_block(row_id: &str, bar_col: u32) -> MeasureBlock {
    MeasureBlock {
        rows: vec![MeasureRow {
            id: RowId(row_id.to_string()),
            label: row_id.to_string(),
            elements: vec![
                ColumnElement {
                    column: 0,
                    content: ElementContent::NoteHead { pitch: JianPuPitch::One, octave: 0, dotted: false },
                },
                ColumnElement { column: bar_col, content: ElementContent::BarLine },
            ],
        }],
        decorations: vec![],
    }
}

fn cfg() -> RenderConfig {
    RenderConfig { row_height: 30, label_width: 0, note_number_width: 12, max_columns: 8 }
}

#[test]
fn is_lyric_row_detects_lyric() {
    assert!(is_lyric_row(&lyric_row("L")));
    assert!(!is_lyric_row(&note_row("S")));
}

#[test]
fn is_chord_only_row_detects_chord() {
    assert!(is_chord_only_row(&chord_row("C")));
    assert!(!is_chord_only_row(&note_row("S")));
    assert!(!is_chord_only_row(&lyric_row("L")));
}

#[test]
fn single_block_is_one_system() {
    let blocks = vec![make_block("S", 3)]; // 4 columns
    let systems = pack_into_systems(&blocks, &cfg());
    assert_eq!(systems.len(), 1);
    assert_eq!(systems[0].len(), 1);
}

#[test]
fn blocks_exceeding_max_columns_split_into_two_systems() {
    // Each block is 4 cols wide; max=8 → fits 2 per system
    let blocks = vec![make_block("S", 3), make_block("S", 3), make_block("S", 3)];
    let systems = pack_into_systems(&blocks, &cfg());
    assert_eq!(systems.len(), 2);
    assert_eq!(systems[0].len(), 2);
    assert_eq!(systems[1].len(), 1);
}

#[test]
fn different_row_ids_start_new_system() {
    let blocks = vec![make_block("A", 3), make_block("B", 3)];
    let systems = pack_into_systems(&blocks, &cfg());
    assert_eq!(systems.len(), 2);
}

#[test]
fn block_width_is_one_past_the_first_bar_line() {
    assert_eq!(block_column_width(&make_block("S", 7)), 8);
    let empty = MeasureBlock { rows: vec![], decorations: vec![] };
    assert_eq!(block_column_width(&empty), 1);
    let no_bar = MeasureBlock { rows: vec![note_row("S")], decorations: vec![] };
    assert_eq!(block_column_width(&no_bar), 1);
}

#[test]
fn a_wide_block_takes_a_system_of_its_own_and_order_is_kept() {
    let blocks = vec![make_block("S", 1), make_block("S", 11), make_block("S", 1), make_block("S", 1)];
    let systems = pack_into_systems(&blocks, &cfg());
    let widths: Vec<Vec<u32>> = systems.iter().map(|s| s.iter().map(block_column_width).collect()).collect();
    assert_eq!(widths, vec![vec![2], vec![12], vec![2, 2]]);
    assert!(pack_into_systems(&[], &cfg()).is_empty());
}

#[test]
fn mixed_rows_have_lyrics_but_are_not_lyric_rows() {
    let mut row = note_row("S");
    row.elements.push(ColumnElement { column: 1, content: ElementContent::Lyric("a".to_string()) });
    assert!(has_lyrics(&row));
    assert!(!is_lyric_row(&row));
    assert!(!is_chord_only_row(&row));
}
