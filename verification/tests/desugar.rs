use jianpu::ast::parsed::PartColumn;
use jianpu::desugar::desugar_groups;

fn notes(name: &str) -> PartColumn {
    PartColumn::Notes { name: name.to_string() }
}
fn lyrics(name: &str) -> PartColumn {
    PartColumn::Lyrics { name: name.to_string() }
}
fn chord(name: &str) -> PartColumn {
    PartColumn::Chord { name: name.to_string() }
}

fn group(lines: &[&str]) -> Vec<(String, usize)> {
    lines.iter().enumerate().map(|(i, l)| (l.to_string(), i * 10)).collect()
}

#[test]
fn notes_ditto_copies_preceding_notes_line() {
    let groups = vec![group(&["1 2 3 4", "\""])];
    let parts = vec![notes("A"), notes("B")];
    let result = desugar_groups(groups, &parts).unwrap();
    assert_eq!(result[0][1].0, "1 2 3 4");
}

#[test]
fn lyrics_ditto_copies_preceding_lyrics_line() {
    let groups = vec![group(&["1 2 3 4", "hello world", "5 6 7 1", "\""])];
    let parts = vec![notes("A"), lyrics("A"), notes("B"), lyrics("B")];
    let result = desugar_groups(groups, &parts).unwrap();
    assert_eq!(result[0][3].0, "hello world");
}

#[test]
fn chord_ditto_copies_preceding_chord_line() {
    let groups = vec![group(&["1 - - -", "1 2 3 4", "\"", "5 6 7 1"])];
    let parts = vec![chord("main"), notes("A"), chord("main2"), notes("B")];
    let result = desugar_groups(groups, &parts).unwrap();
    assert_eq!(result[0][2].0, "1 - - -");
}

#[test]
fn notes_ditto_does_not_copy_lyrics_line() {
    let groups = vec![group(&["1 2 3 4", "hello world", "\""])];
    let parts = vec![notes("A"), lyrics("A"), notes("B")];
    let result = desugar_groups(groups, &parts).unwrap();
    assert_eq!(result[0][2].0, "1 2 3 4");
}

#[test]
fn chained_ditto_resolves_transitively() {
    let groups = vec![group(&["1 2 3 4", "\"", "\""])];
    let parts = vec![notes("A"), notes("B"), notes("C")];
    let result = desugar_groups(groups, &parts).unwrap();
    assert_eq!(result[0][1].0, "1 2 3 4");
    assert_eq!(result[0][2].0, "1 2 3 4");
}

#[test]
fn ditto_with_no_preceding_line_is_an_error() {
    let groups = vec![group(&["\""])];
    let parts = vec![notes("A")];
    let err = desugar_groups(groups, &parts).unwrap_err();
    assert!(err.message.contains("no preceding notes line"), "got: {}", err.message);
}

#[test]
fn ditto_with_no_preceding_line_of_same_type_is_an_error() {
    let groups = vec![group(&["1 2 3 4", "\""])];
    let parts = vec![notes("A"), lyrics("A")];
    let err = desugar_groups(groups, &parts).unwrap_err();
    assert!(err.message.contains("no preceding lyrics line"), "got: {}", err.message);
}

#[test]
fn directive_line_is_not_a_ditto_target() {
    let groups = vec![group(&["(time=4/4)", "\""])];
    let parts = vec![notes("A")];
    let err = desugar_groups(groups, &parts).unwrap_err();
    assert!(err.message.contains("no preceding notes line"), "got: {}", err.message);
}

#[test]
fn directive_line_is_not_a_ditto_source() {
    let groups = vec![group(&["(time=4/4)", "1 2 3 4", "\""])];
    let parts = vec![notes("A"), notes("B")];
    let result = desugar_groups(groups, &parts).unwrap();
    assert_eq!(result[0][0].0, "(time=4/4)");
    assert_eq!(result[0][2].0, "1 2 3 4");
}

#[test]
fn non_ditto_lines_are_passed_through_unchanged() {
    let groups = vec![group(&["1 2 3 4", "hello"])];
    let parts = vec![notes("A"), lyrics("A")];
    let result = desugar_groups(groups, &parts).unwrap();
    assert_eq!(result[0][0].0, "1 2 3 4");
    assert_eq!(result[0][1].0, "hello");
}

#[test]
fn multiple_groups_are_desugared_independently() {
    let groups = vec![group(&["1 2 3 4"]), group(&["\""])];
    let parts = vec![notes("A")];
    let err = desugar_groups(groups, &parts).unwrap_err();
    assert!(err.message.contains("no preceding notes line"), "got: {}", err.message);
}

#[test]
fn omitted_trailing_notes_line_is_padded_as_implicit_ditto() {
    let groups = vec![group(&["1 2 3 4"])];
    let parts = vec![notes("A"), notes("B")];
    let result = desugar_groups(groups, &parts).unwrap();
    assert_eq!(result[0][0].0, "1 2 3 4");
    assert_eq!(result[0][1].0, "1 2 3 4");
}

#[test]
fn omitted_trailing_lines_pad_as_ditto_when_precedent_exists() {
    let groups = vec![group(&["1 - - -", "1 2 3 4", "hello"])];
    let parts = vec![chord("main"), notes("A"), lyrics("A"), notes("B"), lyrics("B")];
    let result = desugar_groups(groups, &parts).unwrap();
    assert_eq!(result[0][3].0, "1 2 3 4");
    assert_eq!(result[0][4].0, "hello");
}

#[test]
fn omitted_trailing_lyrics_without_precedent_is_an_error() {
    let groups = vec![group(&["1 2 3 4"])];
    let parts = vec![notes("A"), lyrics("A")];
    let err = desugar_groups(groups, &parts).unwrap_err();
    assert!(err.message.contains("expected lyrics line"), "got: {}", err.message);
}

#[test]
fn ditto_can_copy_underscore_no_lyrics_marker() {
    let groups = vec![group(&["1 2 3 4", "_", "\""])];
    let parts = vec![notes("A"), lyrics("A"), lyrics("B")];
    let result = desugar_groups(groups, &parts).unwrap();
    assert_eq!(result[0][2].0, "_");
}

#[test]
fn ditto_error_points_at_the_ditto_line() {
    let groups = vec![group(&["1 2 3 4", "\""])];
    let parts = vec![notes("A"), lyrics("A")];
    let err = desugar_groups(groups, &parts).unwrap_err();
    assert_eq!((err.span.start, err.span.end), (10, 11));
    assert_eq!(err.message, "ditto '\"' has no preceding lyrics line in this measure group");
}

#[test]
fn too_many_lines_is_an_error_naming_both_counts() {
    let groups = vec![group(&["1 2 3 4", "5 6 7 1", "1 1 1 1"])];
    let parts = vec![notes("A"), notes("B")];
    let err = desugar_groups(groups, &parts).unwrap_err();
    assert_eq!(err.message, "expected at most 2 lines (one per parts column), got 3");
    assert_eq!((err.span.start, err.span.end), (20, 21));
}

#[test]
fn group_with_only_a_directive_is_an_error() {
    let groups = vec![group(&["(bpm=90)"])];
    let parts = vec![notes("A")];
    let err = desugar_groups(groups, &parts).unwrap_err();
    assert_eq!(err.message, "expected at least one data line in measure group");
    assert_eq!((err.span.start, err.span.end), (0, 1));
}

#[test]
fn omitted_notes_line_error_names_the_part_and_hint() {
    let groups = vec![group(&["1 - - -"])];
    let parts = vec![chord("main"), notes("Melody")];
    let err = desugar_groups(groups, &parts).unwrap_err();
    assert_eq!(err.message, "expected notes line for 'Melody'; write content or '\"' ditto");
}

#[test]
fn padded_ditto_keeps_the_last_data_line_offset() {
    let groups = vec![group(&["(bpm=90)", "1 2 3 4"])];
    let parts = vec![notes("A"), notes("B")];
    let result = desugar_groups(groups, &parts).unwrap();
    assert_eq!(result[0].len(), 3);
    assert_eq!(result[0][2], ("1 2 3 4".to_string(), 10));
}
