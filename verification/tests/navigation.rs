use jianpu::midi::navigation::range::{earliest_playback_position, playback_range, sequence_entry_positions};

#[test]
fn earliest_position_at_or_after_the_minimum() {
    let origins = [0usize, 1, 2, 1, 2, 3];
    assert_eq!(earliest_playback_position(&origins, 1, 0), Some(1));
    assert_eq!(earliest_playback_position(&origins, 1, 2), Some(3));
    assert_eq!(earliest_playback_position(&origins, 0, 1), None);
    assert_eq!(earliest_playback_position(&origins, 9, 0), None);
    assert_eq!(earliest_playback_position(&origins, 3, 10), None);
}

#[test]
fn playback_range_follows_first_or_last_occurrence() {
    // A repeat: written measures 0 1 2 1 2 3.
    let origins = [0usize, 1, 2, 1, 2, 3];
    assert_eq!(playback_range(&origins, 1, 2, false), Some((1, 2)));
    assert_eq!(playback_range(&origins, 1, 2, true), Some((1, 4)));
    assert_eq!(playback_range(&origins, 2, 1, false), Some((2, 3)));
    assert_eq!(playback_range(&origins, 3, 1, false), None);
    assert_eq!(playback_range(&origins, 7, 1, true), None);
}

#[test]
fn sequence_entries_map_to_summed_positions() {
    // Entries A = 0..=1, B = 2..=4, B again: positions 0..=1, 2..=4, 5..=7.
    let spans = [(0usize, 1usize), (2, 4), (2, 4)];
    assert_eq!(sequence_entry_positions(&spans, 0, 0), (0, 1));
    assert_eq!(sequence_entry_positions(&spans, 1, 2), (2, 7));
    assert_eq!(sequence_entry_positions(&spans, 2, 2), (5, 7));
}
