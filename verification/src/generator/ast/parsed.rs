use vstd::prelude::*;

use crate::error::Spanned;

verus! {

/// A single-part score file as parsed from its sections.
pub struct ParsedDocument {
    pub filename: String,
    pub metadata: ParsedMetadata,
    pub score_events: Vec<Spanned<ScoreEvent>>,
    pub lyrics: Vec<Syllable>,
}

/// The fields of the `[metadata]` section.
pub struct ParsedMetadata {
    pub title: String,
    pub author: String,
    pub cell_size: Option<u32>,
}

/// One event of the `[score]` section.
#[derive(Debug, Clone, Copy, PartialEq, Eq, Structural)]
pub enum ScoreEvent {
    Note(ParsedNote),
    Rest(ParsedRest),
    BpmChange(u32),
    KeyChange(KeyChange),
    TimeSignatureChange { numerator: u8, denominator: u8 },
    /// The `-` token: extends the previous note/rest by one full beat (4 quarter-beats).
    Extension,
}

#[derive(Debug, Clone, Copy, PartialEq, Eq, Structural)]
pub struct ParsedNote {
    pub pitch: JianPuPitch,
    /// Octave offset from the default octave. 0 = default, positive = up, negative = down.
    pub octave: i8,
    /// Duration in quarter-beats: 1 (=), 2 (_) or 4 (no prefix).
    pub duration: u32,
    /// Whether `~` follows this note (tie or slur, determined later by pitch comparison).
    pub tie: bool,
}

#[derive(Debug, Clone, Copy, PartialEq, Eq, Structural)]
pub struct ParsedRest {
    /// Duration in quarter-beats: 1, 2 or 4.
    pub duration: u32,
}

#[derive(Debug, Clone, Copy, PartialEq, Eq, Structural)]
pub enum JianPuPitch {
    One,
    Two,
    Three,
    Four,
    Five,
    Six,
    Seven,
}

#[derive(Debug, Clone, Copy, PartialEq, Eq, Structural)]
pub struct KeyChange {
    pub note: Note,
}

#[derive(Debug, Clone, Copy, PartialEq, Eq, Structural)]
pub struct Note {
    pub name: NoteName,
    pub octave: u8,
    pub accidental: Accidental,
}

#[derive(Debug, Clone, Copy, PartialEq, Eq, Structural)]
pub enum NoteName {
    A,
    B,
    C,
    D,
    E,
    F,
    G,
}

#[derive(Debug, Clone, Copy, PartialEq, Eq, Structural)]
pub enum Accidental {
    Flat,
    Sharp,
    Natural,
}

/// One syllable of the `[lyrics]` section.
pub struct Syllable {
    pub text: String,
    /// True if `-` follows this syllable in the lyrics section.
    pub held: bool,
}

} // verus!
