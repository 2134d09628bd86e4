use vstd::prelude::*;

use super::parsed::{JianPuPitch, KeyChange, Syllable};

verus! {

/// A score grouped into measures.
pub struct Score {
    pub metadata: Metadata,
    pub measures: Vec<Measure>,
    pub lyrics: Vec<Syllable>,
}

/// The metadata of a grouped score, with its cell size settled.
pub struct Metadata {
    pub title: String,
    pub author: String,
    pub cell_size: u32,
}

#[derive(Debug, Clone, Copy, PartialEq, Eq, Structural)]
pub struct TimeSignature {
    pub numerator: u8,
    pub denominator: u8,
}

/// One measure: the time signature, tempo and key in force, and its notes and rests.
pub struct Measure {
    pub time_signature: TimeSignature,
    pub bpm: u32,
    pub key: KeyChange,
    pub notes: Vec<NoteEvent>,
}

#[derive(Debug, Clone, Copy, PartialEq, Eq, Structural)]
pub enum NoteEvent {
    Note(GroupedNote),
    Rest(GroupedRest),
}

#[derive(Debug, Clone, Copy, PartialEq, Eq, Structural)]
pub struct GroupedNote {
    pub pitch: JianPuPitch,
    pub octave: i8,
    /// Duration in quarter-beats, extensions included.
    pub duration: u32,
    pub tie: bool,
}

#[derive(Debug, Clone, Copy, PartialEq, Eq, Structural)]
pub struct GroupedRest {
    /// Duration in quarter-beats, extensions included.
    pub duration: u32,
}

/// A measure as a plain value.
pub struct MeasureModel {
    pub time_signature: TimeSignature,
    pub bpm: u32,
    pub key: KeyChange,
    pub notes: Seq<NoteEvent>,
}

impl Measure {
    pub open spec fn model(&self) -> MeasureModel {
        MeasureModel {
            time_signature: self.time_signature,
            bpm: self.bpm,
            key: self.key,
            notes: self.notes@,
        }
    }
}

} // verus!
