use vstd::prelude::*;

use crate::error::{Span, Spanned};

verus! {

/// The events of one part's score, in source order.
pub struct ParsedScore {
    pub events: Vec<Spanned<ScoreEvent>>,
}

/// The syllables of one part's lyrics, in source order.
pub struct ParsedLyrics {
    pub syllables: Vec<Syllable>,
}

/// One declaration of the `[parts]` section.
#[derive(Debug, Clone)]
pub struct PartDecl {
    pub abbreviation: String,
    pub display_name: String,
    pub kind: PartKind,
}

#[derive(Debug, Clone, Copy, PartialEq, Eq, Structural)]
pub enum PartKind {
    Chord,
    Notes,
    NotesWithLyrics,
}

/// What one line of a measure group holds.
#[derive(Debug, Clone, Copy, PartialEq, Eq, Structural)]
pub enum ScoreLineRole {
    Chord,
    Notes,
    Lyrics,
}

/// A line position of a measure group: which track it belongs to and what it holds.
#[derive(Debug, Clone, Copy, PartialEq, Eq, Structural)]
pub struct ScoreLineSlot {
    pub track_index: usize,
    pub role: ScoreLineRole,
}

/// The line roles a part of the given kind contributes to each measure group.
pub open spec fn roles_of_kind(kind: PartKind) -> Seq<ScoreLineRole> {
    match kind {
        PartKind::Chord => seq![ScoreLineRole::Chord],
        PartKind::Notes => seq![ScoreLineRole::Notes],
        PartKind::NotesWithLyrics => seq![ScoreLineRole::Notes, ScoreLineRole::Lyrics],
    }
}

impl PartDecl {
    pub fn score_line_roles(&self) -> (r: Vec<ScoreLineRole>)
        ensures
            r@ == roles_of_kind(self.kind),
    {
        match self.kind {
            PartKind::Chord => vec![ScoreLineRole::Chord],
            PartKind::Notes => vec![ScoreLineRole::Notes],
            PartKind::NotesWithLyrics => vec![ScoreLineRole::Notes, ScoreLineRole::Lyrics],
        }
    }
}

/// The slots contributed by the first `n` declarations, in order.
pub open spec fn slots_of(kinds: Seq<PartKind>, n: int) -> Seq<ScoreLineSlot>
    decreases n,
{
    if n <= 0 {
        seq![]
    } else {
        slots_of(kinds, n - 1) + roles_of_kind(kinds[n - 1]).map_values(
            |role: ScoreLineRole| ScoreLineSlot { track_index: (n - 1) as usize, role },
        )
    }
}

/// The kinds of a list of declarations.
pub open spec fn decl_kinds(decls: Seq<PartDecl>) -> Seq<PartKind> {
    decls.map_values(|d: PartDecl| d.kind)
}

/// Every line slot of a measure group: for each declaration in order, one slot per role.
pub fn flatten_score_line_slots(declarations: &[PartDecl]) -> (slots: Vec<ScoreLineSlot>)
    ensures
        slots@ == slots_of(decl_kinds(declarations@), declarations@.len() as int),
{
    let mut slots: Vec<ScoreLineSlot> = Vec::new();
    let mut track_index: usize = 0;
    while track_index < declarations.len()
        invariant
            track_index <= declarations@.len(),
            slots@ == slots_of(decl_kinds(declarations@), track_index as int),
        decreases declarations@.len() - track_index,
    {
        let roles = declarations[track_index].score_line_roles();
        let ghost before = slots@;
        let mut k: usize = 0;
        while k < roles.len()
            invariant
                k <= roles@.len(),
                track_index < declarations@.len(),
                roles@ == roles_of_kind(declarations@[track_index as int].kind),
                slots@ == before + roles@.take(k as int).map_values(
                    |role: ScoreLineRole| ScoreLineSlot { track_index, role },
                ),
            decreases roles@.len() - k,
        {
            slots.push(ScoreLineSlot { track_index, role: roles[k] });
            proof {
                assert(roles@.take(k + 1 as int) == roles@.take(k as int).push(roles@[k as int]));
            }
            k += 1;
        }
        proof {
            assert(roles@.take(k as int) == roles@);
            assert(decl_kinds(declarations@)[track_index as int] == declarations@[track_index as int].kind);
        }
        track_index += 1;
    }
    slots
}

/// A timed part track of the document.
pub enum ParsedTrack {
    Timed(ParsedTimedTrack),
}

pub struct ParsedTimedTrack {
    pub abbreviation: String,
    pub display_name: String,
    pub kind: PartKind,
    pub score: ParsedScore,
    pub lyrics: Option<ParsedLyrics>,
    /// Per-measure flag: every input line of this part in that measure was a `"` ditto.
    pub ditto_measures: Vec<bool>,
    /// Per-measure flag: this part's lyric line in that measure was a `"` ditto.
    pub lyrics_ditto_measures: Vec<bool>,
}

/// A parsed `.jianpu` document.
pub struct ParsedDocument {
    pub filename: String,
    pub metadata: ParsedMetadata,
    pub declarations: Vec<PartDecl>,
    pub tracks: Vec<ParsedTrack>,
    /// The directive events (`bpm=`, `time=`, `key=`, `label=`) of each measure group.
    pub directive_events_per_measure: Vec<Vec<Spanned<ScoreEvent>>>,
}

#[derive(Debug, Clone, Copy, PartialEq, Eq, Structural)]
pub enum TriadQuality {
    Major,
    Minor,
    Augmented,
    Diminished,
}

#[derive(Debug, Clone, Copy, PartialEq, Eq, Structural)]
pub enum Extension {
    DominantSeventh,
    MajorSeventh,
}

#[derive(Debug, Clone, Copy, PartialEq, Eq, Structural)]
pub struct BassDegree {
    pub degree: JianPuPitch,
    pub accidental: Accidental,
}

#[derive(Debug, Clone, Copy, PartialEq, Eq)]
pub struct ParsedChordSymbol {
    pub degree: JianPuPitch,
    pub accidental: Accidental,
    pub triad: TriadQuality,
    pub extension: Option<Extension>,
    pub bass: Option<BassDegree>,
}

/// The `[metadata]` section of a document.
#[derive(Debug, Clone)]
pub struct ParsedMetadata {
    pub title: String,
    pub subtitle: Option<String>,
    pub author: String,
    pub row_height: Option<u32>,
    pub max_columns: Option<u32>,
    pub label_width: Option<u32>,
    pub note_number_width: Option<u32>,
}

#[derive(Debug, Clone)]
pub enum ScoreEvent {
    Note(ParsedNote),
    Chord(ParsedChordNote),
    Rest(ParsedRest),
    BpmChange(u32),
    KeyChange(KeyChange),
    TimeSignatureChange { numerator: u8, denominator: u8 },
    /// Extends the previous note by one full beat (4 quarter-beats).
    Extension,
    /// Marks the previous note as tied to the next.
    TieMarker,
    LabelChange(String),
}

/// The bracket of a tuplet that an event falls in: `num` notes take the time of `den`.
#[derive(Debug, Clone, Copy, PartialEq, Eq)]
pub struct TupletInfo {
    pub num: u32,
    pub den: u32,
    /// Identifies the bracket, so that adjacent brackets of one ratio stay apart.
    pub id: u32,
}

#[derive(Debug, Clone, Copy, PartialEq, Eq)]
pub struct ParsedNote {
    pub pitch: JianPuPitch,
    /// Octave offset from the default octave: 0 is the default, positive is up.
    pub octave: i8,
    /// Duration in quarter-beats; for dotted notes this includes the added half-value.
    pub duration: u32,
    /// Whether this note is tied or slurred to the next note.
    pub tie: bool,
    /// Source span of the `~` suffix when this note is tied to the next note.
    pub tie_to_next_span: Option<Span>,
    /// Number of nested `(…)` groups this note belongs to.
    pub group_membership: u8,
    /// Number of those groups that continue past this note.
    pub group_continuation: u8,
    pub dotted: bool,
    /// When the slur group closes on an extension within this note, the offset in
    /// quarter-beats from the note's start at which the slur ends.
    pub slur_group_close_at_duration: Option<u32>,
}

#[derive(Debug, Clone, Copy, PartialEq, Eq)]
pub struct ParsedChordNote {
    pub degree: JianPuPitch,
    pub accidental: Accidental,
    pub triad: TriadQuality,
    pub extension: Option<Extension>,
    pub bass: Option<BassDegree>,
    pub duration: u32,
    pub tie: bool,
    pub tie_to_next_span: Option<Span>,
    pub group_membership: u8,
    pub group_continuation: u8,
    pub dotted: bool,
    pub slur_group_close_at_duration: Option<u32>,
}

#[derive(Debug, Clone, Copy, PartialEq, Eq)]
pub struct ParsedPercussionHit {
    /// Duration in quarter-beats.
    pub duration: u32,
    pub slur: bool,
    /// Source span of the `~` suffix when this hit is tied to the next hit.
    pub tie_to_next_span: Option<Span>,
    pub group_membership: u8,
    pub group_continuation: u8,
    pub dotted: bool,
    pub double_dotted: bool,
    pub slur_group_close_at_duration: Option<u32>,
    pub tuplet: Option<TupletInfo>,
}

impl ParsedPercussionHit {
    pub fn tie_to_next(&self) -> (b: bool)
        ensures
            b == self.tie_to_next_span.is_some(),
    {
        self.tie_to_next_span.is_some()
    }
}

impl ParsedNote {
    pub fn tie_to_next(&self) -> (b: bool)
        ensures
            b == self.tie_to_next_span.is_some(),
    {
        self.tie_to_next_span.is_some()
    }
}

impl ParsedChordNote {
    pub fn tie_to_next(&self) -> (b: bool)
        ensures
            b == self.tie_to_next_span.is_some(),
    {
        self.tie_to_next_span.is_some()
    }
}

#[derive(Debug, Clone, Copy, PartialEq, Eq)]
pub struct ParsedRest {
    /// Duration in quarter-beats; for dotted rests this includes the added half-value.
    pub duration: u32,
    pub dotted: bool,
    pub group_membership: u8,
    pub group_continuation: u8,
}

#[derive(Debug, Clone, Copy, PartialEq, Eq, Structural)]
pub enum JianPuPitch {
    One,
    Two,
    Three,
    Four,
    Five,
    Six,
    Seven,
}

#[derive(Debug, Clone, Copy, PartialEq, Eq, Structural)]
pub struct KeyChange {
    pub note: Note,
}

#[derive(Debug, Clone, Copy, PartialEq, Eq, Structural)]
pub struct Note {
    pub name: NoteName,
    pub octave: u8,
    pub accidental: Accidental,
}

#[derive(Debug, Clone, Copy, PartialEq, Eq, Structural)]
pub enum NoteName {
    A,
    B,
    C,
    D,
    E,
    F,
    G,
}

#[derive(Debug, Clone, Copy, PartialEq, Eq, Structural)]
pub enum Accidental {
    Flat,
    Sharp,
    Natural,
}

#[derive(Debug, Clone)]
pub struct Syllable {
    pub text: String,
    /// True if `-` follows this syllable in the lyrics section.
    pub held: bool,
}

/// The column a data line of a measure group belongs to, named by its part.
#[derive(Debug, Clone)]
pub enum PartColumn {
    Notes { name: String },
    Lyrics { name: String },
    Chord { name: String },
}

} // verus!
