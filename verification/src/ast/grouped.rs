use vstd::prelude::*;

use crate::ast::parsed::{
    Accidental, BassDegree, Extension, JianPuPitch, KeyChange, PartKind, Syllable, TriadQuality,
};
use crate::error::Span;

verus! {

/// Score-wide settings, with defaults filled in.
#[derive(Clone)]
pub struct Metadata {
    pub title: String,
    pub subtitle: Option<String>,
    pub author: String,
    /// Row height in points. Default: 24.
    pub row_height: u32,
    /// Maximum logical columns per row before wrapping. Default: 28.
    pub max_columns: u32,
    /// Left margin reserved for part labels in points. Default: 40.
    pub label_width: u32,
    /// Estimated rendered width of one note digit in points. Default: 8.
    pub note_number_width: u32,
}

#[derive(Clone)]
pub struct Notes {
    pub events: Vec<NoteEvent>,
}

#[derive(Clone)]
pub struct Lyrics {
    pub syllables: Vec<Syllable>,
}

/// One part's content in one measure.
#[derive(Clone)]
pub struct PartSlice {
    pub name: Option<String>,
    pub kind: PartKind,
    pub notes: Notes,
    pub lyrics: Option<Lyrics>,
}

/// One measure with the rows of every part.
#[derive(Clone)]
pub struct MultiPartMeasure {
    pub time_signature: Option<TimeSignature>,
    pub bpm: Option<u32>,
    pub key: Option<KeyChange>,
    pub label: Option<String>,
    pub parts: Vec<PartRow>,
    /// Byte range of this measure's note events in the source.
    pub source_span: Span,
}

#[derive(Clone)]
pub enum PartRow {
    Timed(PartSlice),
    /// Every input line of this part was a `"` ditto in this measure: the content is
    /// kept for audio, but the row is not rendered.
    Ditto(PartSlice),
}

/// The slice of a row, rendered or not.
pub open spec fn row_slice(row: PartRow) -> PartSlice {
    match row {
        PartRow::Timed(s) => s,
        PartRow::Ditto(s) => s,
    }
}

impl PartRow {
    pub fn name(&self) -> (r: Option<&String>)
        ensures
            r == match row_slice(*self).name {
                Some(n) => Some(&n),
                None => None::<&String>,
            },
    {
        self.slice().name.as_ref()
    }

    /// The resolved content, whether rendered or not.
    pub fn slice(&self) -> (r: &PartSlice)
        ensures
            *r == row_slice(*self),
    {
        match self {
            PartRow::Timed(s) => s,
            PartRow::Ditto(s) => s,
        }
    }

    /// Mutable access to the resolved content; the variant is kept.
    pub fn slice_mut(&mut self) -> (r: &mut PartSlice)
        ensures
            *r == row_slice(*old(self)),
            match *old(self) {
                PartRow::Timed(_) => *final(self) == PartRow::Timed(*final(r)),
                PartRow::Ditto(_) => *final(self) == PartRow::Ditto(*final(r)),
            },
    {
        match self {
            PartRow::Timed(s) => s,
            PartRow::Ditto(s) => s,
        }
    }

    /// Content to render; `None` for ditto rows.
    pub fn rendered_slice(&self) -> (r: Option<&PartSlice>)
        ensures
            r == match *self {
                PartRow::Timed(s) => Some(&s),
                PartRow::Ditto(_) => None::<&PartSlice>,
            },
    {
        match self {
            PartRow::Timed(s) => Some(s),
            PartRow::Ditto(_) => None,
        }
    }

    pub fn is_ditto(&self) -> (b: bool)
        ensures
            b == (*self is Ditto),
    {
        match self {
            PartRow::Timed(_) => false,
            PartRow::Ditto(_) => true,
        }
    }
}

/// A part after grouping, before parts are combined into measures.
pub enum GroupedTrack {
    Timed(GroupedPart),
}

impl GroupedTrack {
    pub fn measure_count(&self) -> (n: usize)
        ensures
            n == match self {
                GroupedTrack::Timed(p) => p.measures@.len(),
            },
    {
        match self {
            GroupedTrack::Timed(part) => part.measures.len(),
        }
    }

    pub fn track_name(&self) -> (r: &Option<String>)
        ensures
            *r == match self {
                GroupedTrack::Timed(p) => p.name,
            },
    {
        match self {
            GroupedTrack::Timed(part) => &part.name,
        }
    }
}

#[derive(Clone)]
pub struct Score {
    pub metadata: Metadata,
    pub measures: Vec<MultiPartMeasure>,
}

/// The directives in effect for one measure; `None` where nothing changed.
pub struct MeasureDirectives {
    pub time_signature: Option<TimeSignature>,
    pub bpm: Option<u32>,
    pub key: Option<KeyChange>,
    pub label: Option<String>,
}

pub struct GroupedScore {
    pub measure_directives: Vec<MeasureDirectives>,
    pub parts: Vec<GroupedTrack>,
}

pub struct GroupedMeasure {
    pub notes: Notes,
    pub source_span: Span,
}

pub struct GroupedPart {
    pub name: Option<String>,
    pub kind: PartKind,
    pub measures: Vec<GroupedMeasure>,
    /// Flat lyrics list; `None` when no lyrics were given.
    pub lyrics: Option<Vec<Syllable>>,
    /// Per-measure flag: every input line of this part in that measure was a ditto.
    pub ditto_measures: Vec<bool>,
    /// Per-measure flag: this part's lyric line in that measure was a ditto.
    pub lyrics_ditto_measures: Vec<bool>,
}

#[derive(Debug, Clone, Copy, PartialEq, Eq, Structural)]
pub struct TimeSignature {
    pub numerator: u8,
    pub denominator: u8,
}

#[derive(Clone, Copy)]
pub enum NoteEvent {
    Note(GroupedNote),
    Rest(GroupedRest),
    Chord(GroupedChordNote),
}

#[derive(Clone, Copy)]
pub struct GroupedChordNote {
    pub degree: JianPuPitch,
    pub accidental: Accidental,
    pub triad: TriadQuality,
    pub extension: Option<Extension>,
    pub bass: Option<BassDegree>,
    pub duration: u32,
    pub tie: bool,
    pub group_membership: u8,
    pub group_continuation: u8,
    pub dotted: bool,
    pub slur_group_close_at_duration: Option<u32>,
}

#[derive(Clone, Copy)]
pub struct GroupedNote {
    pub pitch: JianPuPitch,
    pub octave: i8,
    /// Duration in quarter-beats, including beats added by `-` extensions.
    pub duration: u32,
    /// True if this note is tied or slurred to the next note.
    pub tie: bool,
    pub group_membership: u8,
    pub group_continuation: u8,
    pub dotted: bool,
    pub slur_group_close_at_duration: Option<u32>,
}

#[derive(Clone, Copy)]
pub struct GroupedRest {
    /// Duration in quarter-beats, including beats added by `-` extensions.
    pub duration: u32,
    pub dotted: bool,
    pub group_membership: u8,
    pub group_continuation: u8,
}

/// The digit `1`–`7` of a scale degree.
pub open spec fn degree_char(p: JianPuPitch) -> char {
    match p {
        JianPuPitch::One => '1',
        JianPuPitch::Two => '2',
        JianPuPitch::Three => '3',
        JianPuPitch::Four => '4',
        JianPuPitch::Five => '5',
        JianPuPitch::Six => '6',
        JianPuPitch::Seven => '7',
    }
}

/// The sign of an accidental: `♯`, `♭`, or nothing.
pub open spec fn accidental_text(a: Accidental) -> Seq<char> {
    match a {
        Accidental::Sharp => seq!['♯'],
        Accidental::Flat => seq!['♭'],
        Accidental::Natural => seq![],
    }
}

pub open spec fn triad_text(t: TriadQuality) -> Seq<char> {
    match t {
        TriadQuality::Major => seq![],
        TriadQuality::Minor => seq!['m'],
        TriadQuality::Diminished => seq!['°'],
        TriadQuality::Augmented => seq!['⁺'],
    }
}

pub open spec fn extension_text(e: Option<Extension>) -> Seq<char> {
    match e {
        Some(Extension::DominantSeventh) => seq!['⁷'],
        Some(Extension::MajorSeventh) => seq!['△', '⁷'],
        None => seq![],
    }
}

/// The chord symbol text: degree, accidental, triad, extension, then `/` and the bass.
pub open spec fn chord_symbol_text(c: GroupedChordNote) -> Seq<char> {
    seq![degree_char(c.degree)] + accidental_text(c.accidental) + triad_text(c.triad)
        + extension_text(c.extension) + bass_text(c.bass)
}

pub fn degree_to_char(p: JianPuPitch) -> (c: char)
    ensures
        c == degree_char(p),
{
    match p {
        JianPuPitch::One => '1',
        JianPuPitch::Two => '2',
        JianPuPitch::Three => '3',
        JianPuPitch::Four => '4',
        JianPuPitch::Five => '5',
        JianPuPitch::Six => '6',
        JianPuPitch::Seven => '7',
    }
}

fn push_accidental(v: &mut Vec<char>, a: Accidental)
    ensures
        final(v)@ == old(v)@ + accidental_text(a),
{
    match a {
        Accidental::Sharp => v.push('♯'),
        Accidental::Flat => v.push('♭'),
        Accidental::Natural => {},
    }
    proof {
        assert(final(v)@ =~= old(v)@ + accidental_text(a));
    }
}

/// Law: a chord symbol names the chord's quality right after its degree and accidental:
/// `m` for a minor triad, `°` for a diminished one, `⁺` for an augmented one, and for a
/// major triad none of these (the symbol ends there, or goes on with an extension or a
/// bass).
pub proof fn chord_symbol_names_its_triad(c: GroupedChordNote)
    ensures
        ({
            let s = chord_symbol_text(c);
            let a = if c.accidental == Accidental::Natural {
                0int
            } else {
                1int
            };
            &&& s.len() >= 1 + a
            &&& c.triad == TriadQuality::Minor ==> s.len() > 1 + a && s[1 + a] == 'm'
            &&& c.triad == TriadQuality::Diminished ==> s.len() > 1 + a && s[1 + a] == '°'
            &&& c.triad == TriadQuality::Augmented ==> s.len() > 1 + a && s[1 + a] == '⁺'
            &&& c.triad == TriadQuality::Major ==> s.len() == 1 + a || (s[1 + a] != 'm' && s[1 + a]
                != '°' && s[1 + a] != '⁺')
        }),
{
    let head = seq![degree_char(c.degree)] + accidental_text(c.accidental);
    let rest = triad_text(c.triad) + extension_text(c.extension) + bass_text(c.bass);
    let s = chord_symbol_text(c);
    assert(s =~= head + rest);
    let a = if c.accidental == Accidental::Natural {
        0int
    } else {
        1int
    };
    assert(head.len() == 1 + a);
    if rest.len() > 0 {
        assert(s[1 + a] == rest[0]);
        if c.triad == TriadQuality::Major {
            let tail = extension_text(c.extension) + bass_text(c.bass);
            assert(rest =~= tail);
            if c.extension is Some {
                assert(rest[0] == extension_text(c.extension)[0]);
            } else {
                assert(tail =~= bass_text(c.bass));
                assert(rest[0] == '/');
            }
        } else {
            assert(rest[0] == triad_text(c.triad)[0]);
        }
    }
}

/// The digit of a scale degree.
proof fn lemma_degree_char(p: JianPuPitch)
    ensures
        degree_char(p) == match p {
            JianPuPitch::One => '1',
            JianPuPitch::Two => '2',
            JianPuPitch::Three => '3',
            JianPuPitch::Four => '4',
            JianPuPitch::Five => '5',
            JianPuPitch::Six => '6',
            JianPuPitch::Seven => '7',
        },
{
}

/// Law: a chord symbol is laid out as the degree's digit, `♯` or `♭` for a sharp or flat
/// degree, the quality's mark (`m`, `°`, `⁺`, none for major), `⁷` for a dominant seventh
/// or `△⁷` for a major seventh, then `/`, the bass degree's digit and its sign; nothing
/// else follows.
pub proof fn chord_symbol_layout(c: GroupedChordNote)
    ensures
        ({
            let s = chord_symbol_text(c);
            let a = if c.accidental == Accidental::Natural {
                0int
            } else {
                1int
            };
            let t = if c.triad == TriadQuality::Major {
                a + 1
            } else {
                a + 2
            };
            let e = match c.extension {
                Some(Extension::DominantSeventh) => t + 1,
                Some(Extension::MajorSeventh) => t + 2,
                None => t,
            };
            &&& s.len() >= e
            &&& s[0] == match c.degree {
                JianPuPitch::One => '1',
                JianPuPitch::Two => '2',
                JianPuPitch::Three => '3',
                JianPuPitch::Four => '4',
                JianPuPitch::Five => '5',
                JianPuPitch::Six => '6',
                JianPuPitch::Seven => '7',
            }
            &&& c.accidental == Accidental::Sharp ==> s[1] == '♯'
            &&& c.accidental == Accidental::Flat ==> s[1] == '♭'
            &&& c.accidental == Accidental::Natural ==> s.len() == 1 || (s[1] != '♯' && s[1] != '♭')
            &&& c.triad == TriadQuality::Minor ==> s[a + 1] == 'm'
            &&& c.triad == TriadQuality::Diminished ==> s[a + 1] == '°'
            &&& c.triad == TriadQuality::Augmented ==> s[a + 1] == '⁺'
            &&& c.extension == Some(Extension::DominantSeventh) ==> s[t] == '⁷'
            &&& c.extension == Some(Extension::MajorSeventh) ==> s[t] == '△' && s[t + 1] == '⁷'
            &&& match c.bass {
                Some(b) => {
                    &&& s.len() == e + 2 + (if b.accidental == Accidental::Natural {
                        0int
                    } else {
                        1int
                    })
                    &&& s[e] == '/'
                    &&& s[e + 1] == match b.degree {
                        JianPuPitch::One => '1',
                        JianPuPitch::Two => '2',
                        JianPuPitch::Three => '3',
                        JianPuPitch::Four => '4',
                        JianPuPitch::Five => '5',
                        JianPuPitch::Six => '6',
                        JianPuPitch::Seven => '7',
                    }
                    &&& b.accidental == Accidental::Sharp ==> s[e + 2] == '♯'
                    &&& b.accidental == Accidental::Flat ==> s[e + 2] == '♭'
                },
                None => s.len() == e,
            }
        }),
{
    lemma_degree_char(c.degree);
    let p0 = seq![degree_char(c.degree)];
    let p1 = accidental_text(c.accidental);
    let p2 = triad_text(c.triad);
    let p3 = extension_text(c.extension);
    let p4 = bass_text(c.bass);
    let s = chord_symbol_text(c);
    assert(s =~= p0 + p1 + p2 + p3 + p4);
    let a = p1.len() as int;
    let t = a + 1 + p2.len();
    let e = t + p3.len();
    assert forall|i: int| 0 <= i < a implies s[1 + i] == p1[i] by {}
    assert forall|i: int| 0 <= i < p2.len() implies s[a + 1 + i] == p2[i] by {}
    assert forall|i: int| 0 <= i < p3.len() implies s[t + i] == p3[i] by {}
    assert forall|i: int| 0 <= i < p4.len() implies s[e + i] == p4[i] by {}
    if let Some(b) = c.bass {
        lemma_degree_char(b.degree);
        assert(p4 =~= seq!['/', degree_char(b.degree)] + accidental_text(b.accidental));
        if b.accidental != Accidental::Natural {
            assert(p4[2] == accidental_text(b.accidental)[0]);
        }
    }
    if a == 0 && s.len() > 1 {
        if p2.len() > 0 {
            assert(s[1] == p2[0]);
        } else if p3.len() > 0 {
            assert(s[1] == p3[0]);
        } else {
            assert(s[1] == p4[0]);
        }
    }
}

/// Law: a chord symbol names the chord: two chords with the same symbol have the same
/// degree, accidental, triad quality, extension and bass.
pub proof fn chord_symbols_are_unambiguous(c1: GroupedChordNote, c2: GroupedChordNote)
    requires
        chord_symbol_text(c1) == chord_symbol_text(c2),
    ensures
        c1.degree == c2.degree,
        c1.accidental == c2.accidental,
        c1.triad == c2.triad,
        c1.extension == c2.extension,
        c1.bass == c2.bass,
{
    let s = chord_symbol_text(c1);
    chord_symbol_layout(c1);
    chord_symbol_layout(c2);
    chord_symbol_names_its_triad(c1);
    chord_symbol_names_its_triad(c2);
    assert(c1.degree == c2.degree);
    assert(c1.accidental == c2.accidental);
    let a = if c1.accidental == Accidental::Natural {
        0int
    } else {
        1int
    };
    assert(c1.triad == c2.triad);
    let t = if c1.triad == TriadQuality::Major {
        a + 1
    } else {
        a + 2
    };
    assert(c1.extension == c2.extension) by {
        if c1.extension != c2.extension {
            if c1.extension is None || c2.extension is None {
                let (x, y) = if c1.extension is None {
                    (c1, c2)
                } else {
                    (c2, c1)
                };
                assert(y.extension is Some);
                assert(s.len() > t);
                assert(s[t] == '⁷' || s[t] == '△');
                assert(x.bass is Some);
            }
        }
    }
    assert(c1.bass == c2.bass) by {
        if c1.bass is Some && c2.bass is Some {
            let b1 = c1.bass->Some_0;
            let b2 = c2.bass->Some_0;
            assert(b1.degree == b2.degree);
            assert(b1.accidental == b2.accidental);
        }
    }
}

/// Law: chords that differ only in their triad quality get different symbols.
pub proof fn chord_symbols_tell_triads_apart(c1: GroupedChordNote, c2: GroupedChordNote)
    requires
        c1.degree == c2.degree,
        c1.accidental == c2.accidental,
        c1.extension == c2.extension,
        c1.bass == c2.bass,
        c1.triad != c2.triad,
    ensures
        chord_symbol_text(c1) != chord_symbol_text(c2),
{
    chord_symbol_names_its_triad(c1);
    chord_symbol_names_its_triad(c2);
}

fn push_triad(v: &mut Vec<char>, t: TriadQuality)
    ensures
        final(v)@ == old(v)@ + triad_text(t),
{
    match t {
        TriadQuality::Major => {},
        TriadQuality::Minor => v.push('m'),
        TriadQuality::Diminished => v.push('°'),
        TriadQuality::Augmented => v.push('⁺'),
    }
    proof {
        assert(final(v)@ =~= old(v)@ + triad_text(t));
    }
}

fn push_extension(v: &mut Vec<char>, e: Option<Extension>)
    ensures
        final(v)@ == old(v)@ + extension_text(e),
{
    match e {
        Some(Extension::DominantSeventh) => v.push('⁷'),
        Some(Extension::MajorSeventh) => {
            v.push('△');
            v.push('⁷');
        },
        None => {},
    }
    proof {
        assert(final(v)@ =~= old(v)@ + extension_text(e));
    }
}

/// The `/` and bass degree that follow a chord, or nothing.
pub open spec fn bass_text(b: Option<BassDegree>) -> Seq<char> {
    match b {
        Some(b) => seq!['/', degree_char(b.degree)] + accidental_text(b.accidental),
        None => seq![],
    }
}

fn push_bass(v: &mut Vec<char>, b: Option<BassDegree>)
    ensures
        final(v)@ == old(v)@ + bass_text(b),
{
    match b {
        Some(b) => {
            v.push('/');
            v.push(degree_to_char(b.degree));
            push_accidental(v, b.accidental);
        },
        None => {},
    }
    proof {
        assert(final(v)@ =~= old(v)@ + bass_text(b));
    }
}

impl GroupedChordNote {
    pub fn format_symbol(&self) -> (s: String)
        ensures
            s@ == chord_symbol_text(*self),
            ({
                let a = if self.accidental == Accidental::Natural {
                    0int
                } else {
                    1int
                };
                &&& s@.len() >= 1 + a
                &&& self.triad == TriadQuality::Minor ==> s@.len() > 1 + a && s@[1 + a] == 'm'
                &&& self.triad == TriadQuality::Diminished ==> s@.len() > 1 + a && s@[1 + a] == '°'
                &&& self.triad == TriadQuality::Augmented ==> s@.len() > 1 + a && s@[1 + a] == '⁺'
                &&& self.triad == TriadQuality::Major ==> s@.len() == 1 + a || (s@[1 + a] != 'm'
                    && s@[1 + a] != '°' && s@[1 + a] != '⁺')
            }),
    {
        proof {
            chord_symbol_names_its_triad(*self);
        }
        let mut v: Vec<char> = Vec::new();
        v.push(degree_to_char(self.degree));
        let ghost v1 = v@;
        push_accidental(&mut v, self.accidental);
        let ghost v2 = v@;
        push_triad(&mut v, self.triad);
        let ghost v3 = v@;
        push_extension(&mut v, self.extension);
        let ghost v4 = v@;
        push_bass(&mut v, self.bass);
        proof {
            assert(v1 =~= seq![degree_char(self.degree)]);
            assert(v@ =~= chord_symbol_text(*self));
        }
        crate::text::string_from_chars(&v)
    }
}

} // verus!
