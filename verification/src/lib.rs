pub mod archive;
pub mod ast;
pub mod combiner;
pub mod compiler;
pub mod compositor;
pub mod desugar;
pub mod error;
pub mod generator;
pub mod grouper;
pub mod grid_layout;
pub mod layout;
pub mod grouping;
pub mod lyric_spans;
pub mod midi;
pub mod note_spans;
pub mod render_config;
pub mod scan;
pub mod selection_range;
pub mod text;

use vstd::prelude::*;

use ast::grouped::{row_slice, Lyrics, MultiPartMeasure, Notes, PartRow, PartSlice, Score};
use ast::parsed::{PartKind, Syllable};
use combiner::{combined_view, copy_events, copy_opt_string, copy_string, copy_syllables, row_view, slice_view};
use archive::{
    zip_archive, zip_clean, zip_file_limit, zip_finish, zip_names, zip_start_file, zip_write_all, zip_writer_new,
    zip_written,
};
use error::{JianPuError, Span};
use text::{chars_of, push_str, string_from_chars};

verus! {

/// A part declared in the `[parts]` section.
pub struct PartInfo {
    /// Abbreviation used in score row labels and `--tracks` filtering.
    pub abbreviation: String,
    /// Full display name from the declaration left-hand side.
    pub display_name: String,
    /// Whether the part declaration includes a lyrics column.
    pub has_lyrics: bool,
}

/// One PDF produced by split-track export.
pub struct SplitPdfEntry {
    pub track_name: String,
    pub filename: String,
    pub pdf: Vec<u8>,
}

/// The files of a split-track archive: each entry's file name and PDF bytes, in order.
pub open spec fn pdf_files(entries: Seq<SplitPdfEntry>) -> Seq<(Seq<char>, Seq<u8>)> {
    Seq::new(entries.len(), |i: int| (entries[i].filename@, entries[i].pdf@))
}

/// No two entries have the same file name.
pub open spec fn distinct_filenames(entries: Seq<SplitPdfEntry>) -> bool {
    forall|i: int, j: int| 0 <= i < j < entries.len() ==> entries[i].filename@ != entries[j].filename@
}

/// `prefix` followed by `detail`, as an error at the start of the source.
fn zip_error(prefix: &str, detail: String) -> (e: JianPuError)
    ensures
        e.span == (Span { start: 0, end: 0 }),
        e.message@ == prefix@ + detail@,
{
    let mut m = String::from_str(prefix);
    m.append(detail.as_str());
    JianPuError::new(Span::new(0, 0), m)
}

/// Pack the split-track PDFs into one zip archive, one deflated file per entry, named
/// by the entry's file name. A failure of the zip writer is an error whose message names
/// the step that failed (`zip start_file: `, `zip write: ` or `zip finish: `) and the
/// writer's own message. Two entries with one file name always fail; distinct names with
/// each PDF within `zip_file_limit` bytes always succeed. A file name longer than
/// `u16::MAX` bytes is not admitted (zip panics on it).
pub fn zip_split_pdfs(entries: &[SplitPdfEntry]) -> (r: Result<Vec<u8>, JianPuError>)
    requires
        forall|i: int| 0 <= i < entries@.len() ==> crate::scan::utf8_len(#[trigger] entries@[i].filename@) <= 0xFFFF,
    ensures
        r matches Ok(b) ==> b@ == zip_archive(pdf_files(entries@)),
        r matches Err(e) ==> e.span == (Span { start: 0, end: 0 }) && exists|m: Seq<char>|
            e.message@ == "zip start_file: "@ + m || e.message@ == "zip write: "@ + m
                || e.message@ == "zip finish: "@ + m,
        distinct_filenames(entries@) && (forall|i: int|
            0 <= i < entries@.len() ==> (#[trigger] entries@[i]).pdf@.len() <= zip_file_limit()) ==> r is Ok,
        !distinct_filenames(entries@) ==> r is Err,
{
    let mut writer = zip_writer_new();
    let mut i: usize = 0;
    while i < entries.len()
        invariant
            i <= entries@.len(),
            forall|k: int| 0 <= k < entries@.len() ==> crate::scan::utf8_len(#[trigger] entries@[k].filename@) <= 0xFFFF,
            zip_written(writer) == pdf_files(entries@.take(i as int)),
            zip_clean(writer),
            distinct_filenames(entries@.take(i as int)),
        decreases entries@.len() - i,
    {
        let entry = &entries[i];
        let ghost before = zip_written(writer);
        proof {
            lemma_pdf_file_names(entries@, i as int);
            if distinct_filenames(entries@) {
                assert(!zip_names(before).contains(entry.filename@)) by {
                    if zip_names(before).contains(entry.filename@) {
                        let k = choose|k: int| 0 <= k < zip_names(before).len() && zip_names(before)[k] == entry.filename@;
                        assert(entries@[k].filename@ == entries@[i as int].filename@);
                    }
                }
            }
            if i > 0 {
                assert(before.last() == (entries@[i - 1].filename@, entries@[i - 1].pdf@));
            }
        }
        match zip_start_file(&mut writer, &entry.filename) {
            Ok(()) => {},
            Err(m) => {
                let e = zip_error("zip start_file: ", m);
                assert(e.message@ == "zip start_file: "@ + m@);
                return Err(e);
            },
        }
        proof {
            assert(!zip_names(before).contains(entry.filename@));
            let t = entries@.take(i + 1);
            assert(distinct_filenames(t)) by {
                assert forall|a: int, b: int| #![trigger t[a], t[b]] 0 <= a < b < t.len() implies
                    t[a].filename@ != t[b].filename@ by {
                    if b == i {
                        assert(zip_names(before)[a] == entries@[a].filename@);
                    } else {
                        assert(entries@.take(i as int)[a] == entries@[a]);
                        assert(entries@.take(i as int)[b] == entries@[b]);
                    }
                }
            }
        }
        match zip_write_all(&mut writer, &entry.pdf) {
            Ok(()) => {},
            Err(m) => {
                let e = zip_error("zip write: ", m);
                assert(e.message@ == "zip write: "@ + m@);
                return Err(e);
            },
        }
        proof {
            assert(Seq::<u8>::empty() + entry.pdf@ == entry.pdf@);
            assert(pdf_files(entries@.take(i + 1)) == pdf_files(entries@.take(i as int)).push(
                (entry.filename@, entry.pdf@),
            ));
            if entry.pdf@.len() == 0 {
                assert(entry.pdf@ == Seq::<u8>::empty());
            }
        }
        i += 1;
    }
    proof {
        assert(entries@.take(i as int) == entries@);
        if i > 0 {
            assert(zip_written(writer).last() == (entries@[i - 1].filename@, entries@[i - 1].pdf@));
        }
    }
    match zip_finish(writer) {
        Ok(b) => Ok(b),
        Err(m) => {
            let e = zip_error("zip finish: ", m);
            assert(e.message@ == "zip finish: "@ + m@);
            Err(e)
        },
    }
}

proof fn lemma_pdf_file_names(entries: Seq<SplitPdfEntry>, i: int)
    requires
        0 <= i <= entries.len(),
    ensures
        zip_names(pdf_files(entries.take(i))).len() == i,
        forall|k: int| 0 <= k < i ==> #[trigger] zip_names(pdf_files(entries.take(i)))[k] == entries[k].filename@,
        forall|k: int| 0 <= k < i ==> #[trigger] pdf_files(entries.take(i))[k] == (entries[k].filename@, entries[k].pdf@),
{
}

/// `name` is one of the listed tracks.
pub open spec fn listed(tracks: Seq<String>, name: Seq<char>) -> bool {
    exists|j: int| 0 <= j < tracks.len() && (#[trigger] tracks[j])@ == name
}

/// A row is kept by a track filter when its part has a name that is listed.
pub open spec fn row_kept(row: PartRow, tracks: Seq<String>) -> bool {
    row_slice(row).name matches Some(n) && listed(tracks, n@)
}

/// The rows of the first `n` parts that the filter keeps, as plain values.
pub open spec fn kept_rows(parts: Seq<PartRow>, tracks: Seq<String>, n: int) -> Seq<
    (bool, (Option<String>, PartKind, Seq<ast::grouped::NoteEvent>, Option<Seq<Syllable>>)),
>
    decreases n,
{
    if n <= 0 {
        seq![]
    } else {
        kept_rows(parts, tracks, n - 1) + if row_kept(parts[n - 1], tracks) {
            seq![row_view(parts[n - 1])]
        } else {
            seq![]
        }
    }
}

/// The rows of a measure after a track filter: the kept rows, the first shown even when
/// it was a ditto, since the part it repeated is gone.
pub open spec fn filtered_rows(parts: Seq<PartRow>, tracks: Seq<String>) -> Seq<
    (bool, (Option<String>, PartKind, Seq<ast::grouped::NoteEvent>, Option<Seq<Syllable>>)),
> {
    let k = kept_rows(parts, tracks, parts.len() as int);
    if k.len() > 0 && k[0].0 {
        k.update(0, (false, k[0].1))
    } else {
        k
    }
}

/// The measure with its rows replaced by `rows`, everything else kept.
pub open spec fn measure_with_rows(
    a: MultiPartMeasure,
    b: MultiPartMeasure,
    rows: Seq<(bool, (Option<String>, PartKind, Seq<ast::grouped::NoteEvent>, Option<Seq<Syllable>>))>,
) -> bool {
    &&& b.time_signature == a.time_signature
    &&& b.bpm == a.bpm
    &&& b.key == a.key
    &&& b.label == a.label
    &&& b.source_span == a.source_span
    &&& b.parts@.map_values(|r: PartRow| row_view(r)) == rows
}

pub fn copy_slice(s: &PartSlice) -> (r: PartSlice)
    ensures
        slice_view(r) == slice_view(*s),
{
    PartSlice {
        name: copy_opt_string(&s.name),
        kind: s.kind,
        notes: Notes { events: copy_events(s.notes.events.as_slice()) },
        lyrics: match &s.lyrics {
            Some(l) => Some(Lyrics { syllables: copy_syllables(l.syllables.as_slice()) }),
            None => None,
        },
    }
}

fn copy_row(row: &PartRow) -> (r: PartRow)
    ensures
        row_view(r) == row_view(*row),
{
    match row {
        PartRow::Timed(s) => PartRow::Timed(copy_slice(s)),
        PartRow::Ditto(s) => PartRow::Ditto(copy_slice(s)),
    }
}

fn is_listed(tracks: &[String], name: &String) -> (b: bool)
    ensures
        b == listed(tracks@, name@),
{
    let mut j: usize = 0;
    while j < tracks.len()
        invariant
            j <= tracks@.len(),
            forall|k: int| 0 <= k < j ==> (#[trigger] tracks@[k])@ != name@,
        decreases tracks@.len() - j,
    {
        if tracks[j] == *name {
            return true;
        }
        j += 1;
    }
    false
}

fn copy_measure_with(m: &MultiPartMeasure, parts: Vec<PartRow>) -> (r: MultiPartMeasure)
    ensures
        r.time_signature == m.time_signature,
        r.bpm == m.bpm,
        r.key == m.key,
        r.label == m.label,
        r.source_span == m.source_span,
        r.parts == parts,
{
    MultiPartMeasure {
        time_signature: m.time_signature,
        bpm: m.bpm,
        key: m.key,
        label: copy_opt_string(&m.label),
        parts,
        source_span: m.source_span,
    }
}

fn filter_measure(m: &MultiPartMeasure, tracks: &[String]) -> (r: MultiPartMeasure)
    ensures
        measure_with_rows(*m, r, filtered_rows(m.parts@, tracks@)),
{
    let mut parts: Vec<PartRow> = Vec::new();
    let mut p: usize = 0;
    while p < m.parts.len()
        invariant
            p <= m.parts@.len(),
            parts@.map_values(|r: PartRow| row_view(r)) == kept_rows(m.parts@, tracks@, p as int),
        decreases m.parts@.len() - p,
    {
        let row = &m.parts[p];
        let ghost before = parts@.map_values(|r: PartRow| row_view(r));
        let keep = match row.name() {
            Some(n) => is_listed(tracks, n),
            None => false,
        };
        if keep {
            parts.push(copy_row(row));
            proof {
                assert(parts@.map_values(|r: PartRow| row_view(r)) =~= before.push(row_view(*row)));
            }
        } else {
            proof {
                assert(kept_rows(m.parts@, tracks@, p + 1) =~= before);
            }
        }
        p += 1;
    }
    let ghost kept = parts@.map_values(|r: PartRow| row_view(r));
    if parts.len() > 0 && parts[0].is_ditto() {
        let first = PartRow::Timed(copy_slice(parts[0].slice()));
        parts.set(0, first);
        proof {
            assert(parts@.map_values(|r: PartRow| row_view(r)) =~= kept.update(0, (false, kept[0].1)));
        }
    }
    copy_measure_with(m, parts)
}

/// The measures after a track filter: with `None`, the measures as they were; with
/// `Some(tracks)`, each measure with its directives kept and the rows that
/// `filtered_rows` gives.
pub open spec fn track_filtered(
    before: Seq<MultiPartMeasure>,
    after: Seq<MultiPartMeasure>,
    enabled: Option<Seq<String>>,
) -> bool {
    match enabled {
        None => after == before,
        Some(tracks) => after.len() == before.len() && forall|i: int|
            0 <= i < before.len() ==> measure_with_rows(
                #[trigger] before[i],
                after[i],
                filtered_rows(before[i].parts@, tracks),
            ),
    }
}

/// The tracks of an optional filter list.
pub open spec fn tracks_of(enabled: Option<&[String]>) -> Option<Seq<String>> {
    match enabled {
        Some(t) => Some(t@),
        None => None,
    }
}

/// Law: a track filter leaves no freedom: two results of the same filter on the same
/// measures agree in every measure's directives, rows and span. So `filter_tracks` with a
/// non-empty list, whose contract is the filter with `Some` of that list, gives the same
/// score as `apply_track_filter` with it, and with an empty list the score unchanged.
pub proof fn track_filter_is_determined(
    before: Seq<MultiPartMeasure>,
    a: Seq<MultiPartMeasure>,
    b: Seq<MultiPartMeasure>,
    enabled: Option<Seq<String>>,
)
    requires
        track_filtered(before, a, enabled),
        track_filtered(before, b, enabled),
    ensures
        a.len() == b.len(),
        forall|i: int| 0 <= i < a.len() ==> combined_view(#[trigger] a[i]) == combined_view(b[i]),
{
    if enabled is Some {
        assert forall|i: int| 0 <= i < a.len() implies combined_view(#[trigger] a[i]) == combined_view(b[i]) by {
            assert(measure_with_rows(before[i], a[i], filtered_rows(before[i].parts@, enabled->0)));
            assert(measure_with_rows(before[i], b[i], filtered_rows(before[i].parts@, enabled->0)));
        }
    }
}

/// Retain only parts whose names appear in `enabled_tracks`.
///
/// `None` keeps every part. `Some([])` removes every part.
pub fn apply_track_filter(score: &mut Score, enabled_tracks: Option<&[String]>)
    ensures
        final(score).metadata == old(score).metadata,
        track_filtered(old(score).measures@, final(score).measures@, tracks_of(enabled_tracks)),
        enabled_tracks is None ==> final(score).measures == old(score).measures,
        enabled_tracks matches Some(tracks) ==> final(score).measures@.len()
            == old(score).measures@.len() && forall|i: int|
            0 <= i < old(score).measures@.len() ==> measure_with_rows(
                #[trigger] old(score).measures@[i],
                final(score).measures@[i],
                filtered_rows(old(score).measures@[i].parts@, tracks@),
            ),
{
    let tracks = match enabled_tracks {
        Some(t) => t,
        None => return,
    };
    let mut measures: Vec<MultiPartMeasure> = Vec::new();
    let mut i: usize = 0;
    while i < score.measures.len()
        invariant
            i <= score.measures@.len(),
            score.measures@ == old(score).measures@,
            score.metadata == old(score).metadata,
            measures@.len() == i,
            forall|k: int|
                0 <= k < i ==> measure_with_rows(
                    #[trigger] score.measures@[k],
                    measures@[k],
                    filtered_rows(score.measures@[k].parts@, tracks@),
                ),
        decreases score.measures@.len() - i,
    {
        measures.push(filter_measure(&score.measures[i], tracks));
        i += 1;
    }
    score.measures = measures;
}

/// Retain only parts whose names appear in `tracks`. No-op when `tracks` is empty.
pub fn filter_tracks(score: &mut Score, tracks: &[String])
    ensures
        final(score).metadata == old(score).metadata,
        track_filtered(
            old(score).measures@,
            final(score).measures@,
            if tracks@.len() == 0 {
                None
            } else {
                Some(tracks@)
            },
        ),
        tracks@.len() == 0 ==> final(score).measures == old(score).measures,
        tracks@.len() > 0 ==> final(score).measures@.len() == old(score).measures@.len()
            && forall|i: int|
            0 <= i < old(score).measures@.len() ==> measure_with_rows(
                #[trigger] old(score).measures@[i],
                final(score).measures@[i],
                filtered_rows(old(score).measures@[i].parts@, tracks@),
            ),
{
    if tracks.len() == 0 {
        return;
    }
    apply_track_filter(score, Some(tracks));
}

/// A row with its lyrics hidden when its part is listed: a notes-with-lyrics part
/// becomes a plain notes part.
pub open spec fn lyrics_filtered_row(row: PartRow, tracks: Seq<String>) -> (
    bool,
    (Option<String>, PartKind, Seq<ast::grouped::NoteEvent>, Option<Seq<Syllable>>),
) {
    let v = row_view(row);
    if row_kept(row, tracks) {
        (
            v.0,
            (
                v.1.0,
                if v.1.1 == PartKind::NotesWithLyrics {
                    PartKind::Notes
                } else {
                    v.1.1
                },
                v.1.2,
                None,
            ),
        )
    } else {
        v
    }
}

fn lyrics_filter_measure(m: &MultiPartMeasure, tracks: &[String]) -> (r: MultiPartMeasure)
    ensures
        measure_with_rows(
            *m,
            r,
            m.parts@.map_values(|row: PartRow| lyrics_filtered_row(row, tracks@)),
        ),
{
    let mut parts: Vec<PartRow> = Vec::new();
    let mut p: usize = 0;
    while p < m.parts.len()
        invariant
            p <= m.parts@.len(),
            parts@.len() == p,
            forall|k: int|
                0 <= k < p ==> row_view(#[trigger] parts@[k]) == lyrics_filtered_row(
                    m.parts@[k],
                    tracks@,
                ),
        decreases m.parts@.len() - p,
    {
        let row = &m.parts[p];
        let hide = match row.name() {
            Some(n) => is_listed(tracks, n),
            None => false,
        };
        let mut slice = copy_slice(row.slice());
        if hide {
            slice.lyrics = None;
            if slice.kind == PartKind::NotesWithLyrics {
                slice.kind = PartKind::Notes;
            }
        }
        let new_row = if row.is_ditto() {
            PartRow::Ditto(slice)
        } else {
            PartRow::Timed(slice)
        };
        parts.push(new_row);
        p += 1;
    }
    proof {
        assert(parts@.map_values(|r: PartRow| row_view(r)) =~= m.parts@.map_values(
            |row: PartRow| lyrics_filtered_row(row, tracks@),
        ));
    }
    copy_measure_with(m, parts)
}

/// Hide lyrics on parts whose abbreviations appear in `disabled_lyrics`.
///
/// `None` and `Some([])` keep every lyric line.
pub fn apply_lyrics_filter(score: &mut Score, disabled_lyrics: Option<&[String]>)
    ensures
        final(score).metadata == old(score).metadata,
        (disabled_lyrics is None || disabled_lyrics.unwrap()@.len() == 0) ==> final(score).measures
            == old(score).measures,
        disabled_lyrics matches Some(tracks) ==> (tracks@.len() > 0 ==> final(score).measures@.len()
            == old(score).measures@.len() && forall|i: int|
            0 <= i < old(score).measures@.len() ==> measure_with_rows(
                #[trigger] old(score).measures@[i],
                final(score).measures@[i],
                old(score).measures@[i].parts@.map_values(
                    |row: PartRow| lyrics_filtered_row(row, tracks@),
                ),
            )),
{
    let tracks = match disabled_lyrics {
        Some(t) => t,
        None => return,
    };
    if tracks.len() == 0 {
        return;
    }
    let mut measures: Vec<MultiPartMeasure> = Vec::new();
    let mut i: usize = 0;
    while i < score.measures.len()
        invariant
            i <= score.measures@.len(),
            score.measures@ == old(score).measures@,
            score.metadata == old(score).metadata,
            measures@.len() == i,
            forall|k: int|
                0 <= k < i ==> measure_with_rows(
                    #[trigger] score.measures@[k],
                    measures@[k],
                    score.measures@[k].parts@.map_values(
                        |row: PartRow| lyrics_filtered_row(row, tracks@),
                    ),
                ),
        decreases score.measures@.len() - i,
    {
        measures.push(lyrics_filter_measure(&score.measures[i], tracks));
        i += 1;
    }
    score.measures = measures;
}

/// The characters that a file name may not hold.
pub open spec fn unsafe_in_filename(c: char) -> bool {
    c == '/' || c == '\\' || c == ':' || c == '*' || c == '?' || c == '"' || c == '<' || c == '>'
        || c == '|'
}

pub open spec fn sanitized(s: Seq<char>) -> Seq<char> {
    s.map_values(|c: char| if unsafe_in_filename(c) { '-' } else { c })
}

/// Sanitize a track name for use in filenames: each of `/ \ : * ? " < > |` becomes `-`.
pub fn sanitize_track_name(name: &str) -> (r: String)
    ensures
        r@ == sanitized(name@),
        r@.len() == name@.len(),
        forall|i: int|
            0 <= i < r@.len() ==> {
                let c = #[trigger] r@[i];
                &&& c != '/' && c != '\\' && c != ':' && c != '*' && c != '?' && c != '"'
                &&& c != '<' && c != '>' && c != '|'
            },
        forall|i: int|
            0 <= i < name@.len() ==> {
                let c = #[trigger] name@[i];
                if c == '/' || c == '\\' || c == ':' || c == '*' || c == '?' || c == '"' || c == '<'
                    || c == '>' || c == '|' {
                    r@[i] == '-'
                } else {
                    r@[i] == c
                }
            },
{
    proof {
        sanitized_names_hold_no_path_characters(name@);
    }
    let chars = chars_of(name);
    let mut out: Vec<char> = Vec::new();
    let mut i: usize = 0;
    while i < chars.len()
        invariant
            i <= chars@.len(),
            chars@ == name@,
            out@ == sanitized(chars@.take(i as int)),
        decreases chars@.len() - i,
    {
        let c = chars[i];
        let bad = c == '/' || c == '\\' || c == ':' || c == '*' || c == '?' || c == '"' || c == '<'
            || c == '>' || c == '|';
        out.push(if bad { '-' } else { c });
        proof {
            assert(sanitized(chars@.take(i + 1)) =~= sanitized(chars@.take(i as int)).push(
                if unsafe_in_filename(c) { '-' } else { c },
            ));
        }
        i += 1;
    }
    proof {
        assert(chars@.take(i as int) =~= chars@);
    }
    string_from_chars(&out)
}

/// Law: sanitizing keeps a name's length, replaces each of `/ \ : * ? " < > |` by `-`,
/// keeps every other character, and so leaves none of those nine characters.
pub proof fn sanitized_names_hold_no_path_characters(s: Seq<char>)
    ensures
        sanitized(s).len() == s.len(),
        forall|i: int|
            0 <= i < s.len() ==> {
                let c = #[trigger] sanitized(s)[i];
                &&& c != '/' && c != '\\' && c != ':' && c != '*' && c != '?' && c != '"'
                &&& c != '<' && c != '>' && c != '|'
            },
        forall|i: int|
            0 <= i < s.len() ==> {
                let c = #[trigger] s[i];
                if c == '/' || c == '\\' || c == ':' || c == '*' || c == '?' || c == '"' || c == '<'
                    || c == '>' || c == '|' {
                    sanitized(s)[i] == '-'
                } else {
                    sanitized(s)[i] == c
                }
            },
{
}

/// Law: the label part of a split-track file name, between `base - ` and `.extension`,
/// holds none of `/ \ : * ? " < > |`, so the name never reaches into a directory.
pub proof fn track_filenames_stay_in_one_directory(base: Seq<char>, label: Seq<char>, extension: Seq<char>)
    ensures
        ({
            let f = track_filename(base, label, extension);
            &&& f.len() == base.len() + 3 + label.len() + 1 + extension.len()
            &&& f.subrange(0, base.len() as int) == base
            &&& forall|i: int|
                base.len() + 3 <= i < base.len() + 3 + label.len() ==> {
                    let c = #[trigger] f[i];
                    &&& c != '/' && c != '\\' && c != ':' && c != '*' && c != '?' && c != '"'
                    &&& c != '<' && c != '>' && c != '|'
                }
        }),
{
    sanitized_names_hold_no_path_characters(label);
    reveal_strlit(" - ");
    reveal_strlit(".");
    let f = track_filename(base, label, extension);
    let b = base.len() as int;
    assert(f == base + " - "@ + sanitized(label) + "."@ + extension);
    assert(f.subrange(0, b) =~= base);
    assert forall|i: int| b + 3 <= i < b + 3 + label.len() implies f[i] == sanitized(label)[i - b - 3] by {}
}

/// Law: a sanitized name holds no character that a file name may not hold, and
/// sanitizing it again changes nothing.
pub proof fn sanitizing_is_safe_and_idempotent(s: Seq<char>)
    ensures
        forall|i: int| 0 <= i < sanitized(s).len() ==> !unsafe_in_filename(#[trigger] sanitized(s)[i]),
        sanitized(sanitized(s)) == sanitized(s),
{
    assert(sanitized(sanitized(s)) =~= sanitized(s));
}

/// Abbreviation → display name of each declared part, in declaration order.
pub fn part_display_name_map(parts: &[PartInfo]) -> (r: Vec<(String, String)>)
    ensures
        r@.len() == parts@.len(),
        forall|i: int|
            0 <= i < parts@.len() ==> (#[trigger] r@[i]).0@ == parts@[i].abbreviation@ && r@[i].1@
                == parts@[i].display_name@,
{
    let mut r: Vec<(String, String)> = Vec::new();
    let mut i: usize = 0;
    while i < parts.len()
        invariant
            i <= parts@.len(),
            r@.len() == i,
            forall|k: int|
                0 <= k < i ==> (#[trigger] r@[k]).0@ == parts@[k].abbreviation@ && r@[k].1@
                    == parts@[k].display_name@,
        decreases parts@.len() - i,
    {
        r.push((parts[i].abbreviation.clone(), parts[i].display_name.clone()));
        i += 1;
    }
    r
}

/// The display name of the last declaration of `abbreviation`, or the abbreviation itself.
pub open spec fn track_label(names: Seq<(String, String)>, abbreviation: Seq<char>, n: int) -> Seq<char>
    decreases n,
{
    if n <= 0 {
        abbreviation
    } else if names[n - 1].0@ == abbreviation {
        names[n - 1].1@
    } else {
        track_label(names, abbreviation, n - 1)
    }
}

/// Resolve the filename label for a track: the display name declared for its abbreviation
/// (the last, when declared twice), else the abbreviation.
pub fn split_track_label(display_names: &[(String, String)], abbreviation: &str) -> (r: String)
    ensures
        r@ == track_label(display_names@, abbreviation@, display_names@.len() as int),
{
    let wanted = String::from_str(abbreviation);
    let mut j: usize = display_names.len();
    while j > 0
        invariant
            j <= display_names@.len(),
            wanted@ == abbreviation@,
            track_label(display_names@, abbreviation@, display_names@.len() as int) == track_label(
                display_names@,
                abbreviation@,
                j as int,
            ),
        decreases j,
    {
        if display_names[j - 1].0 == wanted {
            return display_names[j - 1].1.clone();
        }
        j -= 1;
    }
    String::from_str(abbreviation)
}

pub open spec fn track_filename(base: Seq<char>, label: Seq<char>, extension: Seq<char>) -> Seq<char> {
    base + " - "@ + sanitized(label) + "."@ + extension
}

/// Build a split-track filename: `{base_name} - {label}.{extension}`, the label sanitized.
pub fn split_track_filename(base_name: &str, label: &str, extension: &str) -> (r: String)
    ensures
        r@ == track_filename(base_name@, label@, extension@),
        forall|i: int|
            base_name@.len() + 3 <= i < base_name@.len() + 3 + label@.len() ==> {
                let c = #[trigger] r@[i];
                &&& c != '/' && c != '\\' && c != ':' && c != '*' && c != '?' && c != '"'
                &&& c != '<' && c != '>' && c != '|'
            },
{
    proof {
        track_filenames_stay_in_one_directory(base_name@, label@, extension@);
    }
    let mut s = String::from_str(base_name);
    s.append(" - ");
    let clean = sanitize_track_name(label);
    s.append(clean.as_str());
    s.append(".");
    s.append(extension);
    s
}

/// Build a split-track PDF filename: `{base_name} - {label}.pdf`.
pub fn split_pdf_filename(base_name: &str, label: &str) -> (r: String)
    ensures
        r@ == track_filename(base_name@, label@, "pdf"@),
        forall|i: int|
            base_name@.len() + 3 <= i < base_name@.len() + 3 + label@.len() ==> {
                let c = #[trigger] r@[i];
                &&& c != '/' && c != '\\' && c != ':' && c != '*' && c != '?' && c != '"'
                &&& c != '<' && c != '>' && c != '|'
            },
{
    split_track_filename(base_name, label, "pdf")
}

/// The names of the first `n` parts of a measure that have one.
pub open spec fn row_names(parts: Seq<PartRow>, n: int) -> Seq<Seq<char>>
    decreases n,
{
    if n <= 0 {
        seq![]
    } else {
        row_names(parts, n - 1) + match row_slice(parts[n - 1]).name {
            Some(s) => seq![s@],
            None => seq![],
        }
    }
}

/// The part names of the first `k` measures, measure by measure, part by part.
pub open spec fn part_names(ms: Seq<MultiPartMeasure>, k: int) -> Seq<Seq<char>>
    decreases k,
{
    if k <= 0 {
        seq![]
    } else {
        part_names(ms, k - 1) + row_names(ms[k - 1].parts@, ms[k - 1].parts@.len() as int)
    }
}

/// Each name once, in order of first appearance.
pub open spec fn first_appearances(s: Seq<Seq<char>>) -> Seq<Seq<char>>
    decreases s.len(),
{
    if s.len() == 0 {
        seq![]
    } else {
        let prev = first_appearances(s.drop_last());
        if prev.contains(s.last()) {
            prev
        } else {
            prev.push(s.last())
        }
    }
}

fn contains_name(names: &Vec<String>, name: &String) -> (b: bool)
    ensures
        b == names@.map_values(|s: String| s@).contains(name@),
{
    let ghost v = names@.map_values(|s: String| s@);
    let mut j: usize = 0;
    while j < names.len()
        invariant
            j <= names@.len(),
            v == names@.map_values(|s: String| s@),
            forall|k: int| 0 <= k < j ==> v[k] != name@,
        decreases names@.len() - j,
    {
        if names[j] == *name {
            assert(v[j as int] == name@);
            return true;
        }
        j += 1;
    }
    false
}

/// The tracks to render: the given ones, or every part of the score when none is given.
pub fn effective_tracks(tracks: &[String], score: &Score) -> (r: Vec<String>)
    ensures
        tracks@.len() == 0 ==> r@.map_values(|s: String| s@) == first_appearances(
            part_names(score.measures@, score.measures@.len() as int),
        ),
        tracks@.len() > 0 ==> r@ == tracks@,
{
    if tracks.len() == 0 {
        collect_track_names(score)
    } else {
        let mut r: Vec<String> = Vec::new();
        let mut i: usize = 0;
        while i < tracks.len()
            invariant
                i <= tracks@.len(),
                r@ == tracks@.take(i as int),
            decreases tracks@.len() - i,
        {
            r.push(tracks[i].clone());
            proof {
                assert(tracks@.take(i + 1) == tracks@.take(i as int).push(tracks@[i as int]));
            }
            i += 1;
        }
        proof {
            assert(tracks@.take(i as int) == tracks@);
        }
        r
    }
}

/// Collect unique part names from score measures (order of first appearance).
pub fn collect_track_names(score: &Score) -> (names: Vec<String>)
    ensures
        names@.map_values(|s: String| s@) == first_appearances(
            part_names(score.measures@, score.measures@.len() as int),
        ),
{
    let ghost ms = score.measures@;
    let mut names: Vec<String> = Vec::new();
    let mut i: usize = 0;
    while i < score.measures.len()
        invariant
            ms == score.measures@,
            i <= ms.len(),
            names@.map_values(|s: String| s@) == first_appearances(part_names(ms, i as int)),
        decreases ms.len() - i,
    {
        let parts = &score.measures[i].parts;
        let mut p: usize = 0;
        while p < parts.len()
            invariant
                i < ms.len(),
                parts@ == ms[i as int].parts@,
                p <= parts@.len(),
                names@.map_values(|s: String| s@) == first_appearances(
                    part_names(ms, i as int) + row_names(parts@, p as int),
                ),
            decreases parts@.len() - p,
        {
            let ghost seen = part_names(ms, i as int) + row_names(parts@, p as int);
            match parts[p].name() {
                Some(name) => {
                    proof {
                        assert(seen.push(name@).drop_last() =~= seen);
                        assert(part_names(ms, i as int) + row_names(parts@, p + 1) =~= seen.push(name@));
                        assert(first_appearances(seen.push(name@)) == (if first_appearances(seen).contains(name@) {
                            first_appearances(seen)
                        } else {
                            first_appearances(seen).push(name@)
                        }));
                    }
                    if !contains_name(&names, name) {
                        let ghost before = names@.map_values(|s: String| s@);
                        names.push(name.clone());
                        proof {
                            assert(names@.map_values(|s: String| s@) =~= before.push(name@));
                        }
                    }
                },
                None => {
                    proof {
                        assert(part_names(ms, i as int) + row_names(parts@, p + 1) =~= seen);
                    }
                },
            }
            p += 1;
        }
        i += 1;
    }
    names
}

/// Law: the collected track names hold no name twice, and each of them is a part's name.
pub proof fn collected_names_are_unique(s: Seq<Seq<char>>)
    ensures
        forall|i: int, j: int|
            0 <= i < j < first_appearances(s).len() ==> first_appearances(s)[i] != first_appearances(s)[j],
        forall|i: int| 0 <= i < first_appearances(s).len() ==> s.contains(#[trigger] first_appearances(s)[i]),
    decreases s.len(),
{
    if s.len() > 0 {
        let d = s.drop_last();
        collected_names_are_unique(d);
        let prev = first_appearances(d);
        assert forall|i: int| 0 <= i < prev.len() implies s.contains(#[trigger] prev[i]) by {
            let j = choose|j: int| 0 <= j < d.len() && d[j] == prev[i];
            assert(s[j] == d[j]);
        }
        if !prev.contains(s.last()) {
            let r = prev.push(s.last());
            assert forall|i: int, j: int| 0 <= i < j < r.len() implies r[i] != r[j] by {
                if j == prev.len() {
                    assert(prev.contains(prev[i]));
                }
            }
            assert(s[s.len() - 1] == s.last());
        }
    }
}

/// The tracks to export one by one: the filter's tracks, or every named part of the
/// score when the filter is empty; when that gives none, the declared parts.
pub open spec fn split_names_spec(score: Score, filter: Seq<String>, declared: Seq<PartInfo>) -> Seq<Seq<char>> {
    let names = if filter.len() == 0 {
        first_appearances(part_names(score.measures@, score.measures@.len() as int))
    } else {
        filter.map_values(|s: String| s@)
    };
    if names.len() == 0 {
        declared.map_values(|p: PartInfo| p.abbreviation@)
    } else {
        names
    }
}

/// Track list for split export. Empty `tracks_filter` gives all score tracks; falls back
/// to the declared parts' abbreviations when the score has no named parts.
pub fn split_track_names(score: &Score, tracks_filter: &[String], declared: &[PartInfo]) -> (names: Vec<String>)
    ensures
        names@.map_values(|s: String| s@) == split_names_spec(*score, tracks_filter@, declared@),
{
    let mut names: Vec<String> = if tracks_filter.len() == 0 {
        collect_track_names(score)
    } else {
        let mut v: Vec<String> = Vec::new();
        let mut i: usize = 0;
        while i < tracks_filter.len()
            invariant
                i <= tracks_filter@.len(),
                v@.map_values(|s: String| s@) == tracks_filter@.take(i as int).map_values(|s: String| s@),
            decreases tracks_filter@.len() - i,
        {
            v.push(tracks_filter[i].clone());
            proof {
                assert(tracks_filter@.take(i + 1).map_values(|s: String| s@) =~= tracks_filter@.take(
                    i as int,
                ).map_values(|s: String| s@).push(tracks_filter@[i as int]@));
                assert(v@.map_values(|s: String| s@) =~= tracks_filter@.take(i + 1).map_values(|s: String| s@));
            }
            i += 1;
        }
        proof {
            assert(tracks_filter@.take(i as int) =~= tracks_filter@);
        }
        v
    };
    if names.len() == 0 {
        let mut v: Vec<String> = Vec::new();
        let mut i: usize = 0;
        while i < declared.len()
            invariant
                i <= declared@.len(),
                v@.map_values(|s: String| s@) == declared@.take(i as int).map_values(|p: PartInfo| p.abbreviation@),
            decreases declared@.len() - i,
        {
            v.push(declared[i].abbreviation.clone());
            proof {
                assert(declared@.take(i + 1).map_values(|p: PartInfo| p.abbreviation@) =~= declared@.take(
                    i as int,
                ).map_values(|p: PartInfo| p.abbreviation@).push(declared@[i as int].abbreviation@));
                assert(v@.map_values(|s: String| s@) =~= declared@.take(i + 1).map_values(|p: PartInfo| p.abbreviation@));
            }
            i += 1;
        }
        proof {
            assert(declared@.take(i as int) =~= declared@);
        }
        names = v;
    }
    names
}

} // verus!
