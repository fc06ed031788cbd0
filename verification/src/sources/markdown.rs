//! Markdown notes and memory files, one chunk per file.
use vstd::prelude::*;

use super::{opt_view, ItemChunk, ItemKind};
use crate::dates::{naive_date_millis, parse_naive_date_millis};
use crate::text::{
    byte_len, chars_of, contains_text, find_text, occurs_at, push_text, string_from_range,
    text_contains, trim_range, trim_ws, truncate_utf8, utf8_len, utf8_truncate,
};

verus! {

pub struct MarkdownSource {
    globs: Vec<String>,
}

impl MarkdownSource {
    /// The glob patterns naming the files of this source.
    pub closed spec fn spec_globs(&self) -> Seq<String> {
        self.globs@
    }

    pub fn new(globs: Vec<String>) -> (s: Self)
        ensures
            s.spec_globs() == globs@,
    {
        Self { globs }
    }

    /// The glob patterns naming the files of this source.
    pub fn globs(&self) -> (g: &Vec<String>)
        ensures
            g@ == self.spec_globs(),
    {
        &self.globs
    }

    /// The name under which this source's items are indexed.
    pub fn name(&self) -> (n: &'static str)
        ensures
            n@ == "notes"@,
    {
        "notes"
    }
}

// ---------------------------------------------------------------------------
// Title: the first `# ` heading
// ---------------------------------------------------------------------------

/// Length of the first line of `s`: the characters before the first newline.
pub open spec fn line_len(s: Seq<char>) -> nat
    decreases s.len(),
{
    if s.len() == 0 {
        0
    } else if s[0] == '\n' {
        0
    } else {
        1 + line_len(s.drop_first())
    }
}

/// The line is a level-one heading: it starts with `# `.
pub open spec fn starts_heading(line: Seq<char>) -> bool {
    line.len() >= 2 && line[0] == '#' && line[1] == ' '
}

/// The first line of `s` that is a level-one heading.
pub open spec fn first_heading_line(s: Seq<char>) -> Option<Seq<char>>
    decreases s.len(),
{
    let e = line_len(s);
    if starts_heading(s.take(e as int)) {
        Some(s.take(e as int))
    } else if e >= s.len() {
        None
    } else {
        first_heading_line(s.skip(e as int + 1))
    }
}

/// `s` without the `# ` marks it starts with (`trim_start_matches("# ")`).
pub open spec fn strip_heading_marks(s: Seq<char>) -> Seq<char>
    decreases s.len(),
{
    if starts_heading(s) {
        strip_heading_marks(s.skip(2))
    } else {
        s
    }
}

/// The title of a note: its first level-one heading, without the marks, trimmed.
pub open spec fn heading_title(s: Seq<char>) -> Option<Seq<char>> {
    match first_heading_line(s) {
        Some(l) => Some(trim_ws(strip_heading_marks(l))),
        None => None,
    }
}

proof fn lemma_line_len(s: Seq<char>)
    ensures
        line_len(s) <= s.len(),
        forall|i: int| 0 <= i < line_len(s) ==> s[i] != '\n',
        line_len(s) < s.len() ==> s[line_len(s) as int] == '\n',
    decreases s.len(),
{
    if s.len() > 0 && s[0] != '\n' {
        lemma_line_len(s.drop_first());
        assert forall|i: int| 0 <= i < line_len(s) implies s[i] != '\n' by {
            if i > 0 {
                assert(s[i] == s.drop_first()[i - 1]);
            }
        }
    }
}

proof fn lemma_line_len_from(s: Seq<char>, k: int)
    requires
        0 <= k <= line_len(s),
    ensures
        line_len(s) == k + line_len(s.skip(k)),
    decreases k,
{
    lemma_line_len(s);
    if k > 0 {
        assert(s.skip(k) =~= s.drop_first().skip(k - 1));
        lemma_line_len_from(s.drop_first(), k - 1);
    } else {
        assert(s.skip(0) =~= s);
    }
}

impl MarkdownSource {
    /// The title of a note: its first line that starts with `# `, without those marks
    /// (repeated) and without surrounding white space.
    pub fn extract_title(content: &str) -> (t: Option<String>)
        ensures
            opt_view(t) == heading_title(content@),
    {
        let chars = chars_of(content);
        let ghost s = content@;
        let n = chars.len();
        let mut pos: usize = 0;
        assert(s.skip(0) =~= s);
        while pos <= n
            invariant
                n == chars.len(),
                chars@ == s,
                s == content@,
                pos <= n,
                first_heading_line(s) == first_heading_line(s.skip(pos as int)),
            decreases n + 1 - pos,
        {
            let ghost rest = s.skip(pos as int);
            let mut e = pos;
            proof {
                lemma_line_len(rest);
            }
            while e < n && chars[e] != '\n'
                invariant
                    pos <= e <= n,
                    n == chars.len(),
                    chars@ == s,
                    rest == s.skip(pos as int),
                    first_heading_line(s) == first_heading_line(rest),
                    e - pos <= line_len(rest),
                    forall|j: int| pos <= j < e ==> s[j] != '\n',
                decreases n - e,
            {
                proof {
                    lemma_line_len(rest);
                    if e - pos == line_len(rest) {
                        assert(rest[(e - pos) as int] == s[e as int]);
                    }
                }
                e += 1;
            }
            proof {
                lemma_line_len(rest);
                lemma_line_len_from(rest, (e - pos) as int);
                assert(rest.skip((e - pos) as int) =~= s.skip(e as int));
                lemma_line_len(s.skip(e as int));
                if e < n {
                    assert(s.skip(e as int)[0] == s[e as int]);
                }
            }
            let ghost line = rest.take((e - pos) as int);
            assert(line =~= chars@.subrange(pos as int, e as int));
            assert(line_len(rest) == e - pos);
            assert(e - pos >= 2 ==> line[0] == chars@[pos as int] && line[1] == chars@[pos + 1]);
            if e - pos >= 2 && chars[pos] == '#' && chars[pos + 1] == ' ' {
                assert(starts_heading(line));
                assert(first_heading_line(rest) == Some(line));
                let mut a = pos;
                while e - a >= 2 && chars[a] == '#' && chars[a + 1] == ' '
                    invariant
                        pos <= a <= e <= n,
                        n == chars.len(),
                        chars@ == s,
                        first_heading_line(s) == first_heading_line(rest),
                        first_heading_line(rest) == Some(line),
                        strip_heading_marks(line) == strip_heading_marks(
                            chars@.subrange(a as int, e as int),
                        ),
                    decreases e - a,
                {
                    assert(chars@.subrange(a as int, e as int).skip(2) =~= chars@.subrange(
                        a + 2,
                        e as int,
                    ));
                    a += 2;
                }
                let ghost body = chars@.subrange(a as int, e as int);
                assert(!starts_heading(body) ==> strip_heading_marks(body) == body);
                assert(!starts_heading(body));
                let (x, y) = trim_range(&chars, a, e);
                let title = string_from_range(&chars, x, y);
                return Some(title);
            }
            assert(!starts_heading(line));
            if e >= n {
                assert(rest.take((e - pos) as int) =~= line);
                assert(line_len(rest) >= rest.len());
                assert(first_heading_line(rest) is None);
                return None;
            }
            assert(rest.skip((e - pos) + 1) =~= s.skip(e + 1));
            pos = e + 1;
        }
        None
    }
}

// ---------------------------------------------------------------------------
// Date from the file name
// ---------------------------------------------------------------------------

/// Where `needle` first occurs in `hay`.
pub open spec fn first_occurrence(hay: Seq<char>, needle: Seq<char>) -> Option<int> {
    if contains_text(hay, needle) {
        Some(
            choose|i: int|
                occurs_at(hay, needle, i) && forall|j: int| 0 <= j < i ==> !occurs_at(hay, needle, j),
        )
    } else {
        None
    }
}

/// What looking for a date in a file name gives.
#[derive(Debug, Clone, Copy, PartialEq, Eq, Structural)]
pub enum DateScan {
    /// A date at this Unix time (milliseconds, start of the day, UTC).
    Found(i64),
    /// No date.
    Missing,
    /// Ten bytes from a year pattern end inside a character; the lookup cannot go on.
    CutInsideChar,
}

/// What is found where a year pattern is looked for in a file name.
#[derive(Debug)]
pub enum DateCut {
    /// The pattern does not occur.
    Absent,
    /// Fewer than ten bytes follow where it first occurs.
    TooShort,
    /// Ten bytes from there end inside a character.
    CutInsideChar,
    /// The ten bytes from there, to be read as `%Y-%m-%d`.
    Head(String),
}

/// What a [`DateCut`] holds.
pub enum DateCutView {
    Absent,
    TooShort,
    CutInsideChar,
    Head(Seq<char>),
}

impl View for DateCut {
    type V = DateCutView;

    open spec fn view(&self) -> DateCutView {
        match self {
            DateCut::Absent => DateCutView::Absent,
            DateCut::TooShort => DateCutView::TooShort,
            DateCut::CutInsideChar => DateCutView::CutInsideChar,
            DateCut::Head(h) => DateCutView::Head(h@),
        }
    }
}

/// The year patterns looked for, in order.
pub open spec fn date_patterns() -> Seq<Seq<char>> {
    seq!["2026-"@, "2025-"@, "2024-"@]
}

/// What is found where pattern `p` first occurs in `stem`.
pub open spec fn date_cut(stem: Seq<char>, p: Seq<char>) -> DateCutView {
    match first_occurrence(stem, p) {
        Some(i) => {
            let tail = stem.skip(i);
            if utf8_len(tail) >= 10 {
                let head = utf8_truncate(tail, 10);
                if utf8_len(head) != 10 {
                    DateCutView::CutInsideChar
                } else {
                    DateCutView::Head(head)
                }
            } else {
                DateCutView::TooShort
            }
        },
        None => DateCutView::Absent,
    }
}

/// The outcome of one pattern, given what was found and, for ten bytes, the date read
/// from them (`None` when they do not read as a date): the date, a failure, or `None` to
/// go on with the next pattern.
pub open spec fn pattern_outcome(cut: DateCutView, parsed: Option<i64>) -> Option<DateScan> {
    match cut {
        DateCutView::CutInsideChar => Some(DateScan::CutInsideChar),
        DateCutView::Head(_) => match parsed {
            Some(ms) => Some(DateScan::Found(ms)),
            None => None,
        },
        _ => None,
    }
}

/// Looking for pattern `p` in `stem`: the date there if one reads, a failure, or `None`
/// to go on with the next pattern.
pub open spec fn pattern_step(stem: Seq<char>, p: Seq<char>) -> Option<DateScan> {
    let cut = date_cut(stem, p);
    pattern_outcome(
        cut,
        match cut {
            DateCutView::Head(h) => naive_date_millis(h, "%Y-%m-%d"@),
            _ => None,
        },
    )
}

/// Looking for a date in `stem`, trying each pattern in turn: the first ten bytes from
/// where the pattern first occurs, read as `%Y-%m-%d`.
pub open spec fn scan_date(stem: Seq<char>, pats: Seq<Seq<char>>) -> DateScan
    decreases pats.len(),
{
    if pats.len() == 0 {
        DateScan::Missing
    } else {
        match pattern_step(stem, pats[0]) {
            Some(d) => d,
            None => scan_date(stem, pats.drop_first()),
        }
    }
}

proof fn lemma_first_occurrence(hay: Seq<char>, needle: Seq<char>, i: int)
    requires
        occurs_at(hay, needle, i),
        forall|j: int| 0 <= j < i ==> !occurs_at(hay, needle, j),
    ensures
        first_occurrence(hay, needle) == Some(i),
{
    let k = choose|k: int|
        occurs_at(hay, needle, k) && forall|j: int| 0 <= j < k ==> !occurs_at(hay, needle, j);
    assert(occurs_at(hay, needle, k));
    if k < i {
        assert(!occurs_at(hay, needle, k));
    }
    if i < k {
        assert(!occurs_at(hay, needle, i));
    }
}

/// What is found where pattern `pat` first occurs in `stem`.
pub fn date_cut_at(stem: &str, pat: &str) -> (r: DateCut)
    ensures
        r@ == date_cut(stem@, pat@),
{
    let sc = chars_of(stem);
    let pc = chars_of(pat);
    match find_text(&sc, &pc) {
        Some(i) => {
            proof {
                lemma_first_occurrence(stem@, pat@, i as int);
            }
            let tail = string_from_range(&sc, i, sc.len());
            assert(tail@ =~= stem@.skip(i as int));
            if byte_len(tail.as_str()) >= 10 {
                let head = truncate_utf8(tail.as_str(), 10);
                if byte_len(head.as_str()) != 10 {
                    DateCut::CutInsideChar
                } else {
                    DateCut::Head(head)
                }
            } else {
                DateCut::TooShort
            }
        },
        None => DateCut::Absent,
    }
}

/// The outcome of one pattern, given what was found and the date read from the ten
/// bytes (see [`pattern_outcome`]).
pub fn pattern_outcome_of(cut: &DateCut, parsed: Option<i64>) -> (r: Option<DateScan>)
    ensures
        r == pattern_outcome(cut@, parsed),
{
    match cut {
        DateCut::CutInsideChar => Some(DateScan::CutInsideChar),
        DateCut::Head(_) => match parsed {
            Some(ms) => Some(DateScan::Found(ms)),
            None => None,
        },
        _ => None,
    }
}

fn pattern_step_exec(stem: &str, pat: &str) -> (r: Option<DateScan>)
    ensures
        r == pattern_step(stem@, pat@),
{
    let cut = date_cut_at(stem, pat);
    let parsed = match &cut {
        DateCut::Head(h) => match parse_naive_date_millis(h.as_str(), "%Y-%m-%d") {
            Ok(ms) => Some(ms),
            Err(_) => None,
        },
        _ => None,
    };
    pattern_outcome_of(&cut, parsed)
}

impl MarkdownSource {
    /// Looks for a date in a file name's stem (a year from 2024 to 2026 followed by `-MM-DD`).
    pub fn scan_date_in_stem(stem: &str) -> (r: DateScan)
        ensures
            r == scan_date(stem@, date_patterns()),
    {
        let ghost pats = date_patterns();
        assert(pats[0] == "2026-"@);
        assert(pats.drop_first()[0] == "2025-"@);
        assert(pats.drop_first().drop_first()[0] == "2024-"@);
        assert(pats.drop_first().drop_first().drop_first().len() == 0);
        proof {
            reveal_with_fuel(scan_date, 4);
        }
        match pattern_step_exec(stem, "2026-") {
            Some(d) => d,
            None => match pattern_step_exec(stem, "2025-") {
                Some(d) => d,
                None => match pattern_step_exec(stem, "2024-") {
                    Some(d) => d,
                    None => DateScan::Missing,
                },
            },
        }
    }

    /// The day a note is about, read from its file name's stem, in Unix milliseconds.
    pub fn extract_date_from_filename(stem: &str) -> (r: Option<i64>)
        requires
            scan_date(stem@, date_patterns()) != DateScan::CutInsideChar,
        ensures
            r == match scan_date(stem@, date_patterns()) {
                DateScan::Found(ms) => Some(ms),
                _ => None,
            },
    {
        match Self::scan_date_in_stem(stem) {
            DateScan::Found(ms) => Some(ms),
            _ => None,
        }
    }
}

// ---------------------------------------------------------------------------
// The chunk of a note
// ---------------------------------------------------------------------------

/// A file stem, empty when the path has none.
pub open spec fn stem_or_empty(stem: Option<Seq<char>>) -> Seq<char> {
    match stem {
        Some(s) => s,
        None => seq![],
    }
}

/// A note's stem would make the date lookup stop inside a character.
pub open spec fn date_lookup_fails(stem: Option<Seq<char>>) -> bool {
    stem matches Some(s) && scan_date(s, date_patterns()) == DateScan::CutInsideChar
}

/// The time of a note: the date in its file name, else its modification time.
pub open spec fn note_timestamp(stem: Option<Seq<char>>, modified_ms: i64) -> i64 {
    match stem {
        Some(s) => match scan_date(s, date_patterns()) {
            DateScan::Found(ms) => ms,
            _ => modified_ms,
        },
        None => modified_ms,
    }
}

/// The kind of a note: memory files have `MEMORY` in their path.
pub open spec fn note_kind(item_id: Seq<char>) -> ItemKind {
    if contains_text(item_id, "MEMORY"@) {
        ItemKind::Memory
    } else {
        ItemKind::Note
    }
}

/// A note is a memory file exactly when its path holds the text `MEMORY` (in capitals),
/// and a plain note otherwise.
pub proof fn law_note_kind(item_id: Seq<char>)
    ensures
        (note_kind(item_id) == ItemKind::Memory) <==> (exists|i: int|
            0 <= i && i + 6 <= item_id.len() && #[trigger] item_id.subrange(i, i + 6) == "MEMORY"@),
        note_kind(item_id) == ItemKind::Memory || note_kind(item_id) == ItemKind::Note,
{
    reveal_strlit("MEMORY");
    assert("MEMORY"@.len() == 6);
    if note_kind(item_id) == ItemKind::Memory {
        let i = choose|i: int| occurs_at(item_id, "MEMORY"@, i);
        assert(item_id.subrange(i, i + 6) == "MEMORY"@);
    }
    if exists|i: int|
        0 <= i && i + 6 <= item_id.len() && #[trigger] item_id.subrange(i, i + 6) == "MEMORY"@ {
        let i = choose|i: int|
            0 <= i && i + 6 <= item_id.len() && #[trigger] item_id.subrange(i, i + 6) == "MEMORY"@;
        assert(occurs_at(item_id, "MEMORY"@, i));
    }
}

/// `c` is the one chunk of the note at path `item_id`.
pub open spec fn is_note_chunk(
    c: ItemChunk,
    item_id: Seq<char>,
    stem: Option<Seq<char>>,
    content: Seq<char>,
    modified_ms: i64,
) -> bool {
    &&& c.item_id@ == item_id
    &&& c.chunk_id@ == "notes:"@ + stem_or_empty(stem)
    &&& c.source@ == "notes"@
    &&& c.kind == note_kind(item_id)
    &&& opt_view(c.title) == heading_title(content)
    &&& c.timestamp == note_timestamp(stem, modified_ms)
    &&& c.ordinal == 0
    &&& c.content@ == content
    &&& c.role is None
    &&& opt_view(c.path) == Some(item_id)
}

impl MarkdownSource {
    /// The chunk of the note at path `item_id`, whose file stem is `stem`, holding
    /// `content` and last modified at `modified_ms` (0 when unknown).
    pub fn build_chunks(item_id: &str, stem: &Option<String>, content: String, modified_ms: i64) -> (chunks:
        Vec<ItemChunk>)
        requires
            !date_lookup_fails(opt_view(*stem)),
        ensures
            chunks.len() == 1,
            is_note_chunk(chunks@[0], item_id@, opt_view(*stem), content@, modified_ms),
            (chunks@[0].kind == ItemKind::Memory) <==> (exists|i: int|
                0 <= i && i + 6 <= item_id@.len() && #[trigger] item_id@.subrange(i, i + 6)
                    == "MEMORY"@),
            chunks@[0].kind == ItemKind::Memory || chunks@[0].kind == ItemKind::Note,
    {
        proof {
            law_note_kind(item_id@);
        }
        let title = Self::extract_title(content.as_str());
        let timestamp = match stem {
            Some(s) => match Self::extract_date_from_filename(s.as_str()) {
                Some(ms) => ms,
                None => modified_ms,
            },
            None => modified_ms,
        };
        let kind = if text_contains(item_id, "MEMORY") {
            ItemKind::Memory
        } else {
            ItemKind::Note
        };
        let mut chunk_id = String::from_str("notes:");
        match stem {
            Some(s) => push_text(&mut chunk_id, s.as_str()),
            None => {},
        }
        assert(chunk_id@ =~= "notes:"@ + stem_or_empty(opt_view(*stem)));
        let chunk = ItemChunk {
            item_id: String::from_str(item_id),
            chunk_id,
            source: String::from_str("notes"),
            kind,
            title,
            timestamp,
            ordinal: 0,
            content,
            role: None,
            path: Some(String::from_str(item_id)),
        };
        let mut chunks: Vec<ItemChunk> = Vec::new();
        chunks.push(chunk);
        chunks
    }

    /// The chunk of a note as [`MarkdownSource::build_chunks`] gives it, or `None` where the
    /// date lookup in the file name stops inside a character.
    pub fn try_build_chunks(
        item_id: &str,
        stem: &Option<String>,
        content: String,
        modified_ms: i64,
    ) -> (r: Option<Vec<ItemChunk>>)
        ensures
            r is None <==> date_lookup_fails(opt_view(*stem)),
            r matches Some(chunks) ==> chunks.len() == 1 && is_note_chunk(
                chunks@[0],
                item_id@,
                opt_view(*stem),
                content@,
                modified_ms,
            ),
    {
        let fails = match stem {
            Some(s) => match Self::scan_date_in_stem(s.as_str()) {
                DateScan::CutInsideChar => true,
                _ => false,
            },
            None => false,
        };
        if fails {
            None
        } else {
            Some(Self::build_chunks(item_id, stem, content, modified_ms))
        }
    }
}

} // verus!
