//! Moltis sessions: one JSONL file, its entries grouped into sessions by `run_id`.
use std::path::PathBuf;
use vstd::prelude::*;

use super::{
    text_or_empty, file_fingerprint, file_fingerprint_text, numbered_id, ItemChunk, ItemKind, SourceItemMeta,
};
use crate::text::{
    first_occurrences,
    byte_len, colon_joined, decimal, push_text, same_text, truncate_utf8, utf8_len, utf8_truncate,
};
use crate::turns::{group_turns, turn_groups, GroupView, LineView, TurnLine};

verus! {

pub struct MoltisSource {
    jsonl_path: PathBuf,
}

impl MoltisSource {
    /// The JSONL file this source reads.
    pub closed spec fn spec_jsonl_path(&self) -> PathBuf {
        self.jsonl_path
    }

    pub fn new(jsonl_path: PathBuf) -> (s: Self)
        ensures
            s.spec_jsonl_path() == jsonl_path,
    {
        Self { jsonl_path }
    }

    /// The JSONL file this source reads.
    pub fn jsonl_path(&self) -> (p: &PathBuf)
        ensures
            *p == self.spec_jsonl_path(),
    {
        &self.jsonl_path
    }

    /// The name under which this source's items are indexed.
    pub fn name(&self) -> (n: &'static str)
        ensures
            n@ == "moltis"@,
    {
        "moltis"
    }
}

/// One line of the JSONL file.
pub struct MoltisEntry {
    pub content: Option<String>,
    pub created_at: Option<i64>,
    pub role: Option<String>,
    pub run_id: Option<String>,
    pub seq: Option<u32>,
    pub tool_name: Option<String>,
    /// The `result` value, written out as JSON text.
    pub result: Option<String>,
}

/// A message of one session, before ordering.
pub struct MoltisMessage {
    pub role: String,
    pub content: String,
    pub timestamp: i64,
    pub seq: u32,
}

/// What a [`MoltisMessage`] holds.
pub struct MoltisMessageView {
    pub role: Seq<char>,
    pub content: Seq<char>,
    pub timestamp: i64,
    pub seq: u32,
}

impl View for MoltisMessage {
    type V = MoltisMessageView;

    open spec fn view(&self) -> MoltisMessageView {
        MoltisMessageView {
            role: self.role@,
            content: self.content@,
            timestamp: self.timestamp,
            seq: self.seq,
        }
    }
}

/// The views of a sequence of messages.
pub open spec fn messages_view(ms: Seq<MoltisMessage>) -> Seq<MoltisMessageView> {
    ms.map_values(|m: MoltisMessage| m@)
}

// ---------------------------------------------------------------------------
// Sessions of the file
// ---------------------------------------------------------------------------

/// The run ids of the entries that have one, in file order.
pub open spec fn run_ids_of(es: Seq<MoltisEntry>) -> Seq<Seq<char>>
    decreases es.len(),
{
    if es.len() == 0 {
        seq![]
    } else {
        let rest = run_ids_of(es.drop_last());
        match es.last().run_id {
            Some(r) => rest.push(r@),
            None => rest,
        }
    }
}

/// The session ids of the file, each once, in order of first appearance.
pub open spec fn session_ids(es: Seq<MoltisEntry>) -> Seq<Seq<char>> {
    first_occurrences(run_ids_of(es))
}

/// Every session of the file is listed once, and only sessions of the file are listed.
pub proof fn law_sessions_listed_once(es: Seq<MoltisEntry>)
    ensures
        session_ids(es).no_duplicates(),
        forall|id: Seq<char>| #[trigger] session_ids(es).contains(id) <==> run_ids_of(es).contains(id),
{
    crate::text::lemma_first_occurrences(run_ids_of(es));
}

fn contains_id(ids: &Vec<String>, id: &String) -> (r: bool)
    ensures
        r == ids@.map_values(|s: String| s@).contains(id@),
{
    let ghost v = ids@.map_values(|s: String| s@);
    let mut i: usize = 0;
    while i < ids.len()
        invariant
            i <= ids.len(),
            v == ids@.map_values(|s: String| s@),
            forall|j: int| 0 <= j < i ==> v[j] != id@,
        decreases ids.len() - i,
    {
        if ids[i] == *id {
            assert(v[i as int] == id@);
            return true;
        }
        i += 1;
    }
    false
}

impl MoltisSource {
    /// The session ids found in the file, each once, in order of first appearance.
    pub fn run_ids(entries: &Vec<MoltisEntry>) -> (ids: Vec<String>)
        ensures
            ids@.map_values(|s: String| s@) == session_ids(entries@),
    {
        let mut ids: Vec<String> = Vec::new();
        let mut i: usize = 0;
        while i < entries.len()
            invariant
                i <= entries.len(),
                ids@.map_values(|s: String| s@) == first_occurrences(
                    run_ids_of(entries@.take(i as int)),
                ),
            decreases entries.len() - i,
        {
            assert(entries@.take(i + 1).drop_last() =~= entries@.take(i as int));
            assert(entries@.take(i + 1).last() == entries@[i as int]);
            let ghost prev = run_ids_of(entries@.take(i as int));
            match &entries[i].run_id {
                Some(rid) => {
                    assert(run_ids_of(entries@.take(i + 1)) == prev.push(rid@));
                    assert(prev.push(rid@).drop_last() =~= prev);
                    let ghost before = ids@.map_values(|s: String| s@);
                    if !contains_id(&ids, rid) {
                        ids.push(rid.clone());
                        assert(ids@.map_values(|s: String| s@) =~= before.push(rid@));
                    }
                },
                None => {},
            }
            i += 1;
        }
        assert(entries@.take(entries.len() as int) =~= entries@);
        ids
    }

    /// The sessions of the file, each with the file's fingerprint `size:mtime`.
    pub fn scan_items(entries: &Vec<MoltisEntry>, size: u64, mtime_secs: u64) -> (items: Vec<
        SourceItemMeta,
    >)
        ensures
            items.len() == session_ids(entries@).len(),
            forall|k: int|
                0 <= k < items.len() ==> (#[trigger] items@[k]).item_id@ == session_ids(entries@)[k]
                    && items@[k].fingerprint@ == file_fingerprint_text(size, mtime_secs),
    {
        let ids = Self::run_ids(entries);
        let ghost idv = ids@.map_values(|s: String| s@);
        let mut items: Vec<SourceItemMeta> = Vec::new();
        let mut k: usize = 0;
        while k < ids.len()
            invariant
                k <= ids.len(),
                idv == ids@.map_values(|s: String| s@),
                idv == session_ids(entries@),
                items.len() == k,
                forall|j: int|
                    0 <= j < k ==> (#[trigger] items@[j]).item_id@ == idv[j]
                        && items@[j].fingerprint@ == file_fingerprint_text(size, mtime_secs),
            decreases ids.len() - k,
        {
            items.push(
                SourceItemMeta {
                    item_id: ids[k].clone(),
                    fingerprint: file_fingerprint(size, mtime_secs),
                },
            );
            k += 1;
        }
        items
    }
}

// ---------------------------------------------------------------------------
// Ordering the messages of a session
// ---------------------------------------------------------------------------

/// `a` comes no later than `b` when ordering by `(seq, created_at)`.
pub open spec fn key_le(a: MoltisMessageView, b: MoltisMessageView) -> bool {
    a.seq < b.seq || (a.seq == b.seq && a.timestamp <= b.timestamp)
}

/// `s` is ordered by `(seq, created_at)`.
pub open spec fn sorted_by_key(s: Seq<MoltisMessageView>) -> bool {
    forall|i: int, j: int| 0 <= i < j < s.len() ==> key_le(#[trigger] s[i], #[trigger] s[j])
}

/// The messages of `s` with key `(seq, ts)`, in order.
pub open spec fn with_key(s: Seq<MoltisMessageView>, seq: u32, ts: i64) -> Seq<MoltisMessageView> {
    s.filter(|m: MoltisMessageView| m.seq == seq && m.timestamp == ts)
}

/// `out` is `inp` ordered by `(seq, created_at)`, messages with equal keys keeping
/// their relative order (a stable sort).
pub open spec fn is_stable_sort_of(out: Seq<MoltisMessageView>, inp: Seq<MoltisMessageView>) -> bool {
    &&& out.len() == inp.len()
    &&& sorted_by_key(out)
    &&& forall|seq: u32, ts: i64| #[trigger] with_key(out, seq, ts) == with_key(inp, seq, ts)
}

proof fn lemma_insert_sorted(o: Seq<MoltisMessageView>, p: int, x: MoltisMessageView)
    requires
        sorted_by_key(o),
        0 <= p <= o.len(),
        forall|j: int| 0 <= j < p ==> key_le(#[trigger] o[j], x),
        p < o.len() ==> !key_le(o[p], x),
    ensures
        sorted_by_key(o.insert(p, x)),
        forall|seq: u32, ts: i64|
            #[trigger] with_key(o.insert(p, x), seq, ts) == if x.seq == seq && x.timestamp == ts {
                with_key(o, seq, ts).push(x)
            } else {
                with_key(o, seq, ts)
            },
{
    let n = o.insert(p, x);
    let a = o.subrange(0, p);
    let b = o.subrange(p, o.len() as int);
    assert(n =~= a.push(x) + b);
    assert(o =~= a + b);
    // Everything after the insertion point comes strictly after `x`.
    assert forall|j: int| p <= j < o.len() implies !key_le(#[trigger] o[j], x) && key_le(x, o[j]) by {
        if j > p {
            assert(key_le(o[p], o[j]));
        }
    }
    assert forall|i: int, j: int| 0 <= i < j < n.len() implies key_le(#[trigger] n[i], #[trigger] n[j]) by {
        if j < p {
            assert(n[i] == o[i] && n[j] == o[j]);
        } else if j == p {
            assert(n[i] == o[i] && n[j] == x);
        } else if i < p {
            assert(n[i] == o[i] && n[j] == o[j - 1]);
        } else if i == p {
            assert(n[i] == x && n[j] == o[j - 1]);
        } else {
            assert(n[i] == o[i - 1] && n[j] == o[j - 1]);
        }
    }
    assert forall|seq: u32, ts: i64|
        #[trigger] with_key(n, seq, ts) == if x.seq == seq && x.timestamp == ts {
            with_key(o, seq, ts).push(x)
        } else {
            with_key(o, seq, ts)
        } by {
        let pred = |m: MoltisMessageView| m.seq == seq && m.timestamp == ts;
        Seq::filter_distributes_over_add(a.push(x), b, pred);
        Seq::filter_distributes_over_add(a, b, pred);
        a.lemma_filter_push(x, pred);
        if x.seq == seq && x.timestamp == ts {
            assert forall|j: int| 0 <= j < b.len() implies !pred(#[trigger] b[j]) by {
                assert(b[j] == o[p + j]);
            }
            assert(b.all(|m: MoltisMessageView| !pred(m)));
            b.lemma_all_neg_filter_empty(pred);
            assert(b.filter(pred) =~= Seq::<MoltisMessageView>::empty());
            assert(with_key(n, seq, ts) =~= a.filter(pred).push(x));
            assert(with_key(o, seq, ts).push(x) =~= a.filter(pred).push(x));
        }
    }
}

proof fn lemma_with_key_step(s: Seq<MoltisMessageView>, seq: u32, ts: i64)
    requires
        s.len() > 0,
    ensures
        with_key(s, seq, ts) == if s.last().seq == seq && s.last().timestamp == ts {
            with_key(s.drop_last(), seq, ts).push(s.last())
        } else {
            with_key(s.drop_last(), seq, ts)
        },
{
    reveal(Seq::filter);
}

/// A message with key `(seq, ts)` occurs in `s` when `s` has any.
proof fn lemma_with_key_witness(s: Seq<MoltisMessageView>, seq: u32, ts: i64) -> (j: int)
    requires
        with_key(s, seq, ts).len() > 0,
    ensures
        0 <= j < s.len(),
        s[j].seq == seq && s[j].timestamp == ts,
{
    let pred = |m: MoltisMessageView| m.seq == seq && m.timestamp == ts;
    s.filter_lemma(pred);
    let e = s.filter(pred)[0];
    assert(s.filter(pred).contains(e));
    s.lemma_filter_contains_rev(pred, e);
    let j = choose|j: int| 0 <= j < s.len() && s[j] == e;
    j
}

/// There is only one stable sort: two orderings of the same messages by `(seq, created_at)`
/// that keep equal keys in the order they came in are the same sequence.
pub proof fn law_stable_sort_unique(
    a: Seq<MoltisMessageView>,
    b: Seq<MoltisMessageView>,
    inp: Seq<MoltisMessageView>,
)
    requires
        is_stable_sort_of(a, inp),
        is_stable_sort_of(b, inp),
    ensures
        a == b,
    decreases a.len(),
{
    if a.len() == 0 {
        assert(a =~= b);
    } else {
        let x = a.last();
        let y = b.last();
        lemma_with_key_step(a, x.seq, x.timestamp);
        lemma_with_key_step(b, y.seq, y.timestamp);
        assert(with_key(a, x.seq, x.timestamp) == with_key(inp, x.seq, x.timestamp));
        assert(with_key(b, x.seq, x.timestamp) == with_key(inp, x.seq, x.timestamp));
        assert(with_key(a, y.seq, y.timestamp) == with_key(inp, y.seq, y.timestamp));
        assert(with_key(b, y.seq, y.timestamp) == with_key(inp, y.seq, y.timestamp));
        let j = lemma_with_key_witness(b, x.seq, x.timestamp);
        let i = lemma_with_key_witness(a, y.seq, y.timestamp);
        if j < b.len() - 1 {
            assert(key_le(b[j], b[b.len() - 1]));
        }
        if i < a.len() - 1 {
            assert(key_le(a[i], a[a.len() - 1]));
        }
        assert(x.seq == y.seq && x.timestamp == y.timestamp);
        let wa = with_key(a, x.seq, x.timestamp);
        let wb = with_key(b, x.seq, x.timestamp);
        assert(wa == with_key(a.drop_last(), x.seq, x.timestamp).push(x));
        assert(wb == with_key(b.drop_last(), x.seq, x.timestamp).push(y));
        assert(wa.last() == x);
        assert(wb.last() == y);
        assert(wa == wb);
        assert(x == y);
        let a2 = a.drop_last();
        let b2 = b.drop_last();
        assert forall|seq: u32, ts: i64| #[trigger] with_key(a2, seq, ts) == with_key(b2, seq, ts) by {
            lemma_with_key_step(a, seq, ts);
            lemma_with_key_step(b, seq, ts);
            assert(with_key(a, seq, ts) == with_key(inp, seq, ts));
            assert(with_key(b, seq, ts) == with_key(inp, seq, ts));
            if x.seq == seq && x.timestamp == ts {
                assert(with_key(a2, seq, ts) == with_key(a, seq, ts).drop_last());
                assert(with_key(b2, seq, ts) == with_key(b, seq, ts).drop_last());
            }
        }
        assert(sorted_by_key(a2));
        assert(sorted_by_key(b2));
        assert(is_stable_sort_of(b2, a2));
        assert forall|seq: u32, ts: i64| #[trigger] with_key(a2, seq, ts) == with_key(a2, seq, ts) by {}
        assert(is_stable_sort_of(a2, a2));
        law_stable_sort_unique(a2, b2, a2);
        assert(a =~= a2.push(x));
        assert(b =~= b2.push(y));
    }
}

/// A copy of a message.
fn copy_message(m: &MoltisMessage) -> (c: MoltisMessage)
    ensures
        c@ == m@,
{
    MoltisMessage {
        role: m.role.clone(),
        content: m.content.clone(),
        timestamp: m.timestamp,
        seq: m.seq,
    }
}

/// The messages ordered by `(seq, created_at)`; messages with equal keys keep their order.
pub fn sort_messages(ms: &Vec<MoltisMessage>) -> (out: Vec<MoltisMessage>)
    ensures
        is_stable_sort_of(messages_view(out@), messages_view(ms@)),
{
    let ghost inp = messages_view(ms@);
    let mut out: Vec<MoltisMessage> = Vec::new();
    let mut i: usize = 0;
    assert(inp.take(0) =~= Seq::<MoltisMessageView>::empty());
    assert(messages_view(out@) =~= Seq::<MoltisMessageView>::empty());
    while i < ms.len()
        invariant
            i <= ms.len(),
            inp == messages_view(ms@),
            out.len() == i,
            sorted_by_key(messages_view(out@)),
            forall|seq: u32, ts: i64|
                #[trigger] with_key(messages_view(out@), seq, ts) == with_key(
                    inp.take(i as int),
                    seq,
                    ts,
                ),
        decreases ms.len() - i,
    {
        let x = copy_message(&ms[i]);
        let ghost o = messages_view(out@);
        let mut p: usize = 0;
        while p < out.len() && (out[p].seq < x.seq || (out[p].seq == x.seq && out[p].timestamp
            <= x.timestamp))
            invariant
                p <= out.len(),
                o == messages_view(out@),
                forall|j: int| 0 <= j < p ==> key_le(#[trigger] o[j], x@),
            decreases out.len() - p,
        {
            p += 1;
        }
        proof {
            lemma_insert_sorted(o, p as int, x@);
            assert(inp.take(i + 1) =~= inp.take(i as int).push(x@));
            assert forall|seq: u32, ts: i64|
                #[trigger] with_key(inp.take(i + 1), seq, ts) == if x@.seq == seq && x@.timestamp
                    == ts {
                    with_key(inp.take(i as int), seq, ts).push(x@)
                } else {
                    with_key(inp.take(i as int), seq, ts)
                } by {
                inp.take(i as int).lemma_filter_push(
                    x@,
                    |m: MoltisMessageView| m.seq == seq && m.timestamp == ts,
                );
            }
        }
        let ghost xv = x@;
        out.insert(p, x);
        assert(messages_view(out@) =~= o.insert(p as int, xv));
        i += 1;
    }
    assert(inp.take(ms.len() as int) =~= inp);
    out
}

// ---------------------------------------------------------------------------
// Chunks of a session
// ---------------------------------------------------------------------------

/// A tool result as kept in a chunk: cut at 2048 bytes, marked when cut.
pub open spec fn result_text(r: Seq<char>) -> Seq<char> {
    if utf8_len(r) > 2048 {
        utf8_truncate(r, 2048) + "...[truncated]"@
    } else {
        r
    }
}

/// The message an entry contributes to its session.
pub open spec fn entry_message(e: MoltisEntry) -> MoltisMessageView {
    let role = text_or_empty(e.role);
    let content = if role == "tool_result"@ {
        let name = match e.tool_name {
            Some(n) => n@,
            None => "unknown"@,
        };
        let result = match e.result {
            Some(r) => result_text(r@),
            None => seq![],
        };
        "[tool:"@ + name + "] "@ + result
    } else {
        text_or_empty(e.content)
    };
    MoltisMessageView {
        role,
        content,
        timestamp: match e.created_at {
            Some(t) => t,
            None => 0,
        },
        seq: match e.seq {
            Some(q) => q,
            None => 0,
        },
    }
}

/// What an entry contributes: a tool result is shown as `[tool:name] ` and the result,
/// kept whole when it fits in 2048 bytes, else its longest prefix of at most 2048 bytes
/// followed by `...[truncated]`; any other entry is shown by its whole content.
pub proof fn law_moltis_entry_message(e: MoltisEntry)
    ensures
        text_or_empty(e.role) != "tool_result"@ ==> entry_message(e).content == text_or_empty(
            e.content,
        ),
        text_or_empty(e.role) == "tool_result"@ && e.result is None ==> entry_message(e).content
            == "[tool:"@ + (match e.tool_name {
            Some(n) => n@,
            None => "unknown"@,
        }) + "] "@,
        text_or_empty(e.role) == "tool_result"@ && e.result is Some ==> exists|k: int|
            #![trigger e.result.unwrap()@.take(k)]
            0 <= k <= e.result.unwrap()@.len() && entry_message(e).content == "[tool:"@ + (
            match e.tool_name {
                Some(n) => n@,
                None => "unknown"@,
            }) + "] "@ + e.result.unwrap()@.take(k) + (if k < e.result.unwrap()@.len() {
                "...[truncated]"@
            } else {
                seq![]
            }) && utf8_len(e.result.unwrap()@.take(k)) <= 2048 && (k < e.result.unwrap()@.len()
                ==> utf8_len(e.result.unwrap()@.take(k + 1)) > 2048),
        entry_message(e).role == text_or_empty(e.role),
{
    let name = match e.tool_name {
        Some(n) => n@,
        None => "unknown"@,
    };
    if text_or_empty(e.role) == "tool_result"@ {
        match e.result {
            Some(rs) => {
                let r = rs@;
                crate::text::lemma_fit_count(r, 2048);
                let k = crate::text::fit_count(r, 2048) as int;
                if utf8_len(r) > 2048 {
                    if k == r.len() {
                        assert(r.take(k) =~= r);
                    }
                    assert(result_text(r) == r.take(k) + "...[truncated]"@);
                    assert(entry_message(e).content =~= "[tool:"@ + name + "] "@ + r.take(k) + (
                    if k < r.len() {
                        "...[truncated]"@
                    } else {
                        seq![]
                    }));
                } else {
                    crate::text::lemma_fit_count_all(r, 2048);
                    assert(r.take(k) =~= r);
                    assert(entry_message(e).content =~= "[tool:"@ + name + "] "@ + r.take(k) + (
                    if k < r.len() {
                        "...[truncated]"@
                    } else {
                        seq![]
                    }));
                }
            },
            None => {
                assert(entry_message(e).content =~= "[tool:"@ + name + "] "@);
            },
        }
    }
}

/// The entry belongs to session `id`.
pub open spec fn in_run(e: MoltisEntry, id: Seq<char>) -> bool {
    e.run_id matches Some(r) && r@ == id
}

/// The messages of session `id`, in file order.
pub open spec fn run_messages(es: Seq<MoltisEntry>, id: Seq<char>) -> Seq<MoltisMessageView>
    decreases es.len(),
{
    if es.len() == 0 {
        seq![]
    } else {
        let rest = run_messages(es.drop_last(), id);
        if in_run(es.last(), id) {
            rest.push(entry_message(es.last()))
        } else {
            rest
        }
    }
}

/// A message as it appears in a chunk: `role: content` and a blank line.
pub open spec fn moltis_line(m: MoltisMessageView) -> LineView {
    LineView {
        is_user: m.role == "user"@,
        text: m.role + ": "@ + m.content + "\n\n"@,
        timestamp: m.timestamp,
    }
}

/// The lines of ordered messages.
pub open spec fn moltis_lines(ms: Seq<MoltisMessageView>) -> Seq<LineView> {
    ms.map_values(|m: MoltisMessageView| moltis_line(m))
}

/// `c` is chunk number `k` of session `item_id`, made from group `g`.
pub open spec fn is_moltis_chunk(c: ItemChunk, item_id: Seq<char>, k: int, g: GroupView) -> bool {
    &&& c.item_id@ == item_id
    &&& c.chunk_id@ == colon_joined("moltis:"@ + item_id, decimal(k as nat))
    &&& c.source@ == "moltis"@
    &&& c.kind == ItemKind::Session
    &&& c.title is None
    &&& c.timestamp == g.timestamp
    &&& c.ordinal == k
    &&& c.content@ == g.content
    &&& super::opt_view(c.role) == Some("user"@)
    &&& c.path is None
}

/// Chunk number `ordinal` of session `item_id`.
pub fn make_chunk(item_id: &str, ordinal: u32, ts: i64, content: &str) -> (c: ItemChunk)
    ensures
        is_moltis_chunk(
            c,
            item_id@,
            ordinal as int,
            GroupView { content: content@, timestamp: ts, has_user: true },
        ),
{
    let mut base = String::from_str("moltis:");
    push_text(&mut base, item_id);
    ItemChunk {
        item_id: String::from_str(item_id),
        chunk_id: numbered_id(base.as_str(), ordinal),
        source: String::from_str("moltis"),
        kind: ItemKind::Session,
        title: None,
        timestamp: ts,
        ordinal,
        content: String::from_str(content),
        role: Some(String::from_str("user")),
        path: None,
    }
}

impl MoltisSource {
    /// The message an entry contributes to its session.
    pub fn entry_message(e: &MoltisEntry) -> (m: MoltisMessage)
        ensures
            m@ == entry_message(*e),
            text_or_empty(e.role) != "tool_result"@ ==> m.content@ == text_or_empty(e.content),
    {
        proof {
            law_moltis_entry_message(*e);
        }
        let role = match &e.role {
            Some(r) => r.clone(),
            None => String::new(),
        };
        let content = if same_text(role.as_str(), "tool_result") {
            let mut t = String::from_str("[tool:");
            match &e.tool_name {
                Some(n) => push_text(&mut t, n.as_str()),
                None => push_text(&mut t, "unknown"),
            }
            push_text(&mut t, "] ");
            match &e.result {
                Some(r) => {
                    let ghost before = t@;
                    if byte_len(r.as_str()) > 2048 {
                        let cut = truncate_utf8(r.as_str(), 2048);
                        push_text(&mut t, cut.as_str());
                        push_text(&mut t, "...[truncated]");
                    } else {
                        push_text(&mut t, r.as_str());
                    }
                    assert(t@ =~= before + result_text(r@));
                },
                None => {
                    assert(t@ =~= t@ + Seq::<char>::empty());
                },
            }
            t
        } else {
            match &e.content {
                Some(c) => c.clone(),
                None => String::new(),
            }
        };
        let timestamp = match e.created_at {
            Some(t) => t,
            None => 0,
        };
        let seq = match e.seq {
            Some(q) => q,
            None => 0,
        };
        assert(content@ =~= entry_message(*e).content);
        let m = MoltisMessage { role, content, timestamp, seq };
        m
    }

    /// The messages of session `item_id`, in file order.
    pub fn run_messages(entries: &Vec<MoltisEntry>, item_id: &str) -> (ms: Vec<MoltisMessage>)
        ensures
            messages_view(ms@) == run_messages(entries@, item_id@),
            ms.len() <= entries.len(),
    {
        let mut ms: Vec<MoltisMessage> = Vec::new();
        let mut i: usize = 0;
        assert(messages_view(ms@) =~= Seq::<MoltisMessageView>::empty());
        while i < entries.len()
            invariant
                i <= entries.len(),
                ms.len() <= i,
                messages_view(ms@) == run_messages(entries@.take(i as int), item_id@),
            decreases entries.len() - i,
        {
            assert(entries@.take(i + 1).drop_last() =~= entries@.take(i as int));
            assert(entries@.take(i + 1).last() == entries@[i as int]);
            let e = &entries[i];
            let belongs = match &e.run_id {
                Some(r) => same_text(r.as_str(), item_id),
                None => false,
            };
            if belongs {
                let ghost before = messages_view(ms@);
                let m = Self::entry_message(e);
                ms.push(m);
                assert(messages_view(ms@) =~= before.push(entry_message(entries@[i as int])));
            }
            i += 1;
        }
        assert(entries@.take(entries.len() as int) =~= entries@);
        ms
    }

    /// The chunks of session `item_id`: its messages ordered by `(seq, created_at)`,
    /// one chunk per user turn, with ids `moltis:item_id:0`, `moltis:item_id:1`, ...
    pub fn build_chunks(entries: &Vec<MoltisEntry>, item_id: &str) -> (chunks: Vec<ItemChunk>)
        requires
            entries.len() <= u32::MAX,
        ensures
            exists|ordered: Seq<MoltisMessageView>|
                {
                    &&& is_stable_sort_of(ordered, run_messages(entries@, item_id@))
                    &&& chunks.len() == turn_groups(moltis_lines(ordered)).len()
                    &&& forall|k: int|
                        0 <= k < chunks.len() ==> is_moltis_chunk(
                            #[trigger] chunks@[k],
                            item_id@,
                            k,
                            turn_groups(moltis_lines(ordered))[k],
                        )
                },
    {
        let ms = Self::run_messages(entries, item_id);
        let sorted = sort_messages(&ms);
        let ghost ordered = messages_view(sorted@);
        let mut lines: Vec<TurnLine> = Vec::new();
        let mut i: usize = 0;
        while i < sorted.len()
            invariant
                i <= sorted.len(),
                ordered == messages_view(sorted@),
                lines.len() == i,
                forall|j: int| 0 <= j < i ==> #[trigger] lines@[j]@ == moltis_lines(ordered)[j],
            decreases sorted.len() - i,
        {
            let m = &sorted[i];
            let mut text = m.role.clone();
            push_text(&mut text, ": ");
            push_text(&mut text, m.content.as_str());
            push_text(&mut text, "\n\n");
            lines.push(
                TurnLine {
                    is_user: same_text(m.role.as_str(), "user"),
                    text,
                    timestamp: m.timestamp,
                },
            );
            i += 1;
        }
        assert(crate::turns::lines_view(lines@) =~= moltis_lines(ordered));
        let groups = group_turns(&lines);
        let ghost gv = turn_groups(moltis_lines(ordered));
        let mut chunks: Vec<ItemChunk> = Vec::new();
        let mut k: usize = 0;
        while k < groups.len()
            invariant
                k <= groups.len(),
                groups.len() <= entries.len() <= u32::MAX,
                crate::turns::groups_view(groups@) == gv,
                chunks.len() == k,
                forall|j: int|
                    0 <= j < k ==> is_moltis_chunk(#[trigger] chunks@[j], item_id@, j, gv[j]),
            decreases groups.len() - k,
        {
            let g = &groups[k];
            assert(gv[k as int] == g@);
            let c = make_chunk(item_id, k as u32, g.timestamp, g.content.as_str());
            chunks.push(c);
            k += 1;
        }
        chunks
    }
}

} // verus!
