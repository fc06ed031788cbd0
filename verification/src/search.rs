//! Choosing the hits of a search among the ranked matches.
use vstd::prelude::*;

use crate::text::{
    byte_len, first_occurrences, lemma_first_occurrences, push_text, same_text, truncate_utf8,
    utf8_len, utf8_truncate,
};

verus! {

/// A ranked match, as stored in the index.
pub struct HitCandidate {
    /// The session (or note) the chunk belongs to.
    pub item_id: String,
    /// The source the chunk came from.
    pub source: String,
    /// The highlighted snippet (`<b>` around matched terms), empty when none was made.
    pub snippet_html: String,
    /// The chunk's stored content (empty when absent).
    pub content: String,
}

/// A match kept as a hit.
pub struct HitChoice {
    /// Position of the match in the ranking.
    pub index: usize,
    /// The snippet shown for it.
    pub snippet: String,
}

/// The snippet shown when no highlighted one was made: the content, cut at 200 bytes
/// and marked with `...` when longer.
pub open spec fn fallback_snippet(content: Seq<char>) -> Seq<char> {
    if utf8_len(content) > 200 {
        utf8_truncate(content, 200) + "..."@
    } else {
        content
    }
}

/// Content shown in place of a highlighted snippet is kept whole when it fits in 200
/// bytes; longer content is cut to its longest prefix of at most 200 bytes, followed by
/// `...`.
pub proof fn law_fallback_snippet(content: Seq<char>)
    ensures
        utf8_len(content) <= 200 ==> fallback_snippet(content) == content,
        utf8_len(content) > 200 ==> exists|k: int|
            #![trigger content.take(k)]
            0 <= k < content.len() && fallback_snippet(content) == content.take(k) + "..."@
                && utf8_len(content.take(k)) <= 200 && utf8_len(content.take(k + 1)) > 200,
{
    let k = crate::text::lemma_truncate_longest_prefix(content, 200);
    if utf8_len(content) > 200 {
        if k == content.len() {
            assert(content.take(k) =~= content);
        }
        assert(content.take(k) == content.take(k));
    }
}

/// Cutting the content at byte 200 falls on a character boundary (else the cut panics).
pub open spec fn fallback_cut_ok(content: Seq<char>) -> bool {
    utf8_len(content) > 200 ==> utf8_len(utf8_truncate(content, 200)) == 200
}

/// The snippet shown for a match.
pub open spec fn hit_snippet(c: HitCandidate) -> Seq<char> {
    if c.snippet_html@.len() > 0 {
        c.snippet_html@
    } else {
        fallback_snippet(c.content@)
    }
}

/// The match comes from the source asked for, if one was.
pub open spec fn passes_filter(filter: Option<Seq<char>>, source: Seq<char>) -> bool {
    match filter {
        Some(f) => source == f,
        None => true,
    }
}

/// The view of an optional text.
pub open spec fn filter_view(f: Option<&str>) -> Option<Seq<char>> {
    match f {
        Some(s) => Some(s@),
        None => None,
    }
}

/// Progress through the ranking.
pub struct PickState {
    /// The hits so far: position in the ranking and snippet.
    pub picks: Seq<(int, Seq<char>)>,
    /// The limit was reached: the rest of the ranking is not looked at.
    pub full: bool,
    /// A fallback snippet had to be cut inside a character (the search panics there).
    pub fails: bool,
}

/// Going through the ranked matches in order, keeping those from the source asked for,
/// until `limit` are kept (at least one is kept when any matches).
pub open spec fn pick_hits(cands: Seq<HitCandidate>, filter: Option<Seq<char>>, limit: nat) -> PickState
    decreases cands.len(),
{
    if cands.len() == 0 {
        PickState { picks: seq![], full: false, fails: false }
    } else {
        let st = pick_hits(cands.drop_last(), filter, limit);
        let i = cands.len() - 1;
        let c = cands.last();
        if st.full || st.fails || !passes_filter(filter, c.source@) {
            st
        } else if c.snippet_html@.len() == 0 && !fallback_cut_ok(c.content@) {
            PickState { picks: st.picks, full: st.full, fails: true }
        } else {
            let p = st.picks.push((i, hit_snippet(c)));
            PickState { picks: p, full: p.len() >= limit, fails: false }
        }
    }
}

fn snippet_of(c: &HitCandidate) -> (r: Option<String>)
    ensures
        match r {
            Some(s) => fallback_cut_ok(c.content@) || c.snippet_html@.len() > 0 ==> s@
                == hit_snippet(*c),
            None => true,
        },
        r is None <==> (c.snippet_html@.len() == 0 && !fallback_cut_ok(c.content@)),
{
    if !c.snippet_html.as_str().is_empty() {
        return Some(c.snippet_html.clone());
    }
    let n = byte_len(c.content.as_str());
    if n > 200 {
        let mut s = truncate_utf8(c.content.as_str(), 200);
        if byte_len(s.as_str()) != 200 {
            return None;
        }
        push_text(&mut s, "...");
        Some(s)
    } else {
        Some(c.content.clone())
    }
}

/// Goes through the ranked matches; gives the hits and whether a cut failed.
fn walk_ranking(cands: &Vec<HitCandidate>, source_filter: Option<&str>, limit: usize) -> (r: (
    Vec<HitChoice>,
    bool,
))
    ensures
        r.1 == pick_hits(cands@, filter_view(source_filter), limit as nat).fails,
        !r.1 ==> r.0@.map_values(|h: HitChoice| (h.index as int, h.snippet@)) == pick_hits(
            cands@,
            filter_view(source_filter),
            limit as nat,
        ).picks,
{
    let ghost f = filter_view(source_filter);
    let mut hits: Vec<HitChoice> = Vec::new();
    let mut full = false;
    let mut fails = false;
    let mut i: usize = 0;
    assert(choices_view(hits@) =~= Seq::<
        (int, Seq<char>),
    >::empty());
    while i < cands.len()
        invariant
            i <= cands.len(),
            f == filter_view(source_filter),
            pick_hits(cands@.take(i as int), f, limit as nat) == (PickState {
                picks: choices_view(hits@),
                full,
                fails,
            }),
        decreases cands.len() - i,
    {
        assert(cands@.take(i + 1).drop_last() =~= cands@.take(i as int));
        assert(cands@.take(i + 1).last() == cands@[i as int]);
        let c = &cands[i];
        let passes = match source_filter {
            Some(want) => same_text(c.source.as_str(), want),
            None => true,
        };
        if !full && !fails && passes {
            match snippet_of(c) {
                Some(s) => {
                    let ghost before = choices_view(hits@);
                    let h = HitChoice { index: i, snippet: s };
                    hits.push(h);
                    assert(choices_view(hits@)
                        =~= before.push((i as int, hit_snippet(*c))));
                    full = hits.len() >= limit;
                },
                None => {
                    fails = true;
                },
            }
        }
        i += 1;
    }
    assert(cands@.take(cands.len() as int) =~= cands@);
    (hits, fails)
}

/// Whether choosing the hits would cut a fallback snippet inside a character.
pub fn snippet_cut_fails(cands: &Vec<HitCandidate>, source_filter: Option<&str>, limit: usize) -> (r:
    bool)
    ensures
        r == pick_hits(cands@, filter_view(source_filter), limit as nat).fails,
{
    walk_ranking(cands, source_filter, limit).1
}

/// The session of a hit.
pub open spec fn hit_session(cands: Seq<HitCandidate>, p: (int, Seq<char>)) -> Seq<char> {
    cands[p.0].item_id@
}

/// The sessions of the hits, in order.
pub open spec fn hit_sessions(cands: Seq<HitCandidate>, picks: Seq<(int, Seq<char>)>) -> Seq<Seq<char>> {
    picks.map_values(|p: (int, Seq<char>)| hit_session(cands, p))
}

/// The hits of session `id`, in order.
pub open spec fn session_block(cands: Seq<HitCandidate>, picks: Seq<(int, Seq<char>)>, id: Seq<char>) -> Seq<
    (int, Seq<char>),
> {
    picks.filter(|p: (int, Seq<char>)| hit_session(cands, p) == id)
}

/// The hits of the sessions `order`, session after session.
pub open spec fn session_blocks(
    cands: Seq<HitCandidate>,
    picks: Seq<(int, Seq<char>)>,
    order: Seq<Seq<char>>,
) -> Seq<(int, Seq<char>)>
    decreases order.len(),
{
    if order.len() == 0 {
        seq![]
    } else {
        session_blocks(cands, picks, order.drop_last()) + session_block(cands, picks, order.last())
    }
}

/// The hits grouped by session: the sessions in the order of their best-ranked hit, the
/// hits of a session together and in rank order.
pub open spec fn grouped_hits(cands: Seq<HitCandidate>, picks: Seq<(int, Seq<char>)>) -> Seq<
    (int, Seq<char>),
> {
    session_blocks(cands, picks, first_occurrences(hit_sessions(cands, picks)))
}

/// What a list of hits holds: positions in the ranking and snippets.
pub open spec fn choices_view(hits: Seq<HitChoice>) -> Seq<(int, Seq<char>)> {
    hits.map_values(|h: HitChoice| (h.index as int, h.snippet@))
}

/// Each text once, where it first occurs.
fn distinct_texts(v: &Vec<String>) -> (r: Vec<String>)
    ensures
        r@.map_values(|s: String| s@) == first_occurrences(v@.map_values(|s: String| s@)),
{
    let ghost vv = v@.map_values(|s: String| s@);
    let mut r: Vec<String> = Vec::new();
    let mut i: usize = 0;
    assert(vv.take(0) =~= Seq::<Seq<char>>::empty());
    assert(r@.map_values(|s: String| s@) =~= Seq::<Seq<char>>::empty());
    while i < v.len()
        invariant
            i <= v.len(),
            vv == v@.map_values(|s: String| s@),
            r@.map_values(|s: String| s@) == first_occurrences(vv.take(i as int)),
        decreases v.len() - i,
    {
        assert(vv.take(i + 1).drop_last() =~= vv.take(i as int));
        assert(vv.take(i + 1).last() == v@[i as int]@);
        let ghost before = r@.map_values(|s: String| s@);
        let mut seen = false;
        let mut j: usize = 0;
        while j < r.len()
            invariant
                j <= r.len(),
                i < v.len(),
                before == r@.map_values(|s: String| s@),
                seen <==> exists|k: int| 0 <= k < j && before[k] == v@[i as int]@,
            decreases r.len() - j,
        {
            assert(before[j as int] == r@[j as int]@);
            if same_text(r[j].as_str(), v[i].as_str()) {
                seen = true;
            }
            j += 1;
        }
        assert(seen <==> before.contains(v@[i as int]@)) by {
            if before.contains(v@[i as int]@) {
                let k = choose|k: int| 0 <= k < before.len() && before[k] == v@[i as int]@;
                assert(0 <= k < j && before[k] == v@[i as int]@);
            }
        }
        if !seen {
            r.push(v[i].clone());
            assert(r@.map_values(|s: String| s@) =~= before.push(v@[i as int]@));
        }
        i += 1;
    }
    assert(vv.take(v.len() as int) =~= vv);
    r
}

/// The hits grouped by session (see [`grouped_hits`]).
fn group_by_session(cands: &Vec<HitCandidate>, hits: &Vec<HitChoice>) -> (out: Vec<HitChoice>)
    requires
        forall|k: int| 0 <= k < hits.len() ==> (#[trigger] hits@[k]).index < cands.len(),
    ensures
        choices_view(out@) == grouped_hits(cands@, choices_view(hits@)),
{
    let ghost hv = choices_view(hits@);
    let ghost c = cands@;
    let mut sids: Vec<String> = Vec::new();
    let mut i: usize = 0;
    while i < hits.len()
        invariant
            i <= hits.len(),
            hv == choices_view(hits@),
            c == cands@,
            forall|k: int| 0 <= k < hits.len() ==> (#[trigger] hits@[k]).index < cands.len(),
            sids@.map_values(|s: String| s@) == hit_sessions(c, hv.take(i as int)),
        decreases hits.len() - i,
    {
        let ghost before = sids@.map_values(|s: String| s@);
        sids.push(cands[hits[i].index].item_id.clone());
        assert(hv.take(i + 1) =~= hv.take(i as int).push(hv[i as int]));
        assert(hv[i as int].0 == hits@[i as int].index);
        assert(sids@.map_values(|s: String| s@) =~= before.push(
            cands@[hits@[i as int].index as int].item_id@,
        ));
        assert(hit_sessions(c, hv.take(i as int).push(hv[i as int])) =~= hit_sessions(
            c,
            hv.take(i as int),
        ).push(hit_session(c, hv[i as int])));
        assert(sids@.map_values(|s: String| s@) =~= hit_sessions(c, hv.take(i + 1)));
        i += 1;
    }
    assert(hv.take(hits.len() as int) =~= hv);
    let order = distinct_texts(&sids);
    let ghost ov = order@.map_values(|s: String| s@);
    let mut out: Vec<HitChoice> = Vec::new();
    let mut s: usize = 0;
    assert(ov.take(0) =~= Seq::<Seq<char>>::empty());
    assert(choices_view(out@) =~= Seq::<(int, Seq<char>)>::empty());
    while s < order.len()
        invariant
            s <= order.len(),
            hv == choices_view(hits@),
            c == cands@,
            ov == order@.map_values(|t: String| t@),
            ov == first_occurrences(hit_sessions(c, hv)),
            forall|k: int| 0 <= k < hits.len() ==> (#[trigger] hits@[k]).index < cands.len(),
            choices_view(out@) == session_blocks(c, hv, ov.take(s as int)),
        decreases order.len() - s,
    {
        let ghost id = ov[s as int];
        let ghost pred = |p: (int, Seq<char>)| hit_session(c, p) == id;
        let ghost start = choices_view(out@);
        let mut j: usize = 0;
        assert(hv.take(0).filter(pred) =~= Seq::<(int, Seq<char>)>::empty()) by {
            reveal(Seq::filter);
        }
        assert(start =~= start + hv.take(0).filter(pred));
        while j < hits.len()
            invariant
                j <= hits.len(),
                s < order.len(),
                hv == choices_view(hits@),
                c == cands@,
                ov == order@.map_values(|t: String| t@),
                id == ov[s as int],
                pred == (|p: (int, Seq<char>)| hit_session(c, p) == id),
                forall|k: int| 0 <= k < hits.len() ==> (#[trigger] hits@[k]).index < cands.len(),
                choices_view(out@) == start + hv.take(j as int).filter(pred),
            decreases hits.len() - j,
        {
            let h = &hits[j];
            assert(hv.take(j + 1) =~= hv.take(j as int).push(hv[j as int]));
            proof {
                hv.take(j as int).lemma_filter_push(hv[j as int], pred);
            }
            let ghost before = choices_view(out@);
            if same_text(cands[h.index].item_id.as_str(), order[s].as_str()) {
                out.push(HitChoice { index: h.index, snippet: h.snippet.clone() });
                assert(choices_view(out@) =~= before.push(hv[j as int]));
            }
            j += 1;
        }
        assert(hv.take(hits.len() as int) =~= hv);
        assert(ov.take(s + 1).drop_last() =~= ov.take(s as int));
        assert(ov.take(s + 1).last() == id);
        s += 1;
    }
    assert(ov.take(order.len() as int) =~= ov);
    out
}

/// The hits among the ranked matches `cands`: those from the source asked for, up to
/// `limit`, the best-ranked first, each with its highlighted snippet or else the start of
/// its content; then grouped by session, sessions in the order of their best hit.
pub fn select_hits(cands: &Vec<HitCandidate>, source_filter: Option<&str>, limit: usize) -> (hits: Vec<
    HitChoice,
>)
    requires
        !pick_hits(cands@, filter_view(source_filter), limit as nat).fails,
    ensures
        choices_view(hits@) == grouped_hits(
            cands@,
            pick_hits(cands@, filter_view(source_filter), limit as nat).picks,
        ),
        pick_hits(cands@, filter_view(source_filter), limit as nat).picks.len() > 0 ==> hits.len()
            > 0 && choices_view(hits@)[0] == pick_hits(
            cands@,
            filter_view(source_filter),
            limit as nat,
        ).picks[0],
        forall|i: int, j: int|
            0 <= i < j < hits.len() && cands@[hits@[i].index as int].item_id@ == cands@[hits@[
                j
            ].index as int].item_id@ ==> (#[trigger] hits@[i]).index < (#[trigger] hits@[j]).index,
{
    let picked = walk_ranking(cands, source_filter, limit).0;
    proof {
        law_shown_hits_in_rank_order(cands@, filter_view(source_filter), limit as nat);
        lemma_pick_hits(cands@, filter_view(source_filter), limit as nat);
        let picks = pick_hits(cands@, filter_view(source_filter), limit as nat).picks;
        assert forall|k: int| 0 <= k < picked.len() implies (#[trigger] picked@[k]).index < cands.len() by {
            assert(choices_view(picked@)[k] == picks[k]);
        }
    }
    let hits = group_by_session(cands, &picked);
    proof {
        let g = choices_view(hits@);
        assert forall|i: int, j: int|
            0 <= i < j < hits.len() && cands@[hits@[i].index as int].item_id@ == cands@[hits@[
                j
            ].index as int].item_id@ implies (#[trigger] hits@[i]).index < (
            #[trigger] hits@[j]).index by {
            assert(g[i].0 == hits@[i].index && g[j].0 == hits@[j].index);
            assert(hit_session(cands@, g[i]) == hit_session(cands@, g[j]));
        }
    }
    hits
}

/// How many ranked matches to fetch for `limit` hits: three times the limit, and, for a
/// search within one source, every document of the index when there are more, so that
/// none of that source's matches is missed.
pub fn candidate_count(limit: usize, filtered: bool, doc_count: usize) -> (n: usize)
    requires
        1 <= limit,
        limit * 3 <= usize::MAX,
    ensures
        n == if filtered && doc_count > limit * 3 {
            doc_count as int
        } else {
            limit * 3
        },
        n >= limit,
        filtered ==> n >= doc_count,
{
    let n = limit * 3;
    if filtered && doc_count > n {
        doc_count
    } else {
        n
    }
}

// ---------------------------------------------------------------------------
// Laws of the choice
// ---------------------------------------------------------------------------

proof fn lemma_pick_hits(cands: Seq<HitCandidate>, filter: Option<Seq<char>>, limit: nat)
    ensures
        ({
            let st = pick_hits(cands, filter, limit);
            &&& forall|k: int|
                0 <= k < st.picks.len() ==> 0 <= (#[trigger] st.picks[k]).0 < cands.len()
                    && passes_filter(filter, cands[st.picks[k].0].source@) && st.picks[k].1
                    == hit_snippet(cands[st.picks[k].0])
            &&& forall|k: int, l: int|
                0 <= k < l < st.picks.len() ==> (#[trigger] st.picks[k]).0 < (
                #[trigger] st.picks[l]).0
            &&& st.full <==> (st.picks.len() >= limit && st.picks.len() > 0)
            &&& st.picks.len() <= if limit == 0 {
                1
            } else {
                limit
            }
            &&& !st.full && !st.fails ==> forall|j: int|
                0 <= j < cands.len() && passes_filter(filter, cands[j].source@) ==> exists|k: int|
                    0 <= k < st.picks.len() && (#[trigger] st.picks[k]).0 == j
        }),
    decreases cands.len(),
{
    if cands.len() > 0 {
        let p = cands.drop_last();
        lemma_pick_hits(p, filter, limit);
        let st = pick_hits(p, filter, limit);
        let n = pick_hits(cands, filter, limit);
        let i = cands.len() - 1;
        assert forall|j: int| 0 <= j < p.len() implies cands[j] == p[j] by {}
        if !(st.full || st.fails || !passes_filter(filter, cands.last().source@)) && !(
        cands.last().snippet_html@.len() == 0 && !fallback_cut_ok(cands.last().content@)) {
            assert(n.picks == st.picks.push((i, hit_snippet(cands.last()))));
            assert forall|k: int| 0 <= k < n.picks.len() implies 0 <= (#[trigger] n.picks[k]).0
                < cands.len() && passes_filter(filter, cands[n.picks[k].0].source@)
                && n.picks[k].1 == hit_snippet(cands[n.picks[k].0]) by {
                if k < st.picks.len() {
                    assert(n.picks[k] == st.picks[k]);
                }
            }
            assert forall|k: int, l: int| 0 <= k < l < n.picks.len() implies (
            #[trigger] n.picks[k]).0 < (#[trigger] n.picks[l]).0 by {
                assert(n.picks[k] == st.picks[k]);
                if l < st.picks.len() {
                    assert(n.picks[l] == st.picks[l]);
                }
            }
            if !n.full {
                assert forall|j: int|
                    0 <= j < cands.len() && passes_filter(filter, cands[j].source@) implies exists|
                    k: int,
                | 0 <= k < n.picks.len() && (#[trigger] n.picks[k]).0 == j by {
                    if j < i {
                        let k = choose|k: int| 0 <= k < st.picks.len() && (#[trigger] st.picks[k]).0 == j;
                        assert(n.picks[k] == st.picks[k]);
                    } else {
                        assert(n.picks[st.picks.len() as int].0 == j);
                    }
                }
            }
        } else if !st.full && !st.fails && !passes_filter(filter, cands.last().source@) {
            assert forall|j: int|
                0 <= j < cands.len() && passes_filter(filter, cands[j].source@) implies exists|k: int|
                0 <= k < n.picks.len() && (#[trigger] n.picks[k]).0 == j by {
                if j < i {
                    let k = choose|k: int| 0 <= k < st.picks.len() && (#[trigger] st.picks[k]).0 == j;
                    assert(n.picks[k] == st.picks[k]);
                }
            }
        }
    }
}

/// The chosen matches are the first ranked matches from the source asked for: each passes
/// the source filter and shows its snippet, they are taken in ranking order, there are at
/// most `limit` of them (one when `limit` is 0), and when fewer than the limit were found,
/// every match from that source is among them. (The hits are these, grouped by session.)
pub proof fn law_hits_are_top_matches(cands: Seq<HitCandidate>, filter: Option<Seq<char>>, limit: nat)
    requires
        !pick_hits(cands, filter, limit).fails,
    ensures
        ({
            let picks = pick_hits(cands, filter, limit).picks;
            &&& forall|k: int|
                0 <= k < picks.len() ==> 0 <= (#[trigger] picks[k]).0 < cands.len() && passes_filter(
                    filter,
                    cands[picks[k].0].source@,
                ) && picks[k].1 == hit_snippet(cands[picks[k].0])
            &&& forall|k: int, l: int|
                0 <= k < l < picks.len() ==> (#[trigger] picks[k]).0 < (#[trigger] picks[l]).0
            &&& picks.len() <= if limit == 0 {
                1
            } else {
                limit
            }
            &&& picks.len() < limit ==> forall|j: int|
                0 <= j < cands.len() && passes_filter(filter, cands[j].source@) ==> exists|k: int|
                    0 <= k < picks.len() && (#[trigger] picks[k]).0 == j
        }),
{
    lemma_pick_hits(cands, filter, limit);
}

proof fn lemma_session_block(cands: Seq<HitCandidate>, picks: Seq<(int, Seq<char>)>, id: Seq<char>)
    ensures
        forall|k: int|
            0 <= k < session_block(cands, picks, id).len() ==> hit_session(
                cands,
                #[trigger] session_block(cands, picks, id)[k],
            ) == id,
        forall|x: (int, Seq<char>)|
            #[trigger] session_block(cands, picks, id).contains(x) <==> (picks.contains(x)
                && hit_session(cands, x) == id),
{
    let pred = |p: (int, Seq<char>)| hit_session(cands, p) == id;
    let b = session_block(cands, picks, id);
    assert forall|k: int| 0 <= k < b.len() implies hit_session(cands, #[trigger] b[k]) == id by {
        picks.lemma_filter_pred(pred, k);
    }
    assert forall|x: (int, Seq<char>)| #[trigger] b.contains(x) <==> (picks.contains(x)
        && hit_session(cands, x) == id) by {
        if b.contains(x) {
            picks.lemma_filter_contains_rev(pred, x);
            let k = choose|k: int| 0 <= k < b.len() && b[k] == x;
            picks.lemma_filter_pred(pred, k);
        }
        if picks.contains(x) && hit_session(cands, x) == id {
            let i = choose|i: int| 0 <= i < picks.len() && picks[i] == x;
            picks.lemma_filter_contains(pred, i);
        }
    }
}

proof fn lemma_session_blocks(
    cands: Seq<HitCandidate>,
    picks: Seq<(int, Seq<char>)>,
    order: Seq<Seq<char>>,
)
    ensures
        ({
            let b = session_blocks(cands, picks, order);
            &&& forall|k: int|
                0 <= k < b.len() ==> order.contains(hit_session(cands, #[trigger] b[k]))
            &&& forall|x: (int, Seq<char>)|
                #[trigger] b.contains(x) <==> (picks.contains(x) && order.contains(
                    hit_session(cands, x),
                ))
            &&& order.no_duplicates() ==> forall|i: int, j: int, k: int|
                0 <= i < j < k < b.len() && hit_session(cands, #[trigger] b[i]) == hit_session(
                    cands,
                    #[trigger] b[k],
                ) ==> hit_session(cands, #[trigger] b[j]) == hit_session(cands, b[i])
        }),
    decreases order.len(),
{
    if order.len() == 0 {
        assert(session_blocks(cands, picks, order) =~= Seq::<(int, Seq<char>)>::empty());
    } else {
        let o2 = order.drop_last();
        let last = order.last();
        lemma_session_blocks(cands, picks, o2);
        lemma_session_block(cands, picks, last);
        let p = session_blocks(cands, picks, o2);
        let f = session_block(cands, picks, last);
        let b = session_blocks(cands, picks, order);
        assert(b == p + f);
        assert forall|t: Seq<char>| order.contains(t) <==> (o2.contains(t) || t == last) by {
            if order.contains(t) {
                let i = choose|i: int| 0 <= i < order.len() && order[i] == t;
                if i < o2.len() {
                    assert(o2[i] == t);
                }
            }
            if o2.contains(t) {
                let i = choose|i: int| 0 <= i < o2.len() && o2[i] == t;
                assert(order[i] == t);
            }
            if t == last {
                assert(order[order.len() - 1] == t);
            }
        }
        assert forall|k: int| 0 <= k < b.len() implies order.contains(
            hit_session(cands, #[trigger] b[k]),
        ) by {
            if k < p.len() {
                assert(b[k] == p[k]);
            } else {
                assert(b[k] == f[k - p.len()]);
            }
        }
        assert forall|x: (int, Seq<char>)| #[trigger] b.contains(x) <==> (picks.contains(x)
            && order.contains(hit_session(cands, x))) by {
            vstd::seq_lib::lemma_seq_concat_contains_all_elements(p, f, x);
        }
        if order.no_duplicates() {
            assert(o2.no_duplicates()) by {
                assert forall|i: int, j: int| 0 <= i < o2.len() && 0 <= j < o2.len() && i != j implies o2[i]
                    != o2[j] by {
                    assert(o2[i] == order[i] && o2[j] == order[j]);
                }
            }
            assert(!o2.contains(last)) by {
                if o2.contains(last) {
                    let i = choose|i: int| 0 <= i < o2.len() && o2[i] == last;
                    assert(order[i] == order[order.len() - 1]);
                }
            }
            assert forall|i: int, j: int, k: int|
                0 <= i < j < k < b.len() && hit_session(cands, #[trigger] b[i]) == hit_session(
                    cands,
                    #[trigger] b[k],
                ) implies hit_session(cands, #[trigger] b[j]) == hit_session(cands, b[i]) by {
                if k < p.len() {
                    assert(b[i] == p[i] && b[j] == p[j] && b[k] == p[k]);
                } else if i >= p.len() {
                    assert(b[i] == f[i - p.len()] && b[j] == f[j - p.len()] && b[k] == f[k - p.len()]);
                } else {
                    assert(b[i] == p[i] && b[k] == f[k - p.len()]);
                    assert(o2.contains(hit_session(cands, p[i])));
                }
            }
        }
    }
}

/// The hits are grouped by session: a session's hits stand together, sessions come in
/// the order of their best-ranked hit, and the hits are exactly those chosen.
pub proof fn law_hits_grouped_by_session(cands: Seq<HitCandidate>, picks: Seq<(int, Seq<char>)>)
    ensures
        ({
            let g = grouped_hits(cands, picks);
            &&& forall|i: int, j: int, k: int|
                0 <= i < j < k < g.len() && hit_session(cands, #[trigger] g[i]) == hit_session(
                    cands,
                    #[trigger] g[k],
                ) ==> hit_session(cands, #[trigger] g[j]) == hit_session(cands, g[i])
            &&& forall|x: (int, Seq<char>)| #[trigger] g.contains(x) <==> picks.contains(x)
        }),
{
    let ids = hit_sessions(cands, picks);
    let order = first_occurrences(ids);
    lemma_first_occurrences(ids);
    lemma_session_blocks(cands, picks, order);
    let g = grouped_hits(cands, picks);
    assert forall|x: (int, Seq<char>)| #[trigger] g.contains(x) <==> picks.contains(x) by {
        if picks.contains(x) {
            let i = choose|i: int| 0 <= i < picks.len() && picks[i] == x;
            assert(ids[i] == hit_session(cands, x));
            assert(ids.contains(hit_session(cands, x)));
        }
    }
}

/// In the distinct sessions, a session listed earlier first occurs earlier: where the
/// later one occurs, the earlier one already occurred.
proof fn lemma_first_occurrences_order(ids: Seq<Seq<char>>, u: int, v: int, q: int) -> (p: int)
    requires
        0 <= u < v < first_occurrences(ids).len(),
        0 <= q < ids.len(),
        ids[q] == first_occurrences(ids)[v],
    ensures
        0 <= p < q,
        ids[p] == first_occurrences(ids)[u],
    decreases ids.len(),
{
    let pre = ids.drop_last();
    let last = ids.last();
    let rest = first_occurrences(pre);
    let fo = first_occurrences(ids);
    lemma_first_occurrences(pre);
    if rest.contains(last) {
        assert(fo == rest);
        if q < ids.len() - 1 {
            assert(pre[q] == ids[q]);
            let p = lemma_first_occurrences_order(pre, u, v, q);
            assert(ids[p] == pre[p]);
            p
        } else {
            assert(pre.contains(rest[v]));
            let q2 = choose|q2: int| 0 <= q2 < pre.len() && pre[q2] == rest[v];
            let p = lemma_first_occurrences_order(pre, u, v, q2);
            assert(ids[p] == pre[p]);
            p
        }
    } else {
        assert(fo == rest.push(last));
        if v < rest.len() {
            assert(fo[v] == rest[v] && fo[u] == rest[u]);
            if q == ids.len() - 1 {
                assert(rest[v] == last);
                assert(rest.contains(last));
            }
            assert(pre[q] == ids[q]);
            let p = lemma_first_occurrences_order(pre, u, v, q);
            assert(ids[p] == pre[p]);
            p
        } else {
            assert(fo[u] == rest[u]);
            assert(rest.contains(rest[u]));
            assert(pre.contains(rest[u]));
            let p = choose|p: int| 0 <= p < pre.len() && pre[p] == rest[u];
            if q < ids.len() - 1 {
                assert(pre[q] == last);
                assert(pre.contains(last));
            }
            assert(ids[p] == pre[p]);
            p
        }
    }
}

/// Hits of a session listed earlier come before hits of a session listed later.
proof fn lemma_blocks_ordered(cands: Seq<HitCandidate>, picks: Seq<(int, Seq<char>)>, order: Seq<Seq<char>>)
    requires
        order.no_duplicates(),
    ensures
        forall|i: int, j: int, u: int, v: int|
            0 <= i < session_blocks(cands, picks, order).len() && 0 <= j < session_blocks(
                cands,
                picks,
                order,
            ).len() && 0 <= u < v < order.len() && hit_session(
                cands,
                #[trigger] session_blocks(cands, picks, order)[i],
            ) == #[trigger] order[u] && hit_session(
                cands,
                #[trigger] session_blocks(cands, picks, order)[j],
            ) == #[trigger] order[v] ==> i < j,
    decreases order.len(),
{
    if order.len() > 0 {
        let o2 = order.drop_last();
        let last = order.last();
        let p = session_blocks(cands, picks, o2);
        let f = session_block(cands, picks, last);
        let g = session_blocks(cands, picks, order);
        assert(o2.no_duplicates()) by {
            assert forall|a: int, b: int| 0 <= a < o2.len() && 0 <= b < o2.len() && a != b implies o2[a]
                != o2[b] by {
                assert(o2[a] == order[a] && o2[b] == order[b]);
            }
        }
        lemma_blocks_ordered(cands, picks, o2);
        lemma_session_blocks(cands, picks, o2);
        lemma_session_block(cands, picks, last);
        assert(g == p + f);
        assert forall|i: int, j: int, u: int, v: int|
            0 <= i < g.len() && 0 <= j < g.len() && 0 <= u < v < order.len() && hit_session(
                cands,
                #[trigger] g[i],
            ) == #[trigger] order[u] && hit_session(cands, #[trigger] g[j]) == #[trigger] order[v]
                implies i < j by {
            if i >= p.len() {
                assert(g[i] == f[i - p.len()]);
                assert(hit_session(cands, g[i]) == last);
                assert(order[u] == order[order.len() - 1]);
            }
            if j < p.len() {
                assert(g[j] == p[j]);
                assert(o2.contains(hit_session(cands, p[j])));
                let w = choose|w: int| 0 <= w < o2.len() && o2[w] == hit_session(cands, p[j]);
                assert(order[w] == order[v]);
                assert(w == v);
                assert(g[i] == p[i]);
                assert(o2[u] == order[u] && o2[v] == order[v]);
            }
        }
    }
}

/// A filter keeps the rank order.
proof fn lemma_filter_keeps_rank_order(s: Seq<(int, Seq<char>)>, pred: spec_fn((int, Seq<char>)) -> bool)
    requires
        forall|a: int, b: int| 0 <= a < b < s.len() ==> (#[trigger] s[a]).0 < (#[trigger] s[b]).0,
    ensures
        forall|a: int, b: int|
            0 <= a < b < s.filter(pred).len() ==> (#[trigger] s.filter(pred)[a]).0 < (
            #[trigger] s.filter(pred)[b]).0,
    decreases s.len(),
{
    reveal(Seq::filter);
    if s.len() > 0 {
        let pre = s.drop_last();
        let x = s.last();
        lemma_filter_keeps_rank_order(pre, pred);
        let fp = pre.filter(pred);
        if pred(x) {
            assert(s.filter(pred) == fp.push(x));
            assert forall|a: int, b: int| 0 <= a < b < fp.push(x).len() implies (
            #[trigger] fp.push(x)[a]).0 < (#[trigger] fp.push(x)[b]).0 by {
                if b == fp.len() {
                    assert(fp.contains(fp[a]));
                    pre.lemma_filter_contains_rev(pred, fp[a]);
                    let k = choose|k: int| 0 <= k < pre.len() && pre[k] == fp[a];
                    assert(s[k] == pre[k]);
                    assert(s[s.len() - 1] == x);
                } else {
                    assert(fp.push(x)[a] == fp[a] && fp.push(x)[b] == fp[b]);
                }
            }
        } else {
            assert(s.filter(pred) == fp);
        }
    }
}

/// Hits of one session keep their rank order.
proof fn lemma_blocks_rank_order(cands: Seq<HitCandidate>, picks: Seq<(int, Seq<char>)>, order: Seq<Seq<char>>)
    requires
        order.no_duplicates(),
        forall|a: int, b: int| 0 <= a < b < picks.len() ==> (#[trigger] picks[a]).0 < (#[trigger] picks[b]).0,
    ensures
        forall|i: int, j: int|
            0 <= i < j < session_blocks(cands, picks, order).len() && hit_session(
                cands,
                #[trigger] session_blocks(cands, picks, order)[i],
            ) == hit_session(cands, #[trigger] session_blocks(cands, picks, order)[j]) ==> session_blocks(
                cands,
                picks,
                order,
            )[i].0 < session_blocks(cands, picks, order)[j].0,
    decreases order.len(),
{
    if order.len() > 0 {
        let o2 = order.drop_last();
        let last = order.last();
        let p = session_blocks(cands, picks, o2);
        let f = session_block(cands, picks, last);
        let g = session_blocks(cands, picks, order);
        assert(o2.no_duplicates()) by {
            assert forall|a: int, b: int| 0 <= a < o2.len() && 0 <= b < o2.len() && a != b implies o2[a]
                != o2[b] by {
                assert(o2[a] == order[a] && o2[b] == order[b]);
            }
        }
        assert(!o2.contains(last)) by {
            if o2.contains(last) {
                let w = choose|w: int| 0 <= w < o2.len() && o2[w] == last;
                assert(order[w] == order[order.len() - 1]);
            }
        }
        lemma_blocks_rank_order(cands, picks, o2);
        lemma_session_blocks(cands, picks, o2);
        lemma_session_block(cands, picks, last);
        lemma_filter_keeps_rank_order(picks, |x: (int, Seq<char>)| hit_session(cands, x) == last);
        assert(g == p + f);
        assert forall|i: int, j: int|
            0 <= i < j < g.len() && hit_session(cands, #[trigger] g[i]) == hit_session(
                cands,
                #[trigger] g[j],
            ) implies g[i].0 < g[j].0 by {
            if j < p.len() {
                assert(g[i] == p[i] && g[j] == p[j]);
            } else if i >= p.len() {
                assert(g[i] == f[i - p.len()] && g[j] == f[j - p.len()]);
            } else {
                assert(g[i] == p[i] && g[j] == f[j - p.len()]);
                assert(o2.contains(hit_session(cands, p[i])));
            }
        }
    }
}

/// Sessions come in the order of their best-ranked hit: when a hit of session A is chosen
/// before the first hit of session B, every hit of A is shown before every hit of B; in
/// particular the first hit shown is of the session of the best-ranked hit.
pub proof fn law_sessions_in_rank_order(cands: Seq<HitCandidate>, picks: Seq<(int, Seq<char>)>)
    ensures
        forall|p: int, q: int, i: int, j: int|
            0 <= p < q < picks.len() && (forall|r: int|
                0 <= r < q ==> hit_session(cands, #[trigger] picks[r]) != hit_session(
                    cands,
                    picks[q],
                )) && 0 <= i < grouped_hits(cands, picks).len() && 0 <= j < grouped_hits(
                cands,
                picks,
            ).len() && hit_session(cands, #[trigger] grouped_hits(cands, picks)[i]) == hit_session(
                cands,
                #[trigger] picks[p],
            ) && hit_session(cands, #[trigger] grouped_hits(cands, picks)[j]) == hit_session(
                cands,
                #[trigger] picks[q],
            ) ==> i < j,
        picks.len() > 0 ==> grouped_hits(cands, picks).len() > 0 && hit_session(
            cands,
            grouped_hits(cands, picks)[0],
        ) == hit_session(cands, picks[0]),
{
    let ids = hit_sessions(cands, picks);
    let order = first_occurrences(ids);
    let g = grouped_hits(cands, picks);
    lemma_first_occurrences(ids);
    lemma_blocks_ordered(cands, picks, order);
    lemma_session_blocks(cands, picks, order);
    law_hits_grouped_by_session(cands, picks);
    assert forall|p: int, q: int, i: int, j: int|
        0 <= p < q < picks.len() && (forall|r: int|
            0 <= r < q ==> hit_session(cands, #[trigger] picks[r]) != hit_session(cands, picks[q]))
            && 0 <= i < g.len() && 0 <= j < g.len() && hit_session(cands, #[trigger] g[i])
            == hit_session(cands, #[trigger] picks[p]) && hit_session(cands, #[trigger] g[j])
            == hit_session(cands, #[trigger] picks[q]) implies i < j by {
        let a = hit_session(cands, picks[p]);
        let b = hit_session(cands, picks[q]);
        assert(ids[p] == a && ids[q] == b);
        assert(a != b);
        assert(ids.contains(a) && ids.contains(b));
        let u = choose|u: int| 0 <= u < order.len() && order[u] == a;
        let v = choose|v: int| 0 <= v < order.len() && order[v] == b;
        if v < u {
            let p2 = lemma_first_occurrences_order(ids, v, u, p);
            assert(hit_session(cands, picks[p2]) == b);
        }
        assert(u != v);
        assert(hit_session(cands, g[i]) == order[u] && hit_session(cands, g[j]) == order[v]);
    }
    if picks.len() > 0 {
        assert(picks.contains(picks[0]));
        assert(g.contains(picks[0]));
        let i = choose|i: int| 0 <= i < g.len() && g[i] == picks[0];
        let a = hit_session(cands, picks[0]);
        let b = hit_session(cands, g[0]);
        if a != b {
            assert(g.contains(g[0]));
            assert(picks.contains(g[0]));
            let q = choose|q: int| 0 <= q < picks.len() && picks[q] == g[0];
            assert(ids[0] == a && ids[q] == b);
            assert(ids.contains(a) && ids.contains(b));
            let u = choose|u: int| 0 <= u < order.len() && order[u] == a;
            let v = choose|v: int| 0 <= v < order.len() && order[v] == b;
            if v < u {
                let p2 = lemma_first_occurrences_order(ids, v, u, 0);
            }
            assert(u != v);
            assert(hit_session(cands, g[i]) == order[u] && hit_session(cands, g[0]) == order[v]);
        }
    }
}

/// The hits shown are the chosen matches grouped by session: sessions in the order of
/// their best-ranked hit, the hits of a session in rank order, and the best-ranked chosen
/// match shown first.
pub proof fn law_shown_hits_in_rank_order(cands: Seq<HitCandidate>, filter: Option<Seq<char>>, limit: nat)
    ensures
        ({
            let picks = pick_hits(cands, filter, limit).picks;
            let g = grouped_hits(cands, picks);
            &&& forall|i: int, j: int|
                0 <= i < j < g.len() && hit_session(cands, #[trigger] g[i]) == hit_session(
                    cands,
                    #[trigger] g[j],
                ) ==> g[i].0 < g[j].0
            &&& picks.len() > 0 ==> g.len() > 0 && g[0] == picks[0]
        }),
{
    let picks = pick_hits(cands, filter, limit).picks;
    let ids = hit_sessions(cands, picks);
    let order = first_occurrences(ids);
    let g = grouped_hits(cands, picks);
    lemma_pick_hits(cands, filter, limit);
    lemma_first_occurrences(ids);
    lemma_blocks_rank_order(cands, picks, order);
    law_sessions_in_rank_order(cands, picks);
    law_hits_grouped_by_session(cands, picks);
    if picks.len() > 0 {
        assert(picks.contains(picks[0]));
        assert(g.contains(picks[0]));
        let i = choose|i: int| 0 <= i < g.len() && g[i] == picks[0];
        assert(g.contains(g[0]));
        let q = choose|q: int| 0 <= q < picks.len() && picks[q] == g[0];
        if i > 0 {
            assert(hit_session(cands, g[0]) == hit_session(cands, g[i]));
            assert(g[0].0 < g[i].0);
            if q > 0 {
                assert(picks[0].0 < picks[q].0);
            }
        }
    }
}

} // verus!
