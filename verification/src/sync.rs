//! Incremental sync: which items to index again, which to skip, which to drop.
use vstd::prelude::*;

use crate::sources::SourceItemMeta;
use crate::text::{first_occurrences, lemma_first_occurrences};

verus! {

/// Counts of one indexing run.
#[derive(Debug)]
pub struct IndexStats {
    pub indexed: usize,
    pub skipped: usize,
    pub removed: usize,
    pub chunks: usize,
    pub errors: usize,
}

impl Default for IndexStats {
    fn default() -> (s: Self)
        ensures
            s.indexed == 0 && s.skipped == 0 && s.removed == 0 && s.chunks == 0 && s.errors == 0,
    {
        IndexStats { indexed: 0, skipped: 0, removed: 0, chunks: 0, errors: 0 }
    }
}

/// What to do with an item a source lists.
#[derive(Debug, Clone, Copy, PartialEq, Eq, Structural)]
pub enum ItemAction {
    /// Its fingerprint is the one stored: keep what is indexed.
    Skip,
    /// New or changed: drop its chunks, load it again.
    Reindex,
}

/// What to do for one source.
pub struct SyncPlan {
    /// One action per listed item, in the order listed.
    pub actions: Vec<ItemAction>,
    /// Items stored for the source that it no longer lists, each once.
    pub removed: Vec<String>,
}

/// The stored (item id, fingerprint) rows of a source, as texts.
pub open spec fn rows_view(rows: Seq<(String, String)>) -> Seq<(Seq<char>, Seq<char>)> {
    rows.map_values(|r: (String, String)| (r.0@, r.1@))
}

/// The ids listed by a source.
pub open spec fn meta_ids(metas: Seq<SourceItemMeta>) -> Seq<Seq<char>> {
    metas.map_values(|m: SourceItemMeta| m.item_id@)
}

/// The fingerprint stored for `id`; where rows repeat an id, the last one counts.
pub open spec fn stored_fingerprint(rows: Seq<(Seq<char>, Seq<char>)>, id: Seq<char>) -> Option<
    Seq<char>,
>
    decreases rows.len(),
{
    if rows.len() == 0 {
        None
    } else if rows.last().0 == id {
        Some(rows.last().1)
    } else {
        stored_fingerprint(rows.drop_last(), id)
    }
}

/// The action for an item: skip it when its fingerprint is the one stored.
pub open spec fn action_for(rows: Seq<(Seq<char>, Seq<char>)>, m: SourceItemMeta) -> ItemAction {
    if stored_fingerprint(rows, m.item_id@) == Some(m.fingerprint@) {
        ItemAction::Skip
    } else {
        ItemAction::Reindex
    }
}

/// The stored ids that are not listed any more, in stored order.
pub open spec fn stale_ids(stored: Seq<Seq<char>>, listed: Seq<Seq<char>>) -> Seq<Seq<char>>
    decreases stored.len(),
{
    if stored.len() == 0 {
        seq![]
    } else {
        let rest = stale_ids(stored.drop_last(), listed);
        if listed.contains(stored.last()) {
            rest
        } else {
            rest.push(stored.last())
        }
    }
}

/// The ids of stored rows.
pub open spec fn row_ids(rows: Seq<(Seq<char>, Seq<char>)>) -> Seq<Seq<char>> {
    rows.map_values(|r: (Seq<char>, Seq<char>)| r.0)
}

/// Stored items to drop: those not listed, each once.
pub open spec fn removed_ids(rows: Seq<(Seq<char>, Seq<char>)>, metas: Seq<SourceItemMeta>) -> Seq<
    Seq<char>,
> {
    first_occurrences(stale_ids(row_ids(rows), meta_ids(metas)))
}

fn stored_fingerprint_exec<'a>(rows: &'a Vec<(String, String)>, id: &String) -> (r: Option<&'a String>)
    ensures
        match r {
            Some(f) => stored_fingerprint(rows_view(rows@), id@) == Some(f@),
            None => stored_fingerprint(rows_view(rows@), id@) is None,
        },
{
    let ghost rv = rows_view(rows@);
    let mut i = rows.len();
    assert(rv.take(i as int) =~= rv);
    while i > 0
        invariant
            i <= rows.len(),
            rv == rows_view(rows@),
            stored_fingerprint(rv, id@) == stored_fingerprint(rv.take(i as int), id@),
        decreases i,
    {
        let row = &rows[i - 1];
        assert(rv.take(i as int).last() == (row.0@, row.1@));
        if row.0 == *id {
            return Some(&row.1);
        }
        assert(rv.take(i as int).drop_last() =~= rv.take(i - 1));
        i -= 1;
    }
    None
}

fn listed(metas: &Vec<SourceItemMeta>, id: &String) -> (r: bool)
    ensures
        r == meta_ids(metas@).contains(id@),
{
    let ghost ids = meta_ids(metas@);
    let mut i: usize = 0;
    while i < metas.len()
        invariant
            i <= metas.len(),
            ids == meta_ids(metas@),
            forall|j: int| 0 <= j < i ==> ids[j] != id@,
        decreases metas.len() - i,
    {
        if metas[i].item_id == *id {
            assert(ids[i as int] == id@);
            return true;
        }
        i += 1;
    }
    false
}

fn contains_text_in(v: &Vec<String>, id: &String) -> (r: bool)
    ensures
        r == v@.map_values(|s: String| s@).contains(id@),
{
    let ghost vv = v@.map_values(|s: String| s@);
    let mut i: usize = 0;
    while i < v.len()
        invariant
            i <= v.len(),
            vv == v@.map_values(|s: String| s@),
            forall|j: int| 0 <= j < i ==> vv[j] != id@,
        decreases v.len() - i,
    {
        if v[i] == *id {
            assert(vv[i as int] == id@);
            return true;
        }
        i += 1;
    }
    false
}

/// Plans the sync of one source from its stored `(item id, fingerprint)` rows and the
/// items it lists now: an item is indexed again exactly when its fingerprint is not the
/// one stored, and stored items it no longer lists are dropped.
pub fn plan_sync(rows: &Vec<(String, String)>, metas: &Vec<SourceItemMeta>) -> (plan: SyncPlan)
    ensures
        plan.actions.len() == metas.len(),
        forall|i: int|
            0 <= i < metas.len() ==> #[trigger] plan.actions@[i] == action_for(
                rows_view(rows@),
                metas@[i],
            ),
        plan.removed@.map_values(|s: String| s@) == removed_ids(rows_view(rows@), metas@),
{
    let ghost rv = rows_view(rows@);
    let mut actions: Vec<ItemAction> = Vec::new();
    let mut i: usize = 0;
    while i < metas.len()
        invariant
            i <= metas.len(),
            rv == rows_view(rows@),
            actions.len() == i,
            forall|j: int| 0 <= j < i ==> #[trigger] actions@[j] == action_for(rv, metas@[j]),
        decreases metas.len() - i,
    {
        let m = &metas[i];
        let same = match stored_fingerprint_exec(rows, &m.item_id) {
            Some(f) => *f == m.fingerprint,
            None => false,
        };
        actions.push(
            if same {
                ItemAction::Skip
            } else {
                ItemAction::Reindex
            },
        );
        i += 1;
    }
    let ghost ids = meta_ids(metas@);
    let ghost stored = row_ids(rv);
    let mut removed: Vec<String> = Vec::new();
    let mut k: usize = 0;
    assert(stored.take(0) =~= Seq::<Seq<char>>::empty());
    assert(removed@.map_values(|s: String| s@) =~= Seq::<Seq<char>>::empty());
    while k < rows.len()
        invariant
            k <= rows.len(),
            rv == rows_view(rows@),
            ids == meta_ids(metas@),
            stored == row_ids(rv),
            removed@.map_values(|s: String| s@) == first_occurrences(
                stale_ids(stored.take(k as int), ids),
            ),
        decreases rows.len() - k,
    {
        let id = &rows[k].0;
        assert(stored.take(k + 1).drop_last() =~= stored.take(k as int));
        assert(stored.take(k + 1).last() == id@);
        let ghost prev = stale_ids(stored.take(k as int), ids);
        if !listed(metas, id) {
            assert(stale_ids(stored.take(k + 1), ids) == prev.push(id@));
            assert(prev.push(id@).drop_last() =~= prev);
            let ghost before = removed@.map_values(|s: String| s@);
            if !contains_text_in(&removed, id) {
                removed.push(id.clone());
                assert(removed@.map_values(|s: String| s@) =~= before.push(id@));
            }
        }
        k += 1;
    }
    assert(stored.take(rows.len() as int) =~= stored);
    SyncPlan { actions, removed }
}

// ---------------------------------------------------------------------------
// Counting a run
// ---------------------------------------------------------------------------

/// Number of items skipped.
pub open spec fn skip_count(actions: Seq<ItemAction>) -> nat
    decreases actions.len(),
{
    if actions.len() == 0 {
        0
    } else {
        skip_count(actions.drop_last()) + if actions.last() == ItemAction::Skip {
            1nat
        } else {
            0nat
        }
    }
}

/// Number of items loaded and indexed again (`loaded[i]` is `Some(chunks)` when item `i`
/// was loaded, `None` when loading it failed).
pub open spec fn indexed_count(actions: Seq<ItemAction>, loaded: Seq<Option<usize>>) -> nat
    decreases actions.len(),
{
    if actions.len() == 0 {
        0
    } else {
        let i = actions.len() - 1;
        indexed_count(actions.drop_last(), loaded) + if actions[i] == ItemAction::Reindex
            && loaded[i] is Some {
            1nat
        } else {
            0nat
        }
    }
}

/// Number of items whose loading failed.
pub open spec fn failed_count(actions: Seq<ItemAction>, loaded: Seq<Option<usize>>) -> nat
    decreases actions.len(),
{
    if actions.len() == 0 {
        0
    } else {
        let i = actions.len() - 1;
        failed_count(actions.drop_last(), loaded) + if actions[i] == ItemAction::Reindex
            && loaded[i] is None {
            1nat
        } else {
            0nat
        }
    }
}

/// Number of chunks added.
pub open spec fn chunk_count(actions: Seq<ItemAction>, loaded: Seq<Option<usize>>) -> nat
    decreases actions.len(),
{
    if actions.len() == 0 {
        0
    } else {
        let i = actions.len() - 1;
        chunk_count(actions.drop_last(), loaded) + if actions[i] == ItemAction::Reindex {
            match loaded[i] {
                Some(n) => n as nat,
                None => 0nat,
            }
        } else {
            0nat
        }
    }
}

proof fn lemma_counts_grow(actions: Seq<ItemAction>, loaded: Seq<Option<usize>>, k: int)
    requires
        0 <= k <= actions.len(),
    ensures
        skip_count(actions.take(k)) <= skip_count(actions),
        indexed_count(actions.take(k), loaded) <= indexed_count(actions, loaded),
        failed_count(actions.take(k), loaded) <= failed_count(actions, loaded),
        chunk_count(actions.take(k), loaded) <= chunk_count(actions, loaded),
    decreases actions.len() - k,
{
    if k < actions.len() {
        lemma_counts_grow(actions, loaded, k + 1);
        assert(actions.take(k + 1).drop_last() =~= actions.take(k));
    } else {
        assert(actions.take(k) =~= actions);
    }
}

/// Every listed item is counted once: skipped, indexed again, or failed to load.
pub proof fn law_every_listed_item_counted(actions: Seq<ItemAction>, loaded: Seq<Option<usize>>)
    requires
        actions.len() <= loaded.len(),
    ensures
        skip_count(actions) + indexed_count(actions, loaded) + failed_count(actions, loaded)
            == actions.len(),
    decreases actions.len(),
{
    if actions.len() > 0 {
        law_every_listed_item_counted(actions.drop_last(), loaded);
    }
}

impl IndexStats {
    /// Counts one source's run: its skipped items, the items loaded again (with their
    /// chunks), those that failed to load, and the stale items dropped.
    pub fn record_source(&mut self, plan: &SyncPlan, loaded: &Vec<Option<usize>>)
        requires
            loaded.len() == plan.actions.len(),
            old(self).skipped + skip_count(plan.actions@) <= usize::MAX,
            old(self).indexed + indexed_count(plan.actions@, loaded@) <= usize::MAX,
            old(self).errors + failed_count(plan.actions@, loaded@) <= usize::MAX,
            old(self).chunks + chunk_count(plan.actions@, loaded@) <= usize::MAX,
            old(self).removed + plan.removed.len() <= usize::MAX,
        ensures
            final(self).skipped == old(self).skipped + skip_count(plan.actions@),
            final(self).indexed == old(self).indexed + indexed_count(plan.actions@, loaded@),
            final(self).errors == old(self).errors + failed_count(plan.actions@, loaded@),
            final(self).chunks == old(self).chunks + chunk_count(plan.actions@, loaded@),
            final(self).removed == old(self).removed + plan.removed.len(),
            final(self).indexed + final(self).skipped + final(self).errors == old(self).indexed
                + old(self).skipped + old(self).errors + plan.actions.len(),
    {
        proof {
            law_every_listed_item_counted(plan.actions@, loaded@);
        }
        let ghost a = plan.actions@;
        let ghost l = loaded@;
        let ghost s0 = *old(self);
        let mut i: usize = 0;
        while i < plan.actions.len()
            invariant
                i <= plan.actions.len(),
                a == plan.actions@,
                l == loaded@,
                loaded.len() == plan.actions.len(),
                s0.skipped + skip_count(a) <= usize::MAX,
                s0.indexed + indexed_count(a, l) <= usize::MAX,
                s0.errors + failed_count(a, l) <= usize::MAX,
                s0.chunks + chunk_count(a, l) <= usize::MAX,
                self.skipped == s0.skipped + skip_count(a.take(i as int)),
                self.indexed == s0.indexed + indexed_count(a.take(i as int), l),
                self.errors == s0.errors + failed_count(a.take(i as int), l),
                self.chunks == s0.chunks + chunk_count(a.take(i as int), l),
                self.removed == s0.removed,
            decreases plan.actions.len() - i,
        {
            proof {
                lemma_counts_grow(a, l, i + 1);
                assert(a.take(i + 1).drop_last() =~= a.take(i as int));
                assert(a.take(i + 1)[i as int] == a[i as int]);
            }
            match plan.actions[i] {
                ItemAction::Skip => {
                    self.skipped = self.skipped + 1;
                },
                ItemAction::Reindex => match loaded[i] {
                    Some(n) => {
                        self.indexed = self.indexed + 1;
                        self.chunks = self.chunks + n;
                    },
                    None => {
                        self.errors = self.errors + 1;
                    },
                },
            }
            i += 1;
        }
        assert(a.take(i as int) =~= a);
        self.removed = self.removed + plan.removed.len();
    }

    /// Counts a source whose listing failed.
    pub fn record_scan_failure(&mut self)
        requires
            old(self).errors < usize::MAX,
        ensures
            final(self).errors == old(self).errors + 1,
            final(self).indexed == old(self).indexed,
            final(self).skipped == old(self).skipped,
            final(self).removed == old(self).removed,
            final(self).chunks == old(self).chunks,
    {
        self.errors = self.errors + 1;
    }
}

// ---------------------------------------------------------------------------
// Laws of the sync
// ---------------------------------------------------------------------------

/// Only changed items are indexed again: an item is skipped exactly when the source
/// gives it the fingerprint stored for it, so an item indexed and saved with a fingerprint
/// is skipped while that fingerprint stays the same, and indexed again once it changes.
pub proof fn law_reindex_iff_changed(
    rows: Seq<(Seq<char>, Seq<char>)>,
    m: SourceItemMeta,
)
    ensures
        (action_for(rows, m) == ItemAction::Reindex) <==> (stored_fingerprint(rows, m.item_id@)
            != Some(m.fingerprint@)),
        action_for(rows.push((m.item_id@, m.fingerprint@)), m) == ItemAction::Skip,
{
}

/// Dropped items are exactly the stored items the source no longer lists, each once.
pub proof fn law_removed_are_stale(rows: Seq<(Seq<char>, Seq<char>)>, metas: Seq<SourceItemMeta>)
    ensures
        removed_ids(rows, metas).no_duplicates(),
        forall|id: Seq<char>|
            #[trigger] removed_ids(rows, metas).contains(id) <==> (row_ids(rows).contains(id)
                && !meta_ids(metas).contains(id)),
{
    let s = stale_ids(row_ids(rows), meta_ids(metas));
    lemma_first_occurrences(s);
    lemma_stale_ids(row_ids(rows), meta_ids(metas));
    assert forall|id: Seq<char>|
        #[trigger] removed_ids(rows, metas).contains(id) <==> (row_ids(rows).contains(id)
            && !meta_ids(metas).contains(id)) by {
        assert(removed_ids(rows, metas).contains(id) <==> s.contains(id));
    }
}

proof fn lemma_stale_ids(stored: Seq<Seq<char>>, listed: Seq<Seq<char>>)
    ensures
        forall|id: Seq<char>|
            #[trigger] stale_ids(stored, listed).contains(id) <==> (stored.contains(id)
                && !listed.contains(id)),
    decreases stored.len(),
{
    if stored.len() > 0 {
        let p = stored.drop_last();
        let v = stored.last();
        lemma_stale_ids(p, listed);
        let r = stale_ids(p, listed);
        assert forall|id: Seq<char>|
            #[trigger] stale_ids(stored, listed).contains(id) <==> (stored.contains(id)
                && !listed.contains(id)) by {
            assert(stored.contains(id) <==> (p.contains(id) || id == v)) by {
                if stored.contains(id) {
                    let i = choose|i: int| 0 <= i < stored.len() && stored[i] == id;
                    if i < p.len() {
                        assert(p[i] == id);
                    }
                }
                if p.contains(id) {
                    let i = choose|i: int| 0 <= i < p.len() && p[i] == id;
                    assert(stored[i] == id);
                }
                if id == v {
                    assert(stored[stored.len() - 1] == id);
                }
            }
            assert(r.contains(id) <==> (p.contains(id) && !listed.contains(id)));
            if !listed.contains(v) {
                assert(r.push(v).contains(id) <==> (r.contains(id) || id == v)) by {
                    if r.push(v).contains(id) {
                        let i = choose|i: int| 0 <= i < r.push(v).len() && r.push(v)[i] == id;
                        if i < r.len() {
                            assert(r[i] == id);
                        }
                    }
                    if r.contains(id) {
                        let i = choose|i: int| 0 <= i < r.len() && r[i] == id;
                        assert(r.push(v)[i] == id);
                    }
                    if id == v {
                        assert(r.push(v)[r.len() as int] == id);
                    }
                }
            }
        }
    }
}

} // verus!
