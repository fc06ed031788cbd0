//! Grouping the messages of a session into chunks, one per user turn.
use vstd::prelude::*;

verus! {

/// One rendered message of a session, in order.
pub struct TurnLine {
    /// The message was written by the user.
    pub is_user: bool,
    /// The message as it appears in the chunk (role prefix and trailing blank line included).
    pub text: String,
    /// Unix milliseconds, 0 when unknown.
    pub timestamp: i64,
}

/// A run of consecutive messages that becomes one chunk.
pub struct TurnGroup {
    /// The texts of the messages, concatenated.
    pub content: String,
    /// The first non-zero message timestamp seen up to the end of this group, else 0.
    pub timestamp: i64,
    /// The group holds a user message.
    pub has_user: bool,
}

/// What a [`TurnLine`] holds.
pub struct LineView {
    pub is_user: bool,
    pub text: Seq<char>,
    pub timestamp: i64,
}

/// What a [`TurnGroup`] holds.
pub struct GroupView {
    pub content: Seq<char>,
    pub timestamp: i64,
    pub has_user: bool,
}

impl View for TurnLine {
    type V = LineView;

    open spec fn view(&self) -> LineView {
        LineView { is_user: self.is_user, text: self.text@, timestamp: self.timestamp }
    }
}

impl View for TurnGroup {
    type V = GroupView;

    open spec fn view(&self) -> GroupView {
        GroupView { content: self.content@, timestamp: self.timestamp, has_user: self.has_user }
    }
}

/// The views of a sequence of lines.
pub open spec fn lines_view(lines: Seq<TurnLine>) -> Seq<LineView> {
    lines.map_values(|l: TurnLine| l@)
}

/// The views of a sequence of groups.
pub open spec fn groups_view(groups: Seq<TurnGroup>) -> Seq<GroupView> {
    groups.map_values(|g: TurnGroup| g@)
}

/// Progress of the grouping after some prefix of the lines.
pub struct TurnState {
    /// Groups already closed.
    pub done: Seq<GroupView>,
    /// Text of the group being filled.
    pub current: Seq<char>,
    /// First non-zero timestamp seen so far, else 0.
    pub timestamp: i64,
    /// A user message was added since the last group was closed.
    pub has_user: bool,
}

/// State before any line.
pub open spec fn start_state() -> TurnState {
    TurnState { done: seq![], current: seq![], timestamp: 0, has_user: false }
}

/// One line: a user message closes the group being filled, unless it is empty;
/// then the line's text is appended to the (possibly new) group.
pub open spec fn step_turn(st: TurnState, l: LineView) -> TurnState {
    let close = l.is_user && st.current.len() > 0;
    let done = if close {
        st.done.push(GroupView { content: st.current, timestamp: st.timestamp, has_user: st.has_user })
    } else {
        st.done
    };
    let current = if close {
        Seq::<char>::empty()
    } else {
        st.current
    };
    let has_user = if close {
        false
    } else {
        st.has_user
    };
    TurnState {
        done,
        current: current + l.text,
        timestamp: if st.timestamp == 0 {
            l.timestamp
        } else {
            st.timestamp
        },
        has_user: has_user || l.is_user,
    }
}

/// State after all of `lines`.
pub open spec fn fold_turns(lines: Seq<LineView>) -> TurnState
    decreases lines.len(),
{
    if lines.len() == 0 {
        start_state()
    } else {
        step_turn(fold_turns(lines.drop_last()), lines.last())
    }
}

/// The groups once the last one, if not empty, is closed.
pub open spec fn finish_turns(st: TurnState) -> Seq<GroupView> {
    if st.current.len() > 0 {
        st.done.push(GroupView { content: st.current, timestamp: st.timestamp, has_user: st.has_user })
    } else {
        st.done
    }
}

/// The groups that `lines` fall into.
pub open spec fn turn_groups(lines: Seq<LineView>) -> Seq<GroupView> {
    finish_turns(fold_turns(lines))
}

/// Groups `lines` into chunks: a new chunk starts at each user message, except when
/// nothing has been collected yet.
pub fn group_turns(lines: &Vec<TurnLine>) -> (groups: Vec<TurnGroup>)
    ensures
        groups_view(groups@) == turn_groups(lines_view(lines@)),
        groups.len() <= lines.len(),
{
    let ghost lv = lines_view(lines@);
    let mut groups: Vec<TurnGroup> = Vec::new();
    let mut current = String::new();
    let mut timestamp: i64 = 0;
    let mut has_user = false;
    let mut i: usize = 0;
    assert(lv.take(0) =~= Seq::<LineView>::empty());
    assert(groups_view(groups@) =~= Seq::<GroupView>::empty());
    while i < lines.len()
        invariant
            i <= lines.len(),
            lv == lines_view(lines@),
            groups.len() + (if current@.len() > 0 {
                1int
            } else {
                0int
            }) <= i,
            fold_turns(lv.take(i as int)) == (TurnState {
                done: groups_view(groups@),
                current: current@,
                timestamp,
                has_user,
            }),
        decreases lines.len() - i,
    {
        let line = &lines[i];
        assert(lv.take(i + 1).drop_last() =~= lv.take(i as int));
        assert(lv.take(i + 1).last() == line@);
        let ghost before = groups_view(groups@);
        if line.is_user && !current.as_str().is_empty() {
            let closed = TurnGroup { content: current, timestamp, has_user };
            groups.push(closed);
            assert(groups_view(groups@) =~= before.push(closed@));
            current = String::new();
            has_user = false;
        }
        if timestamp == 0 {
            timestamp = line.timestamp;
        }
        current.append(line.text.as_str());
        has_user = has_user || line.is_user;
        i += 1;
    }
    assert(lv.take(i as int) =~= lv);
    if !current.as_str().is_empty() {
        let ghost before = groups_view(groups@);
        let last = TurnGroup { content: current, timestamp, has_user };
        groups.push(last);
        assert(groups_view(groups@) =~= before.push(last@));
    }
    groups
}

// ---------------------------------------------------------------------------
// Laws of the grouping
// ---------------------------------------------------------------------------

/// All texts of `lines`, concatenated.
pub open spec fn all_texts(lines: Seq<LineView>) -> Seq<char>
    decreases lines.len(),
{
    if lines.len() == 0 {
        seq![]
    } else {
        all_texts(lines.drop_last()) + lines.last().text
    }
}

/// All contents of `groups`, concatenated.
pub open spec fn all_contents(groups: Seq<GroupView>) -> Seq<char>
    decreases groups.len(),
{
    if groups.len() == 0 {
        seq![]
    } else {
        all_contents(groups.drop_last()) + groups.last().content
    }
}

/// Number of user messages in `lines`.
pub open spec fn user_count(lines: Seq<LineView>) -> nat
    decreases lines.len(),
{
    if lines.len() == 0 {
        0
    } else {
        user_count(lines.drop_last()) + if lines.last().is_user {
            1nat
        } else {
            0nat
        }
    }
}

/// Every line has some text.
pub open spec fn texts_nonempty(lines: Seq<LineView>) -> bool {
    forall|i: int| 0 <= i < lines.len() ==> #[trigger] lines[i].text.len() > 0
}

proof fn lemma_fold_invariants(lines: Seq<LineView>)
    ensures
        all_contents(fold_turns(lines).done) + fold_turns(lines).current == all_texts(lines),
        forall|k: int|
            0 <= k < fold_turns(lines).done.len() ==> #[trigger] fold_turns(lines).done[k].content.len()
                > 0,
        forall|k: int|
            0 < k < fold_turns(lines).done.len() ==> #[trigger] fold_turns(lines).done[k].has_user,
        fold_turns(lines).done.len() > 0 ==> fold_turns(lines).has_user,
    decreases lines.len(),
{
    if lines.len() > 0 {
        let prev = lines.drop_last();
        lemma_fold_invariants(prev);
        let st = fold_turns(prev);
        let l = lines.last();
        let nx = fold_turns(lines);
        if l.is_user && st.current.len() > 0 {
            let g = GroupView { content: st.current, timestamp: st.timestamp, has_user: st.has_user };
            assert(nx.done.drop_last() =~= st.done);
            assert(all_contents(nx.done) == all_contents(st.done) + st.current);
            assert(all_contents(nx.done) + nx.current =~= all_contents(st.done) + st.current
                + l.text);
            assert forall|k: int| 0 < k < nx.done.len() implies #[trigger] nx.done[k].has_user by {
                if k < st.done.len() {
                    assert(nx.done[k] == st.done[k]);
                }
            }
            assert forall|k: int| 0 <= k < nx.done.len() implies #[trigger] nx.done[k].content.len()
                > 0 by {
                if k < st.done.len() {
                    assert(nx.done[k] == st.done[k]);
                }
            }
        } else {
            assert(all_contents(nx.done) + nx.current =~= all_contents(st.done) + st.current
                + l.text);
        }
    }
}

/// No text is lost or repeated: the chunks, read in order, spell out every message
/// in order.
pub proof fn law_groups_keep_all_text(lines: Seq<LineView>)
    ensures
        all_contents(turn_groups(lines)) == all_texts(lines),
{
    lemma_fold_invariants(lines);
    let st = fold_turns(lines);
    if st.current.len() > 0 {
        assert(turn_groups(lines).drop_last() =~= st.done);
    } else {
        assert(st.current =~= Seq::<char>::empty());
        assert(all_contents(st.done) + st.current =~= all_contents(st.done));
    }
}

/// Every chunk holds some text, and every chunk after the first holds a user message:
/// a chunk is a user turn together with the replies that follow it.
pub proof fn law_groups_are_turns(lines: Seq<LineView>)
    ensures
        forall|k: int|
            0 <= k < turn_groups(lines).len() ==> #[trigger] turn_groups(lines)[k].content.len() > 0,
        forall|k: int| 0 < k < turn_groups(lines).len() ==> #[trigger] turn_groups(lines)[k].has_user,
{
    lemma_fold_invariants(lines);
    let st = fold_turns(lines);
    let gs = turn_groups(lines);
    assert forall|k: int| 0 <= k < gs.len() implies #[trigger] gs[k].content.len() > 0 by {
        if k < st.done.len() {
            assert(gs[k] == st.done[k]);
        }
    }
    assert forall|k: int| 0 < k < gs.len() implies #[trigger] gs[k].has_user by {
        if k < st.done.len() {
            assert(gs[k] == st.done[k]);
        }
    }
}

proof fn lemma_fold_count(lines: Seq<LineView>)
    requires
        lines.len() > 0,
        texts_nonempty(lines),
    ensures
        fold_turns(lines).current.len() > 0,
        fold_turns(lines).done.len() == user_count(lines) - if lines[0].is_user {
            1int
        } else {
            0int
        },
    decreases lines.len(),
{
    let prev = lines.drop_last();
    let l = lines.last();
    assert(l.text.len() > 0) by {
        assert(lines[lines.len() - 1].text.len() > 0);
    }
    if prev.len() == 0 {
        assert(fold_turns(prev) == start_state());
        assert(user_count(prev) == 0);
        assert(lines[0] == l);
    } else {
        assert(texts_nonempty(prev)) by {
            assert forall|i: int| 0 <= i < prev.len() implies #[trigger] prev[i].text.len() > 0 by {
                assert(prev[i] == lines[i]);
            }
        }
        lemma_fold_count(prev);
        assert(prev[0] == lines[0]);
    }
}

/// With no empty message, a session holds one chunk per user message, plus one for
/// whatever comes before the first user message.
pub proof fn law_one_group_per_user_turn(lines: Seq<LineView>)
    requires
        lines.len() > 0,
        texts_nonempty(lines),
    ensures
        turn_groups(lines).len() == user_count(lines) + if lines[0].is_user {
            0int
        } else {
            1int
        },
{
    lemma_fold_count(lines);
}

} // verus!
