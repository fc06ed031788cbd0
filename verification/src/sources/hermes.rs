//! Hermes Agent sessions, stored in SQLite (sessions and messages tables).
use std::path::PathBuf;
use vstd::prelude::*;

use super::{is_session_chunk, opt_view, session_chunks, ItemChunk};
use crate::text::{
    byte_len, colon_joined, decimal, push_char, push_decimal, push_signed_decimal, push_text,
    same_text, signed_decimal, truncate_utf8, utf8_len, utf8_truncate,
};
use crate::turns::{
    fold_turns, group_turns, law_one_group_per_user_turn, start_state, texts_nonempty, turn_groups,
    user_count, LineView, TurnLine,
};

verus! {

pub struct HermesSource {
    db_path: PathBuf,
}

impl HermesSource {
    /// The database file this source reads.
    pub closed spec fn spec_db_path(&self) -> PathBuf {
        self.db_path
    }

    pub fn new(db_path: PathBuf) -> (s: Self)
        ensures
            s.spec_db_path() == db_path,
    {
        Self { db_path }
    }

    /// The database file this source reads.
    pub fn db_path(&self) -> (p: &PathBuf)
        ensures
            *p == self.spec_db_path(),
    {
        &self.db_path
    }

    /// The name under which this source's items are indexed.
    pub fn name(&self) -> (n: &'static str)
        ensures
            n@ == "hermes"@,
    {
        "hermes"
    }
}

/// One row of the `messages` table.
pub struct HermesMessage {
    pub role: String,
    /// Empty when the row has none.
    pub content: String,
    /// Unix milliseconds (the row's timestamp in seconds, times 1000), 0 when absent.
    pub timestamp_ms: i64,
    pub tool_name: Option<String>,
}

/// Fingerprint of a session: its message count and end time, as `count:ended`.
pub open spec fn session_fingerprint_text(message_count: i64, ended_at_secs: i64) -> Seq<char> {
    colon_joined(signed_decimal(message_count as int), signed_decimal(ended_at_secs as int))
}

/// A session whose message count or end time changed gets another fingerprint, so it is
/// indexed again.
pub proof fn law_session_fingerprint_detects_change(c1: i64, e1: i64, c2: i64, e2: i64)
    requires
        session_fingerprint_text(c1, e1) == session_fingerprint_text(c2, e2),
    ensures
        c1 == c2,
        e1 == e2,
{
    lemma_signed_decimal(c1 as int);
    lemma_signed_decimal(c2 as int);
    crate::text::lemma_colon_joined_injective(
        signed_decimal(c1 as int),
        signed_decimal(e1 as int),
        signed_decimal(c2 as int),
        signed_decimal(e2 as int),
    );
    lemma_signed_decimal_injective(c1 as int, c2 as int);
    lemma_signed_decimal_injective(e1 as int, e2 as int);
}

proof fn lemma_signed_decimal(n: int)
    ensures
        forall|i: int| 0 <= i < signed_decimal(n).len() ==> signed_decimal(n)[i] != ':',
{
    if n < 0 {
        crate::text::lemma_decimal_shape((-n) as nat);
        let d = decimal((-n) as nat);
        assert forall|i: int| 0 <= i < signed_decimal(n).len() implies signed_decimal(n)[i] != ':' by {
            if i > 0 {
                assert(signed_decimal(n)[i] == d[i - 1]);
            }
        }
    } else {
        crate::text::lemma_decimal_shape(n as nat);
    }
}

proof fn lemma_signed_decimal_injective(a: int, b: int)
    requires
        signed_decimal(a) == signed_decimal(b),
    ensures
        a == b,
{
    crate::text::lemma_decimal_shape(if a < 0 { (-a) as nat } else { a as nat });
    crate::text::lemma_decimal_shape(if b < 0 { (-b) as nat } else { b as nat });
    if a < 0 && b < 0 {
        assert(decimal((-a) as nat) =~= signed_decimal(a).drop_first());
        assert(decimal((-b) as nat) =~= signed_decimal(b).drop_first());
        crate::text::lemma_decimal_injective((-a) as nat, (-b) as nat);
    } else if a >= 0 && b >= 0 {
        crate::text::lemma_decimal_injective(a as nat, b as nat);
    } else if a < 0 {
        assert(signed_decimal(a)[0] == '-');
        lemma_decimal_no_dash(b as nat);
    } else {
        assert(signed_decimal(b)[0] == '-');
        lemma_decimal_no_dash(a as nat);
    }
}

proof fn lemma_decimal_no_dash(n: nat)
    ensures
        decimal(n)[0] != '-',
    decreases n,
{
    if n >= 10 {
        lemma_decimal_no_dash(n / 10);
        crate::text::lemma_decimal_shape(n / 10);
        assert(decimal(n)[0] == decimal(n / 10)[0]);
    }
}

/// Longest tool output kept whole, in bytes.
pub const TOOL_OUTPUT_MAX_BYTES: usize = 2048;

/// A tool's output as kept in a chunk: cut at 2048 bytes, with a note of its full size.
pub open spec fn tool_output_text(content: Seq<char>) -> Seq<char> {
    if utf8_len(content) > 2048 {
        utf8_truncate(content, 2048) + "...[truncated "@ + decimal(utf8_len(content)) + "B]"@
    } else {
        content
    }
}

/// A message as it appears in a chunk.
pub open spec fn hermes_text(m: HermesMessage) -> Seq<char> {
    let role = m.role@;
    let content = m.content@;
    if role == "user"@ {
        "user: "@ + content + "\n\n"@
    } else if role == "assistant"@ {
        "assistant: "@ + content + "\n\n"@
    } else if role == "tool"@ {
        let name = match m.tool_name {
            Some(n) => n@,
            None => "unknown"@,
        };
        "[tool:"@ + name + "] "@ + tool_output_text(content) + "\n\n"@
    } else {
        role + ": "@ + content + "\n\n"@
    }
}

/// A message other than a tool's is shown whole, as `role: content` and a blank line; a
/// tool's output is kept whole when it fits in 2048 bytes, else its longest prefix of at
/// most 2048 bytes is kept, followed by a note of its full size.
pub proof fn law_hermes_message_text(m: HermesMessage)
    ensures
        m.role@ != "tool"@ ==> hermes_text(m) == m.role@ + ": "@ + m.content@ + "\n\n"@,
        m.role@ == "tool"@ ==> exists|k: int|
            #![trigger m.content@.take(k)]
            0 <= k <= m.content@.len() && hermes_text(m) == "[tool:"@ + match m.tool_name {
                Some(n) => n@,
                None => "unknown"@,
            } + "] "@ + m.content@.take(k) + (if k < m.content@.len() {
                "...[truncated "@ + decimal(utf8_len(m.content@)) + "B]"@
            } else {
                seq![]
            }) + "\n\n"@ && utf8_len(m.content@.take(k)) <= 2048 && (k < m.content@.len()
                ==> utf8_len(m.content@.take(k + 1)) > 2048),
{
    reveal_strlit("user");
    reveal_strlit("user: ");
    reveal_strlit("assistant");
    reveal_strlit("assistant: ");
    reveal_strlit(": ");
    reveal_strlit("tool");
    assert("user: "@ =~= "user"@ + ": "@);
    assert("assistant: "@ =~= "assistant"@ + ": "@);
    if m.role@ == "tool"@ {
        assert("tool"@[0] != "user"@[0] && "tool"@[0] != "assistant"@[0]);
        let c = m.content@;
        crate::text::lemma_fit_count(c, 2048);
        let name = match m.tool_name {
            Some(n) => n@,
            None => "unknown"@,
        };
        if utf8_len(c) > 2048 {
            let k = crate::text::fit_count(c, 2048) as int;
            if k == c.len() {
                assert(c.take(k) =~= c);
            }
            assert(k < c.len());
            assert(m.role@ != "user"@ && m.role@ != "assistant"@);
            assert(tool_output_text(c) == c.take(k) + ("...[truncated "@ + decimal(utf8_len(c))
                + "B]"@));
            assert(hermes_text(m) =~= "[tool:"@ + name + "] "@ + c.take(k) + ("...[truncated "@
                + decimal(utf8_len(c)) + "B]"@) + "\n\n"@);
        } else {
            crate::text::lemma_fit_count_all(c, 2048);
            let k = c.len() as int;
            assert(c.take(k) =~= c);
            assert(m.role@ != "user"@ && m.role@ != "assistant"@);
            assert(tool_output_text(c) == c);
            assert(hermes_text(m) =~= "[tool:"@ + name + "] "@ + c.take(k) + Seq::<char>::empty()
                + "\n\n"@);
        }
    }
}

/// The messages of a session as lines to group.
pub open spec fn hermes_lines(ms: Seq<HermesMessage>) -> Seq<LineView> {
    ms.map_values(
        |m: HermesMessage|
            LineView { is_user: m.role@ == "user"@, text: hermes_text(m), timestamp: m.timestamp_ms },
    )
}

/// A session's chunks are its user turns: one chunk per user message, plus one for what
/// comes before the first user message, and none for a session without messages.
pub proof fn law_hermes_one_chunk_per_user_turn(ms: Seq<HermesMessage>)
    ensures
        turn_groups(hermes_lines(ms)).len() == if ms.len() == 0 {
            0int
        } else {
            user_count(hermes_lines(ms)) + if ms[0].role@ == "user"@ {
                0int
            } else {
                1int
            }
        },
{
    let lines = hermes_lines(ms);
    if ms.len() == 0 {
        assert(lines =~= Seq::<LineView>::empty());
        assert(fold_turns(lines) == start_state());
    } else {
        assert(texts_nonempty(lines)) by {
            reveal_strlit("\n\n");
            assert forall|i: int| 0 <= i < lines.len() implies #[trigger] lines[i].text.len() > 0 by {
                let t = hermes_text(ms[i]);
                assert(lines[i].text == t);
            }
        }
        assert(lines[0].is_user == (ms[0].role@ == "user"@));
        law_one_group_per_user_turn(lines);
    }
}

impl HermesSource {
    /// Fingerprint of a session from its message count and its end time in whole seconds.
    pub fn session_fingerprint(message_count: i64, ended_at_secs: i64) -> (f: String)
        ensures
            f@ == session_fingerprint_text(message_count, ended_at_secs),
    {
        let mut f = String::new();
        push_signed_decimal(&mut f, message_count);
        push_char(&mut f, ':');
        push_signed_decimal(&mut f, ended_at_secs);
        assert(f@ =~= session_fingerprint_text(message_count, ended_at_secs));
        f
    }

    /// A tool's output as kept in a chunk.
    pub fn tool_output(content: &str) -> (t: String)
        ensures
            t@ == tool_output_text(content@),
    {
        let n = byte_len(content);
        if n > TOOL_OUTPUT_MAX_BYTES {
            let mut t = truncate_utf8(content, TOOL_OUTPUT_MAX_BYTES);
            push_text(&mut t, "...[truncated ");
            push_decimal(&mut t, n as u64);
            push_text(&mut t, "B]");
            t
        } else {
            String::from_str(content)
        }
    }

    /// A message as it appears in a chunk.
    pub fn message_text(m: &HermesMessage) -> (t: String)
        ensures
            t@ == hermes_text(*m),
            m.role@ != "tool"@ ==> t@ == m.role@ + ": "@ + m.content@ + "\n\n"@,
    {
        proof {
            law_hermes_message_text(*m);
        }
        let mut t = String::new();
        if same_text(m.role.as_str(), "user") {
            push_text(&mut t, "user: ");
            push_text(&mut t, m.content.as_str());
        } else if same_text(m.role.as_str(), "assistant") {
            push_text(&mut t, "assistant: ");
            push_text(&mut t, m.content.as_str());
        } else if same_text(m.role.as_str(), "tool") {
            push_text(&mut t, "[tool:");
            match &m.tool_name {
                Some(n) => push_text(&mut t, n.as_str()),
                None => push_text(&mut t, "unknown"),
            }
            push_text(&mut t, "] ");
            let out = Self::tool_output(m.content.as_str());
            push_text(&mut t, out.as_str());
        } else {
            push_text(&mut t, m.role.as_str());
            push_text(&mut t, ": ");
            push_text(&mut t, m.content.as_str());
        }
        push_text(&mut t, "\n\n");
        assert(t@ =~= hermes_text(*m));
        t
    }

    /// The chunks of session `item_id`, from its title and its messages in time order:
    /// one chunk per user turn, with ids `item_id:0`, `item_id:1`, ...
    pub fn build_chunks(item_id: &str, title: &Option<String>, messages: &Vec<HermesMessage>) -> (chunks:
        Vec<ItemChunk>)
        requires
            messages.len() <= u32::MAX,
        ensures
            chunks.len() == turn_groups(hermes_lines(messages@)).len(),
            forall|k: int|
                0 <= k < chunks.len() ==> is_session_chunk(
                    #[trigger] chunks@[k],
                    item_id@,
                    item_id@,
                    "hermes"@,
                    opt_view(*title),
                    false,
                    None,
                    k,
                    turn_groups(hermes_lines(messages@))[k],
                ),
    {
        let mut lines: Vec<TurnLine> = Vec::new();
        let mut i: usize = 0;
        while i < messages.len()
            invariant
                i <= messages.len(),
                lines.len() == i,
                forall|j: int|
                    0 <= j < i ==> #[trigger] lines@[j]@ == hermes_lines(messages@)[j],
            decreases messages.len() - i,
        {
            let m = &messages[i];
            let line = TurnLine {
                is_user: same_text(m.role.as_str(), "user"),
                text: Self::message_text(m),
                timestamp: m.timestamp_ms,
            };
            lines.push(line);
            i += 1;
        }
        assert(crate::turns::lines_view(lines@) =~= hermes_lines(messages@));
        let groups = group_turns(&lines);
        let none: Option<String> = None;
        let chunks = session_chunks(&groups, item_id, item_id, "hermes", title, false, &none);
        chunks
    }
}

} // verus!
