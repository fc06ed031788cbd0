//! Nanobot sessions: one JSONL file per session.
//! The first line may be metadata (`_type: "metadata"`); the others are messages
//! `{role, content, timestamp, tool_calls?}`.
use std::path::PathBuf;
use vstd::prelude::*;

use super::{first_80, is_session_chunk, join_lines, opt_view, session_chunks, text_or_empty, ItemChunk, JsonText};
use crate::dates::{iso_local_millis, iso_local_millis_or_zero};
use crate::text::{
    byte_len, push_char, push_text, same_text, take_chars, truncate_utf8, utf8_len, utf8_truncate,
};
use crate::turns::{group_turns, turn_groups, LineView, TurnLine};

verus! {

/// Generic JSONL source for Nanobot sessions.
pub struct NanobotSource {
    sessions_dir: PathBuf,
}

impl NanobotSource {
    /// The directory of session files.
    pub closed spec fn spec_sessions_dir(&self) -> PathBuf {
        self.sessions_dir
    }

    pub fn new(sessions_dir: PathBuf) -> (s: Self)
        ensures
            s.spec_sessions_dir() == sessions_dir,
    {
        Self { sessions_dir }
    }

    /// The directory of session files.
    pub fn sessions_dir(&self) -> (p: &PathBuf)
        ensures
            *p == self.spec_sessions_dir(),
    {
        &self.sessions_dir
    }

    /// The name under which this source's items are indexed.
    pub fn name(&self) -> (n: &'static str)
        ensures
            n@ == "nanobot"@,
    {
        "nanobot"
    }
}

/// One element of a `tool_calls` array.
pub struct ToolCallEntry {
    /// `function.name` when `function` is present and `name` is a string.
    pub name: Option<String>,
    /// `function.arguments`.
    pub arguments: JsonText,
}

/// The `tool_calls` value of a message.
pub enum ToolCalls {
    /// An array, element by element.
    Array(Vec<ToolCallEntry>),
    /// Any other JSON value.
    Other,
}

/// One line of a session file.
pub struct NanobotLine {
    /// The `_type` member.
    pub line_type: Option<String>,
    pub role: Option<String>,
    pub content: Option<String>,
    pub timestamp: Option<String>,
    pub tool_calls: Option<ToolCalls>,
}

/// A message kept from a session file.
pub struct NanobotMessageView {
    pub role: Seq<char>,
    pub text: Seq<char>,
    pub timestamp: i64,
}

/// Tool arguments as kept in a chunk: cut at 512 bytes, marked when cut.
pub open spec fn tool_args_text(a: Seq<char>) -> Seq<char> {
    if utf8_len(a) > 512 {
        utf8_truncate(a, 512) + "..."@
    } else {
        a
    }
}

/// Tool arguments are kept whole when they fit in 512 bytes; longer ones are cut to their
/// longest prefix of at most 512 bytes, followed by `...`.
pub proof fn law_tool_args_text(a: Seq<char>)
    ensures
        utf8_len(a) <= 512 ==> tool_args_text(a) == a,
        utf8_len(a) > 512 ==> exists|k: int|
            #![trigger a.take(k)]
            0 <= k < a.len() && tool_args_text(a) == a.take(k) + "..."@ && utf8_len(a.take(k))
                <= 512 && utf8_len(a.take(k + 1)) > 512,
{
    let k = crate::text::lemma_truncate_longest_prefix(a, 512);
    if utf8_len(a) > 512 {
        if k == a.len() {
            assert(a.take(k) =~= a);
        }
        assert(a.take(k) == a.take(k));
    }
}

/// How a tool call is shown, if it names its function and has arguments.
pub open spec fn tool_call_text(e: ToolCallEntry) -> Option<Seq<char>> {
    match e.name {
        Some(n) => match e.arguments {
            JsonText::Missing => None,
            JsonText::NotString => Some("[tool:"@ + n@ + "] "@ + tool_args_text(seq![])),
            JsonText::Text(a) => Some("[tool:"@ + n@ + "] "@ + tool_args_text(a@)),
        },
        None => None,
    }
}

/// The shown tool calls, in order.
pub open spec fn shown_tool_calls(es: Seq<ToolCallEntry>) -> Seq<Seq<char>>
    decreases es.len(),
{
    if es.len() == 0 {
        seq![]
    } else {
        let rest = shown_tool_calls(es.drop_last());
        match tool_call_text(es.last()) {
            Some(t) => rest.push(t),
            None => rest,
        }
    }
}

/// How the tool calls of a message are shown: one line per call.
pub open spec fn tool_calls_text(t: ToolCalls) -> Seq<char> {
    match t {
        ToolCalls::Array(v) => join_lines(shown_tool_calls(v@)),
        ToolCalls::Other => seq![],
    }
}

/// The message a line contributes, if any: metadata lines, and lines with neither
/// content nor tool calls, contribute none.
pub open spec fn nanobot_message(l: NanobotLine) -> Option<NanobotMessageView> {
    if l.line_type matches Some(t) && t@ == "metadata"@ {
        None
    } else {
        let content = text_or_empty(l.content);
        if content.len() == 0 && l.tool_calls is None {
            None
        } else {
            Some(
                NanobotMessageView {
                    role: text_or_empty(l.role),
                    text: if content.len() == 0 {
                        tool_calls_text(l.tool_calls.unwrap())
                    } else {
                        content
                    },
                    timestamp: iso_local_millis_or_zero(opt_view(l.timestamp)),
                },
            )
        }
    }
}

/// A metadata line gives no message, nor does a line with no content and no tool calls.
/// Any other line gives a message with its role and its timestamp; its text is its content
/// whenever that is not empty, whatever tool calls the line also has, and only a line
/// without content is shown by its tool calls.
pub proof fn law_nanobot_message(l: NanobotLine)
    ensures
        (l.line_type matches Some(t) && t@ == "metadata"@) ==> nanobot_message(l) is None,
        !(l.line_type matches Some(t) && t@ == "metadata"@) ==> (nanobot_message(l) is Some <==> (
        text_or_empty(l.content).len() > 0 || l.tool_calls is Some)),
        nanobot_message(l) is Some ==> nanobot_message(l).unwrap().role == text_or_empty(l.role)
            && nanobot_message(l).unwrap().timestamp == iso_local_millis_or_zero(
            opt_view(l.timestamp),
        ),
        nanobot_message(l) is Some && text_or_empty(l.content).len() > 0 ==> nanobot_message(
            l,
        ).unwrap().text == text_or_empty(l.content),
        nanobot_message(l) is Some && text_or_empty(l.content).len() == 0 ==> l.tool_calls is Some
            && nanobot_message(l).unwrap().text == tool_calls_text(l.tool_calls.unwrap()),
{
}

/// The messages of a session file, in order.
pub open spec fn nanobot_messages(ls: Seq<NanobotLine>) -> Seq<NanobotMessageView>
    decreases ls.len(),
{
    if ls.len() == 0 {
        seq![]
    } else {
        let rest = nanobot_messages(ls.drop_last());
        match nanobot_message(ls.last()) {
            Some(m) => rest.push(m),
            None => rest,
        }
    }
}

/// The title of a session: its first message when a user wrote it (at most 80
/// characters), else the file's stem.
pub open spec fn nanobot_title(ms: Seq<NanobotMessageView>, stem: Seq<char>) -> Seq<char> {
    if ms.len() > 0 && ms[0].role == "user"@ {
        first_80(ms[0].text)
    } else {
        stem
    }
}

/// A message as it appears in a chunk: `role: text` and a blank line.
pub open spec fn nanobot_lines(ms: Seq<NanobotMessageView>) -> Seq<LineView> {
    ms.map_values(
        |m: NanobotMessageView|
            LineView {
                is_user: m.role == "user"@,
                text: m.role + ": "@ + m.text + "\n\n"@,
                timestamp: m.timestamp,
            },
    )
}

/// How the tool calls of a message are shown: `[tool:name] arguments`, one per line,
/// arguments cut at 512 bytes.
pub fn format_tool_calls(tools: &ToolCalls) -> (t: String)
    ensures
        t@ == tool_calls_text(*tools),
{
    match tools {
        ToolCalls::Array(v) => {
            let mut t = String::new();
            let mut count: usize = 0;
            let mut i: usize = 0;
            while i < v.len()
                invariant
                    i <= v.len(),
                    count <= i,
                    count == shown_tool_calls(v@.take(i as int)).len(),
                    t@ == join_lines(shown_tool_calls(v@.take(i as int))),
                decreases v.len() - i,
            {
                assert(v@.take(i + 1).drop_last() =~= v@.take(i as int));
                assert(v@.take(i + 1).last() == v@[i as int]);
                let ghost prev = shown_tool_calls(v@.take(i as int));
                let e = &v[i];
                match &e.name {
                    Some(n) => {
                        let args: Option<&str> = match &e.arguments {
                            JsonText::Missing => None,
                            JsonText::NotString => Some(""),
                            JsonText::Text(a) => Some(a.as_str()),
                        };
                        match args {
                            Some(a) => {
                                let mut line = String::from_str("[tool:");
                                push_text(&mut line, n.as_str());
                                push_text(&mut line, "] ");
                                if byte_len(a) > 512 {
                                    let cut = truncate_utf8(a, 512);
                                    push_text(&mut line, cut.as_str());
                                    push_text(&mut line, "...");
                                } else {
                                    push_text(&mut line, a);
                                }
                                proof {
                                    reveal_strlit("");
                                    assert(line@ =~= tool_call_text(*e).unwrap());
                                }
                                let ghost before = t@;
                                if count > 0 {
                                    push_char(&mut t, '\n');
                                }
                                push_text(&mut t, line.as_str());
                                let ghost now = prev.push(line@);
                                assert(now.drop_last() =~= prev);
                                if count == 0 {
                                    assert(t@ =~= now[0]);
                                } else {
                                    assert(t@ =~= before + seq!['\n'] + line@);
                                }
                                count += 1;
                            },
                            None => {},
                        }
                    },
                    None => {},
                }
                i += 1;
            }
            assert(v@.take(v.len() as int) =~= v@);
            t
        },
        ToolCalls::Other => String::new(),
    }
}

impl NanobotSource {
    /// The message a line contributes, if any.
    pub fn line_message(l: &NanobotLine) -> (r: Option<(String, String, i64)>)
        ensures
            match r {
                Some((role, text, ts)) => nanobot_message(*l) == Some(
                    NanobotMessageView { role: role@, text: text@, timestamp: ts },
                ),
                None => nanobot_message(*l) is None,
            },
            r is Some && text_or_empty(l.content).len() > 0 ==> r.unwrap().1@ == text_or_empty(
                l.content,
            ),
    {
        proof {
            law_nanobot_message(*l);
        }
        let is_metadata = match &l.line_type {
            Some(t) => same_text(t.as_str(), "metadata"),
            None => false,
        };
        if is_metadata {
            return None;
        }
        let role = match &l.role {
            Some(r) => r.clone(),
            None => String::new(),
        };
        let content = match &l.content {
            Some(c) => c.clone(),
            None => String::new(),
        };
        if content.as_str().is_empty() && l.tool_calls.is_none() {
            return None;
        }
        let ts = iso_local_millis(&l.timestamp);
        let text = if content.as_str().is_empty() {
            match &l.tool_calls {
                Some(tools) => format_tool_calls(tools),
                None => String::new(),
            }
        } else {
            content
        };
        Some((role, text, ts))
    }

    /// The chunks of the session in file `item_id`, whose stem is `stem`: one chunk per
    /// user turn, with ids `nanobot:stem:0`, `nanobot:stem:1`, ..., all titled by the
    /// session's first user message or the stem.
    pub fn build_chunks(lines: &Vec<NanobotLine>, item_id: &str, stem: &str) -> (chunks: Vec<
        ItemChunk,
    >)
        requires
            lines.len() <= u32::MAX,
        ensures
            chunks.len() == turn_groups(nanobot_lines(nanobot_messages(lines@))).len(),
            forall|k: int|
                0 <= k < chunks.len() ==> is_session_chunk(
                    #[trigger] chunks@[k],
                    item_id@,
                    "nanobot:"@ + stem@,
                    "nanobot"@,
                    Some(nanobot_title(nanobot_messages(lines@), stem@)),
                    true,
                    Some(item_id@),
                    k,
                    turn_groups(nanobot_lines(nanobot_messages(lines@)))[k],
                ),
    {
        let ghost ms = nanobot_messages(lines@);
        let mut turns: Vec<TurnLine> = Vec::new();
        let mut title = String::from_str(stem);
        let mut i: usize = 0;
        while i < lines.len()
            invariant
                i <= lines.len() <= u32::MAX,
                ms == nanobot_messages(lines@),
                turns.len() <= i,
                crate::turns::lines_view(turns@) == nanobot_lines(
                    nanobot_messages(lines@.take(i as int)),
                ),
                title@ == nanobot_title(nanobot_messages(lines@.take(i as int)), stem@),
            decreases lines.len() - i,
        {
            assert(lines@.take(i + 1).drop_last() =~= lines@.take(i as int));
            assert(lines@.take(i + 1).last() == lines@[i as int]);
            let ghost prev = nanobot_messages(lines@.take(i as int));
            match Self::line_message(&lines[i]) {
                Some((role, text, ts)) => {
                    let ghost rv = role@;
                    let is_user = same_text(role.as_str(), "user");
                    if is_user && turns.len() == 0 {
                        title = take_chars(text.as_str(), 80);
                    }
                    let mut shown = role;
                    push_text(&mut shown, ": ");
                    push_text(&mut shown, text.as_str());
                    push_text(&mut shown, "\n\n");
                    assert(shown@ =~= rv + ": "@ + text@ + "\n\n"@);
                    let ghost before = crate::turns::lines_view(turns@);
                    let line = TurnLine { is_user, text: shown, timestamp: ts };
                    turns.push(line);
                    let ghost m = NanobotMessageView { role: rv, text: text@, timestamp: ts };
                    assert(crate::turns::lines_view(turns@) =~= before.push(line@));
                    assert(nanobot_lines(prev.push(m)) =~= nanobot_lines(prev).push(line@));
                    assert(crate::turns::lines_view(turns@) =~= nanobot_lines(prev.push(m)));
                    assert(prev.push(m)[0] == if prev.len() > 0 { prev[0] } else { m });
                },
                None => {},
            }
            i += 1;
        }
        assert(lines@.take(lines.len() as int) =~= lines@);
        let groups = group_turns(&turns);
        let mut base = String::from_str("nanobot:");
        push_text(&mut base, stem);
        let t = Some(title);
        let p = Some(String::from_str(item_id));
        session_chunks(&groups, item_id, base.as_str(), "nanobot", &t, true, &p)
    }
}

} // verus!
