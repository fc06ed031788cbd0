//! Pi coding agent sessions (~/.pi/agent/sessions/*/*.jsonl)
use std::path::PathBuf;
use vstd::prelude::*;

use super::{
    first_80, is_session_chunk, join_lines, opt_view, session_chunks, text_or_empty, ItemChunk,
    JsonText,
};
use crate::dates::{rfc3339_millis_of, rfc3339_millis_or_zero};
use crate::text::{push_char, push_text, same_text, take_chars};
use crate::turns::{group_turns, turn_groups, LineView, TurnLine};

verus! {

/// Pi coding agent sessions (~/.pi/agent/sessions/*/*.jsonl)
pub struct PiSource {
    sessions_dir: PathBuf,
}

impl PiSource {
    /// The directory holding one directory of session files per project.
    pub closed spec fn spec_sessions_dir(&self) -> PathBuf {
        self.sessions_dir
    }

    pub fn new(sessions_dir: PathBuf) -> (s: Self)
        ensures
            s.spec_sessions_dir() == sessions_dir,
    {
        Self { sessions_dir }
    }

    /// The directory holding one directory of session files per project.
    pub fn sessions_dir(&self) -> (p: &PathBuf)
        ensures
            *p == self.spec_sessions_dir(),
    {
        &self.sessions_dir
    }

    /// The name under which this source's items are indexed.
    pub fn name(&self) -> (n: &'static str)
        ensures
            n@ == "pi"@,
    {
        "pi"
    }
}

/// One element of a content array.
pub struct PiPart {
    /// The `type` member, when it is a string.
    pub part_type: Option<String>,
    /// The `text` member, when it is a string.
    pub text: Option<String>,
    /// The `toolName` member.
    pub tool_name: JsonText,
}

/// The `content` of a message.
pub enum PiContent {
    /// A plain string.
    Text(String),
    /// An array of parts.
    Parts(Vec<PiPart>),
    /// Any other JSON value.
    Other,
}

/// The `message` of a line.
pub struct PiMessage {
    pub role: Option<String>,
    pub content: Option<PiContent>,
}

/// One line of a session file.
pub struct PiLine {
    /// The `type` member.
    pub event_type: Option<String>,
    pub timestamp: Option<String>,
    pub message: Option<PiMessage>,
    pub cwd: Option<String>,
}

/// A message kept from a session file.
pub struct PiMessageView {
    pub role: Seq<char>,
    pub text: Seq<char>,
    pub timestamp: i64,
}

/// How a part is shown: text parts by their text, tool invocations as `[tool:name]`.
pub open spec fn part_text(p: PiPart) -> Option<Seq<char>> {
    match p.part_type {
        Some(t) => if t@ == "text"@ {
            match p.text {
                Some(x) => Some(x@),
                None => None,
            }
        } else if t@ == "tool-invocation"@ {
            match p.tool_name {
                JsonText::Missing => None,
                JsonText::NotString => Some("[tool:"@ + "unknown"@ + "]"@),
                JsonText::Text(n) => Some("[tool:"@ + n@ + "]"@),
            }
        } else {
            None
        },
        None => None,
    }
}

/// The shown parts, in order.
pub open spec fn shown_parts(ps: Seq<PiPart>) -> Seq<Seq<char>>
    decreases ps.len(),
{
    if ps.len() == 0 {
        seq![]
    } else {
        let rest = shown_parts(ps.drop_last());
        match part_text(ps.last()) {
            Some(t) => rest.push(t),
            None => rest,
        }
    }
}

/// The text of a message's content: a string as is, the shown parts of an array one
/// per line, nothing for other values.
pub open spec fn content_text(c: PiContent) -> Seq<char> {
    match c {
        PiContent::Text(s) => s@,
        PiContent::Parts(v) => join_lines(shown_parts(v@)),
        PiContent::Other => seq![],
    }
}

/// The message a line contributes, if any: only `message` lines with some text do.
pub open spec fn pi_message(l: PiLine) -> Option<PiMessageView> {
    if l.event_type matches Some(t) && t@ == "message"@ {
        match l.message {
            Some(m) => {
                let text = match m.content {
                    Some(c) => content_text(c),
                    None => seq![],
                };
                if text.len() == 0 {
                    None
                } else {
                    Some(
                        PiMessageView {
                            role: text_or_empty(m.role),
                            text,
                            timestamp: rfc3339_millis_or_zero(opt_view(l.timestamp)),
                        },
                    )
                }
            },
            None => None,
        }
    } else {
        None
    }
}

/// Only `message` events give messages, and only when their text is not empty; a message
/// whose content is a string is shown by that whole string, with its role and timestamp.
pub proof fn law_pi_message(l: PiLine)
    ensures
        !(l.event_type matches Some(t) && t@ == "message"@) ==> pi_message(l) is None,
        l.message is None ==> pi_message(l) is None,
        pi_message(l) is Some ==> pi_message(l).unwrap().text.len() > 0
            && pi_message(l).unwrap().role == text_or_empty(l.message.unwrap().role)
            && pi_message(l).unwrap().timestamp == rfc3339_millis_or_zero(opt_view(l.timestamp)),
        (l.event_type matches Some(t) && t@ == "message"@) && l.message is Some
            && l.message.unwrap().content is Some && l.message.unwrap().content.unwrap() is Text
            && l.message.unwrap().content.unwrap()->Text_0@.len() > 0 ==> pi_message(l) is Some
            && pi_message(l).unwrap().text == l.message.unwrap().content.unwrap()->Text_0@,
{
}

/// The messages of a session file, in order.
pub open spec fn pi_messages(ls: Seq<PiLine>) -> Seq<PiMessageView>
    decreases ls.len(),
{
    if ls.len() == 0 {
        seq![]
    } else {
        let rest = pi_messages(ls.drop_last());
        match pi_message(ls.last()) {
            Some(m) => rest.push(m),
            None => rest,
        }
    }
}

/// The line is a `session` event.
pub open spec fn is_session_event(l: PiLine) -> bool {
    l.event_type matches Some(t) && t@ == "session"@
}

/// The project directory: the `cwd` of the last `session` event, empty if none.
pub open spec fn pi_project(ls: Seq<PiLine>) -> Seq<char>
    decreases ls.len(),
{
    if ls.len() == 0 {
        seq![]
    } else if is_session_event(ls.last()) {
        text_or_empty(ls.last().cwd)
    } else {
        pi_project(ls.drop_last())
    }
}

/// The title of a session: the first user message, at most 80 characters, or nothing.
pub open spec fn pi_title(ms: Seq<PiMessageView>) -> Seq<char>
    decreases ms.len(),
{
    if ms.len() == 0 {
        seq![]
    } else {
        let t = pi_title(ms.drop_last());
        if t.len() == 0 && ms.last().role == "user"@ {
            first_80(ms.last().text)
        } else {
            t
        }
    }
}

/// The path recorded on the chunks: the project directory, if any.
pub open spec fn pi_path(ls: Seq<PiLine>) -> Option<Seq<char>> {
    if pi_project(ls).len() == 0 {
        None
    } else {
        Some(pi_project(ls))
    }
}

/// A message as it appears in a chunk: `role: text` and a blank line.
pub open spec fn pi_lines(ms: Seq<PiMessageView>) -> Seq<LineView> {
    ms.map_values(
        |m: PiMessageView|
            LineView {
                is_user: m.role == "user"@,
                text: m.role + ": "@ + m.text + "\n\n"@,
                timestamp: m.timestamp,
            },
    )
}

/// The text of a message's content.
pub fn extract_text_content(content: &PiContent) -> (t: String)
    ensures
        t@ == content_text(*content),
{
    match content {
        PiContent::Text(s) => s.clone(),
        PiContent::Parts(v) => {
            let mut t = String::new();
            let mut count: usize = 0;
            let mut i: usize = 0;
            while i < v.len()
                invariant
                    i <= v.len(),
                    count <= i,
                    count == shown_parts(v@.take(i as int)).len(),
                    t@ == join_lines(shown_parts(v@.take(i as int))),
                decreases v.len() - i,
            {
                assert(v@.take(i + 1).drop_last() =~= v@.take(i as int));
                assert(v@.take(i + 1).last() == v@[i as int]);
                let ghost prev = shown_parts(v@.take(i as int));
                let p = &v[i];
                let shown: Option<String> = match &p.part_type {
                    Some(ty) => {
                        if same_text(ty.as_str(), "text") {
                            match &p.text {
                                Some(x) => Some(x.clone()),
                                None => None,
                            }
                        } else if same_text(ty.as_str(), "tool-invocation") {
                            let name: Option<&str> = match &p.tool_name {
                                JsonText::Missing => None,
                                JsonText::NotString => Some("unknown"),
                                JsonText::Text(n) => Some(n.as_str()),
                            };
                            match name {
                                Some(n) => {
                                    let mut s = String::from_str("[tool:");
                                    push_text(&mut s, n);
                                    push_text(&mut s, "]");
                                    Some(s)
                                },
                                None => None,
                            }
                        } else {
                            None
                        }
                    },
                    None => None,
                };
                match shown {
                    Some(s) => {
                        assert(part_text(*p) == Some(s@));
                        let ghost before = t@;
                        if count > 0 {
                            push_char(&mut t, '\n');
                        }
                        push_text(&mut t, s.as_str());
                        let ghost now = prev.push(s@);
                        assert(now.drop_last() =~= prev);
                        if count == 0 {
                            assert(t@ =~= now[0]);
                        } else {
                            assert(t@ =~= before + seq!['\n'] + s@);
                        }
                        count += 1;
                    },
                    None => {
                        assert(part_text(*p) is None);
                    },
                }
                i += 1;
            }
            assert(v@.take(v.len() as int) =~= v@);
            t
        },
        PiContent::Other => String::new(),
    }
}

impl PiSource {
    /// The message a line contributes, if any.
    pub fn line_message(l: &PiLine) -> (r: Option<(String, String, i64)>)
        ensures
            match r {
                Some((role, text, ts)) => pi_message(*l) == Some(
                    PiMessageView { role: role@, text: text@, timestamp: ts },
                ),
                None => pi_message(*l) is None,
            },
    {
        let is_message = match &l.event_type {
            Some(t) => same_text(t.as_str(), "message"),
            None => false,
        };
        if !is_message {
            return None;
        }
        match &l.message {
            Some(m) => {
                let text = match &m.content {
                    Some(c) => extract_text_content(c),
                    None => String::new(),
                };
                if text.as_str().is_empty() {
                    return None;
                }
                let role = match &m.role {
                    Some(r) => r.clone(),
                    None => String::new(),
                };
                let ts = rfc3339_millis_of(&l.timestamp);
                Some((role, text, ts))
            },
            None => None,
        }
    }

    /// The chunks of the session in file `item_id`, whose stem is `stem`: one chunk per
    /// user turn, with ids `pi:stem:0`, `pi:stem:1`, ..., titled by the first user
    /// message, and with the project directory as path.
    pub fn build_chunks(lines: &Vec<PiLine>, item_id: &str, stem: &str) -> (chunks: Vec<ItemChunk>)
        requires
            lines.len() <= u32::MAX,
        ensures
            chunks.len() == turn_groups(pi_lines(pi_messages(lines@))).len(),
            forall|k: int|
                0 <= k < chunks.len() ==> is_session_chunk(
                    #[trigger] chunks@[k],
                    item_id@,
                    "pi:"@ + stem@,
                    "pi"@,
                    Some(pi_title(pi_messages(lines@))),
                    true,
                    pi_path(lines@),
                    k,
                    turn_groups(pi_lines(pi_messages(lines@)))[k],
                ),
    {
        let mut turns: Vec<TurnLine> = Vec::new();
        let mut title = String::new();
        let mut project = String::new();
        let mut i: usize = 0;
        while i < lines.len()
            invariant
                i <= lines.len() <= u32::MAX,
                turns.len() <= i,
                crate::turns::lines_view(turns@) == pi_lines(pi_messages(lines@.take(i as int))),
                title@ == pi_title(pi_messages(lines@.take(i as int))),
                project@ == pi_project(lines@.take(i as int)),
            decreases lines.len() - i,
        {
            assert(lines@.take(i + 1).drop_last() =~= lines@.take(i as int));
            assert(lines@.take(i + 1).last() == lines@[i as int]);
            let ghost prev = pi_messages(lines@.take(i as int));
            let l = &lines[i];
            let is_session = match &l.event_type {
                Some(t) => same_text(t.as_str(), "session"),
                None => false,
            };
            if is_session {
                project = match &l.cwd {
                    Some(c) => c.clone(),
                    None => String::new(),
                };
            }
            match Self::line_message(l) {
                Some((role, text, ts)) => {
                    let ghost rv = role@;
                    let is_user = same_text(role.as_str(), "user");
                    if is_user && title.as_str().is_empty() {
                        title = take_chars(text.as_str(), 80);
                    }
                    let mut shown = role;
                    push_text(&mut shown, ": ");
                    push_text(&mut shown, text.as_str());
                    push_text(&mut shown, "\n\n");
                    assert(shown@ =~= rv + ": "@ + text@ + "\n\n"@);
                    let ghost before = crate::turns::lines_view(turns@);
                    let line = TurnLine { is_user, text: shown, timestamp: ts };
                    turns.push(line);
                    let ghost m = PiMessageView { role: rv, text: text@, timestamp: ts };
                    assert(crate::turns::lines_view(turns@) =~= before.push(line@));
                    assert(pi_lines(prev.push(m)) =~= pi_lines(prev).push(line@));
                    assert(prev.push(m).drop_last() =~= prev);
                },
                None => {},
            }
            i += 1;
        }
        assert(lines@.take(lines.len() as int) =~= lines@);
        let groups = group_turns(&turns);
        let mut base = String::from_str("pi:");
        push_text(&mut base, stem);
        let t = Some(title);
        let path = if project.as_str().is_empty() {
            None
        } else {
            Some(project)
        };
        session_chunks(&groups, item_id, base.as_str(), "pi", &t, true, &path)
    }
}

} // verus!
