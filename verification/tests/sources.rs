use std::path::PathBuf;

use agentsearch::catalog::{build_sources, ConfiguredSource};
use agentsearch::config::AppConfig;
use agentsearch::dates::{iso_local_millis, millis_or_zero, rfc3339_millis_of};
use agentsearch::sources::hermes::{HermesMessage, HermesSource};
use agentsearch::sources::markdown::{date_cut_at, pattern_outcome_of, DateCut, DateScan, MarkdownSource};
use agentsearch::sources::moltis::{make_chunk, sort_messages, MoltisEntry, MoltisMessage, MoltisSource};
use agentsearch::sources::nanobot::{format_tool_calls, NanobotLine, NanobotSource, ToolCallEntry, ToolCalls};
use agentsearch::sources::pi::{extract_text_content, PiContent, PiLine, PiMessage, PiPart, PiSource};
use agentsearch::sources::{file_fingerprint, ItemKind, JsonText};

fn hmsg(role: &str, content: &str, ts: i64, tool: Option<&str>) -> HermesMessage {
    HermesMessage {
        role: role.to_string(),
        content: content.to_string(),
        timestamp_ms: ts,
        tool_name: tool.map(|t| t.to_string()),
    }
}

#[test]
fn source_names() {
    assert_eq!(HermesSource::new(PathBuf::from("/a")).name(), "hermes");
    assert_eq!(MoltisSource::new(PathBuf::from("/a")).name(), "moltis");
    assert_eq!(NanobotSource::new(PathBuf::from("/a")).name(), "nanobot");
    assert_eq!(PiSource::new(PathBuf::from("/a")).name(), "pi");
    assert_eq!(MarkdownSource::new(vec![]).name(), "notes");
    assert_eq!(HermesSource::new(PathBuf::from("/db")).db_path(), &PathBuf::from("/db"));
}

#[test]
fn item_kind_names() {
    assert_eq!(ItemKind::Session.to_string(), "session");
    assert_eq!(ItemKind::Note.to_string(), "note");
    assert_eq!(ItemKind::Memory.to_string(), "memory");
}

#[test]
fn fingerprints() {
    assert_eq!(file_fingerprint(1234, 1711929600), "1234:1711929600");
    assert_eq!(file_fingerprint(0, 0), "0:0");
    assert_eq!(HermesSource::session_fingerprint(42, 1711929600), "42:1711929600");
    assert_eq!(HermesSource::session_fingerprint(-3, i64::MIN), "-3:-9223372036854775808");
    assert_ne!(file_fingerprint(12, 34), file_fingerprint(123, 4));
}

#[test]
fn hermes_chunks_follow_user_turns() {
    let msgs = vec![
        hmsg("user", "hello", 1000, None),
        hmsg("assistant", "hi", 2000, None),
        hmsg("tool", "out", 2500, Some("grep")),
        hmsg("user", "again", 3000, None),
        hmsg("system", "note", 4000, None),
    ];
    let title = Some("Greeting".to_string());
    let chunks = HermesSource::build_chunks("s1", &title, &msgs);
    assert_eq!(chunks.len(), 2);
    assert_eq!(chunks[0].chunk_id, "s1:0");
    assert_eq!(chunks[0].content, "user: hello\n\nassistant: hi\n\n[tool:grep] out\n\n");
    assert_eq!(chunks[0].role.as_deref(), Some("user"));
    assert_eq!(chunks[0].timestamp, 1000);
    assert_eq!(chunks[0].source, "hermes");
    assert_eq!(chunks[0].title.as_deref(), Some("Greeting"));
    assert_eq!(chunks[1].chunk_id, "s1:1");
    assert_eq!(chunks[1].ordinal, 1);
    assert_eq!(chunks[1].content, "user: again\n\nsystem: note\n\n");
    // The timestamp of a chunk is the first one seen in the session.
    assert_eq!(chunks[1].timestamp, 1000);
    assert_eq!(chunks[1].path, None);
}

#[test]
fn hermes_first_chunk_without_user_has_no_role() {
    let msgs = vec![hmsg("assistant", "welcome", 0, None), hmsg("user", "q", 5, None)];
    let chunks = HermesSource::build_chunks("s", &None, &msgs);
    assert_eq!(chunks.len(), 2);
    assert_eq!(chunks[0].role, None);
    assert_eq!(chunks[0].timestamp, 0);
    assert_eq!(chunks[1].role.as_deref(), Some("user"));
    assert_eq!(chunks[1].timestamp, 5);
}

#[test]
fn hermes_tool_output_is_truncated() {
    let long = "é".repeat(1500); // 3000 bytes
    let t = HermesSource::tool_output(&long);
    assert!(t.starts_with(&"é".repeat(1024)));
    assert!(t.ends_with("...[truncated 3000B]"));
    assert_eq!(t.len(), 2048 + "...[truncated 3000B]".len());
    let short = "x".repeat(2048);
    assert_eq!(HermesSource::tool_output(&short), short);
    let m = hmsg("tool", "ok", 0, None);
    assert_eq!(HermesSource::message_text(&m), "[tool:unknown] ok\n\n");
}

fn mentry(role: &str, content: &str, run: &str, seq: u32, ts: i64) -> MoltisEntry {
    MoltisEntry {
        content: Some(content.to_string()),
        created_at: Some(ts),
        role: Some(role.to_string()),
        run_id: Some(run.to_string()),
        seq: Some(seq),
        tool_name: None,
        result: None,
    }
}

#[test]
fn moltis_run_ids_are_distinct_in_order() {
    let es = vec![
        mentry("user", "a", "r2", 0, 0),
        mentry("user", "b", "r1", 0, 0),
        mentry("assistant", "c", "r2", 1, 0),
        MoltisEntry { run_id: None, ..mentry("user", "d", "x", 0, 0) },
    ];
    assert_eq!(MoltisSource::run_ids(&es), vec!["r2".to_string(), "r1".to_string()]);
    let items = MoltisSource::scan_items(&es, 10, 20);
    assert_eq!(items.len(), 2);
    assert_eq!(items[1].item_id, "r1");
    assert_eq!(items[1].fingerprint, "10:20");
}

#[test]
fn moltis_orders_by_seq_then_time() {
    let es = vec![
        mentry("assistant", "second", "r", 2, 10),
        mentry("user", "first", "r", 1, 50),
        mentry("user", "other run", "q", 0, 0),
        mentry("assistant", "third", "r", 2, 20),
        MoltisEntry {
            tool_name: Some("ls".to_string()),
            result: Some("\"files\"".to_string()),
            ..mentry("tool_result", "", "r", 3, 30)
        },
    ];
    let chunks = MoltisSource::build_chunks(&es, "r");
    assert_eq!(chunks.len(), 1);
    assert_eq!(
        chunks[0].content,
        "user: first\n\nassistant: second\n\nassistant: third\n\ntool_result: [tool:ls] \"files\"\n\n"
    );
    assert_eq!(chunks[0].chunk_id, "moltis:r:0");
    assert_eq!(chunks[0].timestamp, 50);
    assert_eq!(chunks[0].role.as_deref(), Some("user"));
    assert_eq!(chunks[0].title, None);
}

#[test]
fn moltis_sort_is_stable() {
    let m = |c: &str, seq: u32, ts: i64| MoltisMessage {
        role: "user".to_string(),
        content: c.to_string(),
        timestamp: ts,
        seq,
    };
    let ms = vec![m("a", 1, 5), m("b", 0, 9), m("c", 1, 5), m("d", 0, 1), m("e", 1, 5)];
    let out = sort_messages(&ms);
    let order: Vec<&str> = out.iter().map(|x| x.content.as_str()).collect();
    assert_eq!(order, vec!["d", "b", "a", "c", "e"]);
}

#[test]
fn moltis_make_chunk() {
    let c = make_chunk("run", 7, 99, "text");
    assert_eq!(c.chunk_id, "moltis:run:7");
    assert_eq!(c.ordinal, 7);
    assert_eq!(c.timestamp, 99);
    assert_eq!(c.kind, ItemKind::Session);
    assert_eq!(c.role.as_deref(), Some("user"));
}

#[test]
fn nanobot_tool_calls_are_formatted() {
    let calls = ToolCalls::Array(vec![
        ToolCallEntry { name: Some("read".to_string()), arguments: JsonText::Text("{\"p\":1}".to_string()) },
        ToolCallEntry { name: None, arguments: JsonText::Text("x".to_string()) },
        ToolCallEntry { name: Some("ls".to_string()), arguments: JsonText::NotString },
        ToolCallEntry { name: Some("skip".to_string()), arguments: JsonText::Missing },
        ToolCallEntry { name: Some("big".to_string()), arguments: JsonText::Text("a".repeat(600)) },
    ]);
    let s = format_tool_calls(&calls);
    let expected = format!("[tool:read] {{\"p\":1}}\n[tool:ls] \n[tool:big] {}...", "a".repeat(512));
    assert_eq!(s, expected);
    assert_eq!(format_tool_calls(&ToolCalls::Other), "");
}

fn nline(role: &str, content: &str, ts: Option<&str>) -> NanobotLine {
    NanobotLine {
        line_type: None,
        role: Some(role.to_string()),
        content: Some(content.to_string()),
        timestamp: ts.map(|t| t.to_string()),
        tool_calls: None,
    }
}

#[test]
fn nanobot_sessions_chunk_by_user_turn() {
    let lines = vec![
        NanobotLine { line_type: Some("metadata".to_string()), ..nline("", "meta", None) },
        nline("user", "How do I index notes?", Some("2024-03-01T12:30:05.250")),
        nline("assistant", "", None),
        NanobotLine {
            tool_calls: Some(ToolCalls::Array(vec![ToolCallEntry {
                name: Some("glob".to_string()),
                arguments: JsonText::Text("*.md".to_string()),
            }])),
            ..nline("assistant", "", None)
        },
        nline("user", "thanks", None),
    ];
    let chunks = NanobotSource::build_chunks(&lines, "/s/abc.jsonl", "abc");
    assert_eq!(chunks.len(), 2);
    assert_eq!(chunks[0].content, "user: How do I index notes?\n\nassistant: [tool:glob] *.md\n\n");
    assert_eq!(chunks[0].timestamp, 1709296205250);
    assert_eq!(chunks[0].title.as_deref(), Some("How do I index notes?"));
    assert_eq!(chunks[0].chunk_id, "nanobot:abc:0");
    assert_eq!(chunks[1].chunk_id, "nanobot:abc:1");
    assert_eq!(chunks[1].path.as_deref(), Some("/s/abc.jsonl"));
}

#[test]
fn nanobot_title_falls_back_to_stem() {
    let lines = vec![nline("assistant", "hello", None), nline("user", &"q".repeat(100), None)];
    let chunks = NanobotSource::build_chunks(&lines, "/s/xyz.jsonl", "xyz");
    assert_eq!(chunks[0].title.as_deref(), Some("xyz"));
    let lines = vec![nline("user", &"q".repeat(100), None)];
    let chunks = NanobotSource::build_chunks(&lines, "/s/xyz.jsonl", "xyz");
    assert_eq!(chunks[0].title, Some("q".repeat(80)));
}

#[test]
fn pi_content_parts() {
    let parts = PiContent::Parts(vec![
        PiPart { part_type: Some("text".to_string()), text: Some("hello".to_string()), tool_name: JsonText::Missing },
        PiPart { part_type: Some("tool-invocation".to_string()), text: None, tool_name: JsonText::Text("bash".to_string()) },
        PiPart { part_type: Some("tool-invocation".to_string()), text: None, tool_name: JsonText::NotString },
        PiPart { part_type: Some("tool-invocation".to_string()), text: None, tool_name: JsonText::Missing },
        PiPart { part_type: Some("image".to_string()), text: Some("x".to_string()), tool_name: JsonText::Missing },
        PiPart { part_type: None, text: Some("y".to_string()), tool_name: JsonText::Missing },
    ]);
    assert_eq!(extract_text_content(&parts), "hello\n[tool:bash]\n[tool:unknown]");
    assert_eq!(extract_text_content(&PiContent::Text("plain".to_string())), "plain");
    assert_eq!(extract_text_content(&PiContent::Other), "");
}

fn pline(kind: &str, role: &str, text: &str, ts: Option<&str>) -> PiLine {
    PiLine {
        event_type: Some(kind.to_string()),
        timestamp: ts.map(|t| t.to_string()),
        message: Some(PiMessage {
            role: Some(role.to_string()),
            content: Some(PiContent::Text(text.to_string())),
        }),
        cwd: None,
    }
}

#[test]
fn pi_sessions() {
    let lines = vec![
        PiLine { cwd: Some("/home/p".to_string()), ..pline("session", "", "", None) },
        pline("message", "assistant", "ready", Some("2025-06-01T10:00:00+02:00")),
        pline("model_change", "user", "ignored", None),
        pline("message", "user", "first question", None),
        pline("message", "user", "", None),
        pline("message", "user", "second", None),
    ];
    let chunks = PiSource::build_chunks(&lines, "/p/s.jsonl", "s");
    assert_eq!(chunks.len(), 3);
    assert_eq!(chunks[0].content, "assistant: ready\n\n");
    assert_eq!(chunks[0].timestamp, 1748764800000);
    assert_eq!(chunks[0].title.as_deref(), Some("first question"));
    assert_eq!(chunks[1].content, "user: first question\n\n");
    assert_eq!(chunks[2].chunk_id, "pi:s:2");
    assert_eq!(chunks[2].path.as_deref(), Some("/home/p"));
    let no_project = vec![pline("message", "user", "x", None)];
    assert_eq!(PiSource::build_chunks(&no_project, "/p/t.jsonl", "t")[0].path, None);
}

#[test]
fn timestamps_are_read() {
    assert_eq!(iso_local_millis(&Some("2024-03-01T12:30:05.250".to_string())), 1709296205250);
    assert_eq!(iso_local_millis(&Some("yesterday".to_string())), 0);
    assert_eq!(iso_local_millis(&None), 0);
    assert_eq!(rfc3339_millis_of(&Some("2025-06-01T10:00:00+02:00".to_string())), 1748764800000);
    assert_eq!(rfc3339_millis_of(&Some("2025-06-01".to_string())), 0);
}

#[test]
fn markdown_title() {
    assert_eq!(MarkdownSource::extract_title("intro\n# # Plan  \r\nbody").as_deref(), Some("Plan"));
    assert_eq!(MarkdownSource::extract_title("## Sub\n#NoSpace\n"), None);
    assert_eq!(MarkdownSource::extract_title("# \n# Second"), Some(String::new()));
    assert_eq!(MarkdownSource::extract_title("").as_deref(), None);
    assert_eq!(MarkdownSource::extract_title("x\n\n#  Spaced\u{3000}").as_deref(), Some("Spaced"));
}

#[test]
fn markdown_date_from_stem() {
    assert_eq!(MarkdownSource::extract_date_from_filename("SESJA-2026-01-15"), Some(1768435200000));
    assert_eq!(MarkdownSource::extract_date_from_filename("notes-2025-12-31-late"), Some(1767139200000));
    // The 2026 pattern does not read as a date, so the 2024 one is used.
    assert_eq!(MarkdownSource::extract_date_from_filename("2026-xx-yy_2024-03-01"), Some(1709251200000));
    assert_eq!(MarkdownSource::extract_date_from_filename("INFRA"), None);
    assert_eq!(MarkdownSource::extract_date_from_filename("x-2025-1"), None);
    assert!(matches!(MarkdownSource::scan_date_in_stem("a-2026-01-0é"), DateScan::CutInsideChar));
    assert!(matches!(MarkdownSource::scan_date_in_stem("a-2026-01-02"), DateScan::Found(_)));
}

#[test]
fn date_lookup_steps() {
    assert!(matches!(date_cut_at("SESJA-2026-01-15", "2026-"), DateCut::Head(h) if h == "2026-01-15"));
    assert!(matches!(date_cut_at("x-2026-01-15-more", "2026-"), DateCut::Head(h) if h == "2026-01-15"));
    assert!(matches!(date_cut_at("INFRA", "2026-"), DateCut::Absent));
    assert!(matches!(date_cut_at("x-2025-1", "2025-"), DateCut::TooShort));
    assert!(matches!(date_cut_at("a-2026-01-0é", "2026-"), DateCut::CutInsideChar));
    let head = DateCut::Head("2026-01-15".to_string());
    assert_eq!(pattern_outcome_of(&head, Some(5)), Some(DateScan::Found(5)));
    assert_eq!(pattern_outcome_of(&head, None), None);
    assert_eq!(pattern_outcome_of(&DateCut::CutInsideChar, None), Some(DateScan::CutInsideChar));
    assert_eq!(pattern_outcome_of(&DateCut::Absent, Some(5)), None);
    assert_eq!(pattern_outcome_of(&DateCut::TooShort, Some(5)), None);
}

#[test]
fn unread_timestamps_are_zero() {
    assert_eq!(millis_or_zero(Some(7)), 7);
    assert_eq!(millis_or_zero(Some(-3)), -3);
    assert_eq!(millis_or_zero(None), 0);
}

#[test]
fn markdown_chunk() {
    let chunks = MarkdownSource::build_chunks(
        "/home/u/.hermes/memories/MEMORY.md",
        &Some("MEMORY".to_string()),
        "# Memory\nfacts".to_string(),
        777,
    );
    assert_eq!(chunks.len(), 1);
    let c = &chunks[0];
    assert_eq!(c.kind, ItemKind::Memory);
    assert_eq!(c.chunk_id, "notes:MEMORY");
    assert_eq!(c.title.as_deref(), Some("Memory"));
    assert_eq!(c.timestamp, 777);
    assert_eq!(c.source, "notes");
    assert_eq!(c.ordinal, 0);
    assert_eq!(c.path.as_deref(), Some("/home/u/.hermes/memories/MEMORY.md"));
    let dated = MarkdownSource::build_chunks("/h/SESJA-2026-01-15.md", &Some("SESJA-2026-01-15".to_string()), "plain".to_string(), 5);
    assert_eq!(dated[0].kind, ItemKind::Note);
    assert_eq!(dated[0].timestamp, 1768435200000);
    assert_eq!(dated[0].title, None);
    assert!(MarkdownSource::try_build_chunks("/h/a-2026-01-0é.md", &Some("a-2026-01-0é".to_string()), String::new(), 0).is_none());
    assert!(MarkdownSource::try_build_chunks("/h/plain.md", &None, String::new(), 3).is_some());
}

#[test]
fn sources_of_a_run() {
    let cfg = AppConfig::default();
    let all = build_sources(&cfg, Some(PathBuf::from("/h.db")), None, Some(PathBuf::from("/nb")));
    let names: Vec<&str> = all.iter().map(|s| s.name()).collect();
    assert_eq!(names, vec!["hermes", "nanobot", "notes"]);
    match &all[2] {
        ConfiguredSource::Notes(md) => {
            assert_eq!(md.globs().len(), 9);
            assert_eq!(md.globs()[0], "~/SESJA-*.md");
            assert_eq!(md.globs()[1], "~/INFRA-*.md");
        }
        _ => panic!("notes expected last"),
    }
    assert_eq!(build_sources(&cfg, None, None, None).len(), 1);
}

#[test]
fn disabled_sources_are_not_built() {
    let mut cfg = AppConfig::default();
    cfg.hermes.enabled = false;
    cfg.notes.enabled = false;
    let all = build_sources(&cfg, Some(PathBuf::from("/h.db")), Some(PathBuf::from("/m.jsonl")), None);
    let names: Vec<&str> = all.iter().map(|s| s.name()).collect();
    assert_eq!(names, vec!["moltis"]);
    match &all[0] {
        ConfiguredSource::Moltis(m) => assert_eq!(m.jsonl_path(), &PathBuf::from("/m.jsonl")),
        _ => panic!("moltis expected"),
    }
}

#[test]
fn configured_globs_are_read() {
    let mut cfg = AppConfig::default();
    cfg.notes.globs = vec!["/tmp/*.md".to_string()];
    let all = build_sources(&cfg, None, None, None);
    match &all[0] {
        ConfiguredSource::Notes(md) => assert_eq!(md.globs(), &vec!["/tmp/*.md".to_string()]),
        _ => panic!("notes expected"),
    }
}
