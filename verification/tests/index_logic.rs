use agentsearch::search::{candidate_count, select_hits, snippet_cut_fails, HitCandidate};
use agentsearch::sources::SourceItemMeta;
use agentsearch::sync::{plan_sync, IndexStats, ItemAction};
use agentsearch::turns::{group_turns, TurnLine};

fn meta(id: &str, fp: &str) -> SourceItemMeta {
    SourceItemMeta { item_id: id.to_string(), fingerprint: fp.to_string() }
}

fn row(id: &str, fp: &str) -> (String, String) {
    (id.to_string(), fp.to_string())
}

#[test]
fn sync_skips_unchanged_and_drops_stale() {
    let rows = vec![row("a", "1"), row("b", "2"), row("gone", "9"), row("b", "3"), row("gone", "9")];
    let metas = vec![meta("a", "1"), meta("b", "2"), meta("new", "5")];
    let plan = plan_sync(&rows, &metas);
    // "b" was saved last with fingerprint 3, so fingerprint 2 is a change.
    assert_eq!(plan.actions, vec![ItemAction::Skip, ItemAction::Reindex, ItemAction::Reindex]);
    assert_eq!(plan.removed, vec!["gone".to_string()]);
}

#[test]
fn sync_after_saving_skips_everything() {
    let metas = vec![meta("item-1", "fp-1")];
    let first = plan_sync(&vec![], &metas);
    assert_eq!(first.actions, vec![ItemAction::Reindex]);
    let second = plan_sync(&vec![row("item-1", "fp-1")], &metas);
    assert_eq!(second.actions, vec![ItemAction::Skip]);
    assert!(second.removed.is_empty());
}

#[test]
fn stats_count_a_run() {
    let rows = vec![row("a", "1"), row("old", "0")];
    let metas = vec![meta("a", "1"), meta("b", "2"), meta("c", "3")];
    let plan = plan_sync(&rows, &metas);
    let mut stats = IndexStats::default();
    stats.record_source(&plan, &vec![None, Some(2), None]);
    assert_eq!(stats.skipped, 1);
    assert_eq!(stats.indexed, 1);
    assert_eq!(stats.chunks, 2);
    assert_eq!(stats.errors, 1);
    assert_eq!(stats.removed, 1);
    assert_eq!(stats.indexed + stats.skipped + stats.errors, metas.len());
    stats.record_scan_failure();
    assert_eq!(stats.errors, 2);
}

fn cand(source: &str, html: &str, content: &str) -> HitCandidate {
    scand("item", source, html, content)
}

fn scand(item: &str, source: &str, html: &str, content: &str) -> HitCandidate {
    HitCandidate {
        item_id: item.to_string(),
        source: source.to_string(),
        snippet_html: html.to_string(),
        content: content.to_string(),
    }
}

#[test]
fn hits_are_grouped_by_session() {
    let cands = vec![
        scand("s1", "test", "<b>a</b>", "a"),
        scand("s2", "test", "<b>b</b>", "b"),
        scand("s1", "test", "<b>c</b>", "c"),
        scand("s3", "other", "<b>d</b>", "d"),
        scand("s2", "test", "<b>e</b>", "e"),
        scand("s1", "test", "<b>f</b>", "f"),
    ];
    let hits = select_hits(&cands, None, 5);
    assert_eq!(hits.iter().map(|h| h.index).collect::<Vec<_>>(), vec![0, 2, 1, 4, 3]);
    let filtered = select_hits(&cands, Some("test"), 10);
    assert_eq!(filtered.iter().map(|h| h.index).collect::<Vec<_>>(), vec![0, 2, 5, 1, 4]);
    assert_eq!(filtered[2].snippet, "<b>f</b>");
}

#[test]
fn candidates_cover_a_filtered_search() {
    assert_eq!(candidate_count(10, false, 1000), 30);
    assert_eq!(candidate_count(10, true, 1000), 1000);
    assert_eq!(candidate_count(10, true, 5), 30);
    assert_eq!(candidate_count(1, false, 0), 3);
}

#[test]
fn hits_follow_filter_and_limit() {
    let cands = vec![
        cand("test", "user: <b>tantivy</b> search", "user: tantivy search rust snippet"),
        cand("other", "<b>tantivy</b>", "x"),
        cand("test", "", "assistant: unrelated text"),
        cand("test", "<b>c</b>", "c"),
    ];
    let hits = select_hits(&cands, Some("test"), 2);
    assert_eq!(hits.len(), 2);
    assert_eq!(hits[0].index, 0);
    assert!(hits[0].snippet.contains("<b>"));
    assert_eq!(hits[1].index, 2);
    assert_eq!(hits[1].snippet, "assistant: unrelated text");
    let all = select_hits(&cands, None, 10);
    assert_eq!(all.iter().map(|h| h.index).collect::<Vec<_>>(), vec![0, 1, 2, 3]);
    assert_eq!(select_hits(&cands, Some("test"), 0).len(), 1);
    assert!(select_hits(&cands, Some("none"), 5).is_empty());
}

#[test]
fn fallback_snippet_is_cut() {
    let long = "y".repeat(250);
    let hits = select_hits(&vec![cand("s", "", &long)], None, 1);
    assert_eq!(hits[0].snippet, format!("{}...", "y".repeat(200)));
    let bad = format!("{}é", "y".repeat(199));
    let cands = vec![cand("s", "", &format!("{}tail", bad))];
    assert!(snippet_cut_fails(&cands, None, 1));
    assert!(!snippet_cut_fails(&cands, Some("other"), 1));
}

fn line(user: bool, text: &str, ts: i64) -> TurnLine {
    TurnLine { is_user: user, text: text.to_string(), timestamp: ts }
}

#[test]
fn groups_keep_all_text_and_start_at_users() {
    let lines = vec![
        line(false, "a ", 0),
        line(true, "u1 ", 7),
        line(false, "r1 ", 8),
        line(true, "u2 ", 9),
        line(true, "u3 ", 10),
    ];
    let groups = group_turns(&lines);
    // One group per user message, plus one for what precedes the first.
    assert_eq!(groups.len(), 4);
    let joined: String = groups.iter().map(|g| g.content.as_str()).collect();
    assert_eq!(joined, "a u1 r1 u2 u3 ");
    assert!(!groups[0].has_user);
    assert!(groups[1..].iter().all(|g| g.has_user));
    assert_eq!(groups[0].timestamp, 0);
    assert_eq!(groups[1].timestamp, 7);
    assert_eq!(groups[3].timestamp, 7);
    assert!(group_turns(&vec![]).is_empty());
}
