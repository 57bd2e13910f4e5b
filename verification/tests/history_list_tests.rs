use cc_switch::history::ThreadHistoryRow;
use cc_switch::history_list::{
    codex_history_session_detail, codex_target_provider_candidates, history_value_counts,
    list_codex_history_sessions, session_detail_without_state_db, session_list_without_state_db,
    with_session_messages,
    CodexHistorySessionListOptions,
};
use cc_switch::recent_window::select_balanced_recent_window_rows;

fn row(id: &str, cwd: &str, provider: &str, source: &str, updated_ms: i64, message: &str) -> ThreadHistoryRow {
    ThreadHistoryRow {
        id: id.to_string(),
        rollout_path: Some(format!(r"\\?\C:\codex\sessions\{id}.jsonl")),
        model_provider: Some(provider.to_string()),
        cwd: Some(cwd.to_string()),
        has_user_event: Some(1),
        archived: Some(0),
        source: Some(source.to_string()),
        thread_source: Some("user".to_string()),
        title: None,
        preview: Some(message.to_string()),
        first_user_message: Some(message.to_string()),
        updated_at_ms: Some(updated_ms),
        updated_at: None,
    }
}

fn rows() -> Vec<ThreadHistoryRow> {
    vec![
        row("a", r"C:\work", "openai", "cli", 1_000, "first"),
        row("b", r"C:\work", "router", "vscode", 3_000, "second"),
        row("c", r"C:\other", "openai", "exec", 2_000, "third"),
    ]
}

#[test]
fn list_history_sessions_returns_provider_source_candidates_and_all_sources() {
    let rows = rows();
    let options = CodexHistorySessionListOptions::new();
    let outcome = list_codex_history_sessions(
        &rows,
        &options,
        "/home/u/.codex".to_string(),
        Some("/home/u/.codex/state_5.sqlite".to_string()),
        Some("codex_root".to_string()),
        Some("openai".to_string()),
        "router",
        "2026-01-01T00:00:00.000Z",
    );
    // Interactive sources only by default: the `exec` thread is left out.
    assert_eq!(outcome.total_matched, 2);
    assert_eq!(outcome.items.iter().map(|i| i.id.as_str()).collect::<Vec<_>>(), vec!["b", "a"]);
    assert_eq!(outcome.target_provider_candidates, vec!["openai", "router"]);
    let sources: Vec<(Option<String>, usize)> = outcome.source_counts.iter().map(|c| (c.value.clone(), c.count)).collect();
    assert_eq!(sources.iter().map(|(_, n)| n).sum::<usize>(), 3);
    let providers: Vec<(Option<String>, usize)> = outcome.provider_counts.iter().map(|c| (c.value.clone(), c.count)).collect();
    assert!(providers.contains(&(Some("openai".to_string()), 2)));
    assert!(providers.contains(&(Some("router".to_string()), 1)));
    assert_eq!(outcome.items[0].rollout_path.as_deref(), Some(r"C:\codex\sessions\b.jsonl"));
    assert_eq!(outcome.items[0].updated_at_ms, 3_000);
}

#[test]
fn listing_respects_the_limit() {
    let rows = rows();
    let mut options = CodexHistorySessionListOptions::new();
    options.limit = Some(1);
    let outcome = list_codex_history_sessions(&rows, &options, "h".to_string(), None, None, None, "router", "t");
    assert_eq!(outcome.total_matched, 2);
    assert_eq!(outcome.items.len(), 1);
    assert_eq!(outcome.items[0].id, "b");
}

#[test]
fn value_counts_group_equal_values() {
    let counts = history_value_counts(&vec![Some("x".to_string()), None, Some("x".to_string())]);
    let pairs: Vec<(Option<String>, usize)> = counts.iter().map(|c| (c.value.clone(), c.count)).collect();
    assert!(pairs.contains(&(Some("x".to_string()), 2)));
    assert!(pairs.contains(&(None, 1)));
    assert_eq!(pairs.len(), 2);
}

#[test]
fn target_candidates_put_live_and_router_first_without_repeats() {
    let rows = rows();
    let candidates = codex_target_provider_candidates(Some("router"), "router", &rows);
    assert_eq!(candidates[0], "router");
    assert!(candidates.contains(&"openai".to_string()));
    assert_eq!(candidates.iter().filter(|c| c.as_str() == "router").count(), 1);
}

#[test]
fn read_history_session_loads_rollout_messages_from_sqlite_path() {
    let rows = rows();
    assert_eq!(
        codex_history_session_detail(&rows, "   ", "h".to_string(), "db".to_string(), "codex_root".to_string(), "t").err().as_deref(),
        Some("session_id is required")
    );
    let (missing, path) =
        codex_history_session_detail(&rows, "zzz", "h".to_string(), "db".to_string(), "codex_root".to_string(), "t").expect("ok");
    assert_eq!(missing.skipped_reason.as_deref(), Some("session_not_found"));
    assert!(path.is_none());
    let (found, path) =
        codex_history_session_detail(&rows, " b ", "h".to_string(), "db".to_string(), "codex_root".to_string(), "t").expect("ok");
    assert_eq!(found.session.as_ref().map(|s| s.id.as_str()), Some("b"));
    assert_eq!(path.as_deref(), Some(r"\\?\C:\codex\sessions\b.jsonl"));
    assert!(found.skipped_reason.is_none());
    let no_rollout = with_session_messages(found, None);
    assert_eq!(no_rollout.skipped_reason.as_deref(), Some("rollout_path_not_found"));
    assert_eq!(session_detail_without_state_db("h".to_string()).skipped_reason.as_deref(), Some("state_db_not_found"));
}

#[test]
fn balanced_window_focuses_the_current_project_first() {
    let rows = rows();
    let window = select_balanced_recent_window_rows(&rows, Some(r"C:\work"), 1, 10, 300, "2026-01-01T00:00:00.000Z");
    assert!(!window.is_empty());
    assert_eq!(window[0].id, "b");
    let ids: Vec<&str> = window.iter().map(|r| r.id.as_str()).collect();
    let mut unique = ids.clone();
    unique.sort();
    unique.dedup();
    assert_eq!(unique.len(), ids.len());
    assert!(window.len() <= 300);
    let capped = select_balanced_recent_window_rows(&rows, Some(r"C:\work"), 1, 10, 1, "2026-01-01T00:00:00.000Z");
    assert!(capped.len() <= 1);
}

#[test]
fn listing_without_a_state_db_offers_the_live_and_router_providers() {
    let outcome = session_list_without_state_db("/home/me/.codex".to_string(), Some(" custom ".to_string()), "ccswitch-router");
    assert_eq!(outcome.skipped_reason.as_deref(), Some("state_db_not_found"));
    assert_eq!(outcome.target_provider_candidates, vec!["custom", "ccswitch-router"]);
    assert_eq!(outcome.live_config_model_provider.as_deref(), Some(" custom "));
    assert_eq!(outcome.total_matched, 0);
    assert!(outcome.items.is_empty());
    let outcome = session_list_without_state_db("/home/me/.codex".to_string(), None, "ccswitch-router");
    assert_eq!(outcome.target_provider_candidates, vec!["ccswitch-router"]);
}
