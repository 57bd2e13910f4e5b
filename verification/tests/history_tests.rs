use cc_switch::history::{
    is_interactive_history_source, is_user_thread_source, normalize_history_path,
    parse_rollout_thread_metadata, plan_internal_transcript_thread_removals,
    plan_prefix_duplicate_thread_removals, rollout_contains_only_internal_user_events,
    rollout_session_source_kind, rollout_visible_conversation, strip_long_path_prefix,
    thread_history_row_from_rollout, visible_rollout_user_message, ThreadHistoryRow,
    VisibleConversationMessage,
};
use cc_switch::json::{Json, JsonNumber};

fn to_json(v: &serde_json::Value) -> Json {
    match v {
        serde_json::Value::Null => Json::Null,
        serde_json::Value::Bool(b) => Json::Bool(*b),
        serde_json::Value::Number(n) => {
            if let Some(u) = n.as_u64() {
                Json::Number(JsonNumber::Unsigned(u))
            } else if let Some(i) = n.as_i64() {
                Json::Number(JsonNumber::Signed(i))
            } else {
                Json::Number(JsonNumber::Other(n.to_string()))
            }
        }
        serde_json::Value::String(s) => Json::Text(s.clone()),
        serde_json::Value::Array(a) => Json::Array(a.iter().map(to_json).collect()),
        serde_json::Value::Object(m) => Json::Object(m.iter().map(|(k, v)| (k.clone(), to_json(v))).collect()),
    }
}

fn parse(text: &str) -> Json {
    to_json(&serde_json::from_str::<serde_json::Value>(text).expect("valid json"))
}

fn lines(text: &str) -> Vec<Json> {
    text.lines().filter(|l| !l.trim().is_empty()).map(parse).collect()
}

fn empty_row(id: &str) -> ThreadHistoryRow {
    ThreadHistoryRow {
        id: id.to_string(),
        rollout_path: None,
        model_provider: None,
        cwd: None,
        has_user_event: None,
        archived: None,
        source: None,
        thread_source: None,
        title: None,
        preview: None,
        first_user_message: None,
        updated_at_ms: None,
        updated_at: None,
    }
}

#[test]
fn visible_rollout_message_rejects_internal_recovery_transcripts() {
    assert_eq!(
        visible_rollout_user_message(
            "The following is the Codex agent history whose request and response were recovered"
        ),
        None
    );
    assert_eq!(visible_rollout_user_message("<environment_context>\n<cwd>C:\\work</cwd>"), None);
    assert_eq!(
        visible_rollout_user_message("Another language model started to solve this problem and produced a summary"),
        None
    );
}

#[test]
fn visible_rollout_message_extracts_request_from_attachment_envelope() {
    let message = "# Files mentioned by the user:\n\n## screen.png\n\n## My request for Codex:\n修复历史记录";
    assert_eq!(visible_rollout_user_message(message).as_deref(), Some("修复历史记录"));
}

#[test]
fn rollout_metadata_uses_real_request_after_internal_recovery_events() {
    let text = r##"{"timestamp":"2026-07-27T01:00:00Z","type":"session_meta","payload":{"id":"recovered","cwd":"C:\\work"}}
{"timestamp":"2026-07-27T01:00:01Z","type":"user_message","message":"top-level legacy tool transcript"}
{"timestamp":"2026-07-27T01:00:02Z","type":"event_msg","payload":{"type":"user_message","message":"The following is the Codex agent history whose request and response were recovered"}}
{"timestamp":"2026-07-27T01:00:03Z","type":"event_msg","payload":{"type":"user_message","message":"# Files mentioned by the user:\n\n## screenshot.png\n\n## My request for Codex:\n修复真正的问题"}}
"##;
    let metadata = parse_rollout_thread_metadata(&lines(text), "/tmp/recovered.jsonl", false, 0)
        .expect("metadata");
    assert_eq!(metadata.first_user_message.as_deref(), Some("修复真正的问题"));
    assert_eq!(metadata.preview.as_deref(), Some("修复真正的问题"));
    assert_eq!(metadata.title.as_deref(), Some("修复真正的问题"));
    assert_eq!(metadata.id, "recovered");
    assert_eq!(metadata.rollout_path, "/tmp/recovered.jsonl");
}

#[test]
fn rollout_metadata_matches_official_item_completed_user_reducer() {
    let text = r#"{"timestamp":"2026-07-27T01:00:00Z","type":"session_meta","payload":{"id":"paginated","cwd":"C:\\work","source":"vscode","thread_source":"user"}}
{"timestamp":"2026-07-27T01:00:01Z","type":"event_msg","payload":{"type":"item_completed","item":{"type":"user_message","content":[{"type":"text","text":"new reducer request"}]}}}
"#;
    let metadata = parse_rollout_thread_metadata(&lines(text), "/tmp/paginated.jsonl", false, 0)
        .expect("metadata");
    assert_eq!(metadata.source.as_deref(), Some("vscode"));
    assert_eq!(metadata.first_user_message.as_deref(), Some("new reducer request"));
    assert!(metadata.has_user_event);
}

#[test]
fn rollout_without_session_meta_has_no_metadata() {
    let text = r#"{"type":"event_msg","payload":{"type":"user_message","message":"hi"}}"#;
    assert!(parse_rollout_thread_metadata(&lines(text), "/tmp/x.jsonl", false, 0).is_none());
}

#[test]
fn rollout_source_taxonomy_separates_interactive_and_subagent_sessions() {
    assert_eq!(rollout_session_source_kind(Some(&parse(r#""cli""#))).as_deref(), Some("cli"));
    assert_eq!(
        rollout_session_source_kind(Some(&parse(r#"{"sub_agent":{"review":{}}}"#))).as_deref(),
        Some("subagent")
    );
    assert!(is_interactive_history_source(Some("cli")));
    assert!(is_interactive_history_source(Some("vscode")));
    assert!(!is_interactive_history_source(Some("exec")));
    assert!(!is_interactive_history_source(Some("mcp")));
    assert!(!is_interactive_history_source(Some("subagent")));
    assert!(is_user_thread_source(Some("user")));
    assert!(!is_user_thread_source(Some("subagent")));
    assert!(!is_user_thread_source(Some("memory_consolidation")));
    assert!(!is_user_thread_source(Some("feature")));
}

#[test]
fn plans_cleanup_for_previous_repair_internal_transcript_rows() {
    let rollout = lines(
        "{\"type\":\"event_msg\",\"payload\":{\"type\":\"user_message\",\"message\":\"The following is the Codex agent history whose request and response were recovered\"}}\n",
    );
    let only_internal = rollout_contains_only_internal_user_events(&rollout);
    assert!(only_internal);
    let mut row = empty_row("bad-history-row");
    row.rollout_path = Some("/tmp/internal.jsonl".to_string());
    row.preview = Some("The following is the Codex agent history whose request was recovered".to_string());
    let rows = vec![row];
    assert_eq!(plan_internal_transcript_thread_removals(&rows, &[only_internal]), vec!["bad-history-row".to_string()]);
}

fn conversation_rollout(id: &str, messages: &[&str]) -> Vec<Json> {
    let mut text = format!("{{\"type\":\"session_meta\",\"payload\":{{\"id\":\"{id}\",\"cwd\":\"C:\\\\work\"}}}}\n");
    for m in messages {
        text.push_str(&format!("{{\"type\":\"event_msg\",\"payload\":{{\"type\":\"user_message\",\"message\":\"{m}\"}}}}\n"));
    }
    lines(&text)
}

#[test]
fn prefix_cleanup_keeps_longest_conversation_and_preserves_real_divergence() {
    let cases: [(&str, Vec<&str>); 3] = [
        ("short", vec!["first", "second"]),
        ("long", vec!["first", "second", "third"]),
        ("branch", vec!["first", "different second"]),
    ];
    let mut rows = Vec::new();
    let mut conversations: Vec<Option<Vec<VisibleConversationMessage>>> = Vec::new();
    for (id, messages) in cases.iter() {
        let rollout = conversation_rollout(id, messages);
        let metadata = parse_rollout_thread_metadata(&rollout, &format!("/s/{id}.jsonl"), false, 0).expect("metadata");
        rows.push(thread_history_row_from_rollout(&metadata));
        conversations.push(Some(rollout_visible_conversation(&rollout)));
    }
    let removals = plan_prefix_duplicate_thread_removals(&rows, &conversations);
    assert_eq!(removals, vec!["short".to_string()]);
}

#[test]
fn visible_conversation_keeps_only_user_turns_in_order() {
    let rollout = conversation_rollout("c", &["one", "two"]);
    let conversation = rollout_visible_conversation(&rollout);
    let contents: Vec<&str> = conversation.iter().map(|m| m.content.as_str()).collect();
    assert_eq!(contents, vec!["one", "two"]);
    assert!(conversation.iter().all(|m| m.role == "user"));
}

#[test]
fn history_paths_drop_the_long_path_prefix() {
    assert_eq!(strip_long_path_prefix(r"\\?\C:\work\a.jsonl"), r"C:\work\a.jsonl");
    assert_eq!(strip_long_path_prefix("/home/u/a.jsonl"), "/home/u/a.jsonl");
    assert_eq!(normalize_history_path("   "), None);
}
