use cc_switch::history_ops::{
    standalone_target_provider, CodexHistoryStandaloneRepairOptions, CodexHistoryVisibilityRepairOptions,
};
use cc_switch::json::{Json, JsonNumber};
use cc_switch::repair_plan::{
    multirouter_repair_sources, multirouter_visibility_runtime,
    standalone_repair_sources, standalone_visibility_runtime, state_db_not_found_outcome,
};
use cc_switch::session_meta::{
    rewrite_codex_session_file_lines, rewrite_codex_session_meta_line_for_restore,
    rewrite_codex_session_meta_line_to_target, rewrite_non_target_codex_session_meta_line,
    SessionMetaRewrite,
};
use cc_switch::visibility::JsonlLine;

fn to_json(v: &serde_json::Value) -> Json {
    match v {
        serde_json::Value::Null => Json::Null,
        serde_json::Value::Bool(b) => Json::Bool(*b),
        serde_json::Value::Number(n) => {
            if let Some(u) = n.as_u64() {
                Json::Number(JsonNumber::Unsigned(u))
            } else if let Some(i) = n.as_i64() {
                Json::Number(JsonNumber::Signed(i))
            } else {
                Json::Number(JsonNumber::Other(n.to_string()))
            }
        }
        serde_json::Value::String(s) => Json::Text(s.clone()),
        serde_json::Value::Array(a) => Json::Array(a.iter().map(to_json).collect()),
        serde_json::Value::Object(m) => Json::Object(m.iter().map(|(k, v)| (k.clone(), to_json(v))).collect()),
    }
}

fn from_json(j: &Json) -> serde_json::Value {
    match j {
        Json::Null => serde_json::Value::Null,
        Json::Bool(b) => serde_json::Value::Bool(*b),
        Json::Number(JsonNumber::Unsigned(u)) => serde_json::Value::from(*u),
        Json::Number(JsonNumber::Signed(i)) => serde_json::Value::from(*i),
        Json::Number(JsonNumber::Other(t)) => serde_json::from_str(t).unwrap_or(serde_json::Value::Null),
        Json::Text(s) => serde_json::Value::String(s.clone()),
        Json::Array(a) => serde_json::Value::Array(a.iter().map(from_json).collect()),
        Json::Object(es) => serde_json::Value::Object(es.iter().map(|(k, v)| (k.clone(), from_json(v))).collect()),
    }
}

fn parsed(line: &str) -> Option<Json> {
    serde_json::from_str::<serde_json::Value>(line).ok().map(|v| to_json(&v))
}

fn read_lines(text: &str) -> Vec<(String, Option<Json>)> {
    text.lines().map(|l| (l.to_string(), parsed(l))).collect()
}

fn ids(xs: &[&str]) -> Vec<String> {
    xs.iter().map(|s| s.to_string()).collect()
}

const META: &str = "{\"type\":\"session_meta\",\"payload\":{\"id\":\"s1\",\"model_provider\":\"rightcode\"}}";
const USER: &str = "{\"type\":\"response_item\",\"payload\":{\"type\":\"message\",\"role\":\"user\",\"content\":\"hi\"}}";

#[test]
fn rewrites_only_codex_session_meta_provider_ids() {
    let text = format!("{}\n{}\n", META, USER);
    let mode = SessionMetaRewrite::ToTarget {
        source_provider_ids: ids(&["rightcode"]),
        target_provider_id: "custom".to_string(),
    };
    let (lines, sources) = rewrite_codex_session_file_lines(&read_lines(&text), &mode).expect("changed");
    assert!(sources.is_empty());
    match &lines[0] {
        JsonlLine::Value(v) => assert_eq!(from_json(v)["payload"]["model_provider"], "custom"),
        _ => panic!("session meta rewritten"),
    }
    match &lines[1] {
        JsonlLine::Raw(s) => assert_eq!(s, USER),
        _ => panic!("other lines kept as read"),
    }
}

#[test]
fn does_not_rewrite_unknown_jsonl_history_without_trusted_source_id() {
    let text = format!("{}\n{}\n", META, USER);
    let mode = SessionMetaRewrite::ToTarget {
        source_provider_ids: ids(&["some-trusted-provider"]),
        target_provider_id: "custom".to_string(),
    };
    assert!(rewrite_codex_session_file_lines(&read_lines(&text), &mode).is_none());
}

#[test]
fn non_target_rewrite_records_the_source_bucket() {
    let out = rewrite_non_target_codex_session_meta_line(META, &parsed(META), "custom").expect("moved");
    assert_eq!(from_json(&out.0)["payload"]["model_provider"], "custom");
    assert_eq!(out.1.as_deref(), Some("rightcode"));
    let blank = "{\"type\":\"session_meta\",\"payload\":{\"id\":\"s2\"}}";
    let out = rewrite_non_target_codex_session_meta_line(blank, &parsed(blank), "custom").expect("moved");
    assert_eq!(out.1, None);
    let already = "{\"type\":\"session_meta\",\"payload\":{\"id\":\"s3\",\"model_provider\":\" custom \"}}";
    assert!(rewrite_non_target_codex_session_meta_line(already, &parsed(already), "custom").is_none());
    let text = format!("{}\n{}\n{}\n", META, blank, USER);
    let mode = SessionMetaRewrite::NonTarget { target_provider_id: "custom".to_string() };
    let (lines, sources) = rewrite_codex_session_file_lines(&read_lines(&text), &mode).expect("changed");
    assert_eq!(lines.len(), 3);
    assert_eq!(sources, vec!["rightcode"]);
}

#[test]
fn restore_moves_only_official_sessions_back() {
    let custom = "{\"type\":\"session_meta\",\"payload\":{\"id\":\"official-1\",\"model_provider\":\"custom\"}}";
    let other = "{\"type\":\"session_meta\",\"payload\":{\"id\":\"third-party\",\"model_provider\":\"custom\"}}";
    let official = ids(&["official-1"]);
    let out = rewrite_codex_session_meta_line_for_restore(custom, &parsed(custom), &official, "custom", "openai")
        .expect("restored");
    assert_eq!(from_json(&out)["payload"]["model_provider"], "openai");
    assert!(rewrite_codex_session_meta_line_for_restore(other, &parsed(other), &official, "custom", "openai").is_none());
    assert!(rewrite_codex_session_meta_line_for_restore(META, &parsed(META), &official, "custom", "openai").is_none());
}

#[test]
fn lines_without_the_provider_key_text_are_left_alone() {
    let spaced = "{\"type\":\"session_meta\",\"payload\":{\"id\":\"s1\",\"model_provider\" : \"rightcode\"}}";
    let sources = ids(&["rightcode"]);
    assert!(rewrite_codex_session_meta_line_to_target(spaced, &parsed(spaced), &sources, "custom").is_some());
    let escaped = "{\"type\":\"session_meta\",\"payload\":{\"id\":\"s1\",\"model_provider\":\"rightcode\"}}"
        .replace("\"session_meta\"", "\"session\\u005fmeta\"");
    assert!(rewrite_codex_session_meta_line_to_target(&escaped, &parsed(&escaped), &sources, "custom").is_none());
}

#[test]
fn multirouter_runtime_fills_defaults_and_clamps_limits() {
    let mut options = CodexHistoryVisibilityRepairOptions::new("router");
    options.max_per_project = Some(0);
    options.source_filter = Some("  ".to_string());
    options.session_ids = Some(ids(&[" b ", "a", "", "b"]));
    let runtime = multirouter_visibility_runtime(&options);
    assert!(runtime.dry_run);
    assert_eq!(runtime.count, 30);
    assert_eq!(runtime.window_limit, 80);
    assert_eq!(runtime.max_per_project, 1);
    assert_eq!(runtime.max_total, 300);
    assert_eq!(runtime.source_filter, None);
    assert_eq!(runtime.selected_session_ids, vec!["a", "b"]);
    assert!(runtime.provider_bucket_sync_enabled);
    let mut standalone = CodexHistoryStandaloneRepairOptions::new();
    standalone.skip_provider_bucket_sync = Some(true);
    standalone.source_filter = Some(" vscode ".to_string());
    let runtime = standalone_visibility_runtime(&standalone);
    assert!(!runtime.provider_bucket_sync_enabled);
    assert_eq!(runtime.source_filter.as_deref(), Some("vscode"));
    assert!(runtime.selected_session_ids.is_empty());
}

#[test]
fn repair_target_and_sources_follow_the_request() {
    assert_eq!(standalone_target_provider(&Some(" mine ".to_string()), &Some("live".to_string()), "router"), "mine");
    assert_eq!(standalone_target_provider(&Some(" ".to_string()), &Some("live".to_string()), "router"), "live");
    assert_eq!(standalone_target_provider(&None, &None, "router"), "router");
    assert_eq!(
        multirouter_repair_sources(&ids(&["openai", "router", "custom", "openai"]), "router", false),
        vec!["custom", "openai"]
    );
    assert!(multirouter_repair_sources(&ids(&["openai"]), "router", true).is_empty());
    assert_eq!(
        standalone_repair_sources(&None, &ids(&["openai", " custom ", "router"]), "router", false),
        vec!["custom", "openai"]
    );
    assert_eq!(
        standalone_repair_sources(&Some(ids(&["x", ""])), &ids(&["openai"]), "router", false),
        vec!["x"]
    );
    let outcome = state_db_not_found_outcome("C:\\codex", "router", &Some("live".to_string()), false);
    assert_eq!(outcome.skipped_reason.as_deref(), Some("state_db_not_found"));
    assert_eq!(outcome.live_config_model_provider.as_deref(), Some("live"));
    assert!(outcome.source_provider_ids.is_empty());
}

#[test]
fn moving_a_session_twice_changes_nothing_the_second_time() {
    let sources = ids(&["rightcode"]);
    let moved = rewrite_codex_session_meta_line_to_target(META, &parsed(META), &sources, "custom").expect("moved");
    let text = json_to_text(&moved);
    assert!(rewrite_codex_session_meta_line_to_target(&text, &parsed(&text), &sources, "custom").is_none());
    let (any, _) = rewrite_non_target_codex_session_meta_line(META, &parsed(META), "custom").expect("moved");
    let text = json_to_text(&any);
    assert!(rewrite_non_target_codex_session_meta_line(&text, &parsed(&text), "custom").is_none());
    let custom = "{\"type\":\"session_meta\",\"payload\":{\"id\":\"official-1\",\"model_provider\":\"custom\"}}";
    let official = ids(&["official-1"]);
    let restored = rewrite_codex_session_meta_line_for_restore(custom, &parsed(custom), &official, "custom", "openai")
        .expect("restored");
    let text = json_to_text(&restored);
    assert!(rewrite_codex_session_meta_line_for_restore(&text, &parsed(&text), &official, "custom", "openai").is_none());
}

fn json_to_text(j: &Json) -> String {
    from_json(j).to_string()
}
