use cc_switch::history::{FocusThreadRow, ThreadHistoryRow};
use cc_switch::json::{Json, JsonNumber};
use cc_switch::visibility::{
    apply_global_state_repairs, count_removed_index_lines, count_session_index_title_updates,
    expected_workspace_hints, move_focus_session_index_rows, plan_global_state_repairs,
    remove_session_index_rows, rewrite_rollout_provider_lines, session_index_thread_ids,
    session_index_thread_titles, title_for, JsonlLine,
};

fn to_json(v: &serde_json::Value) -> Json {
    match v {
        serde_json::Value::Null => Json::Null,
        serde_json::Value::Bool(b) => Json::Bool(*b),
        serde_json::Value::Number(n) => {
            if let Some(u) = n.as_u64() {
                Json::Number(JsonNumber::Unsigned(u))
            } else if let Some(i) = n.as_i64() {
                Json::Number(JsonNumber::Signed(i))
            } else {
                Json::Number(JsonNumber::Other(n.to_string()))
            }
        }
        serde_json::Value::String(s) => Json::Text(s.clone()),
        serde_json::Value::Array(a) => Json::Array(a.iter().map(to_json).collect()),
        serde_json::Value::Object(m) => Json::Object(m.iter().map(|(k, v)| (k.clone(), to_json(v))).collect()),
    }
}

fn from_json(j: &Json) -> serde_json::Value {
    match j {
        Json::Null => serde_json::Value::Null,
        Json::Bool(b) => serde_json::Value::Bool(*b),
        Json::Number(JsonNumber::Unsigned(u)) => serde_json::Value::from(*u),
        Json::Number(JsonNumber::Signed(i)) => serde_json::Value::from(*i),
        Json::Number(JsonNumber::Other(t)) => serde_json::from_str(t).unwrap_or(serde_json::Value::Null),
        Json::Text(s) => serde_json::Value::String(s.clone()),
        Json::Array(a) => serde_json::Value::Array(a.iter().map(from_json).collect()),
        Json::Object(es) => serde_json::Value::Object(es.iter().map(|(k, v)| (k.clone(), from_json(v))).collect()),
    }
}

fn parse(text: &str) -> Json {
    to_json(&serde_json::from_str::<serde_json::Value>(text).expect("valid json"))
}

fn parsed_lines(text: &str) -> Vec<Option<Json>> {
    text.lines()
        .map(|l| serde_json::from_str::<serde_json::Value>(l).ok().map(|v| to_json(&v)))
        .collect()
}

fn read_lines(text: &str) -> Vec<(String, Option<Json>)> {
    text.lines()
        .map(|l| (l.to_string(), serde_json::from_str::<serde_json::Value>(l).ok().map(|v| to_json(&v))))
        .collect()
}

fn row(id: &str, cwd: Option<&str>) -> ThreadHistoryRow {
    ThreadHistoryRow {
        id: id.to_string(),
        rollout_path: None,
        model_provider: None,
        cwd: cwd.map(str::to_string),
        has_user_event: Some(1),
        archived: Some(0),
        source: Some("vscode".to_string()),
        thread_source: None,
        title: Some(id.to_string()),
        preview: None,
        first_user_message: None,
        updated_at_ms: Some(1000),
        updated_at: Some(1),
    }
}

fn focus(id: &str, title: &str, iso: &str) -> FocusThreadRow {
    FocusThreadRow {
        id: id.to_string(),
        title: title.to_string(),
        project_path: None,
        rollout_path: None,
        new_updated_at: 2,
        new_updated_at_ms: 2000,
        updated_iso: iso.to_string(),
    }
}

const INDEX: &str = "{\"id\":\"a\",\"thread_name\":\"  Alpha  \",\"updated_at\":\"t0\"}\nnot json\n{\"id\":\"b\",\"thread_name\":\"Beta\"}\n{\"id\":\" \",\"thread_name\":\"blank id\"}\n{\"id\":\"c\"}\n{\"id\":\"a\",\"thread_name\":\"Alpha two\"}\n";

#[test]
fn session_index_ids_and_titles_come_from_parsed_lines() {
    let lines = parsed_lines(INDEX);
    let ids = session_index_thread_ids(&lines);
    assert_eq!(ids, vec!["a", "b", " ", "c", "a"]);
    let titles = session_index_thread_titles(&lines);
    assert_eq!(
        titles,
        vec![
            ("a".to_string(), "Alpha".to_string()),
            ("b".to_string(), "Beta".to_string()),
            ("a".to_string(), "Alpha two".to_string()),
        ]
    );
    assert_eq!(title_for(&titles, "a").as_deref(), Some("Alpha two"));
    assert_eq!(title_for(&titles, "b").as_deref(), Some("Beta"));
    assert_eq!(title_for(&titles, "c"), None);
}

#[test]
fn counts_stale_titles_of_selected_threads_only() {
    let lines = parsed_lines(INDEX);
    let selected = vec![focus("a", "Alpha", "t1"), focus("b", "  ", "t1"), focus("c", "Gamma", "t1")];
    // line 1 (a: "Alpha" == "Alpha") is fresh, line 6 (a: "Alpha two") is stale,
    // b has a blank selected title, c has no stored title.
    assert_eq!(count_session_index_title_updates(&lines, &selected), 2);
    assert_eq!(count_session_index_title_updates(&lines, &Vec::new()), 0);
}

#[test]
fn moves_selected_index_lines_to_the_end_with_focus_time() {
    let lines = read_lines("{\"id\":\"a\",\"thread_name\":\"Old\",\"updated_at\":\"t0\"}\ngarbage\n{\"id\":\"b\",\"thread_name\":\"Keep\"}\n");
    let selected = vec![focus("a", "New", "2026-01-01T00:00:00.000Z")];
    let (out, counts) = move_focus_session_index_rows(&lines, &selected).expect("selected rows");
    assert_eq!(counts.rows_moved, 1);
    assert_eq!(counts.titles_updated, 1);
    assert_eq!(out.len(), 3);
    match &out[0] {
        JsonlLine::Raw(s) => assert_eq!(s, "garbage"),
        _ => panic!("kept line"),
    }
    match &out[1] {
        JsonlLine::Raw(s) => assert_eq!(s, "{\"id\":\"b\",\"thread_name\":\"Keep\"}"),
        _ => panic!("kept line"),
    }
    match &out[2] {
        JsonlLine::Value(v) => assert_eq!(
            from_json(v),
            serde_json::from_str::<serde_json::Value>(
                "{\"id\":\"a\",\"thread_name\":\"New\",\"updated_at\":\"2026-01-01T00:00:00.000Z\"}"
            )
            .unwrap()
        ),
        _ => panic!("moved line"),
    }
    assert!(move_focus_session_index_rows(&lines, &Vec::new()).is_none());
}

#[test]
fn removes_index_lines_of_removed_threads() {
    let text = "{\"id\":\" x \"}\n{\"id\":\"y\"}\noops\n{\"id\":\"z\"}\n";
    let removed = vec!["x".to_string(), "z".to_string()];
    let (kept, dropped) = remove_session_index_rows(&read_lines(text), &removed);
    assert_eq!(kept, vec!["{\"id\":\"y\"}", "oops"]);
    assert_eq!(dropped, 2);
    assert_eq!(count_removed_index_lines(&parsed_lines(text), &removed), 2);
}

#[test]
fn workspace_hints_point_selected_threads_at_the_project() {
    let visible = vec![row("a", Some("C:\\work\\one")), row("b", None), row("a", Some("C:\\work\\two"))];
    let selected = vec![focus("b", "B", "t")];
    let hints = expected_workspace_hints(&visible, &selected, Some("C:\\proj"));
    assert_eq!(
        hints,
        vec![
            ("a".to_string(), "C:\\work\\two".to_string()),
            ("b".to_string(), "C:\\proj".to_string()),
        ]
    );
    let plain = expected_workspace_hints(&visible, &selected, None);
    assert_eq!(plain, vec![("a".to_string(), "C:\\work\\two".to_string())]);
}

#[test]
fn global_state_plan_matches_repair_and_repair_is_idempotent() {
    let state = parse(
        r#"{"other":1,"thread-workspace-root-hints":{"a":"C:\\work\\one","z":"keep"},
            "projectless-thread-ids":["a","q",3,"b"],"electron-saved-workspace-roots":["D:\\x"]}"#,
    );
    let visible = vec![row("a", Some("C:\\work\\one")), row("b", Some("C:\\work\\b"))];
    let selected = vec![focus("b", "B", "t")];
    let plan = plan_global_state_repairs(&state, &visible, &selected, Some("C:\\proj"));
    assert_eq!(plan.workspace_hints_to_fix, 1);
    assert_eq!(plan.projectless_ids_to_remove, 2);
    assert_eq!(plan.saved_workspace_roots_to_add, 1);
    let (repaired, counts) = apply_global_state_repairs(&state, &visible, &selected, Some("C:\\proj"));
    assert_eq!(counts.workspace_hints_to_fix, plan.workspace_hints_to_fix);
    assert_eq!(counts.projectless_ids_to_remove, plan.projectless_ids_to_remove);
    assert_eq!(counts.saved_workspace_roots_to_add, plan.saved_workspace_roots_to_add);
    assert_eq!(
        from_json(&repaired),
        serde_json::from_str::<serde_json::Value>(
            r#"{"other":1,"thread-workspace-root-hints":{"a":"C:\\work\\one","b":"C:\\proj","z":"keep"},
                "projectless-thread-ids":["q",3],"electron-saved-workspace-roots":["D:\\x","C:\\proj"]}"#
        )
        .unwrap()
    );
    let again = plan_global_state_repairs(&repaired, &visible, &selected, Some("C:\\proj"));
    assert_eq!(again.workspace_hints_to_fix, 0);
    assert_eq!(again.projectless_ids_to_remove, 0);
    assert_eq!(again.saved_workspace_roots_to_add, 0);
}

#[test]
fn global_state_repair_starts_from_an_empty_object_when_state_is_not_one() {
    let visible = vec![row("a", Some("C:\\w"))];
    let (repaired, counts) = apply_global_state_repairs(&parse("[1,2]"), &visible, &Vec::new(), None);
    assert_eq!(counts.workspace_hints_to_fix, 1);
    assert_eq!(counts.projectless_ids_to_remove, 0);
    assert_eq!(counts.saved_workspace_roots_to_add, 0);
    assert_eq!(
        from_json(&repaired),
        serde_json::from_str::<serde_json::Value>(r#"{"thread-workspace-root-hints":{"a":"C:\\w"}}"#).unwrap()
    );
}

#[test]
fn rewrites_rollout_provider_on_session_meta_and_provider_lines() {
    let text = "{\"type\":\"session_meta\",\"payload\":{\"id\":\"s\",\"model_provider\":\"openai\"}}\n{\"type\":\"event_msg\",\"payload\":{\"type\":\"user_message\"}}\n{\"type\":\"turn_context\",\"payload\":{\"model_provider\":\"router\"}}\nbroken\n";
    let out = rewrite_rollout_provider_lines(&read_lines(text), "router").expect("changed");
    assert_eq!(out.len(), 4);
    match &out[0] {
        JsonlLine::Value(v) => assert_eq!(
            from_json(v),
            serde_json::from_str::<serde_json::Value>(
                "{\"type\":\"session_meta\",\"payload\":{\"id\":\"s\",\"model_provider\":\"router\"}}"
            )
            .unwrap()
        ),
        _ => panic!("rewritten"),
    }
    match &out[1] {
        JsonlLine::Raw(s) => assert!(s.contains("event_msg")),
        _ => panic!("kept"),
    }
    match &out[2] {
        JsonlLine::Value(v) => assert_eq!(from_json(v)["payload"]["model_provider"], "router"),
        _ => panic!("re-serialised"),
    }
    match &out[3] {
        JsonlLine::Raw(s) => assert_eq!(s, "broken"),
        _ => panic!("kept"),
    }
    let already = "{\"type\":\"session_meta\",\"payload\":{\"id\":\"s\",\"model_provider\":\"router\"}}\n";
    assert!(rewrite_rollout_provider_lines(&read_lines(already), "router").is_none());
}

#[test]
fn title_preview_matches_what_the_move_rewrites() {
    let selected = vec![focus("a", "Alpha", "t1"), focus("b", "  ", "t1"), focus("c", "Gamma", "t1")];
    let preview = count_session_index_title_updates(&parsed_lines(INDEX), &selected);
    let (_, counts) = move_focus_session_index_rows(&read_lines(INDEX), &selected).expect("selected rows");
    assert_eq!(preview, counts.titles_updated);
    assert_eq!(counts.rows_moved, 4);
}
