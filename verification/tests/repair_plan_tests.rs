use cc_switch::history::{
    parse_rollout_thread_metadata, rollout_contains_user_event, plan_internal_transcript_thread_removals,
    plan_prefix_duplicate_thread_removals, RolloutThreadMetadata, ThreadHistoryRow,
};
use cc_switch::json::{Json, JsonNumber};
use cc_switch::repair_plan::{
    concat_ids, focus_choice_indices, partition_visible_rows, plan_history_visibility_repair,
    plan_thread_store_cleanup, schema_missing_visibility_outcome, settle_visibility_repair,
    HistoryRepairContext, HistoryVisibilityRepairRuntimeOptions,
};
use cc_switch::thread_merge::{dedupe_rollout_metadata, merge_rollout_thread_metadata};
use cc_switch::thread_store::{
    insert_thread_statement, thread_insert_columns, thread_update_columns, update_thread_statement,
    SqlValue,
};

fn to_json(v: &serde_json::Value) -> Json {
    match v {
        serde_json::Value::Null => Json::Null,
        serde_json::Value::Bool(b) => Json::Bool(*b),
        serde_json::Value::Number(n) => {
            if let Some(u) = n.as_u64() {
                Json::Number(JsonNumber::Unsigned(u))
            } else if let Some(i) = n.as_i64() {
                Json::Number(JsonNumber::Signed(i))
            } else {
                Json::Number(JsonNumber::Other(n.to_string()))
            }
        }
        serde_json::Value::String(s) => Json::Text(s.clone()),
        serde_json::Value::Array(a) => Json::Array(a.iter().map(to_json).collect()),
        serde_json::Value::Object(m) => Json::Object(m.iter().map(|(k, v)| (k.clone(), to_json(v))).collect()),
    }
}

fn parse(text: &str) -> Json {
    to_json(&serde_json::from_str::<serde_json::Value>(text).expect("valid json"))
}

fn jsonl(text: &str) -> Vec<Json> {
    text.lines().filter(|l| !l.trim().is_empty()).map(parse).collect()
}

fn parsed_lines(text: &str) -> Vec<Option<Json>> {
    text.lines()
        .map(|l| serde_json::from_str::<serde_json::Value>(l).ok().map(|v| to_json(&v)))
        .collect()
}

const TARGET: &str = "cc_switch_codex_router";

fn db_row(
    id: &str,
    rollout: &str,
    provider: &str,
    cwd: &str,
    source: &str,
    title: &str,
    updated_at: i64,
    updated_at_ms: i64,
) -> ThreadHistoryRow {
    ThreadHistoryRow {
        id: id.to_string(),
        rollout_path: Some(rollout.to_string()),
        model_provider: Some(provider.to_string()),
        cwd: Some(cwd.to_string()),
        has_user_event: Some(0),
        archived: Some(0),
        source: Some(source.to_string()),
        thread_source: Some("user".to_string()),
        title: Some(title.to_string()),
        preview: Some(title.to_string()),
        first_user_message: None,
        updated_at_ms: Some(updated_at_ms),
        updated_at: Some(updated_at),
    }
}

fn options(selected: &[&str]) -> HistoryVisibilityRepairRuntimeOptions {
    HistoryVisibilityRepairRuntimeOptions {
        dry_run: true,
        count: 20,
        window_limit: 50,
        balance_recent_window: true,
        max_per_project: 10,
        max_total: 300,
        source_filter: Some("vscode".to_string()),
        include_archived: false,
        include_subagents: false,
        selected_session_ids: selected.iter().map(|s| s.to_string()).collect(),
        provider_bucket_sync_enabled: true,
    }
}

fn context(project: &str) -> HistoryRepairContext {
    HistoryRepairContext {
        codex_home: "C:\\Users\\me\\.codex".to_string(),
        state_db_path: Some("C:\\Users\\me\\.codex\\sqlite\\state_5.sqlite".to_string()),
        active_db_kind: Some("sqlite_subdir".to_string()),
        live_config_model_provider: Some(TARGET.to_string()),
        target_provider: TARGET.to_string(),
        normalized_project_path: Some(project.to_string()),
    }
}

/// Runs the pure steps of a repair on what a caller would have read.
fn run_plan(
    rows: Vec<ThreadHistoryRow>,
    scanned: Vec<RolloutThreadMetadata>,
    index_text: &str,
    global: &str,
    runtime: &HistoryVisibilityRepairRuntimeOptions,
    project: &str,
    rollouts: &[(&str, &str)],
) -> cc_switch::repair_plan::VisibilityRepairPlan {
    let index = parsed_lines(index_text);
    let merged = merge_rollout_thread_metadata(rows, scanned, &index);
    let conversations = vec![None; merged.rows.len()];
    let internal = vec![false; merged.rows.len()];
    let prefix = plan_prefix_duplicate_thread_removals(&merged.rows, &conversations);
    let internal_ids = plan_internal_transcript_thread_removals(&merged.rows, &internal);
    let cleanup = plan_thread_store_cleanup(
        merged.rows,
        merged.rollout_metadata,
        merged.metadata_repairs,
        &merged.existing_ids,
        &prefix,
        &internal_ids,
        &vec!["openai".to_string()],
        TARGET,
        runtime.provider_bucket_sync_enabled,
    );
    let content = |row: &ThreadHistoryRow| -> Option<&str> {
        rollouts.iter().find(|(path, _)| Some(*path) == row.rollout_path.as_deref()).map(|(_, text)| *text)
    };
    let events: Vec<bool> = cleanup.rows.iter().map(|r| content(r).map(rollout_contains_user_event).unwrap_or(false)).collect();
    let present: Vec<bool> = cleanup.rows.iter().map(|r| content(r).is_some()).collect();
    plan_history_visibility_repair(
        &context(project),
        runtime,
        cleanup,
        &prefix,
        &internal_ids,
        &events,
        &present,
        0,
        false,
        &index,
        &parse(global),
        1_700_000_000_000,
        "2023-11-14T22:13:20.000Z",
    )
}

#[test]
fn selected_session_ids_focus_only_requested_rows() {
    let project = r"C:\Users\sunda\Documents\LLMservice";
    let one_text = "{\"type\":\"session_meta\",\"payload\":{\"id\":\"selected-one\",\"model_provider\":\"openai\"}}\n{\"type\":\"user_message\",\"message\":\"one\"}\n";
    let two_text = "{\"type\":\"session_meta\",\"payload\":{\"id\":\"selected-two\",\"model_provider\":\"openai\"}}\n{\"role\":\"user\",\"content\":\"two\"}\n";
    let one = jsonl(one_text);
    let two = jsonl(two_text);
    // Neither rollout has a user turn the scan can preview, so the scan yields nothing
    // and the rows stay as the store has them.
    let scanned: Vec<RolloutThreadMetadata> = vec![
        parse_rollout_thread_metadata(&one, "rollout-selected-one.jsonl", false, 1_000_000),
        parse_rollout_thread_metadata(&two, "rollout-selected-two.jsonl", false, 900_000),
    ]
    .into_iter()
    .flatten()
    .collect();
    assert!(scanned.is_empty());
    let rows = vec![
        db_row("selected-one", "rollout-selected-one.jsonl", "openai", project, "vscode", "One", 1000, 1_000_000),
        db_row("selected-two", "rollout-selected-two.jsonl", "openai", project, "vscode", "Two", 900, 900_000),
    ];
    let global = r#"{"thread-workspace-root-hints":{},"projectless-thread-ids":[],"electron-saved-workspace-roots":[]}"#;
    let rollouts = [("rollout-selected-one.jsonl", one_text), ("rollout-selected-two.jsonl", two_text)];
    let plan = run_plan(rows, scanned, "", global, &options(&["selected-two"]), project, &rollouts);
    let dry_run = &plan.outcome;
    assert_eq!(dry_run.visible_candidate_rows, 2);
    assert_eq!(dry_run.project_rows, 2);
    assert_eq!(dry_run.focus_selected_count, 1);
    assert!(!dry_run.balanced_recent_window_enabled);
    assert_eq!(dry_run.balanced_recent_window_rows, 0);
    assert_eq!(dry_run.sqlite_focus_rows_to_update, 1);
    assert_eq!(dry_run.session_index_rows_to_move, 0);
    assert_eq!(dry_run.rollout_mtimes_to_touch, 1);
    assert_eq!(plan.selected_focus_rows[0].id, "selected-two");
    assert_eq!(dry_run.provider_rows_to_update, 2);
    assert_eq!(dry_run.source_provider_ids, vec!["openai"]);
    assert_eq!(dry_run.workspace_hints_to_fix, 2);
    assert_eq!(dry_run.saved_workspace_roots_to_add, 1);
    // Selected rows come after every current time, the newest first.
    assert!(plan.selected_focus_rows[0].new_updated_at_ms > 1_700_000_000_000);
}

#[test]
fn balanced_window_counts_projects_and_stale_titles() {
    let project = r"C:\work\main";
    let rows = vec![
        db_row("m1", "r-m1.jsonl", TARGET, project, "vscode", "Main one", 30, 30_000),
        db_row("m2", "r-m2.jsonl", TARGET, project, "vscode", "Main two", 20, 20_000),
        db_row("o1", "r-o1.jsonl", TARGET, r"C:\work\other", "vscode", "Other", 10, 10_000),
        db_row("cli", "r-cli.jsonl", TARGET, project, "exec", "Hidden", 40, 40_000),
    ];
    let mut rows = rows;
    for r in rows.iter_mut() {
        r.has_user_event = Some(1);
    }
    let index = "{\"id\":\"m1\",\"thread_name\":\"stale\"}\n{\"id\":\"gone\"}\n";
    let mut runtime = options(&[]);
    runtime.dry_run = false;
    let plan = run_plan(rows, Vec::new(), index, "{}", &runtime, project, &[]);
    let o = &plan.outcome;
    assert_eq!(o.visible_candidate_rows, 3);
    assert!(o.balanced_recent_window_enabled);
    assert_eq!(o.focus_selected_count, 3);
    assert_eq!(o.balanced_recent_window_rows, 3);
    assert_eq!(o.balanced_recent_window_projects, 2);
    assert_eq!(o.session_index_rows_to_move, 1);
    assert_eq!(o.session_index_titles_to_update, 1);
    assert_eq!(o.visible_project_rows_in_window_before, 2);
    assert_eq!(o.provider_rows_to_update, 0);
    let ids: Vec<&str> = plan.selected_focus_rows.iter().map(|f| f.id.as_str()).collect();
    assert_eq!(ids, vec!["m1", "m2", "o1"]);
    let mut outcome = plan.outcome.clone();
    assert!(settle_visibility_repair(&mut outcome));
    assert_eq!(outcome.skipped_reason, None);
}

#[test]
fn settle_reports_already_repaired_when_nothing_changes() {
    let project = r"C:\work\main";
    let mut runtime = options(&[]);
    runtime.dry_run = false;
    let global = r#"{"electron-saved-workspace-roots":["C:\\work\\main"]}"#;
    let plan = run_plan(Vec::new(), Vec::new(), "", global, &runtime, project, &[]);
    let mut outcome = plan.outcome;
    assert!(!settle_visibility_repair(&mut outcome));
    assert_eq!(outcome.skipped_reason.as_deref(), Some("already_repaired"));
    let mut dry = outcome.clone();
    dry.dry_run = true;
    dry.skipped_reason = None;
    assert!(!settle_visibility_repair(&mut dry));
    assert_eq!(dry.skipped_reason, None);
}

#[test]
fn cleanup_drops_removed_threads_and_moves_foreign_buckets() {
    let rows = vec![
        db_row("a", "ra", " custom ", "C:\\w", "vscode", "A", 1, 1000),
        db_row("b", "rb", TARGET, "C:\\w", "vscode", "B", 1, 1000),
        db_row("c", "rc", "openai", "C:\\w", "vscode", "C", 1, 1000),
    ];
    let cleanup = plan_thread_store_cleanup(
        rows.clone(),
        Vec::new(),
        Vec::new(),
        &vec!["a".to_string(), "b".to_string(), "c".to_string()],
        &vec!["c".to_string()],
        &Vec::new(),
        &vec!["legacy".to_string()],
        TARGET,
        true,
    );
    let ids: Vec<&str> = cleanup.rows.iter().map(|r| r.id.as_str()).collect();
    assert_eq!(ids, vec!["a", "b"]);
    assert_eq!(cleanup.source_provider_ids, vec!["custom", "legacy"]);
    // The row's own bucket is " custom " (untrimmed), which is not a source id.
    assert!(cleanup.provider_update_ids.is_empty());
    let off = plan_thread_store_cleanup(
        rows,
        Vec::new(),
        Vec::new(),
        &Vec::new(),
        &Vec::new(),
        &Vec::new(),
        &vec!["openai".to_string()],
        TARGET,
        false,
    );
    assert!(off.source_provider_ids.is_empty());
    assert!(off.provider_update_ids.is_empty());
}

#[test]
fn visible_rows_need_a_user_turn_and_text() {
    let mut quiet = db_row("quiet", "rq", TARGET, "C:\\w", "vscode", "Quiet", 1, 1000);
    quiet.has_user_event = Some(0);
    let mut blank = db_row("blank", "rb", TARGET, "C:\\w", "vscode", " ", 1, 1000);
    blank.has_user_event = Some(1);
    let mut archived = db_row("archived", "ra", TARGET, "C:\\w", "vscode", "Old", 1, 1000);
    archived.has_user_event = Some(1);
    archived.archived = Some(1);
    let rows = vec![quiet, blank, archived];
    let (visible, flags, backfills) = partition_visible_rows(
        rows,
        &vec![true, false, false],
        &vec![true, true, true],
        &Vec::new(),
        TARGET,
        &options(&[]),
    );
    let ids: Vec<&str> = visible.iter().map(|r| r.id.as_str()).collect();
    assert_eq!(ids, vec!["quiet"]);
    assert_eq!(flags, vec![true]);
    assert_eq!(backfills, vec!["quiet"]);
}

#[test]
fn focus_choice_takes_the_projects_newest_rows_without_balancing() {
    let project = "C:\\p";
    let visible = vec![
        db_row("old", "r1", TARGET, project, "vscode", "Old", 1, 1000),
        db_row("new", "r2", TARGET, project, "vscode", "New", 3, 3000),
        db_row("elsewhere", "r3", TARGET, "C:\\q", "vscode", "Else", 5, 5000),
    ];
    let mut runtime = options(&[]);
    runtime.balance_recent_window = false;
    runtime.count = 1;
    assert_eq!(focus_choice_indices(&visible, Some(project), &runtime), vec![1]);
    runtime.count = 5;
    assert_eq!(focus_choice_indices(&visible, Some(project), &runtime), vec![1, 0]);
    assert!(focus_choice_indices(&visible, None, &runtime).is_empty());
}

#[test]
fn merge_repairs_known_rows_and_adds_indexed_rollouts_only() {
    let known = jsonl("{\"timestamp\":\"2026-01-01T00:00:00Z\",\"type\":\"session_meta\",\"payload\":{\"id\":\"known\",\"cwd\":\"C:\\\\w\"}}\n{\"type\":\"event_msg\",\"payload\":{\"type\":\"user_message\",\"message\":\"first question\"}}\n");
    let indexed = jsonl("{\"type\":\"session_meta\",\"payload\":{\"id\":\"indexed\",\"cwd\":\"C:\\\\w\"}}\n{\"type\":\"event_msg\",\"payload\":{\"type\":\"user_message\",\"message\":\"hello\"}}\n");
    let stray = jsonl("{\"type\":\"session_meta\",\"payload\":{\"id\":\"stray\"}}\n");
    let scanned: Vec<RolloutThreadMetadata> = vec![
        parse_rollout_thread_metadata(&known, "r-known", false, 1),
        parse_rollout_thread_metadata(&indexed, "r-indexed", false, 1),
        parse_rollout_thread_metadata(&stray, "r-stray", false, 1),
    ]
    .into_iter()
    .flatten()
    .collect();
    assert!(scanned.len() >= 2);
    let mut row = db_row("known", "old-path", TARGET, "C:\\w", "vscode", "Renamed by user", 0, 0);
    row.first_user_message = Some("first question".to_string());
    let index = parsed_lines("{\"id\":\"indexed\",\"thread_name\":\"Indexed title\"}\n");
    let merged = merge_rollout_thread_metadata(vec![row], scanned, &index);
    assert_eq!(merged.existing_ids, vec!["known"]);
    let ids: Vec<&str> = merged.rows.iter().map(|r| r.id.as_str()).collect();
    assert_eq!(ids, vec!["known", "indexed"]);
    assert_eq!(merged.rows[0].rollout_path.as_deref(), Some("r-known"));
    assert_eq!(merged.rows[0].title.as_deref(), Some("Renamed by user"));
    assert_eq!(merged.rows[0].has_user_event, Some(1));
    assert_eq!(merged.rows[1].title.as_deref(), Some("Indexed title"));
    assert_eq!(merged.rollout_metadata.len(), 2);
    assert_eq!(merged.metadata_repairs.len(), 1);
    assert_eq!(merged.metadata_repairs[0].title.as_deref(), Some("Renamed by user"));
}

#[test]
fn thread_rows_set_only_the_columns_the_table_has() {
    let meta = RolloutThreadMetadata {
        id: "t".to_string(),
        rollout_path: "r.jsonl".to_string(),
        model_provider: Some("openai".to_string()),
        cwd: None,
        source: None,
        thread_source: Some("subagent".to_string()),
        title: Some("T".to_string()),
        preview: None,
        first_user_message: None,
        has_user_event: true,
        archived: false,
        created_at_ms: 1_500,
        updated_at_ms: -2_500,
    };
    let columns: Vec<String> = ["updated_at", "source", "cwd", "history_mode", "has_user_event"]
        .iter()
        .map(|s| s.to_string())
        .collect();
    let insert = thread_insert_columns(&meta, TARGET, &columns);
    let names: Vec<&str> = insert.iter().map(|c| c.0.as_str()).collect();
    assert_eq!(names, vec!["id", "updated_at", "source", "cwd", "has_user_event", "history_mode"]);
    assert!(matches!(&insert[1].1, SqlValue::Integer(-2)));
    assert!(matches!(&insert[2].1, SqlValue::Text(s) if s == "cli"));
    assert!(matches!(&insert[3].1, SqlValue::Text(s) if s.is_empty()));
    assert!(matches!(&insert[4].1, SqlValue::Integer(1)));
    assert!(matches!(&insert[5].1, SqlValue::Text(s) if s == "legacy"));
    assert_eq!(
        insert_thread_statement(&insert),
        "INSERT INTO threads (id, updated_at, source, cwd, has_user_event, history_mode) VALUES (?, ?, ?, ?, ?, ?) ON CONFLICT(id) DO NOTHING"
    );
    let update = thread_update_columns(&meta, TARGET, &columns);
    let names: Vec<&str> = update.iter().map(|c| c.0.as_str()).collect();
    assert_eq!(names, vec!["cwd", "source", "has_user_event", "updated_at"]);
    assert_eq!(
        update_thread_statement(&update).as_deref(),
        Some("UPDATE threads SET cwd = ?, source = ?, has_user_event = ?, updated_at = ? WHERE id = ?")
    );
    assert!(update_thread_statement(&thread_update_columns(&meta, TARGET, &Vec::new())).is_none());
}

#[test]
fn schema_missing_outcome_counts_nothing() {
    let o = schema_missing_visibility_outcome(
        &context("C:\\p"),
        true,
        &vec!["openai".to_string(), "custom".to_string(), "openai".to_string()],
    );
    assert!(o.dry_run);
    assert_eq!(o.source_provider_ids, vec!["custom", "openai"]);
    assert_eq!(o.skipped_reason.as_deref(), Some("threads_schema_missing_required_columns"));
    assert_eq!(o.visible_candidate_rows, 0);
    assert_eq!(concat_ids(&vec!["a".to_string()], &vec!["b".to_string()]), vec!["a", "b"]);
}

#[test]
fn duplicate_declared_ids_keep_the_latest_complete_snapshot_without_creating_filename_threads() {
    let session_id = "019f8ce8-81b0-7741-a4d3-eca05e030fc8";
    let mut scanned = Vec::new();
    for (name, timestamp, message) in [
        (
            "rollout-2026-07-25T02-00-00-019f8ce8-81b0-7741-a4d3-eca05e030fc8.jsonl",
            "2026-07-25T02:01:00Z",
            "older snapshot",
        ),
        (
            "rollout-2026-07-25T03-00-00-019f8cf3-3050-7153-b6f3-8a0757cfbaf4.jsonl",
            "2026-07-25T03:01:00Z",
            "latest snapshot",
        ),
    ] {
        let text = format!(
            "{{\"type\":\"session_meta\",\"payload\":{{\"id\":\"{session_id}\"}}}}\n{{\"timestamp\":\"{timestamp}\",\"type\":\"event_msg\",\"payload\":{{\"type\":\"user_message\",\"message\":\"{message}\"}}}}\n"
        );
        if let Some(m) = parse_rollout_thread_metadata(&jsonl(&text), name, false, 0) {
            scanned.push(m);
        }
    }
    let rows = dedupe_rollout_metadata(&scanned);
    assert_eq!(rows.len(), 1);
    assert_eq!(rows[0].id, session_id);
    assert_eq!(rows[0].preview.as_deref(), Some("latest snapshot"));
}

#[test]
fn list_merge_takes_every_rollout_and_keeps_stored_rows_first() {
    let text = "{\"type\":\"session_meta\",\"payload\":{\"id\":\"fresh\"}}\n{\"type\":\"event_msg\",\"payload\":{\"type\":\"user_message\",\"message\":\"hi\"}}\n";
    let scanned: Vec<RolloutThreadMetadata> =
        parse_rollout_thread_metadata(&jsonl(text), "r-fresh", false, 5).into_iter().collect();
    assert_eq!(scanned.len(), 1);
    let mut rows = vec![db_row("kept", "r-kept", TARGET, "C:\\w", "vscode", "Kept", 1, 1000)];
    let index = jsonl("{\"id\":\"fresh\",\"thread_name\":\"Named\"}\n");
    let repairs = cc_switch::history_list::merge_rollout_metadata(&mut rows, &scanned, &index);
    assert!(repairs.is_empty());
    let ids: Vec<&str> = rows.iter().map(|r| r.id.as_str()).collect();
    assert_eq!(ids, vec!["kept", "fresh"]);
    assert_eq!(rows[1].title.as_deref(), Some("Named"));
}
