use cc_switch::history_ops::{
    backup_generation_matches_dir, ensure_codex_history_write_is_offline,
    has_codex_official_history_unify_backup, multirouter_sync_outcome, official_unify_migration_skip,
    openai_bucket_sources, skipped_bucket_migration,
    official_history_restore_outcome, restore_codex_official_history_from_backups,
    standalone_target_provider, standalone_write_check,
    sync_all_codex_history_provider_buckets_to_openai,
    sync_codex_history_provider_bucket_to_multirouter, CodexHistoryStandaloneRepairOptions,
    CodexHistoryVisibilityRepairOptions,
};
use cc_switch::json::Json;

fn meta(dir: &str) -> Json {
    Json::Object(vec![("codexConfigDir".to_string(), Json::Text(dir.to_string()))])
}

#[test]
fn offline_check_names_the_running_processes() {
    assert!(ensure_codex_history_write_is_offline(&Vec::new()).is_ok());
    let error = ensure_codex_history_write_is_offline(&vec!["Codex.exe (pid 1)".to_string(), "app-server (pid 2)".to_string()])
        .expect_err("running Codex blocks the write");
    assert_eq!(
        error,
        "Codex/ChatGPT App 或 app-server 仍在运行，请完全退出后再一键切回官方。检测到: Codex.exe (pid 1); app-server (pid 2)"
    );
}

#[test]
fn standalone_repair_defaults_target_to_live_config_provider() {
    assert_eq!(standalone_target_provider(&None, &Some("custom".to_string()), "router"), "custom");
    assert_eq!(standalone_target_provider(&Some("  ".to_string()), &None, "router"), "router");
    assert_eq!(standalone_target_provider(&Some(" openai ".to_string()), &Some("custom".to_string()), "router"), "openai");
    let options = CodexHistoryStandaloneRepairOptions::new();
    assert!(options.dry_run);
    assert_eq!(options.count, Some(30));
    assert_eq!(options.force_while_codex_running, Some(false));
}

#[test]
fn standalone_writes_wait_for_codex_to_quit_unless_forced() {
    let running = vec!["Codex.exe".to_string()];
    assert!(standalone_write_check(true, None, &running).is_ok());
    assert!(standalone_write_check(false, Some(true), &running).is_ok());
    assert!(standalone_write_check(false, None, &Vec::new()).is_ok());
    let error = standalone_write_check(false, Some(false), &running).expect_err("blocked");
    assert!(error.ends_with("检测到: Codex.exe"));
}

#[test]
fn multirouter_defaults_target_the_router_bucket() {
    let options = CodexHistoryVisibilityRepairOptions::new("router");
    assert_eq!(options.target_provider.as_deref(), Some("router"));
    assert_eq!(options.max_total, Some(300));
    assert_eq!(options.balance_recent_window, Some(true));
}

#[test]
fn multirouter_sync_gathers_every_bucket_but_its_own() {
    let (sources, skipped) = sync_codex_history_provider_bucket_to_multirouter(
        &vec!["zeta".to_string(), "router".to_string(), "alpha".to_string()],
        &vec!["ccswitch".to_string(), "alpha".to_string()],
        "router",
    );
    assert_eq!(sources, vec!["alpha", "ccswitch", "openai", "zeta"]);
    assert!(skipped.is_none());
    let (none, skipped) = sync_codex_history_provider_bucket_to_multirouter(&Vec::new(), &Vec::new(), "openai");
    assert!(none.is_empty());
    assert_eq!(skipped.expect("nothing to gather").skipped_reason.as_deref(), Some("no_source_provider_ids"));
    let outcome = multirouter_sync_outcome(sources, 3, 4);
    assert_eq!(outcome.migrated_jsonl_files, 3);
    assert_eq!(outcome.migrated_state_rows, 4);
    assert!(outcome.skipped_reason.is_none());
}

#[test]
fn official_restore_migrates_unknown_provider_buckets_and_is_idempotent() {
    let outcome = sync_all_codex_history_provider_buckets_to_openai(
        &vec!["relay".to_string(), "custom".to_string()],
        &vec!["custom".to_string()],
        2,
        1,
        "/backups/restore-1",
    );
    assert_eq!(outcome.source_provider_ids, vec!["custom", "relay"]);
    assert_eq!(outcome.backup_dir.as_deref(), Some("/backups/restore-1"));
    assert!(outcome.skipped_reason.is_none());
    let again = sync_all_codex_history_provider_buckets_to_openai(&Vec::new(), &Vec::new(), 0, 0, "/backups/restore-2");
    assert_eq!(again.skipped_reason.as_deref(), Some("already_openai_or_no_history"));
    assert!(again.backup_dir.is_none());
}

#[test]
fn backup_probe_only_counts_generations_for_current_dir() {
    assert!(backup_generation_matches_dir(Some(&meta("/home/u/.codex")), "/home/u/.codex"));
    assert!(!backup_generation_matches_dir(Some(&meta("/other/.codex")), "/home/u/.codex"));
    assert!(backup_generation_matches_dir(None, "/home/u/.codex"));
    assert!(backup_generation_matches_dir(Some(&Json::Object(Vec::new())), "/home/u/.codex"));
    assert!(!has_codex_official_history_unify_backup(&vec![Some(meta("/other/.codex"))], "/home/u/.codex"));
    assert!(has_codex_official_history_unify_backup(&vec![Some(meta("/other/.codex")), Some(meta("/home/u/.codex"))], "/home/u/.codex"));
    assert!(!has_codex_official_history_unify_backup(&Vec::new(), "/home/u/.codex"));
}

#[test]
fn restore_skips_when_no_backup_ledger_exists() {
    assert_eq!(
        restore_codex_official_history_from_backups(false, 0, 0).and_then(|o| o.skipped_reason).as_deref(),
        Some("no_backup_ledger")
    );
    assert_eq!(
        restore_codex_official_history_from_backups(true, 5, 5).and_then(|o| o.skipped_reason).as_deref(),
        Some("unify_toggle_on")
    );
    assert!(restore_codex_official_history_from_backups(false, 1, 0).is_none());
    assert_eq!(official_history_restore_outcome(0, 0).skipped_reason.as_deref(), Some("nothing_to_restore"));
    let restored = official_history_restore_outcome(2, 3);
    assert_eq!((restored.restored_jsonl_files, restored.restored_state_rows), (2, 3));
    assert!(restored.skipped_reason.is_none());
}

#[test]
fn official_unify_migration_checks_its_gates_in_order() {
    assert_eq!(official_unify_migration_skip(false, false, true, true, false).as_deref(), Some("unify_toggle_off"));
    assert_eq!(
        official_unify_migration_skip(true, false, true, true, false).as_deref(),
        Some("stock_migration_not_requested")
    );
    assert_eq!(official_unify_migration_skip(true, true, true, true, false).as_deref(), Some("codex_running"));
    assert_eq!(official_unify_migration_skip(true, true, false, true, false).as_deref(), Some("already_migrated"));
    assert_eq!(official_unify_migration_skip(true, true, false, false, false).as_deref(), Some("live_not_unified"));
    assert_eq!(official_unify_migration_skip(true, true, false, false, true), None);
}

#[test]
fn openai_bucket_sources_exclude_the_official_bucket() {
    let collected = vec!["rightcode".to_string(), "openai".to_string()];
    let own = vec!["custom".to_string(), "rightcode".to_string()];
    assert_eq!(openai_bucket_sources(&collected, &own, "openai"), vec!["custom", "rightcode"]);
    let skipped = skipped_bucket_migration("already_migrated".to_string());
    assert_eq!(skipped.skipped_reason.as_deref(), Some("already_migrated"));
    assert_eq!(skipped.migrated_jsonl_files, 0);
}
