use cc_switch::exit_monitor::{
    classify_previous_run, exit_events_path, log_dir_path, marker_matches_process,
    record_clean_exit, record_startup, AppConfigDir, ExitEvent, PreviousRunClassification,
    ProcessEnvironment, ProcessIdentity, RunMarker, StartupObservation, EXIT_EVENTS_FILE,
    init_app_config_dir, should_write_run_marker,
};

const SCOPE: &str = "scope-fingerprint-test";

fn marker_with_identity() -> RunMarker {
    RunMarker {
        started_at: "2026-08-25 10:00:00.000".to_string(),
        pid: 42,
        version: "test".to_string(),
        os: "test".to_string(),
        arch: "test".to_string(),
        cwd: "test".to_string(),
        executable_path: Some(r"C:\Apps\cc-switch.exe".to_string()),
        process_started_at_ticks: Some(100),
        config_scope: Some(SCOPE.to_string()),
    }
}

fn event(kind: &str, reason: &str, exit_code: Option<i32>, timestamp: &str, pid: u32) -> ExitEvent {
    ExitEvent {
        timestamp: timestamp.to_string(),
        kind: kind.to_string(),
        reason: reason.to_string(),
        exit_code,
        version: "test".to_string(),
        os: "test".to_string(),
        arch: "test".to_string(),
        pid,
    }
}

fn env() -> ProcessEnvironment {
    ProcessEnvironment {
        pid: 7,
        version: "1.0".to_string(),
        os: "windows".to_string(),
        arch: "x86_64".to_string(),
        cwd: r"C:\work".to_string(),
    }
}

#[test]
fn exit_events_path_uses_logs_directory() {
    let path = exit_events_path("/home/user/.cc-switch", '/');
    assert!(path.ends_with(EXIT_EVENTS_FILE));
    assert!(path.contains("logs"));
    assert_eq!(path, "/home/user/.cc-switch/logs/app-exit-events.jsonl");
    assert_eq!(log_dir_path(r"C:\Users\u\.cc-switch", '\\'), r"C:\Users\u\.cc-switch\logs");
}

#[test]
fn active_previous_instance_requires_the_complete_process_identity() {
    let marker = marker_with_identity();
    let exact = ProcessIdentity {
        pid: marker.pid,
        executable_path: marker.executable_path.clone().expect("marker executable"),
        started_at_ticks: marker.process_started_at_ticks.expect("marker start"),
    };
    assert_eq!(
        classify_previous_run(Some(&marker), &[], false, Some(&exact), SCOPE),
        PreviousRunClassification::ActivePreviousInstance
    );

    let reused_pid = ProcessIdentity {
        started_at_ticks: exact.started_at_ticks + 1,
        ..exact.clone()
    };
    assert_eq!(
        classify_previous_run(Some(&marker), &[], false, Some(&reused_pid), SCOPE),
        PreviousRunClassification::UncleanExit
    );
    let wrong_executable = ProcessIdentity {
        executable_path: r"C:\Other\cc-switch.exe".to_string(),
        ..exact
    };
    assert_eq!(
        classify_previous_run(Some(&marker), &[], false, Some(&wrong_executable), SCOPE),
        PreviousRunClassification::UncleanExit
    );
}

#[test]
fn legacy_pid_only_marker_is_never_treated_as_an_active_instance() {
    let mut marker = marker_with_identity();
    marker.executable_path = None;
    marker.process_started_at_ticks = None;
    let observed = ProcessIdentity {
        pid: marker.pid,
        executable_path: r"C:\Apps\cc-switch.exe".to_string(),
        started_at_ticks: 100,
    };
    assert_eq!(
        classify_previous_run(Some(&marker), &[], false, Some(&observed), SCOPE),
        PreviousRunClassification::UncleanExit
    );
}

#[test]
fn clean_exit_without_restart_is_clean_not_unclean_or_crash() {
    let marker = marker_with_identity();
    let events = vec![event("clean_exit", "user_requested_exit", Some(0), "2026-08-25 10:01:00.000", marker.pid)];
    assert_eq!(
        classify_previous_run(Some(&marker), &events, false, None, SCOPE),
        PreviousRunClassification::CleanExit
    );
}

#[test]
fn clean_exit_with_restart_reason_remains_a_planned_restart() {
    let marker = marker_with_identity();
    let events = vec![event("clean_exit", "process_restart", Some(0), "2026-08-25 10:01:00.000", marker.pid)];
    assert_eq!(
        classify_previous_run(Some(&marker), &events, false, None, SCOPE),
        PreviousRunClassification::PlannedRestartOrUpdate
    );
}

#[test]
fn panic_after_clean_exit_is_still_a_confirmed_crash() {
    let marker = marker_with_identity();
    let events = vec![
        event("clean_exit", "user_requested_exit", Some(0), "2026-08-25 10:01:00.000", marker.pid),
        event("panic", "test panic", None, "2026-08-25 10:05:00.000", marker.pid),
    ];
    assert_eq!(
        classify_previous_run(Some(&marker), &events, false, None, SCOPE),
        PreviousRunClassification::ConfirmedCrash
    );
}

#[test]
fn marker_ownership_requires_the_complete_current_process_identity() {
    let current = ProcessIdentity {
        pid: 4242,
        executable_path: r"C:\Apps\cc-switch.exe".to_string(),
        started_at_ticks: 987_654_321,
    };
    let owned = RunMarker {
        pid: current.pid,
        executable_path: Some(current.executable_path.clone()),
        process_started_at_ticks: Some(current.started_at_ticks),
        ..marker_with_identity()
    };
    assert!(marker_matches_process(&owned, &current));

    let different_instance = RunMarker {
        process_started_at_ticks: Some(current.started_at_ticks.saturating_add(1)),
        ..owned
    };
    assert!(!marker_matches_process(&different_instance, &current));
}

#[test]
fn no_marker_means_no_previous_run_and_other_scope_is_ignored() {
    assert_eq!(
        classify_previous_run(None, &[], false, None, SCOPE),
        PreviousRunClassification::NoPreviousRun
    );
    let marker = marker_with_identity();
    let exact = ProcessIdentity {
        pid: 42,
        executable_path: r"C:\Apps\cc-switch.exe".to_string(),
        started_at_ticks: 100,
    };
    assert_eq!(
        classify_previous_run(Some(&marker), &[], false, Some(&exact), "another-scope"),
        PreviousRunClassification::UncleanExit
    );
}

#[test]
fn crash_log_after_marker_confirms_a_crash() {
    let marker = marker_with_identity();
    assert_eq!(
        classify_previous_run(Some(&marker), &[], true, None, SCOPE),
        PreviousRunClassification::ConfirmedCrash
    );
}

#[test]
fn classification_gates_recovery_and_proxy_startup() {
    assert!(PreviousRunClassification::ConfirmedCrash.allows_crash_recovery());
    assert!(PreviousRunClassification::UncleanExit.allows_crash_recovery());
    assert!(!PreviousRunClassification::CleanExit.allows_crash_recovery());
    assert!(!PreviousRunClassification::ActivePreviousInstance.allows_crash_recovery());
    assert!(!PreviousRunClassification::ActivePreviousInstance.allows_proxy_startup());
    assert!(PreviousRunClassification::NoPreviousRun.allows_proxy_startup());
    assert!(!should_write_run_marker(PreviousRunClassification::ActivePreviousInstance));
    assert!(should_write_run_marker(PreviousRunClassification::CleanExit));
}

#[test]
fn first_configured_directory_wins() {
    let mut dir = AppConfigDir::new();
    assert_eq!(dir.get(Some("/home/u"), '/'), "/home/u/.cc-switch");
    init_app_config_dir(&mut dir, "/data/first".to_string());
    init_app_config_dir(&mut dir, "/data/second".to_string());
    assert_eq!(dir.get(Some("/home/u"), '/'), "/data/first");
}

#[test]
fn startup_with_active_instance_keeps_its_marker() {
    let marker = marker_with_identity();
    let exact = ProcessIdentity {
        pid: 42,
        executable_path: r"C:\Apps\cc-switch.exe".to_string(),
        started_at_ticks: 100,
    };
    let obs = StartupObservation {
        previous_marker: Some(marker.clone()),
        crash_log_modified_at: None,
        events: Vec::new(),
        observed_process: Some(exact.clone()),
        config_scope: SCOPE.to_string(),
        current_identity: Some(exact),
        detected_at: "2026-08-25 11:00:00.000".to_string(),
        started_at: "2026-08-25 11:00:00.000".to_string(),
        environment: env(),
    };
    let record = record_startup(&obs);
    assert_eq!(record.report.classification, PreviousRunClassification::ActivePreviousInstance);
    assert!(record.marker_to_write.is_none());
    let event = record.abnormal_exit_event.expect("a remaining marker is reported");
    assert_eq!(event.kind, "abnormal_exit_detected");
}

#[test]
fn startup_after_unclean_exit_reports_it_and_writes_a_new_marker() {
    let marker = marker_with_identity();
    let current = ProcessIdentity {
        pid: 7,
        executable_path: r"C:\Apps\cc-switch.exe".to_string(),
        started_at_ticks: 500,
    };
    let obs = StartupObservation {
        previous_marker: Some(marker),
        crash_log_modified_at: None,
        events: Vec::new(),
        observed_process: None,
        config_scope: SCOPE.to_string(),
        current_identity: Some(current),
        detected_at: "2026-08-25 11:00:00.000".to_string(),
        started_at: "2026-08-25 11:00:01.000".to_string(),
        environment: env(),
    };
    let record = record_startup(&obs);
    assert_eq!(record.report.classification, PreviousRunClassification::UncleanExit);
    assert!(record.report.previous.is_some());
    let new_marker = record.marker_to_write.expect("a new marker is written");
    assert_eq!(new_marker.pid, 7);
    assert_eq!(new_marker.process_started_at_ticks, Some(500));
    assert_eq!(new_marker.started_at, "2026-08-25 11:00:01.000");
    let abnormal = record.abnormal_exit_event.expect("the unclean exit is logged");
    assert_eq!(abnormal.kind, "abnormal_exit_detected");
    assert_eq!(abnormal.reason, "previous run marker remained at startup");
    assert_eq!(abnormal.timestamp, "2026-08-25 11:00:00.000");
}

#[test]
fn clean_exit_removes_only_its_own_marker() {
    let current = ProcessIdentity {
        pid: 42,
        executable_path: r"C:\Apps\cc-switch.exe".to_string(),
        started_at_ticks: 100,
    };
    let marker = marker_with_identity();
    let record = record_clean_exit("user_requested_exit", 0, "2026-08-25 12:00:00.000", &env(), Some(&marker), Some(&current));
    assert_eq!(record.event.kind, "clean_exit");
    assert_eq!(record.event.reason, "user_requested_exit");
    assert_eq!(record.event.exit_code, Some(0));
    assert_eq!(record.event.timestamp, "2026-08-25 12:00:00.000");
    assert!(record.remove_marker);

    let other = ProcessIdentity { started_at_ticks: 101, ..current };
    let record = record_clean_exit("user_requested_exit", 0, "2026-08-25 12:00:00.000", &env(), Some(&marker), Some(&other));
    assert!(!record.remove_marker);
}
