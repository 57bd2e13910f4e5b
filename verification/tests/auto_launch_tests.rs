use cc_switch::auto_launch::{
    auto_launch_reconciliation_action, disable_auto_launch, enable_auto_launch,
    get_macos_app_bundle_path, is_auto_launch_enabled, reconcile_auto_launch, reconciliation_action,
    run_value_matches_exe, startup_approved_enabled,
};

#[test]
fn windows_run_value_matches_current_exe_case_insensitively() {
    let exe = r"C:\Program Files\CCSwitchMulti\cc-switch.exe";
    assert!(run_value_matches_exe(r#""c:\PROGRAM FILES\CCSwitchMulti\CC-SWITCH.EXE""#, exe));
    assert!(!run_value_matches_exe(r#""C:\Program Files\OldCCSwitch\cc-switch.exe""#, exe));
}

#[test]
fn windows_startup_approved_disabled_marker_overrides_run_value() {
    let enabled = [0x02, 0x00, 0x00, 0x00, 0x00, 0x00, 0x00, 0x00, 0x00, 0x00, 0x00, 0x00];
    let disabled = [0x03, 0x00, 0x00, 0x00, 0x11, 0x22, 0x33, 0x44, 0x55, 0x66, 0x77, 0x88];

    assert!(startup_approved_enabled(None));
    assert!(startup_approved_enabled(Some(&enabled)));
    assert!(!startup_approved_enabled(Some(&disabled)));
}

#[test]
fn startup_reconciliation_repairs_persisted_and_system_state_drift() {
    assert_eq!(auto_launch_reconciliation_action(true, false), Some(true));
    assert_eq!(auto_launch_reconciliation_action(false, true), Some(false));
    assert_eq!(auto_launch_reconciliation_action(true, true), None);
    assert_eq!(auto_launch_reconciliation_action(false, false), None);
}

#[test]
fn windows_startup_reconciliation_repairs_missing_run_but_respects_task_manager_disable() {
    assert_eq!(reconciliation_action(true, false, true), Some(true));
    assert_eq!(reconciliation_action(true, true, false), None);
    assert_eq!(reconciliation_action(false, true, true), Some(false));
}

#[test]
fn test_get_macos_app_bundle_path_valid() {
    let result = get_macos_app_bundle_path("/Applications/CC Switch.app/Contents/MacOS/CC Switch");
    assert_eq!(result, Some("/Applications/CC Switch.app".to_string()));
}

#[test]
fn test_get_macos_app_bundle_path_with_spaces() {
    let result = get_macos_app_bundle_path("/Users/test/My Apps/CC Switch.app/Contents/MacOS/CC Switch");
    assert_eq!(result, Some("/Users/test/My Apps/CC Switch.app".to_string()));
}

#[test]
fn test_get_macos_app_bundle_path_not_in_bundle() {
    assert_eq!(get_macos_app_bundle_path("/usr/local/bin/cc-switch"), None);
}

#[test]
fn test_get_macos_app_bundle_path_dev_build() {
    assert_eq!(get_macos_app_bundle_path("/Users/dev/project/target/debug/cc-switch"), None);
}

#[test]
fn enabling_writes_a_registration_that_reads_as_enabled() {
    let exe = r"C:\Program Files\CCSwitchMulti\cc-switch.exe";
    let registration = enable_auto_launch(exe);
    assert_eq!(registration.run_value, format!("\"{}\"", exe));
    assert_eq!(registration.startup_approved[0], 0x02);
    assert_eq!(registration.startup_approved.len(), 12);
    assert!(is_auto_launch_enabled(
        Some(registration.run_value.as_str()),
        exe,
        Some(registration.startup_approved.as_slice())
    ));
    assert_eq!(
        reconcile_auto_launch(
            true,
            Some(registration.run_value.as_str()),
            exe,
            Some(registration.startup_approved.as_slice())
        ),
        None
    );
}

#[test]
fn disabling_leaves_nothing_that_reads_as_enabled() {
    let exe = r"C:\Program Files\CCSwitchMulti\cc-switch.exe";
    let state = disable_auto_launch();
    assert!(state.run_value.is_none());
    assert!(state.startup_approved.is_none());
    assert!(!is_auto_launch_enabled(None, exe, None));
    assert_eq!(reconcile_auto_launch(false, None, exe, None), None);
    assert_eq!(reconcile_auto_launch(true, None, exe, None), Some(true));
}

#[test]
fn task_manager_disable_keeps_the_login_item_disabled() {
    let exe = r"C:\Apps\cc-switch.exe";
    let disabled = [0x03, 0x00, 0x00, 0x00, 0x11, 0x22, 0x33, 0x44, 0x55, 0x66, 0x77, 0x88];
    assert!(!is_auto_launch_enabled(Some(r#""C:\Apps\cc-switch.exe""#), exe, Some(&disabled)));
    assert_eq!(reconcile_auto_launch(true, Some(r#""C:\Apps\cc-switch.exe""#), exe, Some(&disabled)), None);
}
