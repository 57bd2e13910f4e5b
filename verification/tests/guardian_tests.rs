use cc_switch::guardian::guardian_should_inject;

#[test]
fn guardian_reinjects_existing_targets_when_catalog_changes() {
    let no_new_targets = Vec::<String>::new();
    assert!(guardian_should_inject(&no_new_targets, Some("catalog-v1"), "catalog-v2"));
}

#[test]
fn guardian_keeps_unchanged_catalog_injection_idempotent() {
    let no_new_targets = Vec::<String>::new();
    assert!(!guardian_should_inject(&no_new_targets, Some("catalog-v2"), "catalog-v2"));
}

#[test]
fn guardian_injects_new_targets_even_when_catalog_is_unchanged() {
    let new_targets = vec!["renderer-2".to_string()];
    assert!(guardian_should_inject(&new_targets, Some("catalog-v2"), "catalog-v2"));
}

#[test]
fn guardian_injects_when_nothing_was_injected_yet() {
    let no_new_targets = Vec::<String>::new();
    assert!(guardian_should_inject(&no_new_targets, None, "catalog-v1"));
}

use cc_switch::guardian::{
    guardian_observe, guardian_record_injection, guardian_stopped, initial_guardian, GuardianAction,
    GuardianObservation, InjectionOutcome,
};

#[test]
fn guardian_cycle_injects_then_waits_until_something_changes() {
    let (mut inner, mut status) = initial_guardian();
    assert!(status.active);
    let ids = vec!["page-1".to_string()];
    let action = guardian_observe(
        &mut inner,
        &mut status,
        GuardianObservation::Targets { current_ids: ids.clone(), catalog_fingerprint: "fp1".to_string() },
    );
    let generation = match action {
        GuardianAction::Inject { generation } => generation,
        GuardianAction::Wait => panic!("a new page must be injected"),
    };
    guardian_record_injection(&mut inner, &mut status, &ids, "fp1", generation, InjectionOutcome::Injected);
    assert!(status.injected);
    assert_eq!(status.injected_target_count, 1);

    let again = guardian_observe(
        &mut inner,
        &mut status,
        GuardianObservation::Targets { current_ids: ids.clone(), catalog_fingerprint: "fp1".to_string() },
    );
    assert_eq!(again, GuardianAction::Wait);

    let changed = guardian_observe(
        &mut inner,
        &mut status,
        GuardianObservation::Targets { current_ids: ids, catalog_fingerprint: "fp2".to_string() },
    );
    assert!(matches!(changed, GuardianAction::Inject { .. }));
}

#[test]
fn guardian_forgets_injections_when_codex_quits() {
    let (mut inner, mut status) = initial_guardian();
    let ids = vec!["page-1".to_string()];
    guardian_record_injection(&mut inner, &mut status, &ids, "fp1", 1, InjectionOutcome::Injected);
    assert_eq!(guardian_observe(&mut inner, &mut status, GuardianObservation::CodexNotRunning), GuardianAction::Wait);
    assert!(inner.injected_target_ids.is_empty());
    assert!(inner.injected_catalog_fingerprint.is_none());
    assert!(!status.codex_running);
    guardian_stopped(&mut status);
    assert!(!status.active);
}
