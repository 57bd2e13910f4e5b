use cc_switch::compiler::{
    compile_v2, CodexModelSelection, CodexRouteAuthPolicy, CodexRouteAuthSource, CodexRoutingConfigV2,
    CodexRoutingRouteV2, Provider, ProviderMeta,
};
use cc_switch::json::{Json, JsonNumber};
use cc_switch::projection::{
    apply_projection_owned_settings, auth_owner, build_projection_artifact,
    effective_settings_for_candidate, ensure_codex_multirouter_projection,
    inspect_active_codex_multirouter_projection, inspect_codex_multirouter_projection,
    projection_setting_key, projection_status, published_status, publish_verdict,
    CodexRoutingProjectionStatus, ProjectionReadBack, ProjectionState, ProjectionStep,
};

fn to_json(v: &serde_json::Value) -> Json {
    match v {
        serde_json::Value::Null => Json::Null,
        serde_json::Value::Bool(b) => Json::Bool(*b),
        serde_json::Value::Number(n) => {
            if let Some(u) = n.as_u64() {
                Json::Number(JsonNumber::Unsigned(u))
            } else if let Some(i) = n.as_i64() {
                Json::Number(JsonNumber::Signed(i))
            } else {
                Json::Number(JsonNumber::Other(n.to_string()))
            }
        }
        serde_json::Value::String(s) => Json::Text(s.clone()),
        serde_json::Value::Array(a) => Json::Array(a.iter().map(to_json).collect()),
        serde_json::Value::Object(m) => Json::Object(m.iter().map(|(k, v)| (k.clone(), to_json(v))).collect()),
    }
}

fn from_json(j: &Json) -> serde_json::Value {
    match j {
        Json::Null => serde_json::Value::Null,
        Json::Bool(b) => serde_json::Value::Bool(*b),
        Json::Number(JsonNumber::Unsigned(u)) => serde_json::Value::from(*u),
        Json::Number(JsonNumber::Signed(i)) => serde_json::Value::from(*i),
        Json::Number(JsonNumber::Other(t)) => serde_json::from_str(t).unwrap_or(serde_json::Value::Null),
        Json::Text(s) => serde_json::Value::String(s.clone()),
        Json::Array(a) => serde_json::Value::Array(a.iter().map(from_json).collect()),
        Json::Object(es) => serde_json::Value::Object(es.iter().map(|(k, v)| (k.clone(), from_json(v))).collect()),
    }
}

fn parse(text: &str) -> Json {
    to_json(&serde_json::from_str::<serde_json::Value>(text).expect("valid json"))
}

fn provider(id: &str, name: &str, settings: &str, api_format: Option<&str>) -> Provider {
    Provider {
        id: id.to_string(),
        name: name.to_string(),
        category: None,
        settings_config: parse(settings),
        meta: api_format.map(|f| ProviderMeta {
            provider_type: None,
            api_format: Some(f.to_string()),
            codex_chat_reasoning: None,
            codex_cache: None,
            auth_binding: None,
        }),
        config_base_url: None,
    }
}

fn target(api_format: &str) -> Provider {
    provider(
        "qwen",
        "Qwen",
        r#"{"base_url":"https://qwen.example/v1","auth":{"OPENAI_API_KEY":"secret-must-not-leak"},"modelCatalog":{"models":[{"model":"qwen3.8","inputModalities":["text"],"contextWindow":262144}]}}"#,
        Some(api_format),
    )
}

fn router() -> Provider {
    provider(
        "router",
        "MultiRouter",
        r#"{"codexRouting":{"schemaVersion":2,"enabled":true,"spawnAgentModels":["qwen3.8","removed"],"defaultRouteId":"qwen","routes":[{"id":"qwen","label":"Qwen route","enabled":true,"targetProviderId":"qwen","modelSelection":{"mode":"all"},"authPolicy":{"source":"provider_config"}}]}}"#,
        None,
    )
}

fn router_plan() -> CodexRoutingConfigV2 {
    CodexRoutingConfigV2 {
        schema_version: 2,
        enabled: true,
        default_route_id: Some("qwen".to_string()),
        routes: vec![CodexRoutingRouteV2 {
            id: "qwen".to_string(),
            label: Some("Qwen route".to_string()),
            enabled: true,
            target_provider_id: "qwen".to_string(),
            model_selection: CodexModelSelection::All,
            match_prefixes: Vec::new(),
            aliases: Vec::new(),
            auth_policy: CodexRouteAuthPolicy { source: CodexRouteAuthSource::ProviderConfig, account_id: None },
        }],
        spawn_agent_models: vec!["qwen3.8".to_string(), "removed".to_string()],
    }
}

fn stored(state: ProjectionState, fingerprint: &str) -> CodexRoutingProjectionStatus {
    CodexRoutingProjectionStatus {
        schema_version: 1,
        router_provider_id: "router".to_string(),
        state,
        dependency_fingerprint: fingerprint.to_string(),
        generated_at: "2026-01-01T00:00:00.000Z".to_string(),
        warnings: Vec::new(),
        routes: Vec::new(),
        last_error_code: None,
        last_error: None,
    }
}

#[test]
fn inspect_active_projection_returns_none_for_a_direct_provider() {
    // The current provider is the direct `qwen` provider, which carries no schema-v2 plan.
    assert!(inspect_active_codex_multirouter_projection(Some("qwen"), true, false).is_none());
    assert!(inspect_active_codex_multirouter_projection(None, false, false).is_none());
    assert_eq!(inspect_active_codex_multirouter_projection(Some("router"), true, true).as_deref(), Some("router"));
}

#[test]
fn public_projection_publish_rejects_an_inactive_router() {
    let error = ensure_codex_multirouter_projection(Some("qwen"), "router", true, None, "fp")
        .expect_err("inactive router must not overwrite the shared live projection");
    assert!(error.contains("codex_multirouter_projection_not_active"));
}

#[test]
fn inspect_reports_inactive_router_as_not_requiring_shared_projection() {
    let inactive = inspect_codex_multirouter_projection(false, None, "fp");
    assert_eq!(inactive.state, ProjectionState::NotRequired);
    assert_eq!(inactive.error_code.as_deref(), Some("projection_inactive"));
}

#[test]
fn readback_fingerprint_mismatch_is_pending_not_ready() {
    let read_back = ProjectionReadBack::verified("old-fingerprint".to_string());
    let verdict = publish_verdict(Some(&read_back), "new-fingerprint");
    assert_eq!(verdict.state, ProjectionState::Pending);
    assert_eq!(verdict.error_code.as_deref(), Some("projection_readback_mismatch"));
    let live = inspect_codex_multirouter_projection(true, Some(&read_back), "new-fingerprint");
    assert_eq!(live.state, ProjectionState::Pending);
    assert_eq!(live.error_code.as_deref(), Some("projection_live_drift"));
}

#[test]
fn publish_failure_persists_pending_and_retry_recovers() {
    let failed = publish_verdict(None, "fp");
    assert_eq!(failed.state, ProjectionState::Pending);
    assert_eq!(failed.error_code.as_deref(), Some("projection_publish_failed"));
    // A pending status is not reused: the next ensure publishes again.
    let pending = stored(ProjectionState::Pending, "fp");
    assert_eq!(
        ensure_codex_multirouter_projection(Some("router"), "router", false, Some(&pending), "fp"),
        Ok(ProjectionStep::Publish)
    );
    let read_back = ProjectionReadBack::verified("fp".to_string());
    let recovered = publish_verdict(Some(&read_back), "fp");
    assert_eq!(recovered.state, ProjectionState::Ready);
    assert!(recovered.error_code.is_none());
}

#[test]
fn ready_status_for_the_current_fingerprint_is_reused_unless_forced() {
    let ready = stored(ProjectionState::Ready, "fp");
    assert_eq!(ensure_codex_multirouter_projection(Some("router"), "router", false, Some(&ready), "fp"), Ok(ProjectionStep::Reuse));
    assert_eq!(ensure_codex_multirouter_projection(Some("router"), "router", true, Some(&ready), "fp"), Ok(ProjectionStep::Publish));
    assert_eq!(ensure_codex_multirouter_projection(Some("router"), "router", false, Some(&ready), "fp2"), Ok(ProjectionStep::Publish));
}

#[test]
fn effective_candidate_settings_compile_provider_catalog_without_router_snapshot() {
    let router = router();
    let plan = router_plan();
    let effective = effective_settings_for_candidate(router, Some(&plan), vec![target("openai_responses")], true)
        .expect("compile effective settings");
    let effective = from_json(&effective);
    assert_eq!(effective.pointer("/modelCatalog/models/0/model"), Some(&serde_json::Value::from("qwen3.8")));
    assert_eq!(effective.pointer("/modelCatalog/models/0/contextWindow"), Some(&serde_json::Value::from(262144u64)));
    assert_eq!(
        effective.pointer("/modelCatalog/spawnAgentModels"),
        Some(&serde_json::Value::Array(vec![serde_json::Value::from("qwen3.8")]))
    );
}

#[test]
fn candidate_without_a_plan_keeps_its_own_settings() {
    let qwen = target("openai_chat");
    let expected = from_json(&qwen.settings_config);
    let effective = effective_settings_for_candidate(qwen, None, Vec::new(), false).expect("own settings");
    assert_eq!(from_json(&effective), expected);
}

#[test]
fn projection_keeps_only_routable_spawn_agent_models() {
    let artifact = build_projection_artifact(&router(), &router_plan(), &[router(), target("openai_chat")])
        .expect("projection artifact");
    let settings = from_json(&artifact.projection_settings);
    assert_eq!(settings["modelCatalog"]["spawnAgentModels"], serde_json::Value::Array(vec![serde_json::Value::from("qwen3.8")]));
    assert_eq!(artifact.router_provider_id, "router");
}

#[test]
fn projection_ignores_stale_router_catalog_order_and_uses_provider_order() {
    let router = provider(
        "router",
        "MultiRouter",
        r#"{"modelCatalog":{"models":[{"model":"qwen-b","sortIndex":0},{"model":"qwen-a","sortIndex":1}],"spawnAgentModels":["qwen-b"]}}"#,
        None,
    );
    let target = provider(
        "qwen",
        "Qwen",
        r#"{"base_url":"https://qwen.example/v1","modelCatalog":{"models":[{"model":"qwen-a","sortIndex":0},{"model":"qwen-b","sortIndex":1}]}}"#,
        None,
    );
    let artifact = build_projection_artifact(&router, &router_plan(), &[target]).expect("projection artifact");
    let settings = from_json(&artifact.projection_settings);
    let models = settings["modelCatalog"]["models"].as_array().expect("projected models");
    assert_eq!(models.iter().map(|m| m["model"].as_str().unwrap()).collect::<Vec<_>>(), vec!["qwen-a", "qwen-b"]);
    assert_eq!(models.iter().map(|m| m["sortIndex"].as_u64().unwrap()).collect::<Vec<_>>(), vec![0, 1]);
}

#[test]
fn projection_uses_source_sort_indexes_when_router_has_no_custom_order() {
    let target = provider(
        "qwen",
        "Qwen",
        r#"{"base_url":"https://qwen.example/v1","modelCatalog":{"models":[{"model":"qwen-a","sortIndex":1},{"model":"qwen-b","sortIndex":0}]}}"#,
        None,
    );
    let artifact = build_projection_artifact(&router(), &router_plan(), &[target]).expect("projection artifact");
    let settings = from_json(&artifact.projection_settings);
    let models = settings["modelCatalog"]["models"].as_array().expect("projected models");
    assert_eq!(models.iter().map(|m| m["model"].as_str().unwrap()).collect::<Vec<_>>(), vec!["qwen-b", "qwen-a"]);
    assert_eq!(models.iter().map(|m| m["sortIndex"].as_u64().unwrap()).collect::<Vec<_>>(), vec![0, 1]);
}

#[test]
fn projection_drops_sort_indexes_when_custom_order_is_reset() {
    let artifact = build_projection_artifact(&router(), &router_plan(), &[target("openai_chat")]).expect("projection artifact");
    let settings = from_json(&artifact.projection_settings);
    let models = settings["modelCatalog"]["models"].as_array().expect("projected models");
    assert!(models.iter().all(|model| model.as_object().is_some_and(|entry| !entry.contains_key("sortIndex"))));
}

#[test]
fn projected_models_preserve_display_name_from_source_catalog() {
    let target = provider(
        "qwen",
        "Qwen",
        r#"{"modelCatalog":{"models":[{"model":"qwen3.8","displayName":"Qwen 3.8 Max"}]}}"#,
        None,
    );
    let artifact = build_projection_artifact(&router(), &router_plan(), &[target]).expect("projection artifact");
    let settings = from_json(&artifact.projection_settings);
    assert_eq!(settings["modelCatalog"]["models"][0]["displayName"], serde_json::Value::from("Qwen 3.8 Max"));
}

#[test]
fn diagnostics_are_secret_free_and_explain_effective_sources() {
    let artifact = build_projection_artifact(&router(), &router_plan(), &[router(), target("openai_chat")])
        .expect("projection artifact");
    let status = projection_status(&artifact, ProjectionState::Ready, None, None, "2026-07-01T00:00:00.000Z");
    assert_eq!(status.schema_version, 1);
    assert_eq!(status.routes.len(), 1);
    let route = &status.routes[0];
    assert_eq!(route.route_label.as_deref(), Some("Qwen route"));
    assert_eq!(route.target_provider_name, "Qwen");
    assert_eq!(route.auth_owner, "provider_config");
    assert_eq!(route.capability_sources.context_window, "provider_model");
    assert_eq!(route.api_format, "openai_chat");
    assert!(!format!("{:?}", status).contains("secret-must-not-leak"));
    assert_eq!(status.generated_at, "2026-07-01T00:00:00.000Z");
}

#[test]
fn projection_owned_merge_keeps_effective_settings_and_carries_fingerprint() {
    let mut live = parse(r#"{"auth":{"OPENAI_API_KEY":"user-key"},"model":"gpt-5","modelCatalog":{"models":[]}}"#);
    let projection = parse(r#"{"modelCatalog":{"models":[{"model":"qwen3.8"}]},"codexRoutingProjection":{"dependencyFingerprint":"abc"},"auth":{"OPENAI_API_KEY":"other"}}"#);
    apply_projection_owned_settings(&mut live, &projection);
    let live = from_json(&live);
    assert_eq!(live["auth"]["OPENAI_API_KEY"], serde_json::Value::from("user-key"));
    assert_eq!(live["model"], serde_json::Value::from("gpt-5"));
    assert_eq!(live["modelCatalog"]["models"][0]["model"], serde_json::Value::from("qwen3.8"));
    assert_eq!(live["codexRoutingProjection"]["dependencyFingerprint"], serde_json::Value::from("abc"));
}

#[test]
fn published_status_records_the_outcome() {
    let mut artifact = build_projection_artifact(&router(), &router_plan(), &[target("openai_chat")]).expect("artifact");
    artifact.dependency_fingerprint = "fp".to_string();
    let ok = ProjectionReadBack::verified("fp".to_string());
    let ready = published_status(&artifact, Some(&ok), "t");
    assert_eq!(ready.state, ProjectionState::Ready);
    assert!(ready.last_error_code.is_none());
    let failed = published_status(&artifact, None, "t");
    assert_eq!(failed.state, ProjectionState::Pending);
    assert_eq!(failed.last_error_code.as_deref(), Some("projection_publish_failed"));
}

#[test]
fn setting_key_and_auth_owner_names() {
    assert_eq!(projection_setting_key("router"), "codex_multirouter_projection:router");
    assert_eq!(auth_owner(CodexRouteAuthSource::AccountPool), "account_pool");
    assert_eq!(auth_owner(CodexRouteAuthSource::ManagedCodexOauth), "managed_codex_oauth");
}

#[test]
fn compile_errors_surface_as_code_and_message() {
    let mut plan = router_plan();
    plan.routes[0].target_provider_id = "deleted".to_string();
    let error = build_projection_artifact(&router(), &plan, &[]).expect_err("missing target");
    assert!(error.starts_with("target_provider_missing: "));
    assert!(compile_v2(&plan, &[]).is_err());
}
