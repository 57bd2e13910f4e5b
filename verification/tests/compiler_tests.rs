use cc_switch::compiler::{
    compile_v2, compile_v2_strict, CodexModelSelection, CodexRouteAuthPolicy, CodexRouteAuthSource,
    CodexRoutingConfigV2, CodexRoutingRouteV2, CompiledCodexRoutingPlan, Provider, ProviderMeta,
    sanitize_capability_value,
};
use cc_switch::json::{Json, JsonNumber};

fn to_json(v: &serde_json::Value) -> Json {
    match v {
        serde_json::Value::Null => Json::Null,
        serde_json::Value::Bool(b) => Json::Bool(*b),
        serde_json::Value::Number(n) => {
            if let Some(u) = n.as_u64() {
                Json::Number(JsonNumber::Unsigned(u))
            } else if let Some(i) = n.as_i64() {
                Json::Number(JsonNumber::Signed(i))
            } else {
                Json::Number(JsonNumber::Other(n.to_string()))
            }
        }
        serde_json::Value::String(s) => Json::Text(s.clone()),
        serde_json::Value::Array(a) => Json::Array(a.iter().map(to_json).collect()),
        serde_json::Value::Object(m) => Json::Object(m.iter().map(|(k, v)| (k.clone(), to_json(v))).collect()),
    }
}

fn from_json(j: &Json) -> serde_json::Value {
    match j {
        Json::Null => serde_json::Value::Null,
        Json::Bool(b) => serde_json::Value::Bool(*b),
        Json::Number(JsonNumber::Unsigned(u)) => serde_json::Value::from(*u),
        Json::Number(JsonNumber::Signed(i)) => serde_json::Value::from(*i),
        Json::Number(JsonNumber::Other(t)) => serde_json::from_str(t).unwrap_or(serde_json::Value::Null),
        Json::Text(s) => serde_json::Value::String(s.clone()),
        Json::Array(a) => serde_json::Value::Array(a.iter().map(from_json).collect()),
        Json::Object(es) => serde_json::Value::Object(es.iter().map(|(k, v)| (k.clone(), from_json(v))).collect()),
    }
}

fn parse(text: &str) -> Json {
    to_json(&serde_json::from_str::<serde_json::Value>(text).expect("valid json"))
}

fn provider(id: &str, name: &str, api_format: &str, models: &str) -> Provider {
    let settings = format!(
        r#"{{"apiFormat":"{api_format}","apiKey":"secret-{id}","baseUrl":"https://{id}.example/v1","modelCatalog":{{"models":{models}}}}}"#
    );
    Provider {
        id: id.to_string(),
        name: name.to_string(),
        category: None,
        settings_config: parse(&settings),
        meta: Some(ProviderMeta {
            provider_type: None,
            api_format: Some(api_format.to_string()),
            codex_chat_reasoning: None,
            codex_cache: None,
            auth_binding: None,
        }),
        config_base_url: None,
    }
}

fn route(id: &str, target_provider_id: &str, model_selection: CodexModelSelection) -> CodexRoutingRouteV2 {
    CodexRoutingRouteV2 {
        id: id.to_string(),
        label: Some(id.to_string()),
        enabled: true,
        target_provider_id: target_provider_id.to_string(),
        model_selection,
        match_prefixes: Vec::new(),
        aliases: Vec::new(),
        auth_policy: CodexRouteAuthPolicy { source: CodexRouteAuthSource::ProviderConfig, account_id: None },
    }
}

fn plan(routes: Vec<CodexRoutingRouteV2>) -> CodexRoutingConfigV2 {
    CodexRoutingConfigV2 {
        schema_version: 2,
        enabled: true,
        default_route_id: routes.first().map(|route| route.id.clone()),
        routes,
        spawn_agent_models: Vec::new(),
    }
}

fn compile(plan: &CodexRoutingConfigV2, providers: Vec<Provider>) -> CompiledCodexRoutingPlan {
    compile_v2(plan, &providers).expect("compile v2")
}

#[test]
fn provider_default_protocol_is_inherited_without_route_snapshot() {
    let provider = provider("qwen", "Qwen", "openai_responses", r#"[{"model":"qwen3.8"}]"#);
    let compiled = compile(&plan(vec![route("router-qwen", "qwen", CodexModelSelection::All)]), vec![provider]);
    assert_eq!(compiled.model_catalog[0].api_format, "openai_responses");
    assert_eq!(compiled.model_catalog[0].api_format_source, "provider");
}

#[test]
fn spawn_agent_selection_is_filtered_by_compiled_visible_models() {
    let provider = provider("qwen", "Qwen", "openai_responses", r#"[{"model":"qwen3.8"},{"model":"qwen3.9"}]"#);
    let mut plan = plan(vec![route("router-qwen", "qwen", CodexModelSelection::All)]);
    plan.spawn_agent_models = vec!["qwen3.9".to_string(), "removed".to_string()];
    let compiled = compile(&plan, vec![provider]);
    assert_eq!(compiled.spawn_agent_models, vec!["qwen3.9", "qwen3.8"]);
}

#[test]
fn disabled_provider_models_are_excluded_from_v2_routes_and_spawn_agents() {
    let provider = provider(
        "qwen",
        "Qwen",
        "openai_responses",
        r#"[{"model":"qwen-enabled"},{"model":"qwen-disabled","enabled":false}]"#,
    );
    let mut plan = plan(vec![route("router-qwen", "qwen", CodexModelSelection::All)]);
    plan.spawn_agent_models = vec!["qwen-disabled".to_string(), "qwen-enabled".to_string()];
    let compiled = compile(&plan, vec![provider]);
    assert_eq!(compiled.visible_models, vec!["qwen-enabled"]);
    assert_eq!(compiled.routes[0].visible_models, vec!["qwen-enabled"]);
    assert_eq!(compiled.spawn_agent_models, vec!["qwen-enabled"]);
}

#[test]
fn unavailable_include_models_do_not_block_provider_fact_updates() {
    let provider = provider("qwen", "Qwen", "openai_responses", r#"[{"model":"qwen3.9"}]"#);
    let route = route(
        "router-qwen",
        "qwen",
        CodexModelSelection::Include { models: vec!["qwen3.8".to_string(), "qwen3.9".to_string()] },
    );
    let compiled = compile(&plan(vec![route]), vec![provider]);
    assert_eq!(compiled.visible_models, vec!["qwen3.9"]);
    assert!(compiled.warnings.iter().any(|warning| {
        warning.code == "selected_model_unavailable"
            && warning.route_id.as_deref() == Some("router-qwen")
            && warning.message.contains("qwen3.8")
    }));
}

#[test]
fn strict_compilation_refuses_unavailable_include_models() {
    let provider = provider("qwen", "Qwen", "openai_responses", r#"[{"model":"qwen3.9"}]"#);
    let route = route(
        "router-qwen",
        "qwen",
        CodexModelSelection::Include { models: vec!["qwen3.8".to_string(), "qwen3.9".to_string()] },
    );
    let error = compile_v2_strict(&plan(vec![route]), &[provider]).expect_err("strict refuses");
    assert_eq!(error.code, "selected_model_missing");
    assert!(error.message.contains("qwen3.8"));
}

#[test]
fn disabled_routes_do_not_require_stale_provider_dependencies() {
    let mut disabled = route(
        "disabled-qwen",
        "deleted-provider",
        CodexModelSelection::Include { models: vec!["deleted-model".to_string()] },
    );
    disabled.enabled = false;
    let compiled = compile_v2(&plan(vec![disabled]), &[]).expect("disabled route must not block the active plan");
    assert!(compiled.visible_models.is_empty());
    assert!(compiled.warnings.is_empty());
}

#[test]
fn enabled_route_to_a_missing_provider_is_an_error() {
    let route = route("r", "deleted-provider", CodexModelSelection::All);
    let error = compile_v2(&plan(vec![route]), &[]).expect_err("missing target");
    assert_eq!(error.code, "target_provider_missing");
}

#[test]
fn model_protocol_overrides_provider_default_per_canonical_model() {
    let provider = provider(
        "mixed",
        "Mixed",
        "openai_chat",
        r#"[{"model":"chat-model"},{"model":"responses-model","apiFormat":"openai_responses"}]"#,
    );
    let compiled = compile(&plan(vec![route("router-mixed", "mixed", CodexModelSelection::All)]), vec![provider]);
    let formats = compiled
        .model_catalog
        .iter()
        .map(|model| (model.canonical_model.as_str(), model.api_format.as_str(), model.api_format_source.as_str()))
        .collect::<Vec<_>>();
    assert_eq!(
        formats,
        vec![("chat-model", "openai_chat", "provider"), ("responses-model", "openai_responses", "provider_model")]
    );
}

#[test]
fn all_auto_includes_new_models_while_include_remains_closed() {
    let models = r#"[{"model":"qwen-a"},{"model":"qwen-b"}]"#;
    let all = compile(
        &plan(vec![route("all", "qwen", CodexModelSelection::All)]),
        vec![provider("qwen", "Qwen", "openai_responses", models)],
    );
    let included = compile(
        &plan(vec![route("include", "qwen", CodexModelSelection::Include { models: vec!["qwen-a".to_string()] })]),
        vec![provider("qwen", "Qwen", "openai_responses", models)],
    );
    assert_eq!(all.visible_models, vec!["qwen-a", "qwen-b"]);
    assert_eq!(included.visible_models, vec!["qwen-a"]);
}

#[test]
fn explicit_aliases_are_preserved_and_collisions_get_stable_provider_aliases() {
    let official = provider("codex-official", "OpenAI Official", "openai_responses", r#"[{"model":"shared-model"}]"#);
    let relay = provider("relay", "Qwen Relay", "openai_responses", r#"[{"model":"shared-model"}]"#);
    let mut relay_route = route("relay-route", "relay", CodexModelSelection::All);
    relay_route.aliases = vec![("my-qwen".to_string(), "shared-model".to_string())];
    let compiled = compile(
        &plan(vec![route("official-route", "codex-official", CodexModelSelection::All), relay_route]),
        vec![relay, official],
    );
    let visible = compiled
        .model_catalog
        .iter()
        .map(|model| (model.target_provider_id.as_str(), model.visible_model.as_str(), model.canonical_model.as_str()))
        .collect::<Vec<_>>();
    assert_eq!(
        visible,
        vec![("codex-official", "shared-model", "shared-model"), ("relay", "my-qwen", "shared-model")]
    );
}

#[test]
fn colliding_models_get_distinct_visible_names() {
    let official = provider("codex-official", "OpenAI Official", "openai_responses", r#"[{"model":"shared-model"}]"#);
    let relay = provider("relay", "Qwen Relay", "openai_responses", r#"[{"model":"shared-model"}]"#);
    let compiled = compile(
        &plan(vec![
            route("official", "codex-official", CodexModelSelection::All),
            route("relay", "relay", CodexModelSelection::All),
        ]),
        vec![official, relay],
    );
    assert_eq!(compiled.visible_models.len(), 2);
    assert_ne!(compiled.visible_models[0].to_ascii_lowercase(), compiled.visible_models[1].to_ascii_lowercase());
}

#[test]
fn capability_summary_recursively_removes_unknown_secret_fields() {
    let value = parse(r#"{"enabled":true,"apiKey":"s1","nested":{"access_token":"s2","depth":3},"list":[{"password":"p","ok":1}]}"#);
    let cleaned = from_json(&sanitize_capability_value(&value));
    let text = cleaned.to_string();
    assert!(!text.contains("s1"));
    assert!(!text.contains("s2"));
    assert!(!text.contains("\"p\""));
    assert_eq!(cleaned["enabled"], serde_json::Value::Bool(true));
    assert_eq!(cleaned["nested"]["depth"], serde_json::Value::from(3u64));
    assert_eq!(cleaned["list"][0]["ok"], serde_json::Value::from(1u64));
}

#[test]
fn capability_summary_comes_from_the_canonical_model_entry() {
    let provider = provider(
        "qwen",
        "Qwen",
        "openai_responses",
        r#"[{"model":"qwen3.8","contextWindow":262144,"inputModalities":["text","image"]}]"#,
    );
    let compiled = compile(&plan(vec![route("r", "qwen", CodexModelSelection::All)]), vec![provider]);
    let summary = &compiled.model_catalog[0].capability_summary;
    assert_eq!(summary.context_window, Some(262144));
    assert_eq!(summary.input_modalities, vec!["text", "image"]);
    assert_eq!(summary.context_window_source, "provider_model");
}

#[test]
fn aliases_accept_upstream_model_ids_from_provider_catalog() {
    let relay = provider(
        "5626e6b9-33cb-4c3b-8d16-af8176e16209",
        "DeepSeek Relay",
        "openai_responses",
        r#"[{"model":"deepseek-v4-flash","upstreamModel":"deepseek-v4-flash-0731"}]"#,
    );
    let mut relay_route = route("router-5626e6b9-33cb-4c3b-8d16-af8176e16209", &relay.id, CodexModelSelection::All);
    relay_route.aliases.push(("deepseek-v4-flash-0731".to_string(), "deepseek-v4-flash-0731".to_string()));
    let compiled = compile(&plan(vec![relay_route]), vec![relay]);
    assert_eq!(compiled.model_catalog[0].visible_model, "deepseek-v4-flash-0731");
    assert_eq!(compiled.model_catalog[0].canonical_model, "deepseek-v4-flash");
    assert_eq!(compiled.model_catalog[0].upstream_model, "deepseek-v4-flash-0731");
}

#[test]
fn include_selection_accepts_alias_target_upstream_model_id() {
    let relay = provider(
        "5626e6b9-33cb-4c3b-8d16-af8176e16209",
        "DeepSeek Relay",
        "openai_responses",
        r#"[{"model":"deepseek-v4-flash","upstreamModel":"deepseek-v4-flash-0731"}]"#,
    );
    let mut relay_route = route(
        "router-5626e6b9-33cb-4c3b-8d16-af8176e16209",
        &relay.id,
        CodexModelSelection::Include { models: vec!["deepseek-v4-flash".to_string()] },
    );
    relay_route.aliases.push(("deepseek-v4-flash-0731".to_string(), "deepseek-v4-flash-0731".to_string()));
    let compiled = compile(&plan(vec![relay_route]), vec![relay]);
    assert_eq!(compiled.visible_models, vec!["deepseek-v4-flash-0731"]);
    assert_eq!(compiled.model_catalog[0].canonical_model, "deepseek-v4-flash");
    assert_eq!(compiled.model_catalog[0].upstream_model, "deepseek-v4-flash-0731");
}

#[test]
fn persisted_alias_does_not_follow_provider_rename() {
    let relay = provider("relay", "Renamed Relay", "openai_responses", r#"[{"model":"shared-model"}]"#);
    let mut relay_route = route("relay-route", "relay", CodexModelSelection::All);
    relay_route.aliases.push(("shared-model-relay".to_string(), "shared-model".to_string()));
    let compiled = compile(&plan(vec![relay_route]), vec![relay]);
    assert_eq!(compiled.visible_models, vec!["shared-model-relay"]);
    assert_eq!(compiled.model_catalog[0].canonical_model, "shared-model");
}

#[test]
fn compiled_and_diagnostic_serialization_never_contains_provider_secrets() {
    let provider = provider("qwen", "Qwen", "openai_responses", r#"[{"model":"qwen3.8"}]"#);
    let compiled = compile(&plan(vec![route("router-qwen", "qwen", CodexModelSelection::All)]), vec![provider]);
    let serialized = format!("{:?}", compiled);
    assert!(!serialized.contains("secret-qwen"));
    assert!(!serialized.contains("https://qwen.example/v1"));
    assert!(!serialized.to_ascii_lowercase().contains("apikey"));
    assert!(!compiled.dependency_fingerprint.contains("secret-qwen"));
}

#[test]
fn unavailable_alias_target_is_reported_without_blocking_provider_updates() {
    let provider = provider("qwen", "Qwen", "openai_responses", r#"[{"model":"qwen3.8"}]"#);
    let mut route = route("router-qwen", "qwen", CodexModelSelection::All);
    route.label = Some("Qwen relay".to_string());
    route.aliases.push(("ghost".to_string(), "missing-model".to_string()));
    let compiled = compile_v2(&plan(vec![route]), &vec![provider])
        .expect("stale alias must not block the remaining provider catalog");
    assert_eq!(compiled.visible_models, vec!["qwen3.8"]);
    assert!(compiled.warnings.iter().any(|warning| {
        warning.code == "alias_target_unavailable"
            && warning.route_id.as_deref() == Some("router-qwen")
            && warning.message.contains("Qwen relay")
            && warning.message.contains("Qwen")
    }));
}

#[test]
fn route_without_label_uses_provider_name_for_compiled_display() {
    let provider = provider("qwen", "Qwen", "openai_responses", r#"[{"model":"qwen3.8"}]"#);
    let mut route = route("router-qwen", "qwen", CodexModelSelection::All);
    route.label = None;
    let compiled = compile(&plan(vec![route]), vec![provider]);
    assert_eq!(compiled.routes[0].label.as_deref(), Some("Qwen"));
}
