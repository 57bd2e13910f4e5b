use cc_switch::compiler::{compile_v2, CodexModelSelection, CodexRouteAuthSource, Provider, ProviderMeta};
use cc_switch::json::{Json, JsonNumber};
use cc_switch::migration::{
    build_migration, codex_multirouter_revision, legacy_auth_policy, legacy_route_match_prefixes,
    migration_applied, migration_apply_step, migration_preview, migration_preview_check, unique_clone_id,
    MigrationApplyStep, StoredMigrationInfo,
};

fn to_json(v: &serde_json::Value) -> Json {
    match v {
        serde_json::Value::Null => Json::Null,
        serde_json::Value::Bool(b) => Json::Bool(*b),
        serde_json::Value::Number(n) => {
            if let Some(u) = n.as_u64() {
                Json::Number(JsonNumber::Unsigned(u))
            } else if let Some(i) = n.as_i64() {
                Json::Number(JsonNumber::Signed(i))
            } else {
                Json::Number(JsonNumber::Other(n.to_string()))
            }
        }
        serde_json::Value::String(s) => Json::Text(s.clone()),
        serde_json::Value::Array(a) => Json::Array(a.iter().map(to_json).collect()),
        serde_json::Value::Object(m) => Json::Object(m.iter().map(|(k, v)| (k.clone(), to_json(v))).collect()),
    }
}

fn from_json(j: &Json) -> serde_json::Value {
    match j {
        Json::Null => serde_json::Value::Null,
        Json::Bool(b) => serde_json::Value::Bool(*b),
        Json::Number(JsonNumber::Unsigned(u)) => serde_json::Value::from(*u),
        Json::Number(JsonNumber::Signed(i)) => serde_json::Value::from(*i),
        Json::Number(JsonNumber::Other(t)) => serde_json::from_str(t).unwrap_or(serde_json::Value::Null),
        Json::Text(s) => serde_json::Value::String(s.clone()),
        Json::Array(a) => serde_json::Value::Array(a.iter().map(from_json).collect()),
        Json::Object(es) => serde_json::Value::Object(es.iter().map(|(k, v)| (k.clone(), from_json(v))).collect()),
    }
}

fn parse(text: &str) -> Json {
    to_json(&serde_json::from_str::<serde_json::Value>(text).expect("valid json"))
}

fn target_with_models(models: &str) -> Provider {
    Provider {
        id: "qwen".to_string(),
        name: "Qwen".to_string(),
        category: None,
        settings_config: parse(&format!(
            r#"{{"base_url":"https://qwen.example/v1","auth":{{"OPENAI_API_KEY":"provider-secret"}},"modelCatalog":{{"models":{models}}}}}"#
        )),
        meta: Some(ProviderMeta {
            provider_type: None,
            api_format: Some("openai_responses".to_string()),
            codex_chat_reasoning: None,
            codex_cache: None,
            auth_binding: None,
        }),
        config_base_url: None,
    }
}

fn target() -> Provider {
    target_with_models(r#"[{"model":"qwen3.8"}]"#)
}

fn legacy_router(route: &str) -> Provider {
    Provider {
        id: "router".to_string(),
        name: "Legacy Router".to_string(),
        category: None,
        settings_config: parse(&format!(
            r#"{{"auth":{{}},"modelCatalog":{{"models":[{{"model":"qwen3.8"}}],"spawnAgentModels":["qwen3.8"]}},"codexRouting":{{"enabled":true,"defaultRouteId":"qwen-route","routes":[{route}]}}}}"#
        )),
        meta: None,
        config_base_url: None,
    }
}

fn prefix_only_route(prefixes: &str, upstream: &str) -> String {
    format!(
        r#"{{"id":"qwen-route","enabled":true,"targetProviderId":"qwen","match":{{"models":[],"prefixes":{prefixes}}},"upstream":{upstream}}}"#
    )
}

#[test]
fn prefix_only_legacy_route_migration_expands_current_catalog_into_include() {
    let target = target_with_models(r#"[{"model":"qwen3.8"},{"model":"qwen3.9"},{"model":"deepseek-v4"}]"#);
    let router = legacy_router(&prefix_only_route(r#"[" QWEN "]"#, r#"{"auth":{"source":"provider_config"}}"#));
    let built = build_migration(&router, &[router_clone(&router), target], "codex-official").expect("prefix-only build");
    let frozen = built
        .warnings
        .iter()
        .find(|w| w.starts_with("prefix_selection_frozen:"))
        .expect("prefix freeze warning");
    assert!(frozen.contains("未来新增模型不会自动加入"));
    assert!(frozen.contains("刷新模型目录后，请在路由规则中重新勾选并保存"));
    let CodexModelSelection::Include { models } = &built.plan.routes[0].model_selection else {
        panic!("prefix-only migration must produce an include selection");
    };
    assert_eq!(models, &vec!["qwen3.8".to_string(), "qwen3.9".to_string()]);
    assert_eq!(built.plan.routes[0].match_prefixes, vec!["QWEN"]);
}

fn router_clone(router: &Provider) -> Provider {
    Provider {
        id: router.id.clone(),
        name: router.name.clone(),
        category: None,
        settings_config: parse(&from_json(&router.settings_config).to_string()),
        meta: None,
        config_base_url: None,
    }
}

#[test]
fn prefix_only_legacy_route_migration_does_not_expand_to_unmatched_catalog_models() {
    let target = target_with_models(r#"[{"model":"qwen3.8"},{"model":"qwen3.9"},{"model":"deepseek-v4"}]"#);
    let router = legacy_router(&prefix_only_route(r#"["qwen"]"#, r#"{"auth":{"source":"provider_config"}}"#));
    let built = build_migration(&router, &[target], "codex-official").expect("build");
    let compiled = compile_v2(&built.plan, &[target_with_models(r#"[{"model":"qwen3.8"},{"model":"qwen3.9"},{"model":"deepseek-v4"}]"#)])
        .expect("compile migrated plan");
    assert!(compiled.model_catalog.iter().all(|model| model.visible_model.starts_with("qwen")));
    assert!(!compiled.model_catalog.iter().any(|model| model.visible_model == "deepseek-v4"));
}

#[test]
fn prefix_only_legacy_route_migration_rejects_empty_target_catalog() {
    let router = legacy_router(&prefix_only_route(r#"["qwen"]"#, r#"{"auth":{"source":"provider_config"}}"#));
    let error = build_migration(&router, &[target_with_models("[]")], "codex-official")
        .expect_err("empty catalog must reject prefix-only migration");
    assert!(error.contains("prefix_selection_catalog_empty"));
    assert!(!error.contains("include_models_empty"));
}

#[test]
fn prefix_only_legacy_route_migration_rejects_prefix_without_current_match() {
    let router = legacy_router(&prefix_only_route(r#"["qwen"]"#, r#"{"auth":{"source":"provider_config"}}"#));
    let error = build_migration(&router, &[target_with_models(r#"[{"model":"deepseek-v4"}]"#)], "codex-official")
        .expect_err("unmatched prefix must reject prefix-only migration");
    assert!(error.contains("prefix_selection_no_matches"));
    assert!(!error.contains("include_models_empty"));
}

#[test]
fn prefix_only_legacy_route_migration_preserves_alias_and_canonical_mapping() {
    let target = target_with_models(r#"[{"model":"qwen3.8","upstreamModel":"qwen-plus-2026"}]"#);
    let route = prefix_only_route(
        r#"["alias-"]"#,
        r#"{"auth":{"source":"provider_config"},"modelMap":{"alias-qwen":"qwen-plus-2026"}}"#,
    );
    let built = build_migration(&legacy_router(&route), &[target], "codex-official").expect("build");
    let route = &built.plan.routes[0];
    let CodexModelSelection::Include { models } = &route.model_selection else {
        panic!("include expected");
    };
    assert_eq!(models, &vec!["qwen3.8".to_string()]);
    assert_eq!(route.aliases, vec![("alias-qwen".to_string(), "qwen-plus-2026".to_string())]);
}

#[test]
fn explicit_full_catalog_selection_becomes_all() {
    let route = r#"{"id":"qwen-route","enabled":true,"targetProviderId":"qwen","match":{"models":["qwen3.8"]},"upstream":{"auth":{"source":"provider_config"}}}"#;
    let built = build_migration(&legacy_router(route), &[target()], "codex-official").expect("build");
    assert!(matches!(built.plan.routes[0].model_selection, CodexModelSelection::All));
    assert_eq!(built.plan.schema_version, 2);
    assert!(built.plan.enabled);
    assert_eq!(built.plan.default_route_id.as_deref(), Some("qwen-route"));
    assert_eq!(built.plan.spawn_agent_models, vec!["qwen3.8"]);
    assert!(from_json(&built.migrated_settings).get("modelCatalog").is_none());
    assert_eq!(
        built.diff.removed_route_fields,
        vec!["capabilities", "upstream.apiFormat", "upstream.apiKey", "upstream.baseUrl", "upstream.modelMap"]
    );
    assert_eq!(built.diff.changed_route_ids, vec!["qwen-route"]);
    assert!(built.generated_providers.is_empty());
}

fn legacy_route(upstream: &str) -> String {
    format!(
        r#"{{"id":"qwen-route","enabled":true,"targetProviderId":"qwen","match":{{"models":["qwen3.8"],"prefixes":["qwen-"]}},"upstream":{upstream}}}"#
    )
}

#[test]
fn inline_credentials_create_redacted_migration_provider_and_apply_is_idempotent() {
    let router = legacy_router(&legacy_route(
        r#"{"baseUrl":"https://legacy.example/v1","apiKey":"inline-secret","apiFormat":"openai_chat","auth":{"source":"provider_config"}}"#,
    ));
    let built = build_migration(&router, &[target()], "codex-official").expect("build");
    assert_eq!(built.generated_providers.len(), 1);
    assert_eq!(built.summaries.len(), 1);
    let generated = &built.generated_providers[0];
    assert_eq!(generated.id, "qwen-migration-qwen-route");
    assert_eq!(generated.name, "Qwen（迁移生成：qwen-route）");
    let settings = from_json(&generated.settings_config);
    assert_eq!(settings["migrationGenerated"], serde_json::Value::Bool(true));
    assert_eq!(settings["migrationSourceProviderId"], serde_json::Value::from("qwen"));
    assert_eq!(settings["base_url"], serde_json::Value::from("https://legacy.example/v1"));
    assert_eq!(settings["auth"]["OPENAI_API_KEY"], serde_json::Value::from("inline-secret"));
    assert_eq!(generated.meta.as_ref().and_then(|m| m.api_format.as_deref()), Some("openai_chat"));
    assert_eq!(built.plan.routes[0].target_provider_id, "qwen-migration-qwen-route");
    assert_eq!(built.plan.schema_version, 2);
    assert_eq!(built.summaries[0].source_provider_id, "qwen");
    assert!(built.summaries[0].migration_generated);
    assert_eq!(built.diff.created_provider_ids, vec!["qwen-migration-qwen-route"]);
    assert!(built.warnings.iter().any(|w| w.contains("使用迁移生成的 Provider")));
    let created = built.diff.created_provider_ids.clone();
    let preview = migration_preview("router", "sha256:aaa", "cmr_token".to_string(), built);
    assert_eq!(preview.generated_providers.len(), 1);
    assert!(preview.generated_providers[0].migration_generated);
    assert!(!format!("{:?}", preview).contains("inline-secret"));

    let stored = StoredMigrationInfo {
        provider_id: "router".to_string(),
        expected_revision: "sha256:aaa".to_string(),
        created_provider_ids: created.clone(),
        result_revision: None,
    };
    assert!(matches!(migration_apply_step(&stored, false, "router", "sha256:aaa", "sha256:aaa"), Ok(MigrationApplyStep::Write)));
    let applied = migration_applied("router", "sha256:bbb".to_string(), &created);
    assert!(!applied.already_applied);
    let stored = StoredMigrationInfo { result_revision: Some(applied.revision.clone()), ..stored };
    match migration_apply_step(&stored, false, "router", "sha256:aaa", "sha256:bbb") {
        Ok(MigrationApplyStep::AlreadyApplied(rerun)) => {
            assert!(rerun.already_applied);
            assert_eq!(rerun.revision, "sha256:bbb");
        }
        other => panic!("expected an idempotent rerun, got {:?}", other),
    }
}

#[test]
fn disjoint_deepseek_protocol_routes_migrate_to_model_entries_without_clones() {
    let mut deepseek = target_with_models(r#"[{"model":"deepseek-flash"},{"model":"deepseek-pro"}]"#);
    deepseek.id = "deepseek".to_string();
    deepseek.name = "DeepSeek".to_string();
    let router = Provider {
        id: "deepseek-router".to_string(),
        name: "DeepSeek Legacy Router".to_string(),
        category: None,
        settings_config: parse(
            r#"{"auth":{},"codexRouting":{"enabled":true,"routes":[
                {"id":"flash","targetProviderId":"deepseek","match":{"models":["deepseek-flash"]},"upstream":{"apiFormat":"openai_responses","apiFormatSource":"route_override","auth":{"source":"provider_config"}}},
                {"id":"pro","targetProviderId":"deepseek","match":{"models":["deepseek-pro"]},"upstream":{"apiFormat":"openai_chat","apiFormatSource":"route_override","auth":{"source":"provider_config"}}}
            ]}}"#,
        ),
        meta: None,
        config_base_url: None,
    };
    let built = build_migration(&router, &[deepseek], "codex-official").expect("build");
    assert!(built.generated_providers.is_empty());
    assert_eq!(built.updated_providers.len(), 1);
    assert_eq!(built.updated_providers[0].id, "deepseek");
    let settings = from_json(&built.updated_providers[0].settings_config);
    assert_eq!(settings["modelCatalog"]["models"][0]["apiFormat"], serde_json::Value::from("openai_responses"));
    assert_eq!(settings["modelCatalog"]["models"][1]["apiFormat"], serde_json::Value::from("openai_chat"));
}

#[test]
fn mixed_models_and_prefixes_keep_explicit_selection_and_warn_when_prefix_has_no_extra_match() {
    let target = target_with_models(r#"[{"model":"deepseek-v4"},{"model":"qwen3.8"}]"#);
    let route = r#"{"id":"qwen-route","enabled":true,"targetProviderId":"qwen","match":{"models":["deepseek-v4"],"prefixes":["qwen"]},"upstream":{"auth":{"source":"provider_config"}}}"#;
    let built = build_migration(&legacy_router(route), &[target], "codex-official").expect("mixed prefix build");
    let CodexModelSelection::Include { models } = &built.plan.routes[0].model_selection else {
        panic!("mixed migration must produce an include selection");
    };
    assert_eq!(models, &vec!["deepseek-v4".to_string(), "qwen3.8".to_string()]);
    assert!(built.warnings.iter().any(|warning| warning.starts_with("prefix_selection_frozen:")));

    let target = target_with_models(r#"[{"model":"deepseek-v4"}]"#);
    let built = build_migration(&legacy_router(route), &[target], "codex-official").expect("mixed build without extra match");
    let no_match_warning = built
        .warnings
        .iter()
        .find(|warning| warning.starts_with("prefix_selection_no_current_matches:"))
        .expect("no-current-match warning");
    assert!(no_match_warning.contains("本次只保留显式模型"));
    assert!(no_match_warning.contains("未来新增模型不会自动加入"));
}

#[test]
fn prefix_expanded_include_does_not_auto_include_future_catalog_models() {
    let target = target_with_models(r#"[{"model":"qwen3.8"}]"#);
    let router = legacy_router(&prefix_only_route(r#"["qwen"]"#, r#"{"auth":{"source":"provider_config"}}"#));
    let built = build_migration(&router, &[target], "codex-official").expect("prefix-only build");
    let refreshed = target_with_models(r#"[{"model":"qwen3.8"},{"model":"qwen3.10"}]"#);
    let compiled = compile_v2(&built.plan, &vec![refreshed]).expect("compile frozen include");
    assert!(compiled.model_catalog.iter().any(|model| model.visible_model == "qwen3.8"));
    assert!(!compiled.model_catalog.iter().any(|model| model.visible_model == "qwen3.10"));
}

#[test]
fn preview_inherits_stale_provider_snapshot_and_is_secret_free() {
    let router = legacy_router(&legacy_route(
        r#"{"apiFormat":"openai_chat","apiFormatSource":"provider","auth":{"source":"provider_config"},"modelMap":{"qwen3.8":"qwen3.8"}}"#,
    ));
    let built = build_migration(&router, &[target()], "codex-official").expect("build");
    let plan_routes_mode_include = matches!(built.plan.routes[0].model_selection, CodexModelSelection::Include { .. });
    let spawn = built.plan.spawn_agent_models.clone();
    let preview = migration_preview("router", "sha256:aaa", "cmr_token".to_string(), built);
    let serialized = format!("{:?}", preview);
    assert_eq!(preview.schema_version, 2);
    assert!(preview.generated_providers.is_empty());
    assert!(!serialized.contains("provider-secret"));
    assert!(!serialized.contains("OPENAI_API_KEY"));
    assert!(preview.diff.removed_route_fields.contains(&"upstream.apiFormat".to_string()));
    assert!(plan_routes_mode_include);
    assert_eq!(spawn, vec!["qwen3.8"]);
}

#[test]
fn route_capabilities_move_to_the_selected_provider_model() {
    let route = r#"{"id":"qwen-route","targetProviderId":"qwen","match":{"models":["qwen3.8"]},"capabilities":{"textOnly":true,"supportsReasoning":true}}"#;
    let built = build_migration(&legacy_router(route), &[target()], "codex-official").expect("build");
    let settings = from_json(&built.updated_providers[0].settings_config);
    let model = &settings["modelCatalog"]["models"][0];
    assert_eq!(model["inputModalities"], serde_json::Value::Array(vec![serde_json::Value::from("text")]));
    assert_eq!(model["reasoning"]["supported"], serde_json::Value::Bool(true));
}

#[test]
fn routes_without_a_target_are_refused() {
    let route = r#"{"id":"lost","match":{"models":["qwen3.8"]}}"#;
    let error = build_migration(&legacy_router(route), &[target()], "codex-official").expect_err("ambiguous");
    assert_eq!(error, "migration_target_ambiguous:lost");
    let route = r#"{"id":"gone","targetProviderId":"deleted"}"#;
    let error = build_migration(&legacy_router(route), &[target()], "codex-official").expect_err("missing");
    assert_eq!(error, "migration_target_missing:deleted");
    let route = r#"{"match":{"models":[]},"upstream":{"auth":{"source":"account_pool"}}}"#;
    let error = build_migration(&legacy_router(route), &[target()], "codex-official").expect_err("official missing");
    assert_eq!(error, "migration_target_missing:codex-official");
}

#[test]
fn legacy_routing_must_be_an_object_with_routes() {
    let mut router = legacy_router("{}");
    router.settings_config = parse(r#"{"codexRouting":"nope"}"#);
    assert_eq!(build_migration(&router, &[], "x").err().as_deref(), Some("legacy codexRouting must be an object"));
    router.settings_config = parse(r#"{"codexRouting":{"enabled":true}}"#);
    assert_eq!(build_migration(&router, &[], "x").err().as_deref(), Some("legacy routes are missing"));
}

#[test]
fn apply_rejects_revision_changed_after_preview() {
    let stored = StoredMigrationInfo {
        provider_id: "router".to_string(),
        expected_revision: "sha256:aaa".to_string(),
        created_provider_ids: vec!["qwen-migration-r".to_string()],
        result_revision: None,
    };
    assert_eq!(
        migration_apply_step(&stored, false, "router", "sha256:aaa", "sha256:bbb").err().as_deref(),
        Some("migration_revision_conflict")
    );
    assert!(matches!(migration_apply_step(&stored, false, "router", "sha256:aaa", "sha256:aaa"), Ok(MigrationApplyStep::Write)));
    assert_eq!(
        migration_apply_step(&stored, true, "router", "sha256:aaa", "sha256:aaa").err().as_deref(),
        Some("migration_plan_token_expired")
    );
    assert_eq!(
        migration_apply_step(&stored, false, "other", "sha256:aaa", "sha256:aaa").err().as_deref(),
        Some("migration_plan_token_mismatch")
    );
}

#[test]
fn prefix_only_legacy_route_migration_apply_is_idempotent() {
    let stored = StoredMigrationInfo {
        provider_id: "router".to_string(),
        expected_revision: "sha256:aaa".to_string(),
        created_provider_ids: vec!["qwen-migration-r".to_string()],
        result_revision: Some("sha256:ccc".to_string()),
    };
    match migration_apply_step(&stored, false, "router", "sha256:aaa", "sha256:ccc") {
        Ok(MigrationApplyStep::AlreadyApplied(outcome)) => {
            assert!(outcome.already_applied);
            assert_eq!(outcome.revision, "sha256:ccc");
            assert_eq!(outcome.created_provider_ids, vec!["qwen-migration-r"]);
        }
        other => panic!("expected an already-applied outcome, got {:?}", other),
    }
}

#[test]
fn revision_is_the_sha256_of_the_serialized_provider() {
    assert_eq!(
        codex_multirouter_revision(Some(b"abc")).as_deref(),
        Ok("sha256:ba7816bf8f01cfea414140de5dae2223b00361a396177a9cb410ff61f20015ad")
    );
    assert_eq!(
        codex_multirouter_revision(None).err().as_deref(),
        Some("Codex MultiRouter provider does not exist")
    );
}

#[test]
fn preview_checks_revision_routing_and_schema() {
    let settings = parse(r#"{"codexRouting":{"routes":[]}}"#);
    assert_eq!(migration_preview_check("a", "b", &settings, false).err().as_deref(), Some("migration_revision_conflict"));
    assert_eq!(migration_preview_check("a", "a", &parse("{}"), false).err().as_deref(), Some("codexRouting is missing"));
    assert_eq!(migration_preview_check("a", "a", &settings, true).err().as_deref(), Some("migration_already_v2"));
    assert!(migration_preview_check("a", "a", &settings, false).is_ok());
    let route = r#"{"id":"qwen-route","targetProviderId":"qwen","match":{"models":["qwen3.8"]}}"#;
    let built = build_migration(&legacy_router(route), &[target()], "codex-official").expect("build");
    let preview = migration_preview("router", "a", "cmr_token".to_string(), built);
    assert_eq!(preview.schema_version, 2);
    assert_eq!(preview.plan_token, "cmr_token");
}

#[test]
fn clone_ids_skip_taken_names() {
    let taken = vec!["qwen-migration-my-route".to_string(), "qwen-migration-my-route-2".to_string()];
    assert_eq!(unique_clone_id("qwen", "My Route!", &taken), "qwen-migration-my-route-3");
    assert_eq!(unique_clone_id("qwen", "--Route 1--", &Vec::new()), "qwen-migration-route-1");
}

#[test]
fn legacy_prefixes_are_trimmed_sorted_and_deduplicated_ignoring_case() {
    let route = parse(r#"{"match":{"prefixes":[" qwen ","Deep","QWEN","",3,"alpha"]}}"#);
    assert_eq!(legacy_route_match_prefixes(&route), vec!["alpha", "Deep", "qwen"]);
}

#[test]
fn legacy_auth_sources_are_named() {
    assert_eq!(legacy_auth_policy(None).expect("default").source, CodexRouteAuthSource::ProviderConfig);
    let auth = parse(r#"{"source":"managed_account","accountId":"acc-1"}"#);
    let policy = legacy_auth_policy(Some(&auth)).expect("known");
    assert_eq!(policy.source, CodexRouteAuthSource::ManagedAccount);
    assert_eq!(policy.account_id.as_deref(), Some("acc-1"));
    let unknown = parse(r#"{"source":"mystery"}"#);
    assert_eq!(legacy_auth_policy(Some(&unknown)).err().as_deref(), Some("migration_auth_source_unknown:mystery"));
}

#[test]
fn route_overrides_on_a_model_missing_from_the_catalog_are_refused() {
    let route = r#"{"id":"qwen-route","targetProviderId":"qwen","match":{"models":["qwen9"]},"capabilities":{"textOnly":true}}"#;
    let error = build_migration(&legacy_router(route), &[target()], "codex-official").expect_err("model missing");
    assert_eq!(error, "migration_model_missing:qwen:qwen9");
    let mut bare = target();
    bare.settings_config = parse(r#"{"base_url":"https://qwen.example/v1"}"#);
    let route = r#"{"id":"qwen-route","targetProviderId":"qwen","match":{"models":["qwen3.8"]},"upstream":{"apiFormat":"openai_chat"}}"#;
    let error = build_migration(&legacy_router(route), &[bare], "codex-official").expect_err("catalog missing");
    assert_eq!(error, "migration_model_catalog_missing:qwen");
}

#[test]
fn prefix_selection_errors_and_warnings_name_the_route_and_prefixes() {
    let empty = target_with_models("[]");
    let router = legacy_router(&prefix_only_route(r#"["qwen"]"#, r#"{"auth":{"source":"provider_config"}}"#));
    let error = build_migration(&router, &[empty], "codex-official").expect_err("empty catalog");
    assert_eq!(
        error,
        "prefix_selection_catalog_empty: 路由 `qwen-route` 的目标 Provider `qwen` 没有可用的模型目录，无法根据 prefix [qwen] 展开"
    );
    let route = r#"{"id":"qwen-route","targetProviderId":"qwen","match":{"models":["qwen3.8"],"prefixes":["qwen"]}}"#;
    let built = build_migration(&legacy_router(route), &[target()], "codex-official").expect("explicit and prefix");
    assert_eq!(
        built.warnings,
        vec![
            "prefix_selection_frozen: route `qwen-route` 的 prefix 规则已按当前 catalog 展开为 1 个精确模型；未来新增模型不会自动加入。刷新模型目录后，请在路由规则中重新勾选并保存。".to_string(),
            "prefix_selection_no_current_matches: route `qwen-route` 的 prefix [qwen] 当前没有命中额外 catalog 模型；本次只保留显式模型，未来新增模型不会自动加入。".to_string(),
        ]
    );
}
