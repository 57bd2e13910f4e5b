use cc_switch::json::{Json, JsonNumber};
use cc_switch::live_config::{
    active_codex_provider_inline_model_catalog, codex_config_routes_custom,
    current_codex_default_model, current_codex_model_provider_from_config,
    is_known_cc_switch_legacy_codex_model_provider_id, normalized_legacy_codex_provider_name,
    sqlite_home_from_codex_config,
};

fn to_json(v: &serde_json::Value) -> Json {
    match v {
        serde_json::Value::Null => Json::Null,
        serde_json::Value::Bool(b) => Json::Bool(*b),
        serde_json::Value::Number(n) => {
            if let Some(u) = n.as_u64() {
                Json::Number(JsonNumber::Unsigned(u))
            } else if let Some(i) = n.as_i64() {
                Json::Number(JsonNumber::Signed(i))
            } else {
                Json::Number(JsonNumber::Other(n.to_string()))
            }
        }
        serde_json::Value::String(s) => Json::Text(s.clone()),
        serde_json::Value::Array(a) => Json::Array(a.iter().map(to_json).collect()),
        serde_json::Value::Object(m) => Json::Object(m.iter().map(|(k, v)| (k.clone(), to_json(v))).collect()),
    }
}

fn from_json(j: &Json) -> serde_json::Value {
    match j {
        Json::Null => serde_json::Value::Null,
        Json::Bool(b) => serde_json::Value::Bool(*b),
        Json::Number(JsonNumber::Unsigned(u)) => serde_json::Value::from(*u),
        Json::Number(JsonNumber::Signed(i)) => serde_json::Value::from(*i),
        Json::Number(JsonNumber::Other(t)) => serde_json::from_str(t).unwrap_or(serde_json::Value::Null),
        Json::Text(s) => serde_json::Value::String(s.clone()),
        Json::Array(a) => serde_json::Value::Array(a.iter().map(from_json).collect()),
        Json::Object(es) => serde_json::Value::Object(es.iter().map(|(k, v)| (k.clone(), from_json(v))).collect()),
    }
}

fn config(text: &str) -> Json {
    let value: toml::Value = toml::from_str(text).expect("valid toml");
    to_json(&serde_json::to_value(value).expect("json"))
}

const CONFIG: &str = r#"
model = " gpt-5 "
model_provider = " custom "
sqlite_home = "~/codex-db"

[model_providers.custom]
name = "Router"
models = [{ model = "a" }, { model = "b" }]

[model_providers.other]
models = [{ model = "c" }]
"#;

#[test]
fn reads_the_live_provider_model_and_state_home() {
    let c = config(CONFIG);
    assert_eq!(current_codex_model_provider_from_config(&c).as_deref(), Some("custom"));
    assert_eq!(current_codex_default_model(&c).as_deref(), Some("gpt-5"));
    assert_eq!(sqlite_home_from_codex_config(&c).as_deref(), Some("~/codex-db"));
    assert!(codex_config_routes_custom(Some(&c), "custom"));
    assert!(!codex_config_routes_custom(Some(&c), "openai"));
    assert!(!codex_config_routes_custom(None, "custom"));
    let blank = config("model = \"  \"\n");
    assert_eq!(current_codex_default_model(&blank), None);
    assert_eq!(current_codex_model_provider_from_config(&blank), None);
}

#[test]
fn inline_catalog_reads_only_the_active_provider() {
    let c = config("model_provider = \"custom\"\n[model_providers.custom]\nmodels = [{ model = \"a\" }]\n[model_providers.other]\nmodels = [{ model = \"c\" }]\n");
    let catalog = active_codex_provider_inline_model_catalog(&c).expect("inline models");
    assert_eq!(
        from_json(&catalog),
        serde_json::from_str::<serde_json::Value>(r#"{"models":[{"model":"a"}]}"#).unwrap()
    );
    // The untrimmed name in CONFIG (" custom ") names no provider table.
    assert!(active_codex_provider_inline_model_catalog(&config(CONFIG)).is_none());
}

#[test]
fn legacy_provider_ids_match_ignoring_case() {
    assert!(is_known_cc_switch_legacy_codex_model_provider_id("RightCode"));
    assert!(is_known_cc_switch_legacy_codex_model_provider_id("ccswitch"));
    assert!(!is_known_cc_switch_legacy_codex_model_provider_id("my-own"));
    assert_eq!(normalized_legacy_codex_provider_name("DeepSeek"), Some("deepseek"));
    assert_eq!(normalized_legacy_codex_provider_name("E-FlowCode"), Some("eflowcode"));
    assert_eq!(normalized_legacy_codex_provider_name("PIPELLM"), Some("pipellm"));
    assert_eq!(normalized_legacy_codex_provider_name("Unknown"), None);
}
