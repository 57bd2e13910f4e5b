use cc_switch::json::{Json, JsonNumber};
use cc_switch::model_catalog::{
    codex_app_compatibility_evidence_from_evaluation, codex_model_catalog_projection_from_value,
    codex_model_entries_from_catalog_value,
};

fn to_json(v: &serde_json::Value) -> Json {
    match v {
        serde_json::Value::Null => Json::Null,
        serde_json::Value::Bool(b) => Json::Bool(*b),
        serde_json::Value::Number(n) => {
            if let Some(u) = n.as_u64() {
                Json::Number(JsonNumber::Unsigned(u))
            } else if let Some(i) = n.as_i64() {
                Json::Number(JsonNumber::Signed(i))
            } else {
                Json::Number(JsonNumber::Other(n.to_string()))
            }
        }
        serde_json::Value::String(s) => Json::Text(s.clone()),
        serde_json::Value::Array(a) => Json::Array(a.iter().map(to_json).collect()),
        serde_json::Value::Object(m) => Json::Object(m.iter().map(|(k, v)| (k.clone(), to_json(v))).collect()),
    }
}

fn from_json(j: &Json) -> serde_json::Value {
    match j {
        Json::Null => serde_json::Value::Null,
        Json::Bool(b) => serde_json::Value::Bool(*b),
        Json::Number(JsonNumber::Unsigned(u)) => serde_json::Value::from(*u),
        Json::Number(JsonNumber::Signed(i)) => serde_json::Value::from(*i),
        Json::Number(JsonNumber::Other(t)) => serde_json::from_str(t).unwrap_or(serde_json::Value::Null),
        Json::Text(s) => serde_json::Value::String(s.clone()),
        Json::Array(a) => serde_json::Value::Array(a.iter().map(from_json).collect()),
        Json::Object(es) => serde_json::Value::Object(es.iter().map(|(k, v)| (k.clone(), from_json(v))).collect()),
    }
}

fn parse(text: &str) -> Json {
    to_json(&serde_json::from_str::<serde_json::Value>(text).expect("valid json"))
}

#[test]
fn catalog_projection_accepts_model_and_slug_fields() {
    let value = parse(
        r#"{"models":[
            {"model":"qwen3.6","display_name":"Qwen 3.6"},
            {"slug":"deepseek-v4-flash","displayName":"DeepSeek V4 Flash"},
            {"id":"gpt-5.4-mini"}
        ]}"#,
    );
    let (names, models) = codex_model_entries_from_catalog_value(&value);
    assert_eq!(names, vec!["qwen3.6", "deepseek-v4-flash", "gpt-5.4-mini"]);
    let models: Vec<serde_json::Value> = models.iter().map(from_json).collect();
    assert!(models.iter().all(|model| model["hidden"] == false));
    assert_eq!(models[0]["displayName"], "Qwen 3.6");
}

#[test]
fn catalog_projection_does_not_invent_unknown_reasoning_defaults() {
    let value = parse(r#"{"models":[{"model":"unknown-third-party","display_name":"Unknown"}]}"#);
    let (_, models) = codex_model_entries_from_catalog_value(&value);
    let first = from_json(&models[0]);
    assert!(first.get("defaultReasoningEffort").is_none());
    assert!(first.get("supportedReasoningEfforts").is_none());
}

#[test]
fn catalog_projection_skips_empty_source_and_accepts_fallback_source() {
    let empty = parse(r#"{"models":[]}"#);
    assert!(
        codex_model_catalog_projection_from_value(&empty, None).is_none(),
        "empty primary catalog must not freeze an empty renderer payload"
    );
    let fallback = parse(
        r#"{"models":[
            {"model":"gpt-5.6-sol","display_name":"GPT-5.6-Sol"},
            {"model":"qwen3.6","display_name":"Qwen3.6 Local"}
        ]}"#,
    );
    let projection = codex_model_catalog_projection_from_value(&fallback, Some("qwen3.6".to_string()))
        .expect("fallback catalog projection");
    assert_eq!(projection.model_names, vec!["gpt-5.6-sol".to_string(), "qwen3.6".to_string()]);
    assert_eq!(projection.default_model.as_deref(), Some("qwen3.6"));
}

#[test]
fn compatibility_evidence_reads_native_history_sync_result() {
    let evaluation = parse(
        r#"{"result":{"result":{"value":{"historySync":{"requested":true,"complete":false,"afterCount":17}}}}}"#,
    );
    let evidence = codex_app_compatibility_evidence_from_evaluation(&evaluation).expect("compatibility evidence");
    assert!(evidence.history_sync_requested);
    assert_eq!(evidence.history_catalog_complete, Some(false));
    assert_eq!(evidence.history_catalog_count, Some(17));
}
