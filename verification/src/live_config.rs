//! What the logic reads from Codex's live `config.toml`, parsed by the caller into the
//! library's JSON value model (tables as objects): the provider it routes to, its
//! default model, its state database home and the active provider's inline models.
use vstd::prelude::*;
use crate::json::{get, json_as_array, json_clone, json_get, json_get_str, opt_str, Json, JsonValue};
use crate::text::{eq_ignore_ascii_case, eq_ignore_case, opt_view, owned, str_eq, trim, trim_str};

verus! {

/// A top-level text of the configuration, trimmed, when not blank.
pub open spec fn config_text_of(config: JsonValue, key: Seq<char>) -> Option<Seq<char>> {
    match opt_str(get(config, key)) {
        Some(t) => if trim(t).len() > 0 {
            Some(trim(t))
        } else {
            None
        },
        None => None,
    }
}

fn config_text(config: &Json, key: &str) -> (r: Option<String>)
    ensures
        opt_view(r) == config_text_of(config@, key@),
{
    match json_get_str(config, key) {
        Some(t) => {
            let s = trim_str(t.as_str());
            if s.as_str().is_empty() {
                None
            } else {
                Some(s)
            }
        },
        None => None,
    }
}

/// The provider the live configuration routes to (its `model_provider`).
pub fn current_codex_model_provider_from_config(config: &Json) -> (r: Option<String>)
    ensures
        opt_view(r) == config_text_of(config@, "model_provider"@),
{
    config_text(config, "model_provider")
}

/// Whether the live configuration routes to the app's shared custom provider; `false`
/// when it could not be parsed.
pub fn codex_config_routes_custom(config: Option<&Json>, custom_provider_id: &str) -> (r: bool)
    ensures
        r == match config {
            Some(c) => match opt_str(get(c@, "model_provider"@)) {
                Some(p) => trim(p) == custom_provider_id@,
                None => false,
            },
            None => false,
        },
{
    match config {
        Some(c) => match json_get_str(c, "model_provider") {
            Some(p) => str_eq(trim_str(p.as_str()).as_str(), custom_provider_id),
            None => false,
        },
        None => false,
    }
}

/// The configured home of Codex's state database (`sqlite_home`), as written; the
/// caller resolves `~`.
pub fn sqlite_home_from_codex_config(config: &Json) -> (r: Option<String>)
    ensures
        opt_view(r) == config_text_of(config@, "sqlite_home"@),
{
    config_text(config, "sqlite_home")
}

/// The default model of the live configuration (its `model`).
pub fn current_codex_default_model(config: &Json) -> (r: Option<String>)
    ensures
        opt_view(r) == config_text_of(config@, "model"@),
{
    config_text(config, "model")
}

/// The inline `models` of the active provider, as a catalog `{"models": [...]}`: the
/// last fallback for the Desktop's model menu. Only the provider `model_provider`
/// names is read.
pub open spec fn inline_catalog_of(config: JsonValue) -> Option<JsonValue> {
    match opt_str(get(config, "model_provider"@)) {
        Some(id) => match get(config, "model_providers"@) {
            Some(providers) => match get(providers, id) {
                Some(provider) => match get(provider, "models"@) {
                    Some(JsonValue::Array(models)) => Some(
                        JsonValue::Object(seq![("models"@, JsonValue::Array(models))]),
                    ),
                    _ => None,
                },
                None => None,
            },
            None => None,
        },
        None => None,
    }
}

pub fn active_codex_provider_inline_model_catalog(config: &Json) -> (r: Option<Json>)
    ensures
        match r {
            Some(j) => inline_catalog_of(config@) == Some(j@),
            None => inline_catalog_of(config@) is None,
        },
{
    let id = match json_get_str(config, "model_provider") {
        Some(id) => id,
        None => return None,
    };
    let providers = match json_get(config, "model_providers") {
        Some(p) => p,
        None => return None,
    };
    let provider = match json_get(providers, id.as_str()) {
        Some(p) => p,
        None => return None,
    };
    let models = match json_get(provider, "models") {
        Some(m) => m,
        None => return None,
    };
    match json_as_array(models) {
        Some(_) => {
            let copy = json_clone(models);
            let mut entries: Vec<(String, Json)> = Vec::new();
            let k = owned("models");
            let ghost kv = k@;
            let ghost mv = copy@;
            entries.push((k, copy));
            proof {
                assert(entries@.drop_last() =~= Seq::<(String, Json)>::empty());
                assert(crate::json::eviews(Seq::<(String, Json)>::empty()) =~= Seq::<(Seq<char>, JsonValue)>::empty());
                assert(crate::json::eviews(entries@) =~= seq![(kv, mv)]);
            }
            Some(Json::Object(entries))
        },
        None => None,
    }
}

// ---------------------------------------------------------------------------
// Legacy provider ids
// ---------------------------------------------------------------------------

/// The routing keys the app's presets once used, now bucketed under its custom
/// provider.
pub open spec fn legacy_provider_ids() -> Seq<Seq<char>> {
    seq![
        "ccswitch"@, "aicodemirror"@, "aicoding"@, "aigocode"@, "aihubmix"@, "ark_agentplan"@,
        "bailian"@, "bailing"@, "byteplus"@, "claudecn"@, "compshare"@, "compshare_coding"@,
        "crazyrouter"@, "ctok"@, "cubence"@, "deepseek"@, "dmxapi"@, "doubaoseed"@, "eflowcode"@,
        "etok"@, "kimi"@, "lemondata"@, "longcat"@, "micu"@, "minimax"@, "minimax_en"@,
        "modelscope"@, "novita"@, "nvidia"@, "openrouter"@, "packycode"@, "patewayai"@,
        "pipellm"@, "qianfan_coding"@, "relaxycode"@, "rightcode"@, "runapi"@, "shengsuanyun"@,
        "siliconflow"@, "siliconflow_en"@, "sssaicode"@, "stepfun"@, "stepfun_en"@,
        "therouter"@, "xiaomi_mimo"@, "xiaomi_mimo_token_plan"@, "zhipu_glm"@, "zhipu_glm_en"@,
        "cc_switch_codex_router"@, "codex_model_router"@, "codex_model_router_v2"@,
    ]
}

fn legacy_provider_id_list() -> (r: Vec<&'static str>)
    ensures
        r@.map_values(|s: &str| s@) == legacy_provider_ids(),
{
    let v: Vec<&'static str> = vec![
        "ccswitch", "aicodemirror", "aicoding", "aigocode", "aihubmix", "ark_agentplan",
        "bailian", "bailing", "byteplus", "claudecn", "compshare", "compshare_coding",
        "crazyrouter", "ctok", "cubence", "deepseek", "dmxapi", "doubaoseed", "eflowcode",
        "etok", "kimi", "lemondata", "longcat", "micu", "minimax", "minimax_en",
        "modelscope", "novita", "nvidia", "openrouter", "packycode", "patewayai",
        "pipellm", "qianfan_coding", "relaxycode", "rightcode", "runapi", "shengsuanyun",
        "siliconflow", "siliconflow_en", "sssaicode", "stepfun", "stepfun_en",
        "therouter", "xiaomi_mimo", "xiaomi_mimo_token_plan", "zhipu_glm", "zhipu_glm_en",
        "cc_switch_codex_router", "codex_model_router", "codex_model_router_v2",
    ];
    assert(v@.map_values(|s: &str| s@) =~= legacy_provider_ids());
    v
}

/// The first legacy key equal to `name` ignoring ASCII case, as an index.
pub open spec fn legacy_match(name: Seq<char>) -> int {
    first_case_match(legacy_provider_ids(), name, 0)
}

pub open spec fn first_case_match(ids: Seq<Seq<char>>, name: Seq<char>, from: int) -> int
    decreases ids.len() - from,
{
    if from >= ids.len() || from < 0 {
        -1
    } else if eq_ignore_case(ids[from], name) {
        from
    } else {
        first_case_match(ids, name, from + 1)
    }
}

proof fn lemma_first_case_match(ids: Seq<Seq<char>>, name: Seq<char>, from: int)
    requires
        0 <= from <= ids.len(),
    ensures
        first_case_match(ids, name, from) == -1 || (from <= first_case_match(ids, name, from) < ids.len()
            && eq_ignore_case(ids[first_case_match(ids, name, from)], name)),
        first_case_match(ids, name, from) == -1 <==> forall|k: int| from <= k < ids.len() ==> !eq_ignore_case(
            #[trigger] ids[k],
            name,
        ),
    decreases ids.len() - from,
{
    if from < ids.len() {
        lemma_first_case_match(ids, name, from + 1);
    }
}

fn find_legacy(name: &str) -> (r: Option<&'static str>)
    ensures
        match r {
            Some(s) => legacy_match(name@) >= 0 && s@ == legacy_provider_ids()[legacy_match(name@)],
            None => legacy_match(name@) == -1,
        },
{
    let ids = legacy_provider_id_list();
    let ghost sv = ids@.map_values(|s: &str| s@);
    let mut i: usize = 0;
    while i < ids.len()
        invariant
            i <= ids@.len(),
            sv == ids@.map_values(|s: &str| s@),
            sv == legacy_provider_ids(),
            first_case_match(sv, name@, 0) == first_case_match(sv, name@, i as int),
        decreases ids.len() - i,
    {
        assert(sv[i as int] == ids@[i as int]@);
        if eq_ignore_ascii_case(ids[i], name) {
            return Some(ids[i]);
        }
        i = i + 1;
    }
    None
}

/// Whether `provider_id` is one of the legacy keys, ignoring ASCII case.
pub fn is_known_cc_switch_legacy_codex_model_provider_id(provider_id: &str) -> (r: bool)
    ensures
        r == (exists|k: int| 0 <= k < legacy_provider_ids().len() && eq_ignore_case(legacy_provider_ids()[k], provider_id@)),
{
    proof {
        lemma_first_case_match(legacy_provider_ids(), provider_id@, 0);
    }
    find_legacy(provider_id).is_some()
}

/// The legacy key a provider's display name stands for: the key it equals ignoring
/// ASCII case, or the key of two presets whose name differs from it.
pub open spec fn legacy_key_for_name(name: Seq<char>) -> Option<Seq<char>> {
    if legacy_match(name) >= 0 {
        Some(legacy_provider_ids()[legacy_match(name)])
    } else if name == "E-FlowCode"@ {
        Some("eflowcode"@)
    } else if name == "PIPELLM"@ {
        Some("pipellm"@)
    } else {
        None
    }
}

pub fn normalized_legacy_codex_provider_name(name: &str) -> (r: Option<&'static str>)
    ensures
        match r {
            Some(s) => legacy_key_for_name(name@) == Some(s@),
            None => legacy_key_for_name(name@) is None,
        },
{
    match find_legacy(name) {
        Some(k) => Some(k),
        None => {
            if str_eq(name, "E-FlowCode") {
                Some("eflowcode")
            } else if str_eq(name, "PIPELLM") {
                Some("pipellm")
            } else {
                None
            }
        },
    }
}

} // verus!
