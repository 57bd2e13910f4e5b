//! The Codex MultiRouter compiler: from a routing plan and the providers it targets
//! to the models Codex sees, with their upstream model, protocol and capabilities.
//!
//! The routing plan and providers are held in the library's own records; reading them
//! from settings is done by the caller.
use vstd::prelude::*;
use crate::json::{
    as_str, as_u64, eviews, get, jview, jviews, json_as_array, json_as_bool, json_as_str,
    json_as_u64, json_clone, json_get, lemma_jviews_index, opt_array, opt_bool, opt_ref_view,
    opt_str, Json, JsonValue,
};
use crate::text::{
    chars_of, eq_ignore_case, lower, lower_chars, opt_view, owned, owned_opt, str_eq, string_of,
    trim, trim_chars, trim_str, views,
};

verus! {

// ---------------------------------------------------------------------------
// Providers and routing plans
// ---------------------------------------------------------------------------

/// The metadata a provider record carries besides its settings.
#[derive(Debug)]
pub struct ProviderMeta {
    pub provider_type: Option<String>,
    pub api_format: Option<String>,
    pub codex_chat_reasoning: Option<Json>,
    pub codex_cache: Option<Json>,
    pub auth_binding: Option<Json>,
}

/// A provider as the compiler reads it. `config_base_url` is the base URL named by
/// the provider's Codex `config` text, when it names one.
#[derive(Debug)]
pub struct Provider {
    pub id: String,
    pub name: String,
    pub category: Option<String>,
    pub settings_config: Json,
    pub meta: Option<ProviderMeta>,
    pub config_base_url: Option<String>,
}

/// Who authenticates a route's requests.
#[derive(Debug, Clone, Copy, PartialEq, Eq, Structural)]
pub enum CodexRouteAuthSource {
    ProviderConfig,
    ManagedAccount,
    ManagedCodexOauth,
    NativeCodexAuth,
    AccountPool,
}

#[derive(Debug, Clone)]
pub struct CodexRouteAuthPolicy {
    pub source: CodexRouteAuthSource,
    pub account_id: Option<String>,
}

/// Which of a provider's models a route offers: all of them, or the listed ones.
#[derive(Debug, Clone)]
pub enum CodexModelSelection {
    All,
    Include { models: Vec<String> },
}

/// One route of a schema-v2 plan. `aliases` maps visible names to the model they
/// stand for, in key order.
#[derive(Debug, Clone)]
pub struct CodexRoutingRouteV2 {
    pub id: String,
    pub label: Option<String>,
    pub enabled: bool,
    pub target_provider_id: String,
    pub model_selection: CodexModelSelection,
    pub match_prefixes: Vec<String>,
    pub aliases: Vec<(String, String)>,
    pub auth_policy: CodexRouteAuthPolicy,
}

/// A schema-v2 routing plan.
#[derive(Debug, Clone)]
pub struct CodexRoutingConfigV2 {
    pub schema_version: u32,
    pub enabled: bool,
    pub default_route_id: Option<String>,
    pub routes: Vec<CodexRoutingRouteV2>,
    pub spawn_agent_models: Vec<String>,
}

// ---------------------------------------------------------------------------
// Reading fields
// ---------------------------------------------------------------------------

pub open spec fn name_views(names: Seq<&str>) -> Seq<Seq<char>> {
    names.map_values(|n: &str| n@)
}

/// The first of the named members that is present.
pub open spec fn first_value(v: JsonValue, names: Seq<Seq<char>>) -> Option<JsonValue>
    decreases names.len(),
{
    if names.len() == 0 {
        None
    } else {
        match get(v, names[0]) {
            Some(x) => Some(x),
            None => first_value(v, names.drop_first()),
        }
    }
}

/// The first of the named members that is a string.
pub open spec fn first_str(v: JsonValue, names: Seq<Seq<char>>) -> Option<Seq<char>>
    decreases names.len(),
{
    if names.len() == 0 {
        None
    } else {
        match opt_str(get(v, names[0])) {
            Some(s) => Some(s),
            None => first_str(v, names.drop_first()),
        }
    }
}

/// That string, trimmed, when not blank.
pub open spec fn string_field_of(v: JsonValue, names: Seq<Seq<char>>) -> Option<Seq<char>> {
    match first_str(v, names) {
        Some(s) => if trim(s).len() > 0 {
            Some(trim(s))
        } else {
            None
        },
        None => None,
    }
}

/// The first named member as a positive integer.
pub open spec fn u64_field_of(v: JsonValue, names: Seq<Seq<char>>) -> Option<u64> {
    match first_value(v, names) {
        Some(x) => match as_u64(x) {
            Some(n) => if n > 0 {
                Some(n)
            } else {
                None
            },
            None => None,
        },
        None => None,
    }
}

pub open spec fn bool_field_of(v: JsonValue, names: Seq<Seq<char>>) -> Option<bool> {
    opt_bool(first_value(v, names))
}

/// The non-blank strings of an array, trimmed.
pub open spec fn nonblank_strings(a: Seq<JsonValue>) -> Seq<Seq<char>>
    decreases a.len(),
{
    if a.len() == 0 {
        Seq::empty()
    } else {
        let r = nonblank_strings(a.drop_last());
        match as_str(a.last()) {
            Some(s) => if trim(s).len() > 0 {
                r.push(trim(s))
            } else {
                r
            },
            None => r,
        }
    }
}

/// The first named member as a list of non-blank strings, when it has any.
pub open spec fn string_array_field_of(v: JsonValue, names: Seq<Seq<char>>) -> Option<Seq<Seq<char>>> {
    match opt_array(first_value(v, names)) {
        Some(a) => if nonblank_strings(a).len() > 0 {
            Some(nonblank_strings(a))
        } else {
            None
        },
        None => None,
    }
}

pub fn value_field<'a>(value: &'a Json, names: &[&str]) -> (r: Option<&'a Json>)
    ensures
        opt_ref_view(r) == first_value(value@, name_views(names@)),
{
    let ghost ns = name_views(names@);
    let mut i: usize = 0;
    assert(ns.skip(0) =~= ns);
    while i < names.len()
        invariant
            i <= names.len(),
            ns == name_views(names@),
            first_value(value@, ns) == first_value(value@, ns.skip(i as int)),
        decreases names.len() - i,
    {
        assert(ns.skip(i as int).drop_first() =~= ns.skip(i + 1));
        assert(ns.skip(i as int)[0] == names@[i as int]@);
        match json_get(value, names[i]) {
            Some(x) => return Some(x),
            None => {},
        }
        i = i + 1;
    }
    None
}

fn first_string<'a>(value: &'a Json, names: &[&str]) -> (r: Option<&'a String>)
    ensures
        match r {
            Some(s) => first_str(value@, name_views(names@)) == Some(s@),
            None => first_str(value@, name_views(names@)) is None,
        },
{
    let ghost ns = name_views(names@);
    let mut i: usize = 0;
    assert(ns.skip(0) =~= ns);
    while i < names.len()
        invariant
            i <= names.len(),
            ns == name_views(names@),
            first_str(value@, ns) == first_str(value@, ns.skip(i as int)),
        decreases names.len() - i,
    {
        assert(ns.skip(i as int).drop_first() =~= ns.skip(i + 1));
        assert(ns.skip(i as int)[0] == names@[i as int]@);
        match crate::json::json_get_str(value, names[i]) {
            Some(s) => return Some(s),
            None => {},
        }
        i = i + 1;
    }
    None
}

/// The first of the named string members, trimmed, when not blank.
pub fn string_field(value: &Json, names: &[&str]) -> (r: Option<String>)
    ensures
        opt_view(r) == string_field_of(value@, name_views(names@)),
{
    match first_string(value, names) {
        Some(s) => {
            let t = trim_str(s.as_str());
            if t.as_str().unicode_len() > 0 {
                Some(t)
            } else {
                None
            }
        },
        None => None,
    }
}

pub fn u64_field(value: &Json, names: &[&str]) -> (r: Option<u64>)
    ensures
        r == u64_field_of(value@, name_views(names@)),
{
    match value_field(value, names) {
        Some(x) => match json_as_u64(x) {
            Some(n) => if n > 0 {
                Some(n)
            } else {
                None
            },
            None => None,
        },
        None => None,
    }
}

pub fn bool_field(value: &Json, names: &[&str]) -> (r: Option<bool>)
    ensures
        r == bool_field_of(value@, name_views(names@)),
{
    match value_field(value, names) {
        Some(x) => json_as_bool(x),
        None => None,
    }
}

pub fn string_array_field(value: &Json, names: &[&str]) -> (r: Option<Vec<String>>)
    ensures
        match r {
            Some(v) => string_array_field_of(value@, name_views(names@)) == Some(views(v@)),
            None => string_array_field_of(value@, name_views(names@)) is None,
        },
{
    let arr = match value_field(value, names) {
        Some(x) => match json_as_array(x) {
            Some(a) => a,
            None => return None,
        },
        None => return None,
    };
    let ghost av = jviews(arr@);
    proof {
        lemma_jviews_index(arr@);
    }
    let mut out: Vec<String> = Vec::new();
    let mut i: usize = 0;
    while i < arr.len()
        invariant
            i <= arr.len(),
            av == jviews(arr@),
            av.len() == arr@.len(),
            forall|k: int| 0 <= k < arr@.len() ==> #[trigger] av[k] == jview(arr@[k]),
            views(out@) == nonblank_strings(av.take(i as int)),
        decreases arr.len() - i,
    {
        assert(av.take(i + 1).drop_last() =~= av.take(i as int));
        assert(av.take(i + 1).last() == jview(arr@[i as int]));
        match json_as_str(&arr[i]) {
            Some(s) => {
                let t = trim_str(s.as_str());
                if t.as_str().unicode_len() > 0 {
                    let ghost before = views(out@);
                    out.push(t);
                    assert(views(out@) =~= before.push(trim(s@)));
                }
            },
            None => {},
        }
        i = i + 1;
    }
    assert(av.take(arr.len() as int) =~= av);
    if out.len() > 0 {
        Some(out)
    } else {
        None
    }
}

// ---------------------------------------------------------------------------
// Provider model catalogs
// ---------------------------------------------------------------------------

/// A provider's model catalog (`modelCatalog`, else `model_catalog`).
pub open spec fn catalog_of(settings: JsonValue) -> Option<JsonValue> {
    match get(settings, "modelCatalog"@) {
        Some(c) => Some(c),
        None => get(settings, "model_catalog"@),
    }
}

/// The catalog entries not switched off with `"enabled": false`.
pub open spec fn enabled_entries(a: Seq<JsonValue>) -> Seq<JsonValue>
    decreases a.len(),
{
    if a.len() == 0 {
        Seq::empty()
    } else {
        let r = enabled_entries(a.drop_last());
        if opt_bool(get(a.last(), "enabled"@)) == Some(false) {
            r
        } else {
            r.push(a.last())
        }
    }
}

/// The enabled model entries of a provider's catalog.
pub open spec fn provider_entries(settings: JsonValue) -> Seq<JsonValue> {
    let models = match catalog_of(settings) {
        Some(c) => get(c, "models"@),
        None => None,
    };
    match opt_array(models) {
        Some(a) => enabled_entries(a),
        None => Seq::empty(),
    }
}

pub fn provider_model_entries(provider: &Provider) -> (r: Vec<Json>)
    ensures
        jviews(r@) == provider_entries(provider.settings_config@),
{
    let catalog = match json_get(&provider.settings_config, "modelCatalog") {
        Some(c) => Some(c),
        None => json_get(&provider.settings_config, "model_catalog"),
    };
    let models = match catalog {
        Some(c) => json_get(c, "models"),
        None => None,
    };
    let arr = match models {
        Some(m) => match json_as_array(m) {
            Some(a) => a,
            None => return Vec::new(),
        },
        None => return Vec::new(),
    };
    let ghost av = jviews(arr@);
    proof {
        lemma_jviews_index(arr@);
    }
    let mut out: Vec<Json> = Vec::new();
    let mut i: usize = 0;
    while i < arr.len()
        invariant
            i <= arr.len(),
            av == jviews(arr@),
            av.len() == arr@.len(),
            forall|k: int| 0 <= k < arr@.len() ==> #[trigger] av[k] == jview(arr@[k]),
            jviews(out@) == enabled_entries(av.take(i as int)),
        decreases arr.len() - i,
    {
        assert(av.take(i + 1).drop_last() =~= av.take(i as int));
        assert(av.take(i + 1).last() == jview(arr@[i as int]));
        let enabled = crate::json::json_get_bool(&arr[i], "enabled");
        if enabled != Some(false) {
            let c = json_clone(&arr[i]);
            let ghost before = out@;
            out.push(c);
            assert(out@.drop_last() =~= before);
        }
        i = i + 1;
    }
    assert(av.take(arr.len() as int) =~= av);
    out
}

/// The name Codex shows for a catalog entry: its `model`, trimmed, when not blank.
pub fn model_name(model_entry: &Json) -> (r: Option<String>)
    ensures
        opt_view(r) == crate::history::json_string_of(model_entry@, "model"@),
{
    crate::history::json_string(model_entry, "model")
}

/// The model requested upstream: the entry's `upstreamModel`, else the canonical name.
pub open spec fn upstream_of(entry: JsonValue, canonical: Seq<char>) -> Seq<char> {
    match string_field_of(entry, seq!["upstreamModel"@, "upstream_model"@]) {
        Some(u) => u,
        None => canonical,
    }
}

pub fn upstream_model(model_entry: &Json, canonical_model: &str) -> (r: String)
    ensures
        r@ == upstream_of(model_entry@, canonical_model@),
{
    let names: [&str; 2] = ["upstreamModel", "upstream_model"];
    let r = string_field(model_entry, names.as_slice());
    assert(name_views(names@) =~= seq!["upstreamModel"@, "upstream_model"@]);
    match r {
        Some(u) => u,
        None => owned(canonical_model),
    }
}

/// The display name: the entry's `displayName`, else the canonical name.
pub open spec fn display_name_of(entry: JsonValue, canonical: Seq<char>) -> Seq<char> {
    match string_field_of(entry, seq!["displayName"@, "display_name"@]) {
        Some(u) => u,
        None => canonical,
    }
}

pub fn model_display_name(model_entry: &Json, canonical_model: &str) -> (r: String)
    ensures
        r@ == display_name_of(model_entry@, canonical_model@),
{
    let names: [&str; 2] = ["displayName", "display_name"];
    let r = string_field(model_entry, names.as_slice());
    assert(name_views(names@) =~= seq!["displayName"@, "display_name"@]);
    match r {
        Some(u) => u,
        None => owned(canonical_model),
    }
}

/// The catalog position a provider gave the entry, when it gave one.
pub open spec fn sort_index_of(entry: JsonValue) -> Option<usize> {
    match first_value(entry, seq!["sortIndex"@, "sort_index"@]) {
        Some(x) => match as_u64(x) {
            Some(n) => if n <= usize::MAX {
                Some(n as usize)
            } else {
                None
            },
            None => None,
        },
        None => None,
    }
}

pub fn model_sort_index(model_entry: &Json) -> (r: Option<usize>)
    ensures
        r == sort_index_of(model_entry@),
{
    let names: [&str; 2] = ["sortIndex", "sort_index"];
    let v = value_field(model_entry, names.as_slice());
    assert(name_views(names@) =~= seq!["sortIndex"@, "sort_index"@]);
    match v {
        Some(x) => match json_as_u64(x) {
            Some(n) => if n <= usize::MAX as u64 {
                Some(n as usize)
            } else {
                None
            },
            None => None,
        },
        None => None,
    }
}

// ---------------------------------------------------------------------------
// Protocol and capabilities
// ---------------------------------------------------------------------------

/// An API format in lower case, `openai_chat` when blank.
pub open spec fn normalized_api_format(value: Seq<char>) -> Seq<char> {
    if trim(value).len() == 0 {
        "openai_chat"@
    } else {
        lower(trim(value))
    }
}

pub fn normalize_api_format(value: &str) -> (r: String)
    ensures
        r@ == normalized_api_format(value@),
{
    let t = trim_chars(chars_of(value).as_slice());
    if t.len() == 0 {
        owned("openai_chat")
    } else {
        string_of(lower_chars(t.as_slice()).as_slice())
    }
}

pub open spec fn meta_api_format(provider: Provider) -> Option<Seq<char>> {
    match provider.meta {
        Some(m) => opt_view(m.api_format),
        None => None,
    }
}

/// The protocol a model is called with, and where it was set: the model entry
/// (`provider_model`), else the provider (`provider`), else `openai_chat` (`default`).
pub open spec fn api_format_of(provider: Provider, entry: JsonValue) -> (Seq<char>, Seq<char>) {
    match string_field_of(entry, seq!["apiFormat"@, "api_format"@]) {
        Some(f) => (normalized_api_format(f), "provider_model"@),
        None => {
            let provider_format = match meta_api_format(provider) {
                Some(f) => Some(f),
                None => string_field_of(provider.settings_config@, seq!["apiFormat"@, "api_format"@]),
            };
            match provider_format {
                Some(f) => (normalized_api_format(f), "provider"@),
                None => ("openai_chat"@, "default"@),
            }
        },
    }
}

pub fn effective_api_format(provider: &Provider, model_entry: &Json) -> (r: (String, String))
    ensures
        (r.0@, r.1@) == api_format_of(*provider, model_entry@),
{
    let names: [&str; 2] = ["apiFormat", "api_format"];
    assert(name_views(names@) =~= seq!["apiFormat"@, "api_format"@]);
    match string_field(model_entry, names.as_slice()) {
        Some(f) => return (normalize_api_format(f.as_str()), owned("provider_model")),
        None => {},
    }
    let from_meta: Option<String> = match &provider.meta {
        Some(m) => owned_opt(&m.api_format),
        None => None,
    };
    let provider_format = match from_meta {
        Some(f) => Some(f),
        None => string_field(&provider.settings_config, names.as_slice()),
    };
    match provider_format {
        Some(f) => (normalize_api_format(f.as_str()), owned("provider")),
        None => (owned("openai_chat"), owned("default")),
    }
}

/// A value and where it came from: the model entry, else the provider, else unknown.
pub fn value_with_source<T>(model: Option<T>, provider: Option<T>) -> (r: (Option<T>, String))
    ensures
        r.0 == (if model is Some {
            model
        } else {
            provider
        }),
        r.1@ == (if model is Some {
            "provider_model"@
        } else if provider is Some {
            "provider"@
        } else {
            "unknown"@
        }),
{
    match model {
        Some(v) => (Some(v), owned("provider_model")),
        None => match provider {
            Some(v) => (Some(v), owned("provider")),
            None => (None, owned("unknown")),
        },
    }
}

/// The input modalities a model entry declares: its list, else `text`+`image` for an
/// image-capable model, else `text` for a text-only one.
pub open spec fn input_modalities_of(entry: JsonValue) -> Option<Seq<Seq<char>>> {
    let images = bool_field_of(entry, seq!["supportsImage"@, "supports_image"@, "vision"@]);
    match string_array_field_of(entry, seq!["inputModalities"@, "input_modalities"@]) {
        Some(m) => Some(m),
        None => if images == Some(true) {
            Some(seq!["text"@, "image"@])
        } else if bool_field_of(entry, seq!["textOnly"@, "text_only"@]) == Some(true) || images
            == Some(false) {
            Some(seq!["text"@])
        } else {
            None
        },
    }
}

pub fn model_input_modalities(model_entry: &Json) -> (r: Option<Vec<String>>)
    ensures
        match r {
            Some(v) => input_modalities_of(model_entry@) == Some(views(v@)),
            None => input_modalities_of(model_entry@) is None,
        },
{
    let modality_names: [&str; 2] = ["inputModalities", "input_modalities"];
    let image_names: [&str; 3] = ["supportsImage", "supports_image", "vision"];
    let text_names: [&str; 2] = ["textOnly", "text_only"];
    assert(name_views(modality_names@) =~= seq!["inputModalities"@, "input_modalities"@]);
    assert(name_views(image_names@) =~= seq!["supportsImage"@, "supports_image"@, "vision"@]);
    assert(name_views(text_names@) =~= seq!["textOnly"@, "text_only"@]);
    match string_array_field(model_entry, modality_names.as_slice()) {
        Some(m) => return Some(m),
        None => {},
    }
    let images = bool_field(model_entry, image_names.as_slice());
    if images == Some(true) {
        let r = vec![owned("text"), owned("image")];
        assert(views(r@) =~= seq!["text"@, "image"@]);
        return Some(r);
    }
    if bool_field(model_entry, text_names.as_slice()) == Some(true) || images == Some(false) {
        let r = vec![owned("text")];
        assert(views(r@) =~= seq!["text"@]);
        return Some(r);
    }
    None
}

/// The letters and digits of a key, in lower case.
pub open spec fn key_letters(key: Seq<char>) -> Seq<char>
    decreases key.len(),
{
    if key.len() == 0 {
        Seq::empty()
    } else {
        let r = key_letters(key.drop_last());
        if crate::text::is_ascii_alnum(key.last()) {
            r.push(crate::text::lower_char(key.last()))
        } else {
            r
        }
    }
}

/// A capability key that may carry a secret: authentication, cookies, credentials,
/// headers, a prompt cache key, or anything ending in api key, password, secret or
/// token (comparing letters and digits only, ignoring case).
pub open spec fn sensitive_key(key: Seq<char>) -> bool {
    let n = key_letters(key);
    ||| n == "auth"@
    ||| n == "authorization"@
    ||| n == "cookie"@
    ||| n == "credentials"@
    ||| n == "headers"@
    ||| n == "promptcachekey"@
    ||| crate::text::ends_with(n, "apikey"@)
    ||| crate::text::ends_with(n, "password"@)
    ||| crate::text::ends_with(n, "secret"@)
    ||| crate::text::ends_with(n, "token"@)
}

pub fn capability_key_is_sensitive(key: &str) -> (r: bool)
    ensures
        r == sensitive_key(key@),
{
    let k = chars_of(key);
    let mut n: Vec<char> = Vec::new();
    let mut i: usize = 0;
    while i < k.len()
        invariant
            i <= k.len(),
            k@ == key@,
            n@ == key_letters(k@.take(i as int)),
        decreases k.len() - i,
    {
        assert(k@.take(i + 1).drop_last() =~= k@.take(i as int));
        let c = k[i];
        if crate::text::char_is_ascii_alnum(c) {
            n.push(crate::text::char_lower(c));
        }
        i = i + 1;
    }
    assert(k@.take(k.len() as int) =~= k@);
    let s = string_of(n.as_slice());
    str_eq(s.as_str(), "auth") || str_eq(s.as_str(), "authorization") || str_eq(s.as_str(), "cookie")
        || str_eq(s.as_str(), "credentials") || str_eq(s.as_str(), "headers") || str_eq(
        s.as_str(),
        "promptcachekey",
    ) || crate::text::str_ends_with(s.as_str(), "apikey") || crate::text::str_ends_with(
        s.as_str(),
        "password",
    ) || crate::text::str_ends_with(s.as_str(), "secret") || crate::text::str_ends_with(
        s.as_str(),
        "token",
    )
}

/// A capability value with every sensitive key removed, at any depth.
pub open spec fn sanitized(v: JsonValue) -> JsonValue
    decreases v,
{
    match v {
        JsonValue::Object(es) => JsonValue::Object(sanitized_entries(es)),
        JsonValue::Array(a) => JsonValue::Array(sanitized_list(a)),
        _ => v,
    }
}

pub open spec fn sanitized_entries(es: Seq<(Seq<char>, JsonValue)>) -> Seq<(Seq<char>, JsonValue)>
    decreases es,
{
    if es.len() == 0 {
        Seq::empty()
    } else {
        let r = sanitized_entries(es.drop_last());
        if sensitive_key(es.last().0) {
            r
        } else {
            r.push((es.last().0, sanitized(es.last().1)))
        }
    }
}

pub open spec fn sanitized_list(a: Seq<JsonValue>) -> Seq<JsonValue>
    decreases a,
{
    if a.len() == 0 {
        Seq::empty()
    } else {
        sanitized_list(a.drop_last()).push(sanitized(a.last()))
    }
}

pub fn sanitize_capability_value(value: &Json) -> (r: Json)
    ensures
        r@ == sanitized(value@),
    decreases value,
{
    match value {
        Json::Array(a) => {
            let mut out: Vec<Json> = Vec::new();
            let mut i: usize = 0;
            proof {
                lemma_jviews_index(a@);
            }
            while i < a.len()
                invariant
                    i <= a.len(),
                    *value == Json::Array(*a),
                    jviews(out@) == sanitized_list(jviews(a@.take(i as int))),
                decreases a.len() - i,
            {
                proof {
                    assert(decreases_to!(*value => (*value)->Array_0));
                    assert(decreases_to!(*a => a@[i as int]));
                    assert(decreases_to!(*value => a@[i as int]));
                }
                let c = sanitize_capability_value(&a[i]);
                let ghost before = out@;
                out.push(c);
                assert(out@.drop_last() =~= before);
                assert(a@.take(i + 1).drop_last() =~= a@.take(i as int));
                assert(jviews(a@.take(i + 1)).drop_last() =~= jviews(a@.take(i as int)));
                i = i + 1;
            }
            assert(a@.take(a.len() as int) =~= a@);
            Json::Array(out)
        },
        Json::Object(es) => {
            let mut out: Vec<(String, Json)> = Vec::new();
            let mut i: usize = 0;
            while i < es.len()
                invariant
                    i <= es.len(),
                    *value == Json::Object(*es),
                    eviews(out@) == sanitized_entries(eviews(es@.take(i as int))),
                decreases es.len() - i,
            {
                proof {
                    assert(decreases_to!(*value => (*value)->Object_0));
                    assert(decreases_to!(*es => es@[i as int]));
                    assert(decreases_to!(es@[i as int] => es@[i as int].1));
                    assert(decreases_to!(*value => es@[i as int].1));
                }
                assert(es@.take(i + 1).drop_last() =~= es@.take(i as int));
                assert(es@.take(i + 1).last() == es@[i as int]);
                let ghost e1 = eviews(es@.take(i + 1));
                assert(e1 == eviews(es@.take(i as int)).push((es@[i as int].0@, jview(es@[i as int].1))));
                assert(e1.drop_last() =~= eviews(es@.take(i as int)));
                if !capability_key_is_sensitive(es[i].0.as_str()) {
                    let entry = (owned(es[i].0.as_str()), sanitize_capability_value(&es[i].1));
                    let ghost before = out@;
                    out.push(entry);
                    assert(out@.drop_last() =~= before);
                }
                i = i + 1;
            }
            assert(es@.take(es.len() as int) =~= es@);
            Json::Object(out)
        },
        Json::Null => Json::Null,
        Json::Bool(b) => Json::Bool(*b),
        Json::Number(n) => json_clone(value),
        Json::Text(t) => Json::Text(owned(t.as_str())),
    }
}

/// No key of the value, at any depth, may carry a secret.
pub open spec fn secret_free(v: JsonValue) -> bool
    decreases v,
{
    match v {
        JsonValue::Object(es) => secret_free_entries(es),
        JsonValue::Array(a) => secret_free_list(a),
        _ => true,
    }
}

pub open spec fn secret_free_entries(es: Seq<(Seq<char>, JsonValue)>) -> bool
    decreases es,
{
    if es.len() == 0 {
        true
    } else {
        secret_free_entries(es.drop_last()) && !sensitive_key(es.last().0) && secret_free(
            es.last().1,
        )
    }
}

pub open spec fn secret_free_list(a: Seq<JsonValue>) -> bool
    decreases a,
{
    if a.len() == 0 {
        true
    } else {
        secret_free_list(a.drop_last()) && secret_free(a.last())
    }
}

/// A sanitised capability value holds no key that may carry a secret, at any depth.
pub proof fn sanitized_is_secret_free(v: JsonValue)
    ensures
        secret_free(sanitized(v)),
    decreases v,
{
    match v {
        JsonValue::Object(es) => {
            lemma_sanitized_entries_secret_free(es);
        },
        JsonValue::Array(a) => {
            lemma_sanitized_list_secret_free(a);
        },
        _ => {},
    }
}

proof fn lemma_sanitized_entries_secret_free(es: Seq<(Seq<char>, JsonValue)>)
    ensures
        secret_free_entries(sanitized_entries(es)),
    decreases es,
{
    if es.len() > 0 {
        lemma_sanitized_entries_secret_free(es.drop_last());
        let r = sanitized_entries(es.drop_last());
        if !sensitive_key(es.last().0) {
            assert(decreases_to!(es => es[es.len() - 1]));
            assert(decreases_to!(es[es.len() - 1] => es[es.len() - 1].1));
            sanitized_is_secret_free(es.last().1);
            let t = r.push((es.last().0, sanitized(es.last().1)));
            assert(t.drop_last() =~= r);
        }
    }
}

proof fn lemma_sanitized_list_secret_free(a: Seq<JsonValue>)
    ensures
        secret_free_list(sanitized_list(a)),
    decreases a,
{
    if a.len() > 0 {
        lemma_sanitized_list_secret_free(a.drop_last());
        assert(decreases_to!(a => a[a.len() - 1]));
        sanitized_is_secret_free(a.last());
        let r = sanitized_list(a.drop_last());
        assert(r.push(sanitized(a.last())).drop_last() =~= r);
    }
}

// ---------------------------------------------------------------------------
// Compiled plans
// ---------------------------------------------------------------------------

/// A note about something the compiler resolved or left out.
#[derive(Debug, Clone)]
pub struct CompilerWarning {
    pub code: String,
    pub route_id: Option<String>,
    pub message: String,
}

/// Why a plan could not be compiled.
#[derive(Debug, Clone)]
pub struct CodexRoutingCompileError {
    pub code: String,
    pub message: String,
}

impl CodexRoutingCompileError {
    /// `code: message`.
    pub fn to_string(&self) -> (r: String)
        ensures
            r@ == self.code@ + ": "@ + self.message@,
    {
        crate::text::concat3(self.code.as_str(), ": ", self.message.as_str())
    }
}

/// What a compiled model can do, and where each capability was set.
#[derive(Debug)]
pub struct CodexModelCapabilitySummary {
    pub context_window: Option<u64>,
    pub input_modalities: Vec<String>,
    pub reasoning: Option<Json>,
    pub codex_cache: Option<Json>,
    pub supports_parallel_tool_calls: Option<bool>,
    pub base_instructions: Option<String>,
    pub codex_ultra: Option<Json>,
    pub context_window_source: String,
    pub input_modalities_source: String,
    pub reasoning_source: String,
    pub codex_cache_source: String,
}

/// A model as Codex sees it, and where it is routed.
#[derive(Debug)]
pub struct CompiledCodexModel {
    pub visible_model: String,
    pub canonical_model: String,
    pub upstream_model: String,
    pub display_name: String,
    pub target_provider_id: String,
    pub route_id: String,
    pub api_format: String,
    pub api_format_source: String,
    pub sort_index: Option<usize>,
    pub capability_summary: CodexModelCapabilitySummary,
}

/// A route as compiled: its visible models and routing facts.
#[derive(Debug, Clone)]
pub struct CompiledCodexRoute {
    pub id: String,
    pub label: Option<String>,
    pub enabled: bool,
    pub target_provider_id: String,
    pub match_prefixes: Vec<String>,
    pub auth_policy: CodexRouteAuthPolicy,
    pub visible_models: Vec<String>,
}

/// A compiled plan.
#[derive(Debug)]
pub struct CompiledCodexRoutingPlan {
    pub routes: Vec<CompiledCodexRoute>,
    pub visible_models: Vec<String>,
    pub model_catalog: Vec<CompiledCodexModel>,
    pub spawn_agent_models: Vec<String>,
    pub dependency_fingerprint: String,
    pub warnings: Vec<CompilerWarning>,
}

pub open spec fn opt_jview(o: Option<Json>) -> Option<JsonValue> {
    match o {
        Some(j) => Some(jview(j)),
        None => None,
    }
}

fn clone_opt_json(o: &Option<Json>) -> (r: Option<Json>)
    ensures
        opt_jview(r) == opt_jview(*o),
{
    match o {
        Some(j) => Some(json_clone(j)),
        None => None,
    }
}

/// The value of a provider's metadata.
pub open spec fn meta_view(m: ProviderMeta) -> (Option<Seq<char>>, Option<Seq<char>>, Option<JsonValue>, Option<JsonValue>, Option<JsonValue>) {
    (opt_view(m.provider_type), opt_view(m.api_format), opt_jview(m.codex_chat_reasoning), opt_jview(m.codex_cache), opt_jview(m.auth_binding))
}

pub open spec fn opt_meta_view(m: Option<ProviderMeta>) -> Option<(Option<Seq<char>>, Option<Seq<char>>, Option<JsonValue>, Option<JsonValue>, Option<JsonValue>)> {
    match m {
        Some(x) => Some(meta_view(x)),
        None => None,
    }
}

/// The value of a provider record.
pub open spec fn provider_view(p: Provider) -> (Seq<char>, Seq<char>, Option<Seq<char>>, JsonValue, Option<(Option<Seq<char>>, Option<Seq<char>>, Option<JsonValue>, Option<JsonValue>, Option<JsonValue>)>, Option<Seq<char>>) {
    (p.id@, p.name@, opt_view(p.category), p.settings_config@, opt_meta_view(p.meta), opt_view(p.config_base_url))
}

/// A deep copy of a provider's metadata.
pub fn clone_meta(m: &ProviderMeta) -> (r: ProviderMeta)
    ensures
        meta_view(r) == meta_view(*m),
{
    ProviderMeta {
        provider_type: owned_opt(&m.provider_type),
        api_format: owned_opt(&m.api_format),
        codex_chat_reasoning: clone_opt_json(&m.codex_chat_reasoning),
        codex_cache: clone_opt_json(&m.codex_cache),
        auth_binding: clone_opt_json(&m.auth_binding),
    }
}

/// A deep copy of a provider.
pub fn clone_provider(p: &Provider) -> (r: Provider)
    ensures
        provider_view(r) == provider_view(*p),
{
    Provider {
        id: p.id.clone(),
        name: p.name.clone(),
        category: owned_opt(&p.category),
        settings_config: json_clone(&p.settings_config),
        meta: match &p.meta {
            Some(m) => Some(clone_meta(m)),
            None => None,
        },
        config_base_url: owned_opt(&p.config_base_url),
    }
}

fn clone_opt_json_ref(o: Option<&Json>) -> (r: Option<Json>)
    ensures
        opt_jview(r) == opt_ref_view(o),
{
    match o {
        Some(j) => Some(json_clone(j)),
        None => None,
    }
}

pub open spec fn source_label(model: bool, provider: bool) -> Seq<char> {
    if model {
        "provider_model"@
    } else if provider {
        "provider"@
    } else {
        "unknown"@
    }
}

/// The provider-level reasoning settings: from the settings, else the metadata.
pub open spec fn provider_reasoning_of(provider: Provider) -> Option<JsonValue> {
    match first_value(
        provider.settings_config@,
        seq!["reasoning"@, "codexChatReasoning"@, "codex_chat_reasoning"@],
    ) {
        Some(v) => Some(v),
        None => match provider.meta {
            Some(m) => opt_jview(m.codex_chat_reasoning),
            None => None,
        },
    }
}

pub open spec fn provider_cache_of(provider: Provider) -> Option<JsonValue> {
    match first_value(provider.settings_config@, seq!["codexCache"@, "codex_cache"@]) {
        Some(v) => Some(v),
        None => match provider.meta {
            Some(m) => opt_jview(m.codex_cache),
            None => None,
        },
    }
}

pub open spec fn opt_sanitized(v: Option<JsonValue>) -> Option<JsonValue> {
    match v {
        Some(x) => Some(sanitized(x)),
        None => None,
    }
}

/// The capabilities of a model: each from the model entry, else the provider; values
/// that may hold settings are sanitised.
pub open spec fn capability_summary_of(s: CodexModelCapabilitySummary, provider: Provider, entry: JsonValue) -> bool {
    let settings = provider.settings_config@;
    let model_window = u64_field_of(entry, seq!["contextWindow"@, "context_window"@]);
    let provider_window = u64_field_of(settings, seq!["contextWindow"@, "context_window"@, "modelContextWindow"@]);
    let model_modalities = input_modalities_of(entry);
    let provider_modalities = string_array_field_of(settings, seq!["inputModalities"@, "input_modalities"@]);
    let model_reasoning = first_value(entry, seq!["reasoning"@]);
    let model_cache = first_value(entry, seq!["codexCache"@, "codex_cache"@]);
    &&& s.context_window == (if model_window is Some { model_window } else { provider_window })
    &&& s.context_window_source@ == source_label(model_window is Some, provider_window is Some)
    &&& views(s.input_modalities@) == match (if model_modalities is Some { model_modalities } else { provider_modalities }) {
        Some(m) => m,
        None => Seq::empty(),
    }
    &&& s.input_modalities_source@ == source_label(model_modalities is Some, provider_modalities is Some)
    &&& opt_jview(s.reasoning) == opt_sanitized(if model_reasoning is Some { model_reasoning } else { provider_reasoning_of(provider) })
    &&& s.reasoning_source@ == source_label(model_reasoning is Some, provider_reasoning_of(provider) is Some)
    &&& opt_jview(s.codex_cache) == opt_sanitized(if model_cache is Some { model_cache } else { provider_cache_of(provider) })
    &&& s.codex_cache_source@ == source_label(model_cache is Some, provider_cache_of(provider) is Some)
    &&& s.supports_parallel_tool_calls == bool_field_of(entry, seq!["supportsParallelToolCalls"@, "supports_parallel_tool_calls"@])
    &&& opt_view(s.base_instructions) == string_field_of(entry, seq!["baseInstructions"@, "base_instructions"@])
    &&& opt_jview(s.codex_ultra) == opt_sanitized(first_value(entry, seq!["codexUltra"@, "codex_ultra"@]))
}

fn sanitize_opt(v: Option<Json>) -> (r: Option<Json>)
    ensures
        opt_jview(r) == opt_sanitized(opt_jview(v)),
{
    match v {
        Some(x) => Some(sanitize_capability_value(&x)),
        None => None,
    }
}

pub fn effective_capability_summary(provider: &Provider, model_entry: &Json) -> (r: CodexModelCapabilitySummary)
    ensures
        capability_summary_of(r, *provider, model_entry@),
{
    let settings = &provider.settings_config;
    let window_names: [&str; 2] = ["contextWindow", "context_window"];
    let provider_window_names: [&str; 3] = ["contextWindow", "context_window", "modelContextWindow"];
    let modality_names: [&str; 2] = ["inputModalities", "input_modalities"];
    let reasoning_names: [&str; 1] = ["reasoning"];
    let provider_reasoning_names: [&str; 3] = ["reasoning", "codexChatReasoning", "codex_chat_reasoning"];
    let cache_names: [&str; 2] = ["codexCache", "codex_cache"];
    let parallel_names: [&str; 2] = ["supportsParallelToolCalls", "supports_parallel_tool_calls"];
    let instruction_names: [&str; 2] = ["baseInstructions", "base_instructions"];
    let ultra_names: [&str; 2] = ["codexUltra", "codex_ultra"];
    assert(name_views(window_names@) =~= seq!["contextWindow"@, "context_window"@]);
    assert(name_views(provider_window_names@) =~= seq!["contextWindow"@, "context_window"@, "modelContextWindow"@]);
    assert(name_views(modality_names@) =~= seq!["inputModalities"@, "input_modalities"@]);
    assert(name_views(reasoning_names@) =~= seq!["reasoning"@]);
    assert(name_views(provider_reasoning_names@) =~= seq!["reasoning"@, "codexChatReasoning"@, "codex_chat_reasoning"@]);
    assert(name_views(cache_names@) =~= seq!["codexCache"@, "codex_cache"@]);
    assert(name_views(parallel_names@) =~= seq!["supportsParallelToolCalls"@, "supports_parallel_tool_calls"@]);
    assert(name_views(instruction_names@) =~= seq!["baseInstructions"@, "base_instructions"@]);
    assert(name_views(ultra_names@) =~= seq!["codexUltra"@, "codex_ultra"@]);
    let (context_window, context_window_source) = value_with_source(
        u64_field(model_entry, window_names.as_slice()),
        u64_field(settings, provider_window_names.as_slice()),
    );
    let (input_modalities, input_modalities_source) = value_with_source(
        model_input_modalities(model_entry),
        string_array_field(settings, modality_names.as_slice()),
    );
    let provider_reasoning = match value_field(settings, provider_reasoning_names.as_slice()) {
        Some(v) => Some(json_clone(v)),
        None => match &provider.meta {
            Some(m) => clone_opt_json(&m.codex_chat_reasoning),
            None => None,
        },
    };
    let (reasoning, reasoning_source) = value_with_source(
        clone_opt_json_ref(value_field(model_entry, reasoning_names.as_slice())),
        provider_reasoning,
    );
    let provider_cache = match value_field(settings, cache_names.as_slice()) {
        Some(v) => Some(json_clone(v)),
        None => match &provider.meta {
            Some(m) => clone_opt_json(&m.codex_cache),
            None => None,
        },
    };
    let (codex_cache, codex_cache_source) = value_with_source(
        clone_opt_json_ref(value_field(model_entry, cache_names.as_slice())),
        provider_cache,
    );
    let modalities = match input_modalities {
        Some(m) => m,
        None => Vec::new(),
    };
    proof {
        if views(modalities@).len() == 0 {
            assert(views(modalities@) =~= Seq::<Seq<char>>::empty());
        }
    }
    CodexModelCapabilitySummary {
        context_window,
        input_modalities: modalities,
        reasoning: sanitize_opt(reasoning),
        codex_cache: sanitize_opt(codex_cache),
        supports_parallel_tool_calls: bool_field(model_entry, parallel_names.as_slice()),
        base_instructions: string_field(model_entry, instruction_names.as_slice()),
        codex_ultra: sanitize_opt(clone_opt_json_ref(value_field(model_entry, ultra_names.as_slice()))),
        context_window_source,
        input_modalities_source,
        reasoning_source,
        codex_cache_source,
    }
}

// ---------------------------------------------------------------------------
// Provider identity and names
// ---------------------------------------------------------------------------

/// The lower-case mapping of a character (`char::to_lowercase`, one or more chars).
pub uninterp spec fn unicode_lowercase(c: char) -> Seq<char>;

/// Calls `char::to_lowercase` and collects what it yields; the contract names the
/// result and says nothing more of it.
#[verifier::external_body]
fn char_to_lowercase(c: char) -> (r: Vec<char>)
    ensures
        r@ == unicode_lowercase(c),
{
    c.to_lowercase().collect()
}

pub open spec fn lowered_chars(s: Seq<char>) -> Seq<char>
    decreases s.len(),
{
    if s.len() == 0 {
        Seq::empty()
    } else {
        lowered_chars(s.drop_last()) + unicode_lowercase(s.last())
    }
}

/// Letters and digits kept, every other run turned into one dash (none leading).
pub open spec fn slug_step(acc: Seq<char>, c: char) -> Seq<char> {
    if crate::text::is_ascii_alnum(c) {
        acc.push(c)
    } else if acc.len() > 0 && acc.last() != '-' {
        acc.push('-')
    } else {
        acc
    }
}

pub open spec fn slug(l: Seq<char>) -> Seq<char>
    decreases l.len(),
{
    if l.len() == 0 {
        Seq::empty()
    } else {
        slug_step(slug(l.drop_last()), l.last())
    }
}

pub open spec fn without_trailing_dashes(s: Seq<char>) -> Seq<char>
    decreases s.len(),
{
    if s.len() > 0 && s.last() == '-' {
        without_trailing_dashes(s.drop_last())
    } else {
        s
    }
}

/// The suffix that tells a provider's models apart: its name (else its id) in lower
/// case, letters and digits only, runs of anything else as one dash; `provider` when
/// nothing is left.
pub open spec fn name_suffix(provider: Provider) -> Seq<char> {
    let source = if trim(provider.name@).len() == 0 {
        provider.id@
    } else {
        provider.name@
    };
    let s = without_trailing_dashes(slug(lowered_chars(trim(source))));
    if s.len() == 0 {
        "provider"@
    } else {
        s
    }
}

pub fn provider_name_suffix(provider: &Provider) -> (r: String)
    ensures
        r@ == name_suffix(*provider),
{
    let name_blank = trim_chars(chars_of(provider.name.as_str()).as_slice()).len() == 0;
    let source = if name_blank {
        trim_chars(chars_of(provider.id.as_str()).as_slice())
    } else {
        trim_chars(chars_of(provider.name.as_str()).as_slice())
    };
    // Lower-case every character.
    let mut lowered: Vec<char> = Vec::new();
    let mut i: usize = 0;
    while i < source.len()
        invariant
            i <= source.len(),
            lowered@ == lowered_chars(source@.take(i as int)),
        decreases source.len() - i,
    {
        assert(source@.take(i + 1).drop_last() =~= source@.take(i as int));
        let l = char_to_lowercase(source[i]);
        let mut j: usize = 0;
        let ghost before = lowered@;
        while j < l.len()
            invariant
                j <= l.len(),
                lowered@ == before + l@.take(j as int),
            decreases l.len() - j,
        {
            lowered.push(l[j]);
            j = j + 1;
            assert(lowered@ =~= before + l@.take(j as int));
        }
        assert(l@.take(l.len() as int) =~= l@);
        i = i + 1;
    }
    assert(source@.take(source.len() as int) =~= source@);
    // Keep letters and digits, one dash for every other run.
    let mut suffix: Vec<char> = Vec::new();
    let mut previous_dash = false;
    let mut k: usize = 0;
    while k < lowered.len()
        invariant
            k <= lowered.len(),
            suffix@ == slug(lowered@.take(k as int)),
            previous_dash == (suffix@.len() > 0 && suffix@.last() == '-'),
        decreases lowered.len() - k,
    {
        assert(lowered@.take(k + 1).drop_last() =~= lowered@.take(k as int));
        let c = lowered[k];
        if crate::text::char_is_ascii_alnum(c) {
            suffix.push(c);
            previous_dash = false;
        } else if !previous_dash && suffix.len() > 0 {
            suffix.push('-');
            previous_dash = true;
        }
        k = k + 1;
    }
    assert(lowered@.take(lowered.len() as int) =~= lowered@);
    let ghost full = suffix@;
    while suffix.len() > 0 && suffix[suffix.len() - 1] == '-'
        invariant
            without_trailing_dashes(full) == without_trailing_dashes(suffix@),
        decreases suffix.len(),
    {
        let ghost before = suffix@;
        suffix.pop();
        assert(suffix@ =~= before.drop_last());
    }
    if suffix.len() == 0 {
        owned("provider")
    } else {
        string_of(suffix.as_slice())
    }
}

/// The URL a provider connects to: a base URL in its settings, else the one its Codex
/// `config` text names.
pub open spec fn connection_url_of(provider: Provider) -> Option<Seq<char>> {
    let settings = provider.settings_config@;
    match string_field_of(settings, seq!["baseUrl"@, "base_url"@, "openaiBaseUrl"@, "openai_base_url"@]) {
        Some(u) => Some(u),
        None => if opt_str(get(settings, "config"@)) is Some {
            opt_view(provider.config_base_url)
        } else {
            None
        },
    }
}

pub fn provider_connection_url(provider: &Provider) -> (r: Option<String>)
    ensures
        opt_view(r) == connection_url_of(*provider),
{
    let names: [&str; 4] = ["baseUrl", "base_url", "openaiBaseUrl", "openai_base_url"];
    assert(name_views(names@) =~= seq!["baseUrl"@, "base_url"@, "openaiBaseUrl"@, "openai_base_url"@]);
    match string_field(&provider.settings_config, names.as_slice()) {
        Some(u) => Some(u),
        None => match crate::json::json_get_str(&provider.settings_config, "config") {
            Some(_) => owned_opt(&provider.config_base_url),
            None => None,
        },
    }
}

/// The provider type: from the metadata, else the settings.
pub open spec fn provider_type_of(provider: Provider) -> Seq<char> {
    let from_meta = match provider.meta {
        Some(m) => opt_view(m.provider_type),
        None => None,
    };
    match from_meta {
        Some(t) => t,
        None => match first_value(provider.settings_config@, seq!["providerType"@, "provider_type"@]) {
            Some(v) => match as_str(v) {
                Some(t) => t,
                None => Seq::empty(),
            },
            None => Seq::empty(),
        },
    }
}

/// A provider that owns the canonical model names: Codex's official provider, one
/// marked official, an OpenAI official one by name, a Codex OAuth provider, or one
/// that connects to ChatGPT's Codex backend.
pub open spec fn canonical_provider(provider: Provider) -> bool {
    let identity = lower(provider.id@ + " "@ + provider.name@);
    ||| eq_ignore_case(provider.id@, "codex-official"@)
    ||| opt_view(provider.category) == Some("official"@)
    ||| (crate::text::contains(identity, "openai"@) && crate::text::contains(identity, "official"@))
    ||| eq_ignore_case(provider_type_of(provider), "codex_oauth"@)
    ||| (connection_url_of(provider) is Some && crate::text::contains(
        connection_url_of(provider)->0,
        "chatgpt.com/backend-api/codex"@,
    ))
}

pub fn is_canonical_provider(provider: &Provider) -> (r: bool)
    ensures
        r == canonical_provider(*provider),
{
    if crate::text::eq_ignore_ascii_case(provider.id.as_str(), "codex-official") {
        return true;
    }
    let official_category = match &provider.category {
        Some(c) => str_eq(c.as_str(), "official"),
        None => false,
    };
    if official_category {
        return true;
    }
    let identity = crate::text::to_lower(crate::text::concat3(provider.id.as_str(), " ", provider.name.as_str()).as_str());
    if crate::text::str_contains(identity.as_str(), "openai") && crate::text::str_contains(identity.as_str(), "official") {
        return true;
    }
    let from_meta: Option<String> = match &provider.meta {
        Some(m) => owned_opt(&m.provider_type),
        None => None,
    };
    let names: [&str; 2] = ["providerType", "provider_type"];
    assert(name_views(names@) =~= seq!["providerType"@, "provider_type"@]);
    let provider_type = match from_meta {
        Some(t) => t,
        None => match value_field(&provider.settings_config, names.as_slice()) {
            Some(v) => match json_as_str(v) {
                Some(t) => owned(t.as_str()),
                None => String::new(),
            },
            None => String::new(),
        },
    };
    proof {
        if provider_type@.len() == 0 {
            assert(provider_type@ =~= Seq::<char>::empty());
        }
    }
    if crate::text::eq_ignore_ascii_case(provider_type.as_str(), "codex_oauth") {
        return true;
    }
    match provider_connection_url(provider) {
        Some(url) => crate::text::str_contains(url.as_str(), "chatgpt.com/backend-api/codex"),
        None => false,
    }
}

/// A name in backticks.
pub open spec fn ticked(s: Seq<char>) -> Seq<char> {
    "`"@ + s + "`"@
}

/// How a message names something: `` `label` (id `id`) `` when a label differs from
/// the id (ignoring case), else `` `id` ``.
pub open spec fn labelled(label: Option<Seq<char>>, id: Seq<char>) -> Seq<char> {
    match label {
        Some(l) => if !eq_ignore_case(l, trim(id)) {
            ticked(l) + " (id "@ + ticked(id) + ")"@
        } else {
            ticked(id)
        },
        None => ticked(id),
    }
}

fn labelled_text(label: Option<String>, id: &str) -> (r: String)
    ensures
        r@ == labelled(opt_view(label), id@),
{
    let tid = trim_str(id);
    proof {
        reveal_strlit("`");
        reveal_strlit("` (id `");
        reveal_strlit(" (id ");
        reveal_strlit("`)");
        reveal_strlit(")");
    }
    match label {
        Some(l) => {
            if !crate::text::eq_ignore_ascii_case(l.as_str(), tid.as_str()) {
                let a = crate::text::concat3("`", l.as_str(), "` (id `");
                let r = crate::text::concat3(a.as_str(), id, "`)");
                assert(r@ =~= ticked(l@) + " (id "@ + ticked(id@) + ")"@);
                r
            } else {
                crate::text::concat3("`", id, "`")
            }
        },
        None => crate::text::concat3("`", id, "`"),
    }
}

pub open spec fn nonblank_trimmed(o: Option<Seq<char>>) -> Option<Seq<char>> {
    match o {
        Some(s) => if trim(s).len() > 0 {
            Some(trim(s))
        } else {
            None
        },
        None => None,
    }
}

/// How messages name a route: its label, else its provider's name.
pub open spec fn route_display_of(route: CodexRoutingRouteV2, provider: Option<Provider>) -> Seq<char> {
    let label = match nonblank_trimmed(opt_view(route.label)) {
        Some(l) => Some(l),
        None => match provider {
            Some(p) => nonblank_trimmed(Some(p.name@)),
            None => None,
        },
    };
    labelled(label, route.id@)
}

fn nonblank_trim(o: Option<&str>) -> (r: Option<String>)
    ensures
        opt_view(r) == nonblank_trimmed(crate::history::sview(o)),
{
    match o {
        Some(s) => {
            let t = trim_str(s);
            if t.as_str().unicode_len() > 0 {
                Some(t)
            } else {
                None
            }
        },
        None => None,
    }
}

pub open spec fn opt_provider(o: Option<&Provider>) -> Option<Provider> {
    match o {
        Some(p) => Some(*p),
        None => None,
    }
}

pub fn route_display(route: &CodexRoutingRouteV2, provider: Option<&Provider>) -> (r: String)
    ensures
        r@ == route_display_of(*route, opt_provider(provider)),
{
    let own: Option<&str> = match &route.label {
        Some(l) => Some(l.as_str()),
        None => None,
    };
    let label = match nonblank_trim(own) {
        Some(l) => Some(l),
        None => match provider {
            Some(p) => nonblank_trim(Some(p.name.as_str())),
            None => None,
        },
    };
    labelled_text(label, route.id.as_str())
}

/// How messages name a provider: its name when it differs from its id.
pub open spec fn provider_display_of(provider: Provider) -> Seq<char> {
    labelled(nonblank_trimmed(Some(provider.name@)), provider.id@)
}

pub fn provider_display(provider: &Provider) -> (r: String)
    ensures
        r@ == provider_display_of(*provider),
{
    labelled_text(nonblank_trim(Some(provider.name.as_str())), provider.id.as_str())
}

// ---------------------------------------------------------------------------
// Visible model names
// ---------------------------------------------------------------------------

/// The name Codex shows for a model that no alias names: the model's own name, unless
/// several providers offer it and this one is not its sole canonical owner; then the
/// name with the provider's suffix.
pub open spec fn automatic_name(
    visible: Seq<char>,
    collision_count: int,
    canonical_owner_count: int,
    provider: Provider,
) -> Seq<char> {
    if collision_count <= 1 || (canonical_owner_count == 1 && canonical_provider(provider)) {
        visible
    } else {
        visible + "-"@ + name_suffix(provider)
    }
}

pub fn automatic_visible_model(
    visible_model: &str,
    provider: &Provider,
    collision_count: usize,
    canonical_owner_count: usize,
) -> (r: String)
    ensures
        r@ == automatic_name(visible_model@, collision_count as int, canonical_owner_count as int, *provider),
{
    if collision_count <= 1 || (canonical_owner_count == 1 && is_canonical_provider(provider)) {
        return owned(visible_model);
    }
    crate::text::concat3(visible_model, "-", provider_name_suffix(provider).as_str())
}

/// The `k`-th name tried for a colliding model: the base, then `base-2`, `base-3`, ...
pub open spec fn numbered(base: Seq<char>, k: nat) -> Seq<char> {
    if k <= 1 {
        base
    } else {
        base + "-"@ + crate::text::decimal(k)
    }
}

/// `k` is the first number whose name is not taken (compared in lower case).
pub open spec fn first_free(used: Seq<Seq<char>>, base: Seq<char>, k: nat) -> bool {
    &&& k >= 1
    &&& !used.contains(lower(numbered(base, k)))
    &&& forall|j: nat| 1 <= j < k ==> used.contains(#[trigger] lower(numbered(base, j)))
}

proof fn lemma_lower_concat(a: Seq<char>, b: Seq<char>)
    ensures
        lower(a + b) == lower(a) + lower(b),
{
    assert(lower(a + b) =~= lower(a) + lower(b));
}

proof fn lemma_lower_digits(k: nat)
    ensures
        lower("-"@ + crate::text::decimal(k)) == "-"@ + crate::text::decimal(k),
    decreases k,
{
    reveal_strlit("-");
    lemma_decimal_chars_plain(k);
    let s = "-"@ + crate::text::decimal(k);
    assert forall|i: int| 0 <= i < s.len() implies crate::text::lower_char(#[trigger] s[i]) == s[i] by {
        if i > 0 {
            assert(s[i] == crate::text::decimal(k)[i - 1]);
        }
    }
    assert(lower(s) =~= s);
}

proof fn lemma_decimal_chars_plain(k: nat)
    ensures
        forall|i: int| 0 <= i < crate::text::decimal(k).len() ==> !crate::text::is_ascii_upper(#[trigger] crate::text::decimal(k)[i]),
    decreases k,
{
    if k >= 10 {
        lemma_decimal_chars_plain(k / 10);
        let d = crate::text::decimal(k);
        assert forall|i: int| 0 <= i < d.len() implies !crate::text::is_ascii_upper(#[trigger] d[i]) by {
            if i < d.len() - 1 {
                assert(d[i] == crate::text::decimal(k / 10)[i]);
            } else {
                assert(crate::text::digit_char(k % 10) as u32 == 48 + k % 10);
            }
        }
    } else {
        assert(crate::text::digit_char(k) as u32 == 48 + k);
    }
}

proof fn lemma_numbered_lower(base: Seq<char>, k: nat)
    requires
        k >= 2,
    ensures
        lower(numbered(base, k)) == lower(base) + "-"@ + crate::text::decimal(k),
{
    lemma_lower_concat(base, "-"@ + crate::text::decimal(k));
    lemma_lower_digits(k);
    assert(base + "-"@ + crate::text::decimal(k) =~= base + ("-"@ + crate::text::decimal(k)));
    assert(lower(base) + ("-"@ + crate::text::decimal(k)) =~= lower(base) + "-"@ + crate::text::decimal(k));
}

proof fn lemma_numbered_distinct(base: Seq<char>, j: nat, k: nat)
    requires
        1 <= j < k,
    ensures
        lower(numbered(base, j)) != lower(numbered(base, k)),
{
    reveal_strlit("-");
    crate::text::lemma_lower_len(base);
    lemma_numbered_lower(base, k);
    let lk = lower(base) + "-"@ + crate::text::decimal(k);
    if j == 1 {
        crate::text::lemma_lower_len(numbered(base, j));
        assert(lk.len() > lower(base).len());
    } else {
        lemma_numbered_lower(base, j);
        let lj = lower(base) + "-"@ + crate::text::decimal(j);
        if lj == lk {
            let n = lower(base).len() + 1;
            assert(lj.skip(n as int) =~= crate::text::decimal(j));
            assert(lk.skip(n as int) =~= crate::text::decimal(k));
            crate::text::lemma_decimal_injective(j, k);
        }
    }
}

pub(crate) proof fn lemma_some_number_free(used: Seq<Seq<char>>, base: Seq<char>)
    ensures
        !(forall|j: nat| 1 <= j <= used.len() + 1 ==> used.contains(#[trigger] lower(numbered(base, j)))),
{
    if forall|j: nat| 1 <= j <= used.len() + 1 ==> used.contains(#[trigger] lower(numbered(base, j))) {
        let n = used.len() + 1;
        let cands = Seq::new(n as nat, |i: int| lower(numbered(base, (i + 1) as nat)));
        assert forall|a: int, b: int| 0 <= a < cands.len() && 0 <= b < cands.len() && a != b implies cands[a] != cands[b] by {
            if a < b {
                lemma_numbered_distinct(base, (a + 1) as nat, (b + 1) as nat);
            } else {
                lemma_numbered_distinct(base, (b + 1) as nat, (a + 1) as nat);
            }
        }
        assert(cands.no_duplicates());
        cands.unique_seq_to_set();
        used.lemma_cardinality_of_set();
        assert forall|x: Seq<char>| cands.to_set().contains(x) implies used.to_set().contains(x) by {
            let i = choose|i: int| 0 <= i < cands.len() && cands[i] == x;
            assert(used.contains(lower(numbered(base, (i + 1) as nat))));
        }
        vstd::seq_lib::seq_to_set_is_finite(used);
        vstd::set_lib::lemma_len_subset(cands.to_set(), used.to_set());
    }
}

/// The warning left when a visible name had to be renamed.
pub open spec fn collision_warning(w: CompilerWarning, route_id: Seq<char>, requested: Seq<char>, renamed: Seq<char>) -> bool {
    &&& w.code@ == "visible_model_collision_resolved"@
    &&& opt_view(w.route_id) == Some(route_id)
    &&& w.message@ == "visible model "@ + ticked(requested) + " was renamed to "@ + ticked(renamed)
}

/// Gives a model a visible name no other model has (ignoring ASCII case): the
/// requested name, trimmed, else the name with the provider's suffix, numbered from 2
/// as needed; a renaming is reported as a warning. `used` holds the lower-case names
/// taken so far.
pub fn unique_visible_model(
    requested: &str,
    provider: &Provider,
    route_id: &str,
    used: &mut Vec<String>,
    warnings: &mut Vec<CompilerWarning>,
) -> (r: String)
    ensures
        views(final(used)@) == views(old(used)@).push(lower(r@)),
        !views(old(used)@).contains(lower(r@)),
        !views(old(used)@).contains(lower(trim(requested@))) ==> {
            &&& r@ == trim(requested@)
            &&& final(warnings)@ == old(warnings)@
        },
        views(old(used)@).contains(lower(trim(requested@))) ==> {
            &&& exists|k: nat| #[trigger] first_free(views(old(used)@), trim(requested@) + "-"@ + name_suffix(*provider), k)
                && r@ == numbered(trim(requested@) + "-"@ + name_suffix(*provider), k)
            &&& final(warnings)@.len() == old(warnings)@.len() + 1
            &&& final(warnings)@.take(old(warnings)@.len() as int) == old(warnings)@
            &&& collision_warning(final(warnings)@.last(), route_id@, trim(requested@), r@)
        },
{
    let t = trim_str(requested);
    let key = crate::text::to_lower(t.as_str());
    if !crate::text::contains_str(used, key.as_str()) {
        let ghost before = views(used@);
        used.push(key);
        assert(views(used@) =~= before.push(lower(t@)));
        return t;
    }
    let suffix = provider_name_suffix(provider);
    let base = crate::text::concat3(t.as_str(), "-", suffix.as_str());
    let ghost u = views(used@);
    let used_len: usize = used.len();
    assert(u.len() == used_len);
    let mut k: u128 = 1;
    let mut candidate = owned(base.as_str());
    proof {
        lemma_some_number_free(u, base@);
    }
    while crate::text::contains_str(used, crate::text::to_lower(candidate.as_str()).as_str())
        invariant
            u == views(used@),
            u.len() <= usize::MAX,
            1 <= k <= u.len() + 1,
            candidate@ == numbered(base@, k as nat),
            forall|j: nat| 1 <= j < k ==> u.contains(#[trigger] lower(numbered(base@, j))),
            !(forall|j: nat| 1 <= j <= u.len() + 1 ==> u.contains(#[trigger] lower(numbered(base@, j)))),
        decreases u.len() + 1 - k,
    {
        assert(u.contains(lower(numbered(base@, k as nat))));
        proof {
            if k == u.len() + 1 {
                assert(forall|j: nat| 1 <= j <= u.len() + 1 ==> u.contains(#[trigger] lower(numbered(base@, j))));
            }
        }
        k = k + 1;
        candidate = crate::text::concat3(base.as_str(), "-", crate::text::decimal_string_u128(k).as_str());
    }
    assert(first_free(u, base@, k as nat));
    let ghost before = views(used@);
    used.push(crate::text::to_lower(candidate.as_str()));
    assert(views(used@) =~= before.push(lower(candidate@)));
    let a = crate::text::concat3("visible model `", t.as_str(), "` was renamed to `");
    let message = crate::text::concat3(a.as_str(), candidate.as_str(), "`");
    proof {
        reveal_strlit("visible model `");
        reveal_strlit("` was renamed to `");
        reveal_strlit("`");
        reveal_strlit("visible model ");
        reveal_strlit(" was renamed to ");
        assert(message@ =~= "visible model "@ + ticked(t@) + " was renamed to "@ + ticked(candidate@));
    }
    let ghost wbefore = warnings@;
    warnings.push(CompilerWarning {
        code: owned("visible_model_collision_resolved"),
        route_id: Some(owned(route_id)),
        message,
    });
    assert(warnings@.take(wbefore.len() as int) =~= wbefore);
    candidate
}

// ---------------------------------------------------------------------------
// Collecting the candidate models
// ---------------------------------------------------------------------------

/// A model a route offers, before it is given its visible name.
#[derive(Debug)]
pub struct ModelCandidate {
    pub route_index: usize,
    pub provider_index: usize,
    pub visible_model: String,
    pub canonical_model: String,
    pub upstream_model: String,
    pub model_entry: Json,
}

/// A candidate as a value: route and provider positions, names and catalog entry.
pub struct CandView {
    pub route_index: int,
    pub provider_index: int,
    pub visible: Seq<char>,
    pub canonical: Seq<char>,
    pub upstream: Seq<char>,
    pub entry: JsonValue,
}

pub open spec fn cand_view(c: ModelCandidate) -> CandView {
    CandView {
        route_index: c.route_index as int,
        provider_index: c.provider_index as int,
        visible: c.visible_model@,
        canonical: c.canonical_model@,
        upstream: c.upstream_model@,
        entry: c.model_entry@,
    }
}

pub open spec fn cand_views(cs: Seq<ModelCandidate>) -> Seq<CandView> {
    cs.map_values(|c: ModelCandidate| cand_view(c))
}

/// A warning as a value: code, route and message.
pub open spec fn warning_view(w: CompilerWarning) -> (Seq<char>, Option<Seq<char>>, Seq<char>) {
    (w.code@, opt_view(w.route_id), w.message@)
}

pub open spec fn warning_views(ws: Seq<CompilerWarning>) -> Seq<(Seq<char>, Option<Seq<char>>, Seq<char>)> {
    ws.map_values(|w: CompilerWarning| warning_view(w))
}

/// The position of the first provider with the given id.
pub open spec fn provider_position(providers: Seq<Provider>, id: Seq<char>) -> Option<int> {
    if exists|i: int| 0 <= i < providers.len() && #[trigger] providers[i].id@ == id {
        Some(choose|i: int| 0 <= i < providers.len() && providers[i].id@ == id && forall|j: int| 0 <= j < i ==> (#[trigger] providers[j]).id@ != id)
    } else {
        None
    }
}

/// The lower-case names a route selects; `None` when it takes every model.
pub open spec fn selection_keys(sel: CodexModelSelection) -> Option<Seq<Seq<char>>> {
    match sel {
        CodexModelSelection::All => None,
        CodexModelSelection::Include { models } => Some(views(models@).map_values(|m: Seq<char>| lower(trim(m)))),
    }
}

/// What scanning a route's catalog has produced so far: the candidates, the canonical
/// names seen, and every name found (visible, canonical, upstream).
pub struct RouteScan {
    pub cands: Seq<CandView>,
    pub seen: Seq<Seq<char>>,
    pub found: Seq<Seq<char>>,
}

/// One catalog entry scanned: entries without a name, outside the selection, or
/// repeating a canonical name are skipped.
pub open spec fn scan_entry(st: RouteScan, sel: Option<Seq<Seq<char>>>, ri: int, pi: int, e: JsonValue) -> RouteScan {
    match crate::history::json_string_of(e, "model"@) {
        None => st,
        Some(v) => {
            let up = upstream_of(e, v);
            let vk = lower(v);
            let uk = lower(up);
            if sel is Some && !sel->0.contains(vk) && !sel->0.contains(uk) {
                st
            } else if st.seen.contains(vk) {
                st
            } else {
                RouteScan {
                    cands: st.cands.push(CandView { route_index: ri, provider_index: pi, visible: v, canonical: v, upstream: up, entry: e }),
                    seen: st.seen.push(vk),
                    found: st.found.push(vk).push(vk).push(uk),
                }
            }
        },
    }
}

pub open spec fn scan_entries(entries: Seq<JsonValue>, start: RouteScan, sel: Option<Seq<Seq<char>>>, ri: int, pi: int) -> RouteScan
    decreases entries.len(),
{
    if entries.len() == 0 {
        start
    } else {
        scan_entry(scan_entries(entries.drop_last(), start, sel, ri, pi), sel, ri, pi, entries.last())
    }
}

/// The selected names no entry provided.
pub open spec fn not_found(keys: Seq<Seq<char>>, found: Seq<Seq<char>>) -> Seq<Seq<char>>
    decreases keys.len(),
{
    if keys.len() == 0 {
        Seq::empty()
    } else {
        let r = not_found(keys.drop_last(), found);
        if found.contains(keys.last()) {
            r
        } else {
            r.push(keys.last())
        }
    }
}

pub open spec fn missing_model_warning(route: CodexRoutingRouteV2, provider: Provider, missing: Seq<char>) -> (Seq<char>, Option<Seq<char>>, Seq<char>) {
    (
        "selected_model_unavailable"@,
        Some(route.id@),
        "route "@ + route_display_of(route, Some(provider)) + " keeps unavailable selected model "@
            + ticked(missing) + " from provider "@ + provider_display_of(provider)
            + "; it is excluded from the current projection"@,
    )
}

pub open spec fn alias_warning(route: CodexRoutingRouteV2, provider: Provider, target: Seq<char>) -> (Seq<char>, Option<Seq<char>>, Seq<char>) {
    (
        "alias_target_unavailable"@,
        Some(route.id@),
        "route "@ + route_display_of(route, Some(provider)) + " aliases model "@ + ticked(target)
            + " which is not selected from provider "@ + provider_display_of(provider),
    )
}

/// The first alias target (trimmed) that no entry provided.
pub open spec fn first_missing_alias(aliases: Seq<(String, String)>, found: Seq<Seq<char>>) -> Option<Seq<char>>
    decreases aliases.len(),
{
    if aliases.len() == 0 {
        None
    } else if !found.contains(lower(trim(aliases[0].1@))) {
        Some(trim(aliases[0].1@))
    } else {
        first_missing_alias(aliases.drop_first(), found)
    }
}

/// The warnings for a scanned route: each selected model not offered (in name order),
/// then the first alias whose target is not offered.
pub open spec fn route_warnings(route: CodexRoutingRouteV2, provider: Provider, found: Seq<Seq<char>>) -> Seq<(Seq<char>, Option<Seq<char>>, Seq<char>)> {
    let missing = match selection_keys(route.model_selection) {
        Some(keys) => crate::text::sorted_set(not_found(keys, found)),
        None => Seq::empty(),
    };
    let ws = missing.map_values(|m: Seq<char>| missing_model_warning(route, provider, m));
    match first_missing_alias(route.aliases@, found) {
        Some(t) => ws.push(alias_warning(route, provider, t)),
        None => ws,
    }
}

/// The candidates and warnings of the first `n` routes, or the error of the first
/// enabled route whose provider does not exist.
pub open spec fn collect_routes(plan: CodexRoutingConfigV2, providers: Seq<Provider>, n: nat) -> Result<
    (Seq<CandView>, Seq<(Seq<char>, Option<Seq<char>>, Seq<char>)>),
    (Seq<char>, Seq<char>),
>
    decreases n,
{
    if n == 0 {
        Ok((Seq::empty(), Seq::empty()))
    } else {
        match collect_routes(plan, providers, (n - 1) as nat) {
            Err(e) => Err(e),
            Ok(acc) => {
                let route = plan.routes@[n - 1];
                if !route.enabled {
                    Ok(acc)
                } else {
                    match provider_position(providers, route.target_provider_id@) {
                        None => Err(
                            (
                                "target_provider_missing"@,
                                "route "@ + route_display_of(route, None) + " targets provider "@
                                    + ticked(route.target_provider_id@) + " which does not exist"@,
                            ),
                        ),
                        Some(pi) => {
                            let p = providers[pi];
                            let st = scan_entries(
                                provider_entries(p.settings_config@),
                                RouteScan { cands: acc.0, seen: Seq::empty(), found: Seq::empty() },
                                selection_keys(route.model_selection),
                                n - 1,
                                pi,
                            );
                            Ok((st.cands, acc.1 + route_warnings(route, p, st.found)))
                        },
                    }
                }
            },
        }
    }
}

pub fn find_provider(providers: &[Provider], id: &str) -> (r: Option<usize>)
    ensures
        match r {
            Some(i) => provider_position(providers@, id@) == Some(i as int) && i < providers@.len(),
            None => provider_position(providers@, id@) is None,
        },
{
    let mut i: usize = 0;
    while i < providers.len()
        invariant
            i <= providers.len(),
            forall|j: int| 0 <= j < i ==> (#[trigger] providers@[j]).id@ != id@,
        decreases providers.len() - i,
    {
        if str_eq(providers[i].id.as_str(), id) {
            proof {
                let c = choose|k: int| 0 <= k < providers@.len() && providers@[k].id@ == id@ && forall|j: int| 0 <= j < k ==> (#[trigger] providers@[j]).id@ != id@;
                assert(providers@[i as int].id@ == id@);
                if c < i {
                } else if c > i {
                    assert(providers@[i as int].id@ != id@);
                }
            }
            return Some(i);
        }
        i = i + 1;
    }
    None
}

fn lower_trimmed_keys(models: &Vec<String>) -> (r: Vec<String>)
    ensures
        views(r@) == views(models@).map_values(|m: Seq<char>| lower(trim(m))),
{
    let mut out: Vec<String> = Vec::new();
    let mut i: usize = 0;
    while i < models.len()
        invariant
            i <= models.len(),
            views(out@) == views(models@).map_values(|m: Seq<char>| lower(trim(m))).take(i as int),
        decreases models.len() - i,
    {
        let ghost before = views(out@);
        out.push(crate::text::to_lower(trim_str(models[i].as_str()).as_str()));
        assert(views(out@) =~= before.push(lower(trim(models@[i as int]@))));
        i = i + 1;
        assert(views(out@) =~= views(models@).map_values(|m: Seq<char>| lower(trim(m))).take(i as int));
    }
    assert(views(models@).map_values(|m: Seq<char>| lower(trim(m))).take(models.len() as int) =~= views(models@).map_values(|m: Seq<char>| lower(trim(m))));
    out
}

/// Scans one enabled route's catalog into `cands` and returns the names found.
fn scan_route(
    entries: &Vec<Json>,
    selection: &Option<Vec<String>>,
    route_index: usize,
    provider_index: usize,
    cands: &mut Vec<ModelCandidate>,
) -> (found: Vec<String>)
    ensures
        ({
            let st = scan_entries(
                jviews(entries@),
                RouteScan { cands: cand_views(old(cands)@), seen: Seq::empty(), found: Seq::empty() },
                match selection {
                    Some(k) => Some(views(k@)),
                    None => None,
                },
                route_index as int,
                provider_index as int,
            );
            &&& cand_views(final(cands)@) == st.cands
            &&& views(found@) == st.found
        }),
{
    let ghost sel = match selection {
        Some(k) => Some(views(k@)),
        None => None::<Seq<Seq<char>>>,
    };
    let ghost ev = jviews(entries@);
    let ghost start = RouteScan { cands: cand_views(cands@), seen: Seq::empty(), found: Seq::empty() };
    proof {
        lemma_jviews_index(entries@);
    }
    let mut seen: Vec<String> = Vec::new();
    let mut found: Vec<String> = Vec::new();
    let mut i: usize = 0;
    assert(views(seen@) =~= Seq::<Seq<char>>::empty());
    assert(views(found@) =~= Seq::<Seq<char>>::empty());
    while i < entries.len()
        invariant
            i <= entries.len(),
            ev == jviews(entries@),
            ev.len() == entries@.len(),
            forall|k: int| 0 <= k < entries@.len() ==> #[trigger] ev[k] == jview(entries@[k]),
            sel == match selection {
                Some(k) => Some(views(k@)),
                None => None::<Seq<Seq<char>>>,
            },
            ({
                let st = scan_entries(ev.take(i as int), start, sel, route_index as int, provider_index as int);
                &&& cand_views(cands@) == st.cands
                &&& views(seen@) == st.seen
                &&& views(found@) == st.found
            }),
        decreases entries.len() - i,
    {
        assert(ev.take(i + 1).drop_last() =~= ev.take(i as int));
        assert(ev.take(i + 1).last() == jview(entries@[i as int]));
        let entry = &entries[i];
        let visible = match model_name(entry) {
            Some(v) => v,
            None => {
                i = i + 1;
                continue;
            },
        };
        let canonical = owned(visible.as_str());
        let upstream = upstream_model(entry, canonical.as_str());
        let vk = crate::text::to_lower(visible.as_str());
        let uk = crate::text::to_lower(upstream.as_str());
        let excluded = match selection {
            Some(keys) => !crate::text::contains_str(keys, vk.as_str()) && !crate::text::contains_str(keys, uk.as_str()),
            None => false,
        };
        if excluded || crate::text::contains_str(&seen, vk.as_str()) {
            i = i + 1;
            continue;
        }
        let ghost seen_before = views(seen@);
        let ghost found_before = views(found@);
        let ghost cands_before = cand_views(cands@);
        seen.push(owned(vk.as_str()));
        found.push(owned(vk.as_str()));
        found.push(vk);
        found.push(uk);
        cands.push(ModelCandidate {
            route_index,
            provider_index,
            visible_model: visible,
            canonical_model: canonical,
            upstream_model: upstream,
            model_entry: json_clone(entry),
        });
        assert(views(seen@) =~= seen_before.push(lower(visible@)));
        assert(views(found@) =~= found_before.push(lower(visible@)).push(lower(visible@)).push(lower(upstream@)));
        assert(cand_views(cands@) =~= cands_before.push(CandView {
            route_index: route_index as int,
            provider_index: provider_index as int,
            visible: visible@,
            canonical: visible@,
            upstream: upstream@,
            entry: jview(entries@[i as int]),
        }));
        i = i + 1;
    }
    assert(ev.take(entries.len() as int) =~= ev);
    found
}

fn not_found_keys(keys: &Vec<String>, found: &Vec<String>) -> (r: Vec<String>)
    ensures
        views(r@) == not_found(views(keys@), views(found@)),
{
    let mut out: Vec<String> = Vec::new();
    let mut i: usize = 0;
    while i < keys.len()
        invariant
            i <= keys.len(),
            views(out@) == not_found(views(keys@).take(i as int), views(found@)),
        decreases keys.len() - i,
    {
        assert(views(keys@).take(i + 1).drop_last() =~= views(keys@).take(i as int));
        assert(views(keys@).take(i + 1).last() == keys@[i as int]@);
        if !crate::text::contains_str(found, keys[i].as_str()) {
            let ghost before = views(out@);
            out.push(owned(keys[i].as_str()));
            assert(views(out@) =~= before.push(keys@[i as int]@));
        }
        i = i + 1;
    }
    assert(views(keys@).take(keys.len() as int) =~= views(keys@));
    out
}

fn missing_alias(aliases: &Vec<(String, String)>, found: &Vec<String>) -> (r: Option<String>)
    ensures
        opt_view(r) == first_missing_alias(aliases@, views(found@)),
{
    let mut i: usize = 0;
    assert(aliases@.skip(0) =~= aliases@);
    while i < aliases.len()
        invariant
            i <= aliases.len(),
            first_missing_alias(aliases@, views(found@)) == first_missing_alias(aliases@.skip(i as int), views(found@)),
        decreases aliases.len() - i,
    {
        assert(aliases@.skip(i as int).drop_first() =~= aliases@.skip(i + 1));
        assert(aliases@.skip(i as int)[0] == aliases@[i as int]);
        let t = trim_str(aliases[i].1.as_str());
        let k = crate::text::to_lower(t.as_str());
        if !crate::text::contains_str(found, k.as_str()) {
            return Some(t);
        }
        i = i + 1;
    }
    None
}

fn warning(code: &str, route_id: &str, message: String) -> (w: CompilerWarning)
    ensures
        warning_view(w) == (code@, Some(route_id@), message@),
{
    CompilerWarning { code: owned(code), route_id: Some(owned(route_id)), message }
}

fn missing_model_message(route: &CodexRoutingRouteV2, provider: &Provider, missing: &str) -> (r: String)
    ensures
        r@ == missing_model_warning(*route, *provider, missing@).2,
{
    let rd = route_display(route, Some(provider));
    let pd = provider_display(provider);
    let a = crate::text::concat3("route ", rd.as_str(), " keeps unavailable selected model `");
    let b = crate::text::concat3(a.as_str(), missing, "` from provider ");
    let r = crate::text::concat3(b.as_str(), pd.as_str(), "; it is excluded from the current projection");
    proof {
        reveal_strlit(" keeps unavailable selected model `");
        reveal_strlit(" keeps unavailable selected model ");
        reveal_strlit("` from provider ");
        reveal_strlit(" from provider ");
        reveal_strlit("`");
        assert(r@ =~= missing_model_warning(*route, *provider, missing@).2);
    }
    r
}

fn alias_message(route: &CodexRoutingRouteV2, provider: &Provider, target: &str) -> (r: String)
    ensures
        r@ == alias_warning(*route, *provider, target@).2,
{
    let rd = route_display(route, Some(provider));
    let pd = provider_display(provider);
    let a = crate::text::concat3("route ", rd.as_str(), " aliases model `");
    let b = crate::text::concat3(a.as_str(), target, "` which is not selected from provider ");
    let r = crate::text::concat(b.as_str(), pd.as_str());
    proof {
        reveal_strlit(" aliases model `");
        reveal_strlit(" aliases model ");
        reveal_strlit("` which is not selected from provider ");
        reveal_strlit(" which is not selected from provider ");
        reveal_strlit("`");
        assert(r@ =~= alias_warning(*route, *provider, target@).2);
    }
    r
}

fn missing_provider_message(route: &CodexRoutingRouteV2) -> (r: String)
    ensures
        r@ == "route "@ + route_display_of(*route, None) + " targets provider "@ + ticked(route.target_provider_id@) + " which does not exist"@,
{
    let rd = route_display(route, None);
    let a = crate::text::concat3("route ", rd.as_str(), " targets provider `");
    let r = crate::text::concat3(a.as_str(), route.target_provider_id.as_str(), "` which does not exist");
    proof {
        reveal_strlit(" targets provider `");
        reveal_strlit(" targets provider ");
        reveal_strlit("` which does not exist");
        reveal_strlit(" which does not exist");
        reveal_strlit("`");
        assert(r@ =~= "route "@ + route_display_of(*route, None) + " targets provider "@ + ticked(route.target_provider_id@) + " which does not exist"@);
    }
    r
}

/// The candidate models of every enabled route, in route and catalog order, with the
/// warnings about selected models and alias targets a provider does not offer; an
/// enabled route whose provider does not exist stops the compilation.
pub fn collect_candidates(
    plan: &CodexRoutingConfigV2,
    providers: &[Provider],
    warnings: &mut Vec<CompilerWarning>,
) -> (r: Result<Vec<ModelCandidate>, CodexRoutingCompileError>)
    ensures
        match collect_routes(*plan, providers@, plan.routes@.len()) {
            Ok((cands, ws)) => r is Ok && cand_views(r->Ok_0@) == cands && warning_views(final(warnings)@) == warning_views(old(warnings)@) + ws,
            Err((code, message)) => r is Err && r->Err_0.code@ == code && r->Err_0.message@ == message,
        },
        r is Ok ==> forall|k: int| 0 <= k < r->Ok_0@.len() ==> (#[trigger] r->Ok_0@[k]).provider_index < providers@.len() && r->Ok_0@[k].route_index < plan.routes@.len(),
{
    let ghost w0 = warning_views(warnings@);
    let mut cands: Vec<ModelCandidate> = Vec::new();
    let mut ri: usize = 0;
    assert(cand_views(cands@) =~= Seq::<CandView>::empty());
    assert(warning_views(warnings@) =~= w0 + Seq::empty());
    while ri < plan.routes.len()
        invariant
            ri <= plan.routes@.len(),
            collect_routes(*plan, providers@, ri as nat) is Ok,
            cand_views(cands@) == collect_routes(*plan, providers@, ri as nat)->Ok_0.0,
            warning_views(warnings@) == w0 + collect_routes(*plan, providers@, ri as nat)->Ok_0.1,
            forall|k: int| 0 <= k < cands@.len() ==> (#[trigger] cands@[k]).provider_index < providers@.len() && cands@[k].route_index < plan.routes@.len(),
        decreases plan.routes.len() - ri,
    {
        let route = &plan.routes[ri];
        if !route.enabled {
            ri = ri + 1;
            continue;
        }
        let pi = match find_provider(providers, route.target_provider_id.as_str()) {
            Some(pi) => pi,
            None => {
                let e = CodexRoutingCompileError {
                    code: owned("target_provider_missing"),
                    message: missing_provider_message(route),
                };
                proof {
                    let n = plan.routes@.len();
                    assert(collect_routes(*plan, providers@, (ri + 1) as nat) is Err);
                    lemma_collect_err_persists(*plan, providers@, (ri + 1) as nat, n as nat);
                }
                return Err(e);
            },
        };
        let provider = &providers[pi];
        let entries = provider_model_entries(provider);
        let selection: Option<Vec<String>> = match &route.model_selection {
            CodexModelSelection::All => None,
            CodexModelSelection::Include { models } => Some(lower_trimmed_keys(models)),
        };
        let ghost before_cands = cand_views(cands@);
        let found = scan_route(&entries, &selection, ri, pi, &mut cands);
        proof {
            assert forall|k: int| 0 <= k < cands@.len() implies (#[trigger] cands@[k]).provider_index < providers@.len() && cands@[k].route_index < plan.routes@.len() by {
                lemma_scan_positions(jviews(entries@), RouteScan { cands: before_cands, seen: Seq::empty(), found: Seq::empty() }, match selection { Some(k) => Some(views(k@)), None => None }, ri as int, pi as int, providers@.len() as int, plan.routes@.len() as int);
                assert(cand_views(cands@)[k] == cand_view(cands@[k]));
            }
        }
        let ghost wb = warning_views(warnings@);
        match &selection {
            Some(keys) => {
                let missing = crate::text::sorted_set_of(&not_found_keys(keys, &found));
                let mut m: usize = 0;
                while m < missing.len()
                    invariant
                        m <= missing.len(),
                        warning_views(warnings@) == wb + views(missing@).take(m as int).map_values(|x: Seq<char>| missing_model_warning(*route, *provider, x)),
                    decreases missing.len() - m,
                {
                    let message = missing_model_message(route, provider, missing[m].as_str());
                    let ghost before = warning_views(warnings@);
                    warnings.push(warning("selected_model_unavailable", route.id.as_str(), message));
                    assert(warning_views(warnings@) =~= before.push(missing_model_warning(*route, *provider, missing@[m as int]@)));
                    m = m + 1;
                    assert(views(missing@).take(m as int).map_values(|x: Seq<char>| missing_model_warning(*route, *provider, x)) =~= views(missing@).take(m - 1).map_values(|x: Seq<char>| missing_model_warning(*route, *provider, x)).push(missing_model_warning(*route, *provider, missing@[m - 1]@)));
                    assert(warning_views(warnings@) =~= wb + views(missing@).take(m as int).map_values(|x: Seq<char>| missing_model_warning(*route, *provider, x)));
                }
                assert(views(missing@).take(missing.len() as int) =~= views(missing@));
            },
            None => {
                assert(warning_views(warnings@) =~= wb + Seq::<Seq<char>>::empty().map_values(|x: Seq<char>| missing_model_warning(*route, *provider, x)));
            },
        }
        match missing_alias(&route.aliases, &found) {
            Some(t) => {
                let message = alias_message(route, provider, t.as_str());
                let ghost before = warning_views(warnings@);
                warnings.push(warning("alias_target_unavailable", route.id.as_str(), message));
                assert(warning_views(warnings@) =~= before.push(alias_warning(*route, *provider, t@)));
            },
            None => {},
        }
        proof {
            assert(selection_keys(route.model_selection) == match selection { Some(k) => Some(views(k@)), None => None::<Seq<Seq<char>>> });
        }
        assert(warning_views(warnings@) =~= w0 + collect_routes(*plan, providers@, (ri + 1) as nat)->Ok_0.1);
        ri = ri + 1;
    }
    Ok(cands)
}

proof fn lemma_collect_err_persists(plan: CodexRoutingConfigV2, providers: Seq<Provider>, m: nat, n: nat)
    requires
        m <= n,
        collect_routes(plan, providers, m) is Err,
    ensures
        collect_routes(plan, providers, n) == collect_routes(plan, providers, m),
    decreases n - m,
{
    if m < n {
        lemma_collect_err_persists(plan, providers, m, (n - 1) as nat);
    }
}

proof fn lemma_scan_positions(entries: Seq<JsonValue>, start: RouteScan, sel: Option<Seq<Seq<char>>>, ri: int, pi: int, np: int, nr: int)
    requires
        0 <= pi < np,
        0 <= ri < nr,
        forall|k: int| 0 <= k < start.cands.len() ==> (#[trigger] start.cands[k]).provider_index < np && start.cands[k].route_index < nr,
    ensures
        forall|k: int| 0 <= k < scan_entries(entries, start, sel, ri, pi).cands.len() ==> (#[trigger] scan_entries(entries, start, sel, ri, pi).cands[k]).provider_index < np && scan_entries(entries, start, sel, ri, pi).cands[k].route_index < nr,
    decreases entries.len(),
{
    if entries.len() > 0 {
        lemma_scan_positions(entries.drop_last(), start, sel, ri, pi, np, nr);
    }
}

// ---------------------------------------------------------------------------
// Compiling a plan
// ---------------------------------------------------------------------------

/// How many candidates share the canonical name `key` (lower case).
pub open spec fn collision_count(cs: Seq<CandView>, key: Seq<char>) -> nat
    decreases cs.len(),
{
    if cs.len() == 0 {
        0
    } else {
        collision_count(cs.drop_last(), key) + if lower(cs.last().canonical) == key {
            1nat
        } else {
            0nat
        }
    }
}

/// How many of those come from a canonical provider.
pub open spec fn owner_count(cs: Seq<CandView>, providers: Seq<Provider>, key: Seq<char>) -> nat
    decreases cs.len(),
{
    if cs.len() == 0 {
        0
    } else {
        owner_count(cs.drop_last(), providers, key) + if lower(cs.last().canonical) == key
            && canonical_provider(providers[cs.last().provider_index]) {
            1nat
        } else {
            0nat
        }
    }
}

/// The route's aliases for a candidate: those whose target is its canonical or
/// upstream name (ignoring case), trimmed, blank ones dropped.
pub open spec fn explicit_aliases(aliases: Seq<(String, String)>, c: CandView) -> Seq<Seq<char>>
    decreases aliases.len(),
{
    if aliases.len() == 0 {
        Seq::empty()
    } else {
        let r = explicit_aliases(aliases.drop_last(), c);
        let (alias, target) = aliases.last();
        if (eq_ignore_case(target@, c.canonical) || eq_ignore_case(target@, c.upstream)) && trim(alias@).len() > 0 {
            r.push(trim(alias@))
        } else {
            r
        }
    }
}

/// The names requested for candidate `i`: its aliases, else its automatic name.
pub open spec fn requested_names(plan: CodexRoutingConfigV2, providers: Seq<Provider>, cs: Seq<CandView>, i: int) -> Seq<Seq<char>> {
    let c = cs[i];
    let ex = explicit_aliases(plan.routes@[c.route_index].aliases@, c);
    if ex.len() == 0 {
        seq![automatic_name(
            c.visible,
            collision_count(cs, lower(c.canonical)) as int,
            owner_count(cs, providers, lower(c.canonical)) as int,
            providers[c.provider_index],
        )]
    } else {
        ex
    }
}

/// The visible name a requested name gets, given the names taken (in lower case).
pub open spec fn unique_name(used: Seq<Seq<char>>, requested: Seq<char>, provider: Provider) -> Seq<char> {
    if !used.contains(lower(trim(requested))) {
        trim(requested)
    } else {
        let base = trim(requested) + "-"@ + name_suffix(provider);
        numbered(base, choose|k: nat| first_free(used, base, k))
    }
}

proof fn lemma_first_free_unique(used: Seq<Seq<char>>, base: Seq<char>, k: nat)
    requires
        first_free(used, base, k),
    ensures
        (choose|j: nat| first_free(used, base, j)) == k,
{
    let j = choose|j: nat| first_free(used, base, j);
    assert(first_free(used, base, j));
    if j < k {
        assert(used.contains(lower(numbered(base, j))));
    } else if k < j {
        assert(used.contains(lower(numbered(base, k))));
    }
}

/// The naming state: (candidate, visible name) pairs, names taken, warnings.
pub struct NameState {
    pub pairs: Seq<(int, Seq<char>)>,
    pub used: Seq<Seq<char>>,
    pub warnings: Seq<(Seq<char>, Option<Seq<char>>, Seq<char>)>,
}

pub open spec fn name_step(st: NameState, plan: CodexRoutingConfigV2, providers: Seq<Provider>, cs: Seq<CandView>, ci: int, requested: Seq<char>) -> NameState {
    let c = cs[ci];
    let v = unique_name(st.used, requested, providers[c.provider_index]);
    NameState {
        pairs: st.pairs.push((ci, v)),
        used: st.used.push(lower(v)),
        warnings: if st.used.contains(lower(trim(requested))) {
            st.warnings.push(
                (
                    "visible_model_collision_resolved"@,
                    Some(plan.routes@[c.route_index].id@),
                    "visible model "@ + ticked(trim(requested)) + " was renamed to "@ + ticked(v),
                ),
            )
        } else {
            st.warnings
        },
    }
}

pub open spec fn name_all(st: NameState, plan: CodexRoutingConfigV2, providers: Seq<Provider>, cs: Seq<CandView>, ci: int, reqs: Seq<Seq<char>>) -> NameState
    decreases reqs.len(),
{
    if reqs.len() == 0 {
        st
    } else {
        name_step(name_all(st, plan, providers, cs, ci, reqs.drop_last()), plan, providers, cs, ci, reqs.last())
    }
}

/// Every candidate named, in order.
pub open spec fn naming(plan: CodexRoutingConfigV2, providers: Seq<Provider>, cs: Seq<CandView>, start: NameState, n: nat) -> NameState
    decreases n,
{
    if n == 0 {
        start
    } else {
        let st = naming(plan, providers, cs, start, (n - 1) as nat);
        name_all(st, plan, providers, cs, n - 1, requested_names(plan, providers, cs, n - 1))
    }
}

/// The compiled model for candidate `c` under visible name `v`.
pub open spec fn compiled_model_of(m: CompiledCodexModel, c: CandView, v: Seq<char>, plan: CodexRoutingConfigV2, providers: Seq<Provider>) -> bool {
    let p = providers[c.provider_index];
    &&& m.visible_model@ == v
    &&& m.canonical_model@ == c.canonical
    &&& m.upstream_model@ == c.upstream
    &&& m.display_name@ == display_name_of(c.entry, c.canonical)
    &&& m.target_provider_id@ == p.id@
    &&& m.route_id@ == plan.routes@[c.route_index].id@
    &&& (m.api_format@, m.api_format_source@) == api_format_of(p, c.entry)
    &&& m.sort_index == sort_index_of(c.entry)
    &&& capability_summary_of(m.capability_summary, p, c.entry)
}

/// The visible names a route contributes, in order.
pub open spec fn route_visible(pairs: Seq<(int, Seq<char>)>, cs: Seq<CandView>, ri: int) -> Seq<Seq<char>>
    decreases pairs.len(),
{
    if pairs.len() == 0 {
        Seq::empty()
    } else {
        let r = route_visible(pairs.drop_last(), cs, ri);
        if cs[pairs.last().0].route_index == ri {
            r.push(pairs.last().1)
        } else {
            r
        }
    }
}

/// The compiled route for plan route `route`.
pub open spec fn compiled_route_of(r: CompiledCodexRoute, route: CodexRoutingRouteV2, providers: Seq<Provider>, visible: Seq<Seq<char>>) -> bool {
    &&& r.id@ == route.id@
    &&& opt_view(r.label) == match opt_view(route.label) {
        Some(l) => Some(l),
        None => match provider_position(providers, route.target_provider_id@) {
            Some(pi) => nonblank_trimmed(Some(providers[pi].name@)),
            None => None,
        },
    }
    &&& r.enabled == route.enabled
    &&& r.target_provider_id@ == route.target_provider_id@
    &&& views(r.match_prefixes@) == views(route.match_prefixes@)
    &&& r.auth_policy.source == route.auth_policy.source
    &&& opt_view(r.auth_policy.account_id) == opt_view(route.auth_policy.account_id)
    &&& views(r.visible_models@) == visible
}

pub open spec fn keep_visible(models: Seq<Seq<char>>, visible: Seq<Seq<char>>) -> Seq<Seq<char>>
    decreases models.len(),
{
    if models.len() == 0 {
        Seq::empty()
    } else {
        let r = keep_visible(models.drop_last(), visible);
        if visible.contains(models.last()) {
            r.push(models.last())
        } else {
            r
        }
    }
}

/// The explicit order filled up, from the visible models in order, to five models.
pub open spec fn fill_to_five(explicit: Seq<Seq<char>>, visible: Seq<Seq<char>>) -> Seq<Seq<char>>
    decreases visible.len(),
{
    if visible.len() == 0 {
        explicit
    } else {
        let r = fill_to_five(explicit, visible.drop_last());
        if r.len() >= 5 || r.contains(visible.last()) {
            r
        } else {
            r.push(visible.last())
        }
    }
}

/// The models offered to spawned agents: the plan's preferred ones that are still
/// visible, in its order, then visible models up to five.
pub open spec fn spawn_agent_models_of(preferred: Seq<Seq<char>>, visible: Seq<Seq<char>>) -> Seq<Seq<char>> {
    fill_to_five(keep_visible(preferred, visible), visible)
}

pub open spec fn initial_names() -> NameState {
    NameState { pairs: Seq::empty(), used: Seq::empty(), warnings: Seq::empty() }
}

fn count_canonical(cands: &Vec<ModelCandidate>, providers: &[Provider], key: &str, owners_only: bool) -> (r: usize)
    requires
        forall|k: int| 0 <= k < cands@.len() ==> (#[trigger] cands@[k]).provider_index < providers@.len(),
    ensures
        owners_only ==> r == owner_count(cand_views(cands@), providers@, key@),
        !owners_only ==> r == collision_count(cand_views(cands@), key@),
{
    let ghost cs = cand_views(cands@);
    let mut n: usize = 0;
    let mut i: usize = 0;
    while i < cands.len()
        invariant
            i <= cands@.len(),
            cs == cand_views(cands@),
            forall|k: int| 0 <= k < cands@.len() ==> (#[trigger] cands@[k]).provider_index < providers@.len(),
            n <= i,
            owners_only ==> n == owner_count(cs.take(i as int), providers@, key@),
            !owners_only ==> n == collision_count(cs.take(i as int), key@),
        decreases cands.len() - i,
    {
        assert(cs.take(i + 1).drop_last() =~= cs.take(i as int));
        assert(cs.take(i + 1).last() == cand_view(cands@[i as int]));
        let c = &cands[i];
        let same = str_eq(crate::text::to_lower(c.canonical_model.as_str()).as_str(), key);
        if same && (!owners_only || is_canonical_provider(&providers[c.provider_index])) {
            n = n + 1;
        }
        i = i + 1;
    }
    assert(cs.take(cands.len() as int) =~= cs);
    n
}

fn aliases_for(aliases: &Vec<(String, String)>, canonical: &str, upstream: &str) -> (r: Vec<String>)
    ensures
        views(r@) == explicit_aliases(aliases@, CandView { route_index: 0, provider_index: 0, visible: Seq::empty(), canonical: canonical@, upstream: upstream@, entry: JsonValue::Null }),
{
    let ghost c = CandView { route_index: 0, provider_index: 0, visible: Seq::empty(), canonical: canonical@, upstream: upstream@, entry: JsonValue::Null };
    let mut out: Vec<String> = Vec::new();
    let mut i: usize = 0;
    while i < aliases.len()
        invariant
            i <= aliases.len(),
            c == (CandView { route_index: 0, provider_index: 0, visible: Seq::empty(), canonical: canonical@, upstream: upstream@, entry: JsonValue::Null }),
            views(out@) == explicit_aliases(aliases@.take(i as int), c),
        decreases aliases.len() - i,
    {
        assert(aliases@.take(i + 1).drop_last() =~= aliases@.take(i as int));
        assert(aliases@.take(i + 1).last() == aliases@[i as int]);
        let (alias, target) = (&aliases[i].0, &aliases[i].1);
        if crate::text::eq_ignore_ascii_case(target.as_str(), canonical) || crate::text::eq_ignore_ascii_case(target.as_str(), upstream) {
            let t = trim_str(alias.as_str());
            if t.as_str().unicode_len() > 0 {
                let ghost before = views(out@);
                out.push(t);
                assert(views(out@) =~= before.push(trim(alias@)));
            }
        }
        i = i + 1;
    }
    assert(aliases@.take(aliases.len() as int) =~= aliases@);
    out
}

proof fn lemma_explicit_aliases_depend_on_names(aliases: Seq<(String, String)>, a: CandView, b: CandView)
    requires
        a.canonical == b.canonical,
        a.upstream == b.upstream,
    ensures
        explicit_aliases(aliases, a) == explicit_aliases(aliases, b),
    decreases aliases.len(),
{
    if aliases.len() > 0 {
        lemma_explicit_aliases_depend_on_names(aliases.drop_last(), a, b);
    }
}

fn compile_model(c: &ModelCandidate, visible: String, plan: &CodexRoutingConfigV2, providers: &[Provider]) -> (m: CompiledCodexModel)
    requires
        c.provider_index < providers@.len(),
        c.route_index < plan.routes@.len(),
    ensures
        compiled_model_of(m, cand_view(*c), visible@, *plan, providers@),
{
    let p = &providers[c.provider_index];
    let (api_format, api_format_source) = effective_api_format(p, &c.model_entry);
    CompiledCodexModel {
        visible_model: visible,
        canonical_model: owned(c.canonical_model.as_str()),
        upstream_model: owned(c.upstream_model.as_str()),
        display_name: model_display_name(&c.model_entry, c.canonical_model.as_str()),
        target_provider_id: owned(p.id.as_str()),
        route_id: owned(plan.routes[c.route_index].id.as_str()),
        api_format,
        api_format_source,
        sort_index: model_sort_index(&c.model_entry),
        capability_summary: effective_capability_summary(p, &c.model_entry),
    }
}

fn compile_route(route: &CodexRoutingRouteV2, providers: &[Provider], visible: Vec<String>) -> (r: CompiledCodexRoute)
    ensures
        compiled_route_of(r, *route, providers@, views(visible@)),
{
    let label = match &route.label {
        Some(l) => Some(owned(l.as_str())),
        None => match find_provider(providers, route.target_provider_id.as_str()) {
            Some(pi) => nonblank_trim(Some(providers[pi].name.as_str())),
            None => None,
        },
    };
    let mut prefixes: Vec<String> = Vec::new();
    let mut i: usize = 0;
    while i < route.match_prefixes.len()
        invariant
            i <= route.match_prefixes@.len(),
            views(prefixes@) == views(route.match_prefixes@).take(i as int),
        decreases route.match_prefixes.len() - i,
    {
        let ghost before = views(prefixes@);
        prefixes.push(owned(route.match_prefixes[i].as_str()));
        assert(views(prefixes@) =~= before.push(route.match_prefixes@[i as int]@));
        i = i + 1;
        assert(views(prefixes@) =~= views(route.match_prefixes@).take(i as int));
    }
    assert(views(route.match_prefixes@).take(route.match_prefixes.len() as int) =~= views(route.match_prefixes@));
    CompiledCodexRoute {
        id: owned(route.id.as_str()),
        label,
        enabled: route.enabled,
        target_provider_id: owned(route.target_provider_id.as_str()),
        match_prefixes: prefixes,
        auth_policy: CodexRouteAuthPolicy {
            source: route.auth_policy.source,
            account_id: owned_opt(&route.auth_policy.account_id),
        },
        visible_models: visible,
    }
}

/// `out` is the compilation of `plan` against `providers`: every enabled route's
/// models (as `collect_candidates` finds them), each under its aliases or automatic
/// name made unique, the routes with their visible models, the models offered to
/// spawned agents, and the warnings of both steps.
pub open spec fn compiled_plan(plan: CodexRoutingConfigV2, providers: Seq<Provider>, out: CompiledCodexRoutingPlan) -> bool {
    match collect_routes(plan, providers, plan.routes@.len()) {
        Err(_) => false,
        Ok((cs, ws)) => {
            let st = naming(plan, providers, cs, initial_names(), cs.len());
            &&& out.model_catalog@.len() == st.pairs.len()
            &&& forall|k: int| 0 <= k < st.pairs.len() ==> compiled_model_of(#[trigger] out.model_catalog@[k], cs[st.pairs[k].0], st.pairs[k].1, plan, providers)
            &&& views(out.visible_models@) == st.pairs.map_values(|p: (int, Seq<char>)| p.1)
            &&& out.routes@.len() == plan.routes@.len()
            &&& forall|i: int| 0 <= i < plan.routes@.len() ==> compiled_route_of(#[trigger] out.routes@[i], plan.routes@[i], providers, route_visible(st.pairs, cs, i))
            &&& views(out.spawn_agent_models@) == spawn_agent_models_of(views(plan.spawn_agent_models@), views(out.visible_models@))
            &&& warning_views(out.warnings@) == ws + st.warnings
        },
    }
}

/// Compiles a schema-v2 plan against the providers it targets (see `compiled_plan`).
/// The dependency fingerprint is left empty for the caller to set.
pub fn compile_v2(plan: &CodexRoutingConfigV2, providers: &[Provider]) -> (r: Result<CompiledCodexRoutingPlan, CodexRoutingCompileError>)
    ensures
        match collect_routes(*plan, providers@, plan.routes@.len()) {
            Err((code, message)) => r is Err && r->Err_0.code@ == code && r->Err_0.message@ == message,
            Ok(_) => r is Ok && compiled_plan(*plan, providers@, r->Ok_0) && r->Ok_0.dependency_fingerprint@ == Seq::<char>::empty(),
        },
{
    let mut warnings: Vec<CompilerWarning> = Vec::new();
    let cands = match collect_candidates(plan, providers, &mut warnings) {
        Ok(c) => c,
        Err(e) => return Err(e),
    };
    let ghost cs = cand_views(cands@);
    let ghost ws = warning_views(warnings@);
    assert(ws =~= collect_routes(*plan, providers@, plan.routes@.len())->Ok_0.1);
    let mut used: Vec<String> = Vec::new();
    let mut models: Vec<CompiledCodexModel> = Vec::new();
    let mut pairs: Vec<(usize, String)> = Vec::new();
    let ghost pair_view = |p: (usize, String)| (p.0 as int, p.1@);
    assert(views(used@) =~= initial_names().used);
    let mut i: usize = 0;
    while i < cands.len()
        invariant
            i <= cands@.len(),
            cs == cand_views(cands@),
            forall|k: int| 0 <= k < cands@.len() ==> (#[trigger] cands@[k]).provider_index < providers@.len() && cands@[k].route_index < plan.routes@.len(),
            ({
                let st = naming(*plan, providers@, cs, initial_names(), i as nat);
                &&& pairs@.map_values(|p: (usize, String)| (p.0 as int, p.1@)) == st.pairs
                &&& views(used@) == st.used
                &&& warning_views(warnings@) == ws + st.warnings
                &&& models@.len() == st.pairs.len()
                &&& forall|k: int| 0 <= k < st.pairs.len() ==> compiled_model_of(#[trigger] models@[k], cs[st.pairs[k].0], st.pairs[k].1, *plan, providers@)
                &&& forall|k: int| 0 <= k < pairs@.len() ==> (#[trigger] pairs@[k]).0 < i
            }),
        decreases cands.len() - i,
    {
        let c = &cands[i];
        let route = &plan.routes[c.route_index];
        let provider = &providers[c.provider_index];
        let explicit = aliases_for(&route.aliases, c.canonical_model.as_str(), c.upstream_model.as_str());
        proof {
            lemma_explicit_aliases_depend_on_names(route.aliases@, cs[i as int], CandView { route_index: 0, provider_index: 0, visible: Seq::empty(), canonical: c.canonical_model@, upstream: c.upstream_model@, entry: JsonValue::Null });
        }
        let requested: Vec<String> = if explicit.len() == 0 {
            let key = crate::text::to_lower(c.canonical_model.as_str());
            let collisions = count_canonical(&cands, providers, key.as_str(), false);
            let owners = count_canonical(&cands, providers, key.as_str(), true);
            let name = automatic_visible_model(c.visible_model.as_str(), provider, collisions, owners);
            let v = vec![name];
            assert(views(v@) =~= seq![name@]);
            v
        } else {
            explicit
        };
        assert(views(requested@) == requested_names(*plan, providers@, cs, i as int));
        let ghost start = naming(*plan, providers@, cs, initial_names(), i as nat);
        let ghost reqs = views(requested@);
        let mut j: usize = 0;
        while j < requested.len()
            invariant
                i < cands@.len(),
                j <= requested@.len(),
                cs == cand_views(cands@),
                reqs == views(requested@),
                c == &cands@[i as int],
                c.provider_index < providers@.len(),
                c.route_index < plan.routes@.len(),
                provider == &providers@[c.provider_index as int],
                route == &plan.routes@[c.route_index as int],
                ({
                    let st = name_all(start, *plan, providers@, cs, i as int, reqs.take(j as int));
                    &&& pairs@.map_values(|p: (usize, String)| (p.0 as int, p.1@)) == st.pairs
                    &&& views(used@) == st.used
                    &&& warning_views(warnings@) == ws + st.warnings
                    &&& models@.len() == st.pairs.len()
                    &&& forall|k: int| 0 <= k < st.pairs.len() ==> compiled_model_of(#[trigger] models@[k], cs[st.pairs[k].0], st.pairs[k].1, *plan, providers@)
                    &&& forall|k: int| 0 <= k < pairs@.len() ==> (#[trigger] pairs@[k]).0 <= i
                }),
            decreases requested.len() - j,
        {
            assert(reqs.take(j + 1).drop_last() =~= reqs.take(j as int));
            assert(reqs.take(j + 1).last() == requested@[j as int]@);
            let ghost st0 = name_all(start, *plan, providers@, cs, i as int, reqs.take(j as int));
            let ghost w_before = warnings@;
            let ghost pairs_before = pairs@.map_values(|p: (usize, String)| (p.0 as int, p.1@));
            let v = unique_visible_model(requested[j].as_str(), provider, route.id.as_str(), &mut used, &mut warnings);
            proof {
                let base = trim(requested@[j as int]@) + "-"@ + name_suffix(*provider);
                if st0.used.contains(lower(trim(requested@[j as int]@))) {
                    let k = choose|k: nat| #[trigger] first_free(st0.used, base, k) && v@ == numbered(base, k);
                    lemma_first_free_unique(st0.used, base, k);
                }
                assert(v@ == unique_name(st0.used, requested@[j as int]@, providers@[cs[i as int].provider_index]));
                if st0.used.contains(lower(trim(requested@[j as int]@))) {
                    assert(warning_views(warnings@) =~= warning_views(w_before).push(warning_view(warnings@.last())));
                }
            }
            let m = compile_model(c, owned(v.as_str()), plan, providers);
            models.push(m);
            pairs.push((i, v));
            assert(pairs@.map_values(|p: (usize, String)| (p.0 as int, p.1@)) =~= pairs_before.push((i as int, pairs@.last().1@)));
            j = j + 1;
        }
        assert(reqs.take(requested.len() as int) =~= reqs);
        i = i + 1;
    }
    let ghost st = naming(*plan, providers@, cs, initial_names(), cs.len());
    // Routes with their visible models.
    let mut routes: Vec<CompiledCodexRoute> = Vec::new();
    let mut ri: usize = 0;
    while ri < plan.routes.len()
        invariant
            ri <= plan.routes@.len(),
            pairs@.map_values(|p: (usize, String)| (p.0 as int, p.1@)) == st.pairs,
            forall|k: int| 0 <= k < pairs@.len() ==> (#[trigger] pairs@[k]).0 < cands@.len(),
            cs == cand_views(cands@),
            routes@.len() == ri,
            forall|x: int| 0 <= x < ri ==> compiled_route_of(#[trigger] routes@[x], plan.routes@[x], providers@, route_visible(st.pairs, cs, x)),
        decreases plan.routes.len() - ri,
    {
        let mut visible: Vec<String> = Vec::new();
        let mut k: usize = 0;
        while k < pairs.len()
            invariant
                k <= pairs@.len(),
                pairs@.map_values(|p: (usize, String)| (p.0 as int, p.1@)) == st.pairs,
                forall|q: int| 0 <= q < pairs@.len() ==> (#[trigger] pairs@[q]).0 < cands@.len(),
                cs == cand_views(cands@),
                views(visible@) == route_visible(st.pairs.take(k as int), cs, ri as int),
            decreases pairs.len() - k,
        {
            assert(st.pairs.take(k + 1).drop_last() =~= st.pairs.take(k as int));
            assert(st.pairs.take(k + 1).last() == (pairs@[k as int].0 as int, pairs@[k as int].1@));
            if cands[pairs[k].0].route_index == ri {
                let ghost before = views(visible@);
                visible.push(owned(pairs[k].1.as_str()));
                assert(views(visible@) =~= before.push(pairs@[k as int].1@));
            }
            k = k + 1;
        }
        assert(st.pairs.take(pairs.len() as int) =~= st.pairs);
        routes.push(compile_route(&plan.routes[ri], providers, visible));
        ri = ri + 1;
    }
    // Visible models, in catalog order.
    let mut visible_models: Vec<String> = Vec::new();
    let mut k: usize = 0;
    while k < pairs.len()
        invariant
            k <= pairs@.len(),
            pairs@.map_values(|p: (usize, String)| (p.0 as int, p.1@)) == st.pairs,
            views(visible_models@) == st.pairs.map_values(|p: (int, Seq<char>)| p.1).take(k as int),
        decreases pairs.len() - k,
    {
        let ghost before = views(visible_models@);
        visible_models.push(owned(pairs[k].1.as_str()));
        assert(views(visible_models@) =~= before.push(pairs@[k as int].1@));
        k = k + 1;
        assert(views(visible_models@) =~= st.pairs.map_values(|p: (int, Seq<char>)| p.1).take(k as int));
    }
    assert(st.pairs.map_values(|p: (int, Seq<char>)| p.1).take(pairs.len() as int) =~= st.pairs.map_values(|p: (int, Seq<char>)| p.1));
    // Models for spawned agents.
    let ghost vis = views(visible_models@);
    let mut spawn: Vec<String> = Vec::new();
    let mut s: usize = 0;
    while s < plan.spawn_agent_models.len()
        invariant
            s <= plan.spawn_agent_models@.len(),
            vis == views(visible_models@),
            views(spawn@) == keep_visible(views(plan.spawn_agent_models@).take(s as int), vis),
        decreases plan.spawn_agent_models.len() - s,
    {
        assert(views(plan.spawn_agent_models@).take(s + 1).drop_last() =~= views(plan.spawn_agent_models@).take(s as int));
        assert(views(plan.spawn_agent_models@).take(s + 1).last() == plan.spawn_agent_models@[s as int]@);
        if crate::text::contains_str(&visible_models, plan.spawn_agent_models[s].as_str()) {
            let ghost before = views(spawn@);
            spawn.push(owned(plan.spawn_agent_models[s].as_str()));
            assert(views(spawn@) =~= before.push(plan.spawn_agent_models@[s as int]@));
        }
        s = s + 1;
    }
    assert(views(plan.spawn_agent_models@).take(plan.spawn_agent_models.len() as int) =~= views(plan.spawn_agent_models@));
    let ghost explicit = views(spawn@);
    let mut v: usize = 0;
    while v < visible_models.len()
        invariant
            v <= visible_models@.len(),
            vis == views(visible_models@),
            views(spawn@) == fill_to_five(explicit, vis.take(v as int)),
        decreases visible_models.len() - v,
    {
        assert(vis.take(v + 1).drop_last() =~= vis.take(v as int));
        assert(vis.take(v + 1).last() == visible_models@[v as int]@);
        if spawn.len() < 5 && !crate::text::contains_str(&spawn, visible_models[v].as_str()) {
            let ghost before = views(spawn@);
            spawn.push(owned(visible_models[v].as_str()));
            assert(views(spawn@) =~= before.push(visible_models@[v as int]@));
        }
        v = v + 1;
    }
    assert(vis.take(visible_models.len() as int) =~= vis);
    Ok(CompiledCodexRoutingPlan {
        routes,
        visible_models,
        model_catalog: models,
        spawn_agent_models: spawn,
        dependency_fingerprint: String::new(),
        warnings,
    })
}

/// The first warning that strict compilation refuses: a selected model or an alias
/// target the provider does not offer.
pub open spec fn first_blocking_warning(ws: Seq<(Seq<char>, Option<Seq<char>>, Seq<char>)>) -> Option<(Seq<char>, Option<Seq<char>>, Seq<char>)>
    decreases ws.len(),
{
    if ws.len() == 0 {
        None
    } else if ws[0].0 == "selected_model_unavailable"@ || ws[0].0 == "alias_target_unavailable"@ {
        Some(ws[0])
    } else {
        first_blocking_warning(ws.drop_first())
    }
}

/// The error a blocking warning becomes.
pub open spec fn blocking_error_code(code: Seq<char>) -> Seq<char> {
    if code == "selected_model_unavailable"@ {
        "selected_model_missing"@
    } else {
        "alias_target_missing"@
    }
}

/// Compiles a plan as `compile_v2` does, but refuses one whose routes select models or
/// alias targets their provider does not offer.
pub fn compile_v2_strict(plan: &CodexRoutingConfigV2, providers: &[Provider]) -> (r: Result<CompiledCodexRoutingPlan, CodexRoutingCompileError>)
    ensures
        match collect_routes(*plan, providers@, plan.routes@.len()) {
            Err((code, message)) => r is Err && r->Err_0.code@ == code && r->Err_0.message@ == message,
            Ok((cs, ws)) => {
                let all = ws + naming(*plan, providers@, cs, initial_names(), cs.len()).warnings;
                match first_blocking_warning(all) {
                    Some(w) => r is Err && r->Err_0.code@ == blocking_error_code(w.0) && r->Err_0.message@ == w.2,
                    None => r is Ok && warning_views(r->Ok_0.warnings@) == all && compiled_plan(*plan, providers@, r->Ok_0)
                        && r->Ok_0.dependency_fingerprint@ == Seq::<char>::empty(),
                }
            },
        },
{
    let compiled = match compile_v2(plan, providers) {
        Ok(c) => c,
        Err(e) => return Err(e),
    };
    let ghost wv = warning_views(compiled.warnings@);
    let mut i: usize = 0;
    assert(wv.skip(0) =~= wv);
    while i < compiled.warnings.len()
        invariant
            i <= compiled.warnings@.len(),
            wv == warning_views(compiled.warnings@),
            first_blocking_warning(wv) == first_blocking_warning(wv.skip(i as int)),
            match collect_routes(*plan, providers@, plan.routes@.len()) {
                Ok((cs, ws)) => wv == ws + naming(*plan, providers@, cs, initial_names(), cs.len()).warnings,
                Err(_) => false,
            },
        decreases compiled.warnings.len() - i,
    {
        assert(wv.skip(i as int).drop_first() =~= wv.skip(i + 1));
        assert(wv.skip(i as int)[0] == warning_view(compiled.warnings@[i as int]));
        let w = &compiled.warnings[i];
        let selected = str_eq(w.code.as_str(), "selected_model_unavailable");
        if selected || str_eq(w.code.as_str(), "alias_target_unavailable") {
            let code = if selected {
                owned("selected_model_missing")
            } else {
                owned("alias_target_missing")
            };
            return Err(CodexRoutingCompileError { code, message: owned(w.message.as_str()) });
        }
        i = i + 1;
    }
    Ok(compiled)
}

// ---------------------------------------------------------------------------
// Laws of compilation
// ---------------------------------------------------------------------------

proof fn lemma_first_free_from(used: Seq<Seq<char>>, base: Seq<char>, j: nat)
    requires
        1 <= j <= used.len() + 1,
        forall|i: nat| 1 <= i < j ==> used.contains(#[trigger] lower(numbered(base, i))),
        !(forall|i: nat| 1 <= i <= used.len() + 1 ==> used.contains(#[trigger] lower(numbered(base, i)))),
    ensures
        exists|k: nat| first_free(used, base, k),
    decreases used.len() + 1 - j,
{
    if !used.contains(lower(numbered(base, j))) {
        assert(first_free(used, base, j));
    } else {
        if j == used.len() + 1 {
            assert(forall|i: nat| 1 <= i <= used.len() + 1 ==> used.contains(#[trigger] lower(numbered(base, i))));
        } else {
            lemma_first_free_from(used, base, j + 1);
        }
    }
}

proof fn lemma_first_free_exists(used: Seq<Seq<char>>, base: Seq<char>)
    ensures
        exists|k: nat| first_free(used, base, k),
{
    lemma_some_number_free(used, base);
    lemma_first_free_from(used, base, 1);
}

/// A name given to a model is never one already taken (ignoring ASCII case).
pub proof fn unique_name_is_new(used: Seq<Seq<char>>, requested: Seq<char>, provider: Provider)
    ensures
        !used.contains(lower(unique_name(used, requested, provider))),
{
    if used.contains(lower(trim(requested))) {
        let base = trim(requested) + "-"@ + name_suffix(provider);
        lemma_first_free_exists(used, base);
        let k = choose|k: nat| first_free(used, base, k);
        assert(first_free(used, base, k));
    }
}

pub open spec fn lowered_names(pairs: Seq<(int, Seq<char>)>) -> Seq<Seq<char>> {
    pairs.map_values(|p: (int, Seq<char>)| lower(p.1))
}

proof fn lemma_name_all_distinct(st: NameState, plan: CodexRoutingConfigV2, providers: Seq<Provider>, cs: Seq<CandView>, ci: int, reqs: Seq<Seq<char>>)
    requires
        st.used == lowered_names(st.pairs),
        lowered_names(st.pairs).no_duplicates(),
    ensures
        name_all(st, plan, providers, cs, ci, reqs).used == lowered_names(name_all(st, plan, providers, cs, ci, reqs).pairs),
        lowered_names(name_all(st, plan, providers, cs, ci, reqs).pairs).no_duplicates(),
    decreases reqs.len(),
{
    if reqs.len() > 0 {
        lemma_name_all_distinct(st, plan, providers, cs, ci, reqs.drop_last());
        let prev = name_all(st, plan, providers, cs, ci, reqs.drop_last());
        let v = unique_name(prev.used, reqs.last(), providers[cs[ci].provider_index]);
        unique_name_is_new(prev.used, reqs.last(), providers[cs[ci].provider_index]);
        let next = name_step(prev, plan, providers, cs, ci, reqs.last());
        assert(lowered_names(next.pairs) =~= lowered_names(prev.pairs).push(lower(v)));
        let l = lowered_names(next.pairs);
        assert forall|a: int, b: int| 0 <= a < l.len() && 0 <= b < l.len() && a != b implies l[a] != l[b] by {
            if a == l.len() - 1 {
                assert(prev.used[b] == l[b]);
            } else if b == l.len() - 1 {
                assert(prev.used[a] == l[a]);
            }
        }
    }
}

proof fn lemma_naming_distinct(plan: CodexRoutingConfigV2, providers: Seq<Provider>, cs: Seq<CandView>, n: nat)
    ensures
        naming(plan, providers, cs, initial_names(), n).used == lowered_names(naming(plan, providers, cs, initial_names(), n).pairs),
        lowered_names(naming(plan, providers, cs, initial_names(), n).pairs).no_duplicates(),
    decreases n,
{
    if n == 0 {
        assert(lowered_names(Seq::<(int, Seq<char>)>::empty()) =~= Seq::<Seq<char>>::empty());
    } else {
        lemma_naming_distinct(plan, providers, cs, (n - 1) as nat);
        let st = naming(plan, providers, cs, initial_names(), (n - 1) as nat);
        lemma_name_all_distinct(st, plan, providers, cs, n - 1, requested_names(plan, providers, cs, n - 1));
    }
}

/// No two compiled models share a visible name, even ignoring ASCII case: colliding
/// names get the provider's suffix and, if still taken, a number.
pub proof fn compiled_visible_names_are_distinct(plan: CodexRoutingConfigV2, providers: Seq<Provider>)
    requires
        collect_routes(plan, providers, plan.routes@.len()) is Ok,
    ensures
        ({
            let cs = collect_routes(plan, providers, plan.routes@.len())->Ok_0.0;
            let pairs = naming(plan, providers, cs, initial_names(), cs.len()).pairs;
            forall|a: int, b: int| 0 <= a < b < pairs.len() ==> lower(#[trigger] pairs[a].1) != lower(#[trigger] pairs[b].1)
        }),
{
    let cs = collect_routes(plan, providers, plan.routes@.len())->Ok_0.0;
    lemma_naming_distinct(plan, providers, cs, cs.len());
    let pairs = naming(plan, providers, cs, initial_names(), cs.len()).pairs;
    assert forall|a: int, b: int| 0 <= a < b < pairs.len() implies lower(#[trigger] pairs[a].1) != lower(#[trigger] pairs[b].1) by {
        assert(lowered_names(pairs)[a] == lower(pairs[a].1));
        assert(lowered_names(pairs)[b] == lower(pairs[b].1));
    }
}

proof fn lemma_fill_members(explicit: Seq<Seq<char>>, visible: Seq<Seq<char>>)
    ensures
        forall|x: Seq<char>| #[trigger] fill_to_five(explicit, visible).contains(x) ==> explicit.contains(x) || visible.contains(x),
        fill_to_five(explicit, visible).len() <= if explicit.len() > 5 { explicit.len() } else { 5 },
    decreases visible.len(),
{
    if visible.len() > 0 {
        lemma_fill_members(explicit, visible.drop_last());
        let r = fill_to_five(explicit, visible.drop_last());
        assert forall|x: Seq<char>| #[trigger] fill_to_five(explicit, visible).contains(x) implies explicit.contains(x) || visible.contains(x) by {
            if r.contains(x) {
                if visible.drop_last().contains(x) {
                    let k = choose|k: int| 0 <= k < visible.drop_last().len() && visible.drop_last()[k] == x;
                    assert(visible[k] == x);
                }
            } else {
                let t = fill_to_five(explicit, visible);
                let k = choose|k: int| 0 <= k < t.len() && t[k] == x;
                if k < r.len() {
                    assert(t[k] == r[k]);
                } else {
                    assert(x == visible.last());
                    assert(visible[visible.len() - 1] == x);
                }
            }
        }
    }
}

proof fn lemma_keep_visible_members(models: Seq<Seq<char>>, visible: Seq<Seq<char>>)
    ensures
        forall|x: Seq<char>| #[trigger] keep_visible(models, visible).contains(x) ==> visible.contains(x),
        keep_visible(models, visible).len() <= models.len(),
    decreases models.len(),
{
    if models.len() > 0 {
        lemma_keep_visible_members(models.drop_last(), visible);
        let r = keep_visible(models.drop_last(), visible);
        assert forall|x: Seq<char>| #[trigger] keep_visible(models, visible).contains(x) implies visible.contains(x) by {
            let t = keep_visible(models, visible);
            let k = choose|k: int| 0 <= k < t.len() && t[k] == x;
            if k < r.len() {
                assert(t[k] == r[k]);
                assert(r.contains(x));
            }
        }
    }
}

/// Spawned agents are only offered visible models, never more than five beyond the
/// plan's own preferences, and the preferences that are still visible come first.
pub proof fn spawn_agent_models_are_visible(preferred: Seq<Seq<char>>, visible: Seq<Seq<char>>)
    ensures
        forall|x: Seq<char>| #[trigger] spawn_agent_models_of(preferred, visible).contains(x) ==> visible.contains(x),
        spawn_agent_models_of(preferred, visible).len() <= if preferred.len() > 5 { preferred.len() } else { 5 },
        spawn_agent_models_of(preferred, visible).take(keep_visible(preferred, visible).len() as int) == keep_visible(preferred, visible),
{
    lemma_keep_visible_members(preferred, visible);
    lemma_fill_members(keep_visible(preferred, visible), visible);
    lemma_fill_prefix(keep_visible(preferred, visible), visible);
}

proof fn lemma_fill_prefix(explicit: Seq<Seq<char>>, visible: Seq<Seq<char>>)
    ensures
        fill_to_five(explicit, visible).len() >= explicit.len(),
        fill_to_five(explicit, visible).take(explicit.len() as int) == explicit,
    decreases visible.len(),
{
    if visible.len() == 0 {
        assert(explicit.take(explicit.len() as int) =~= explicit);
    } else {
        lemma_fill_prefix(explicit, visible.drop_last());
        let r = fill_to_five(explicit, visible.drop_last());
        let t = fill_to_five(explicit, visible);
        assert(t.take(explicit.len() as int) =~= r.take(explicit.len() as int));
    }
}

} // verus!
