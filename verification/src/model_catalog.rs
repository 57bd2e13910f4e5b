//! The model catalog projection handed to the Codex Desktop renderer, the
//! fingerprint that tells the guardian when it changed, and the evidence the
//! renderer script reports back.
use vstd::prelude::*;
use crate::json::{
    Json, JsonValue, as_array, as_object, as_str, entries_get, entries_insert, entries_set, eviews,
    get, get_path, has_key, json_as_array, json_as_object, json_as_str, json_as_u64, json_clone,
    json_get, json_get_bool, json_get_str, jview, jviews, lemma_jviews_index, opt_array, opt_bool,
    opt_get, opt_str, opt_u64,
};
use crate::text::{
    chars_of, contains_str, opt_view, owned, str_eq, string_of, trim, trim_chars, views,
};

verus! {

/// The models the renderer is to show: the default model, the model names, and a
/// descriptor per model.
#[derive(Debug)]
pub struct CodexModelCatalogProjection {
    pub default_model: Option<String>,
    pub model_names: Vec<String>,
    pub models: Vec<Json>,
}

/// What the renderer script reports about the native history catalog sync.
#[derive(Debug, Clone, Copy, PartialEq, Eq, Structural)]
pub struct CodexAppCompatibilityEvidence {
    pub history_sync_requested: bool,
    pub history_catalog_complete: Option<bool>,
    pub history_catalog_count: Option<usize>,
}

/// Why the renderer script's result could not be read.
#[derive(Debug)]
pub enum CompatibilityScriptError {
    /// The script threw; the exception details as reported.
    ScriptFailed(Json),
    /// The evaluation carried no result value.
    NoValue,
}

// ---------------------------------------------------------------------------
// Model names and descriptors
// ---------------------------------------------------------------------------

/// A member holding a non-empty string after trimming, trimmed.
pub open spec fn name_field(entry: JsonValue, key: Seq<char>) -> Option<Seq<char>> {
    match opt_str(get(entry, key)) {
        Some(s) => if trim(s).len() > 0 {
            Some(trim(s))
        } else {
            None
        },
        None => None,
    }
}

/// The model name of a catalog entry: its `model`, `slug`, `id` or `name`, the first
/// that holds a non-empty string.
pub open spec fn model_name_of(entry: JsonValue) -> Option<Seq<char>> {
    if name_field(entry, "model"@) is Some {
        name_field(entry, "model"@)
    } else if name_field(entry, "slug"@) is Some {
        name_field(entry, "slug"@)
    } else if name_field(entry, "id"@) is Some {
        name_field(entry, "id"@)
    } else {
        name_field(entry, "name"@)
    }
}

fn name_field_of(entry: &Json, key: &str) -> (r: Option<String>)
    ensures
        match r {
            Some(s) => name_field(entry@, key@) == Some(s@),
            None => name_field(entry@, key@) is None,
        },
{
    match json_get_str(entry, key) {
        Some(s) => {
            let t = trim_chars(chars_of(s.as_str()).as_slice());
            if t.len() > 0 {
                Some(string_of(t.as_slice()))
            } else {
                None
            }
        },
        None => None,
    }
}

pub fn codex_model_name(entry: &Json) -> (r: Option<String>)
    ensures
        match r {
            Some(s) => model_name_of(entry@) == Some(s@),
            None => model_name_of(entry@) is None,
        },
{
    if let Some(n) = name_field_of(entry, "model") {
        return Some(n);
    }
    if let Some(n) = name_field_of(entry, "slug") {
        return Some(n);
    }
    if let Some(n) = name_field_of(entry, "id") {
        return Some(n);
    }
    name_field_of(entry, "name")
}

pub open spec fn text(s: Seq<char>) -> JsonValue {
    JsonValue::Text(s)
}

/// The descriptor the renderer consumes: the entry's members, its name under `model`,
/// `slug`, `id` and `name`, both spellings of the display name, and `hidden: false`.
pub open spec fn descriptor(entry: JsonValue, name: Seq<char>) -> JsonValue {
    let base = match as_object(entry) {
        Some(es) => es,
        None => Seq::empty(),
    };
    let named = entries_insert(
        entries_insert(
            entries_insert(entries_insert(base, "model"@, text(name)), "slug"@, text(name)),
            "id"@,
            text(name),
        ),
        "name"@,
        text(name),
    );
    let with_display = if has_key(named, "displayName"@) {
        named
    } else {
        entries_insert(
            named,
            "displayName"@,
            text(
                match opt_str(entries_get(named, "display_name"@)) {
                    Some(d) => d,
                    None => name,
                },
            ),
        )
    };
    let with_both = if has_key(with_display, "display_name"@) {
        with_display
    } else {
        entries_insert(
            with_display,
            "display_name"@,
            text(
                match opt_str(entries_get(with_display, "displayName"@)) {
                    Some(d) => d,
                    None => name,
                },
            ),
        )
    };
    JsonValue::Object(entries_insert(with_both, "hidden"@, JsonValue::Bool(false)))
}

fn text_json(s: &str) -> (r: Json)
    ensures
        r@ == text(s@),
{
    Json::Text(owned(s))
}

pub fn project_codex_model_descriptor(entry: &Json, model_name: &str) -> (r: Json)
    ensures
        r@ == descriptor(entry@, model_name@),
{
    let mut object: Vec<(String, Json)> = match json_as_object(entry) {
        Some(_) => {
            let c = json_clone(entry);
            match c {
                Json::Object(es2) => es2,
                _ => Vec::new(),
            }
        },
        None => Vec::new(),
    };
    assert(eviews(object@) == match as_object(entry@) {
        Some(es) => es,
        None => Seq::<(Seq<char>, JsonValue)>::empty(),
    });
    entries_set(&mut object, owned("model"), text_json(model_name));
    entries_set(&mut object, owned("slug"), text_json(model_name));
    entries_set(&mut object, owned("id"), text_json(model_name));
    entries_set(&mut object, owned("name"), text_json(model_name));
    if crate::json::entries_lookup(&object, "displayName").is_none() {
        let display = match crate::json::entries_lookup(&object, "display_name") {
            Some(v) => match json_as_str(v) {
                Some(d) => d.clone(),
                None => owned(model_name),
            },
            None => owned(model_name),
        };
        entries_set(&mut object, owned("displayName"), Json::Text(display));
    }
    if crate::json::entries_lookup(&object, "display_name").is_none() {
        let display = match crate::json::entries_lookup(&object, "displayName") {
            Some(v) => match json_as_str(v) {
                Some(d) => d.clone(),
                None => owned(model_name),
            },
            None => owned(model_name),
        };
        entries_set(&mut object, owned("display_name"), Json::Text(display));
    }
    entries_set(&mut object, owned("hidden"), Json::Bool(false));
    Json::Object(object)
}

// ---------------------------------------------------------------------------
// Catalog projection
// ---------------------------------------------------------------------------

/// The entries of a catalog: its `models` array, or the catalog itself when it is an array.
pub open spec fn catalog_entries(catalog: JsonValue) -> Seq<JsonValue> {
    match opt_array(get(catalog, "models"@)) {
        Some(a) => a,
        None => match as_array(catalog) {
            Some(a) => a,
            None => Seq::empty(),
        },
    }
}

/// The model names and descriptors of catalog entries, in order, each name once
/// (the first entry with a name wins); entries without a name are skipped.
pub open spec fn projected(entries: Seq<JsonValue>) -> (Seq<Seq<char>>, Seq<JsonValue>)
    decreases entries.len(),
{
    if entries.len() == 0 {
        (Seq::empty(), Seq::empty())
    } else {
        let r = projected(entries.drop_last());
        match model_name_of(entries.last()) {
            Some(n) => if r.0.contains(n) {
                r
            } else {
                (r.0.push(n), r.1.push(descriptor(entries.last(), n)))
            },
            None => r,
        }
    }
}

/// The names and descriptors of the models of a catalog value.
pub fn codex_model_entries_from_catalog_value(catalog: &Json) -> (r: (Vec<String>, Vec<Json>))
    ensures
        views(r.0@) == projected(catalog_entries(catalog@)).0,
        jviews(r.1@) == projected(catalog_entries(catalog@)).1,
{
    let entries: &Vec<Json> = match json_get(catalog, "models") {
        Some(m) => match json_as_array(m) {
            Some(a) => a,
            None => match json_as_array(catalog) {
                Some(a) => a,
                None => return (Vec::new(), Vec::new()),
            },
        },
        None => match json_as_array(catalog) {
            Some(a) => a,
            None => return (Vec::new(), Vec::new()),
        },
    };
    let ghost ev = jviews(entries@);
    proof {
        lemma_jviews_index(entries@);
    }
    assert(ev == catalog_entries(catalog@));
    let mut names: Vec<String> = Vec::new();
    let mut models: Vec<Json> = Vec::new();
    let mut i: usize = 0;
    while i < entries.len()
        invariant
            i <= entries.len(),
            ev == jviews(entries@),
            ev.len() == entries@.len(),
            forall|k: int| 0 <= k < entries@.len() ==> #[trigger] ev[k] == jview(entries@[k]),
            views(names@) == projected(ev.take(i as int)).0,
            jviews(models@) == projected(ev.take(i as int)).1,
        decreases entries.len() - i,
    {
        assert(ev.take(i + 1).drop_last() =~= ev.take(i as int));
        assert(ev.take(i + 1).last() == jview(entries@[i as int]));
        let entry = &entries[i];
        match codex_model_name(entry) {
            Some(name) => {
                if !contains_str(&names, name.as_str()) {
                    let d = project_codex_model_descriptor(entry, name.as_str());
                    let ghost old_names = views(names@);
                    let ghost old_models = models@;
                    names.push(name);
                    models.push(d);
                    assert(views(names@) =~= old_names.push(names@.last()@));
                    assert(models@.drop_last() =~= old_models);
                }
            },
            None => {},
        }
        i = i + 1;
    }
    assert(ev.take(entries.len() as int) =~= ev);
    (names, models)
}

/// The projection of one catalog value; `None` when it names no model, so that
/// the next source is tried. The default model is the configured one, else the first.
pub open spec fn projection_of(catalog: JsonValue, default_model: Option<Seq<char>>) -> Option<
    (Option<Seq<char>>, Seq<Seq<char>>, Seq<JsonValue>),
> {
    let p = projected(catalog_entries(catalog));
    if p.0.len() == 0 {
        None
    } else {
        Some(
            (
                match default_model {
                    Some(d) => Some(d),
                    None => Some(p.0[0]),
                },
                p.0,
                p.1,
            ),
        )
    }
}

pub open spec fn projection_view(p: CodexModelCatalogProjection) -> (
    Option<Seq<char>>,
    Seq<Seq<char>>,
    Seq<JsonValue>,
) {
    (
        match p.default_model {
            Some(d) => Some(d@),
            None => None,
        },
        views(p.model_names@),
        jviews(p.models@),
    )
}

pub fn codex_model_catalog_projection_from_value(
    catalog: &Json,
    default_model: Option<String>,
) -> (r: Option<CodexModelCatalogProjection>)
    ensures
        match r {
            Some(p) => projection_of(
                catalog@,
                opt_view(default_model),
            ) == Some(projection_view(p)),
            None => projection_of(
                catalog@,
                opt_view(default_model),
            ) is None,
        },
{
    let (model_names, models) = codex_model_entries_from_catalog_value(catalog);
    if model_names.len() == 0 {
        return None;
    }
    let default_model = match default_model {
        Some(d) => Some(d),
        None => Some(model_names[0].clone()),
    };
    Some(CodexModelCatalogProjection { default_model, model_names, models })
}

/// The first source, in order, that yields a projection.
pub open spec fn first_projection(sources: Seq<JsonValue>, default_model: Option<Seq<char>>) -> Option<
    (Option<Seq<char>>, Seq<Seq<char>>, Seq<JsonValue>),
>
    decreases sources.len(),
{
    if sources.len() == 0 {
        None
    } else if projection_of(sources[0], default_model) is Some {
        projection_of(sources[0], default_model)
    } else {
        first_projection(sources.drop_first(), default_model)
    }
}

/// Chooses the renderer projection from the catalog sources (the generated catalog,
/// the models cache, the active provider's inline models), first usable one wins.
pub fn first_catalog_projection(
    sources: &Vec<Json>,
    default_model: Option<String>,
) -> (r: Option<CodexModelCatalogProjection>)
    ensures
        match r {
            Some(p) => first_projection(
                jviews(sources@),
                opt_view(default_model),
            ) == Some(projection_view(p)),
            None => first_projection(
                jviews(sources@),
                opt_view(default_model),
            ) is None,
        },
{
    let ghost dm = opt_view(default_model);
    let ghost sv = jviews(sources@);
    proof {
        lemma_jviews_index(sources@);
    }
    assert(sv.skip(0) =~= sv);
    let mut i: usize = 0;
    while i < sources.len()
        invariant
            i <= sources.len(),
            sv == jviews(sources@),
            sv.len() == sources@.len(),
            forall|k: int| 0 <= k < sources@.len() ==> #[trigger] sv[k] == jview(sources@[k]),
            dm == opt_view(default_model),
            first_projection(sv, dm) == first_projection(sv.skip(i as int), dm),
        decreases sources.len() - i,
    {
        assert(sv.skip(i as int).drop_first() =~= sv.skip(i + 1));
        assert(sv.skip(i as int)[0] == jview(sources@[i as int]));
        let d = match &default_model {
            Some(d) => Some(d.clone()),
            None => None,
        };
        if let Some(p) = codex_model_catalog_projection_from_value(&sources[i], d) {
            return Some(p);
        }
        i = i + 1;
    }
    None
}

/// The models cache counts as a catalog source only when CCSwitchMulti wrote it.
pub open spec fn written_by_cc_switch(cache: JsonValue) -> bool {
    opt_str(get(cache, "etag"@)) == Some("cc-switch-model-catalog"@)
}

pub fn is_cc_switch_models_cache(cache: &Json) -> (r: bool)
    ensures
        r == written_by_cc_switch(cache@),
{
    match json_get_str(cache, "etag") {
        Some(tag) => str_eq(tag.as_str(), "cc-switch-model-catalog"),
        None => false,
    }
}

// ---------------------------------------------------------------------------
// Renderer evidence
// ---------------------------------------------------------------------------

pub open spec fn evidence_of(value: JsonValue) -> CodexAppCompatibilityEvidence {
    let sync = match get(value, "historySync"@) {
        Some(s) => s,
        None => JsonValue::Null,
    };
    CodexAppCompatibilityEvidence {
        history_sync_requested: match opt_bool(get(sync, "requested"@)) {
            Some(b) => b,
            None => false,
        },
        history_catalog_complete: opt_bool(get(sync, "complete"@)),
        history_catalog_count: match opt_u64(get(sync, "afterCount"@)) {
            Some(n) => if n <= usize::MAX {
                Some(n as usize)
            } else {
                None
            },
            None => None,
        },
    }
}

/// Reads the native history sync result out of a CDP `Runtime.evaluate` reply; a
/// script exception or a missing value is an error.
pub fn codex_app_compatibility_evidence_from_evaluation(evaluation: &Json) -> (r: Result<
    CodexAppCompatibilityEvidence,
    CompatibilityScriptError,
>)
    ensures
        match r {
            Ok(e) => {
                &&& opt_get(get(evaluation@, "result"@), "exceptionDetails"@) is None
                &&& get_path(evaluation@, seq!["result"@, "result"@, "value"@]) matches Some(v)
                &&& e == evidence_of(v)
            },
            Err(CompatibilityScriptError::ScriptFailed(x)) => opt_get(
                get(evaluation@, "result"@),
                "exceptionDetails"@,
            ) == Some(x@),
            Err(CompatibilityScriptError::NoValue) => {
                &&& opt_get(get(evaluation@, "result"@), "exceptionDetails"@) is None
                &&& get_path(evaluation@, seq!["result"@, "result"@, "value"@]) is None
            },
        },
{
    proof {
        reveal_with_fuel(get_path, 4);
    }
    let result = json_get(evaluation, "result");
    if let Some(res) = result {
        if let Some(exception) = json_get(res, "exceptionDetails") {
            return Err(CompatibilityScriptError::ScriptFailed(json_clone(exception)));
        }
    }
    let value = match result {
        Some(res) => match json_get(res, "result") {
            Some(inner) => match json_get(inner, "value") {
                Some(v) => v,
                None => return Err(CompatibilityScriptError::NoValue),
            },
            None => return Err(CompatibilityScriptError::NoValue),
        },
        None => return Err(CompatibilityScriptError::NoValue),
    };
    let null = Json::Null;
    let sync: &Json = match json_get(value, "historySync") {
        Some(s) => s,
        None => &null,
    };
    let requested = match json_get_bool(sync, "requested") {
        Some(b) => b,
        None => false,
    };
    let complete = json_get_bool(sync, "complete");
    let count = match json_get(sync, "afterCount") {
        Some(c) => match json_as_u64(c) {
            Some(n) => if n <= usize::MAX as u64 {
                Some(n as usize)
            } else {
                None
            },
            None => None,
        },
        None => None,
    };
    Ok(CodexAppCompatibilityEvidence {
        history_sync_requested: requested,
        history_catalog_complete: complete,
        history_catalog_count: count,
    })
}

// ---------------------------------------------------------------------------
// Fingerprint
// ---------------------------------------------------------------------------

/// The SHA-256 digest of `bytes` (`sha2::Sha256::digest`).
pub uninterp spec fn sha256_of(bytes: Seq<u8>) -> Seq<u8>;

/// Trusted: `sha2::Sha256::digest` of the bytes, as a vector. The contract names the
/// digest and states only its documented length of 32 bytes.
#[verifier::external_body]
pub(crate) fn sha256_digest(bytes: &[u8]) -> (r: Vec<u8>)
    ensures
        r@ == sha256_of(bytes@),
        r@.len() == 32,
{
    <sha2::Sha256 as sha2::Digest>::digest(bytes).to_vec()
}

pub open spec fn hex_digit(n: u8) -> char {
    if n < 10 {
        ((n as u32) + ('0' as u32)) as char
    } else {
        ((n as u32) - 10 + ('a' as u32)) as char
    }
}

/// Lower-case hexadecimal, two digits per byte (`format!("{:x}", digest)`).
pub open spec fn hex_lower(bytes: Seq<u8>) -> Seq<char>
    decreases bytes.len(),
{
    if bytes.len() == 0 {
        Seq::empty()
    } else {
        hex_lower(bytes.drop_last()) + seq![hex_digit(bytes.last() / 16), hex_digit(bytes.last() % 16)]
    }
}

fn hex_char(n: u8) -> (c: char)
    requires
        n < 16,
    ensures
        c == hex_digit(n),
{
    if n < 10 {
        (n + 48) as char
    } else {
        (n - 10 + 97) as char
    }
}

pub fn hex_lower_string(bytes: &[u8]) -> (r: String)
    ensures
        r@ == hex_lower(bytes@),
{
    let mut out: Vec<char> = Vec::new();
    let mut i: usize = 0;
    while i < bytes.len()
        invariant
            i <= bytes.len(),
            out@ == hex_lower(bytes@.take(i as int)),
        decreases bytes.len() - i,
    {
        let b = bytes[i];
        out.push(hex_char(b / 16));
        out.push(hex_char(b % 16));
        assert(bytes@.take(i + 1).drop_last() =~= bytes@.take(i as int));
        i = i + 1;
        assert(out@ =~= hex_lower(bytes@.take(i as int)));
    }
    assert(bytes@.take(bytes.len() as int) =~= bytes@);
    string_of(out.as_slice())
}

/// The fingerprint of a serialized projection: its SHA-256 in lower-case hex.
pub fn catalog_fingerprint(serialized_projection: &[u8]) -> (r: String)
    ensures
        r@ == hex_lower(sha256_of(serialized_projection@)),
        r@.len() == 64,
{
    let digest = sha256_digest(serialized_projection);
    let r = hex_lower_string(digest.as_slice());
    proof {
        lemma_hex_len(digest@);
    }
    r
}

proof fn lemma_hex_len(bytes: Seq<u8>)
    ensures
        hex_lower(bytes).len() == 2 * bytes.len(),
    decreases bytes.len(),
{
    if bytes.len() > 0 {
        lemma_hex_len(bytes.drop_last());
    }
}

} // verus!
