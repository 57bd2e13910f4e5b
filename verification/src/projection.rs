//! The Codex MultiRouter projection: the model catalog a compiled plan publishes into
//! Codex's live settings, and the decisions around publishing it and reading it back.
//!
//! Reading providers and stored status, publishing, and reading back are done by the
//! caller; this module decides what to do and what the outcome means.
use vstd::prelude::*;
use crate::compiler::{
    compile_v2, compile_v2_strict, CodexRouteAuthSource, CodexRoutingConfigV2, CompiledCodexModel,
    CompiledCodexRoute, CompiledCodexRoutingPlan, Provider,
};
use crate::json::{
    eviews, get, is_object_or_null, json_clone, json_get, json_set, jview, jviews, set_member,
    Json, JsonNumber, JsonValue,
};
use crate::text::{opt_view, owned, owned_opt, str_eq, views};

verus! {

/// The key under which a router's projection status is stored.
pub const PROJECTION_SETTING_PREFIX: &'static str = "codex_multirouter_projection:";

/// Whether Codex's live projection matches the current providers.
#[derive(Debug, Clone, Copy, PartialEq, Eq, Structural)]
pub enum ProjectionState {
    Ready,
    Pending,
    NotRequired,
}

/// Where each capability of a projected model came from.
#[derive(Debug, Clone)]
pub struct ProjectionCapabilitySources {
    pub context_window: String,
    pub input_modalities: String,
    pub reasoning: String,
    pub codex_cache: String,
}

/// How one visible model is routed, for diagnostics.
#[derive(Debug, Clone)]
pub struct ProjectionRouteDiagnostic {
    pub route_id: String,
    pub route_label: Option<String>,
    pub target_provider_id: String,
    pub target_provider_name: String,
    pub visible_model: String,
    pub canonical_model: String,
    pub upstream_model: String,
    pub api_format: String,
    pub api_format_source: String,
    pub auth_owner: String,
    pub capability_sources: ProjectionCapabilitySources,
}

/// The stored status of a router's projection.
#[derive(Debug, Clone)]
pub struct CodexRoutingProjectionStatus {
    pub schema_version: u32,
    pub router_provider_id: String,
    pub state: ProjectionState,
    pub dependency_fingerprint: String,
    pub generated_at: String,
    pub warnings: Vec<String>,
    pub routes: Vec<ProjectionRouteDiagnostic>,
    pub last_error_code: Option<String>,
    pub last_error: Option<String>,
}

/// What reading Codex's live projection back found.
#[derive(Debug, Clone)]
pub struct ProjectionReadBack {
    pub dependency_fingerprint: String,
    pub catalog_verified: bool,
    pub config_verified: bool,
    pub cache_verified: bool,
    pub agent_files_verified: bool,
}

impl ProjectionReadBack {
    /// A read-back in which every part was verified, for the given fingerprint.
    pub fn verified(dependency_fingerprint: String) -> (r: ProjectionReadBack)
        ensures
            r.dependency_fingerprint@ == dependency_fingerprint@,
            r.catalog_verified,
            r.config_verified,
            r.cache_verified,
            r.agent_files_verified,
    {
        ProjectionReadBack {
            dependency_fingerprint,
            catalog_verified: true,
            config_verified: true,
            cache_verified: true,
            agent_files_verified: true,
        }
    }

    /// The read-back matches the expected fingerprint and verified every part.
    pub open spec fn agrees(self, expected: Seq<char>) -> bool {
        &&& self.dependency_fingerprint@ == expected
        &&& self.catalog_verified
        &&& self.config_verified
        &&& self.cache_verified
        &&& self.agent_files_verified
    }

    pub fn agrees_with(&self, expected: &str) -> (r: bool)
        ensures
            r == self.agrees(expected@),
    {
        str_eq(self.dependency_fingerprint.as_str(), expected) && self.catalog_verified
            && self.config_verified && self.cache_verified && self.agent_files_verified
    }
}

/// The settings key of a router's projection status.
pub fn projection_setting_key(router_provider_id: &str) -> (r: String)
    ensures
        r@ == PROJECTION_SETTING_PREFIX@ + router_provider_id@,
{
    crate::text::concat(PROJECTION_SETTING_PREFIX, router_provider_id)
}

// ---------------------------------------------------------------------------
// Decisions
// ---------------------------------------------------------------------------

/// A state with the error code and message that explain it.
#[derive(Debug, Clone)]
pub struct ProjectionVerdict {
    pub state: ProjectionState,
    pub error_code: Option<String>,
    pub error: Option<String>,
}

pub open spec fn verdict_is(v: ProjectionVerdict, state: ProjectionState, code: Option<Seq<char>>, error: Option<Seq<char>>) -> bool {
    v.state == state && opt_view(v.error_code) == code && opt_view(v.error) == error
}

fn verdict(state: ProjectionState, code: Option<&str>, error: Option<&str>) -> (v: ProjectionVerdict)
    ensures
        verdict_is(v, state, crate::history::sview(code), crate::history::sview(error)),
{
    ProjectionVerdict {
        state,
        error_code: match code {
            Some(c) => Some(owned(c)),
            None => None,
        },
        error: match error {
            Some(e) => Some(owned(e)),
            None => None,
        },
    }
}

pub open spec fn rb_view(o: Option<&ProjectionReadBack>) -> Option<ProjectionReadBack> {
    match o {
        Some(r) => Some(*r),
        None => None,
    }
}

/// What an inspection of a router's live projection reports: an inactive router needs
/// none; an active one is ready when the read-back agrees with the current
/// fingerprint, and pending when it differs or could not be read (`None`).
pub fn inspect_codex_multirouter_projection(
    router_is_active: bool,
    read_back: Option<&ProjectionReadBack>,
    dependency_fingerprint: &str,
) -> (v: ProjectionVerdict)
    ensures
        !router_is_active ==> verdict_is(
            v,
            ProjectionState::NotRequired,
            Some("projection_inactive"@),
            Some("This Router is inactive; its shared live projection will be generated when activated"@),
        ),
        router_is_active && rb_view(read_back) is Some && rb_view(read_back)->0.agrees(dependency_fingerprint@)
            ==> verdict_is(v, ProjectionState::Ready, None, None),
        router_is_active && rb_view(read_back) is Some && !rb_view(read_back)->0.agrees(dependency_fingerprint@)
            ==> verdict_is(
            v,
            ProjectionState::Pending,
            Some("projection_live_drift"@),
            Some("Codex live catalog, config, cache, or managed Agent files differ from the current Provider-derived projection"@),
        ),
        router_is_active && rb_view(read_back) is None ==> verdict_is(
            v,
            ProjectionState::Pending,
            Some("projection_readback_failed"@),
            Some("Codex live projection could not be read back; retry is available"@),
        ),
{
    if !router_is_active {
        return verdict(
            ProjectionState::NotRequired,
            Some("projection_inactive"),
            Some("This Router is inactive; its shared live projection will be generated when activated"),
        );
    }
    match read_back {
        Some(rb) => if rb.agrees_with(dependency_fingerprint) {
            verdict(ProjectionState::Ready, None, None)
        } else {
            verdict(
                ProjectionState::Pending,
                Some("projection_live_drift"),
                Some("Codex live catalog, config, cache, or managed Agent files differ from the current Provider-derived projection"),
            )
        },
        None => verdict(
            ProjectionState::Pending,
            Some("projection_readback_failed"),
            Some("Codex live projection could not be read back; retry is available"),
        ),
    }
}

/// The outcome of a publish: ready when the read-back agrees with the fingerprint,
/// pending when it does not, pending when the publish failed (`None`).
pub fn publish_verdict(read_back: Option<&ProjectionReadBack>, dependency_fingerprint: &str) -> (v: ProjectionVerdict)
    ensures
        rb_view(read_back) is Some && rb_view(read_back)->0.agrees(dependency_fingerprint@) ==> verdict_is(v, ProjectionState::Ready, None, None),
        rb_view(read_back) is Some && !rb_view(read_back)->0.agrees(dependency_fingerprint@) ==> verdict_is(
            v,
            ProjectionState::Pending,
            Some("projection_readback_mismatch"@),
            Some("Codex MultiRouter projection read-back did not match the current Provider dependencies; retry is available"@),
        ),
        rb_view(read_back) is None ==> verdict_is(
            v,
            ProjectionState::Pending,
            Some("projection_publish_failed"@),
            Some("Codex MultiRouter projection publish failed; the database remains authoritative and retry is available"@),
        ),
{
    match read_back {
        Some(rb) => if rb.agrees_with(dependency_fingerprint) {
            verdict(ProjectionState::Ready, None, None)
        } else {
            verdict(
                ProjectionState::Pending,
                Some("projection_readback_mismatch"),
                Some("Codex MultiRouter projection read-back did not match the current Provider dependencies; retry is available"),
            )
        },
        None => verdict(
            ProjectionState::Pending,
            Some("projection_publish_failed"),
            Some("Codex MultiRouter projection publish failed; the database remains authoritative and retry is available"),
        ),
    }
}

/// What ensuring a projection does next.
#[derive(Debug, Clone, Copy, PartialEq, Eq, Structural)]
pub enum ProjectionStep {
    /// The stored status is ready for the current fingerprint; keep it.
    Reuse,
    /// Publish the projection and record the outcome.
    Publish,
}

pub open spec fn status_view(o: Option<&CodexRoutingProjectionStatus>) -> Option<CodexRoutingProjectionStatus> {
    match o {
        Some(s) => Some(*s),
        None => None,
    }
}

/// Ensuring a router's projection: refused unless the router is the active one; a
/// stored status that is ready for the current fingerprint is kept unless `force`;
/// otherwise the projection is published.
pub fn ensure_codex_multirouter_projection(
    active_router_id: Option<&str>,
    router_provider_id: &str,
    force: bool,
    stored: Option<&CodexRoutingProjectionStatus>,
    dependency_fingerprint: &str,
) -> (r: Result<ProjectionStep, String>)
    ensures
        crate::history::sview(active_router_id) != Some(router_provider_id@) ==> r is Err && r->Err_0@
            == "codex_multirouter_projection_not_active: activate Router "@ + router_provider_id@
            + " before publishing its shared live projection"@,
        crate::history::sview(active_router_id) == Some(router_provider_id@) ==> r is Ok && (r->Ok_0
            == ProjectionStep::Reuse <==> (!force && status_view(stored) is Some && status_view(stored)->0.state
            == ProjectionState::Ready && status_view(stored)->0.dependency_fingerprint@ == dependency_fingerprint@)),
{
    let active = match active_router_id {
        Some(a) => str_eq(a, router_provider_id),
        None => false,
    };
    if !active {
        return Err(
            crate::text::concat3(
                "codex_multirouter_projection_not_active: activate Router ",
                router_provider_id,
                " before publishing its shared live projection",
            ),
        );
    }
    if !force {
        match stored {
            Some(status) => {
                if status.state == ProjectionState::Ready && str_eq(
                    status.dependency_fingerprint.as_str(),
                    dependency_fingerprint,
                ) {
                    return Ok(ProjectionStep::Reuse);
                }
            },
            None => {},
        }
    }
    Ok(ProjectionStep::Publish)
}

/// The router whose projection is inspected when none is named: the active Codex
/// router, when it exists and holds a schema-v2 plan.
pub fn inspect_active_codex_multirouter_projection(
    active_router_id: Option<&str>,
    router_exists: bool,
    router_is_schema_v2: bool,
) -> (r: Option<String>)
    ensures
        opt_view(r) == if crate::history::sview(active_router_id) is Some && router_exists && router_is_schema_v2 {
            crate::history::sview(active_router_id)
        } else {
            None
        },
{
    match active_router_id {
        Some(id) => if router_exists && router_is_schema_v2 {
            Some(owned(id))
        } else {
            None
        },
        None => None,
    }
}

/// The name of the party that authenticates a route.
pub open spec fn auth_owner_name(source: CodexRouteAuthSource) -> Seq<char> {
    match source {
        CodexRouteAuthSource::ProviderConfig => "provider_config"@,
        CodexRouteAuthSource::ManagedAccount => "managed_account"@,
        CodexRouteAuthSource::ManagedCodexOauth => "managed_codex_oauth"@,
        CodexRouteAuthSource::NativeCodexAuth => "native_codex_auth"@,
        CodexRouteAuthSource::AccountPool => "account_pool"@,
    }
}

pub fn auth_owner(source: CodexRouteAuthSource) -> (r: &'static str)
    ensures
        r@ == auth_owner_name(source),
{
    match source {
        CodexRouteAuthSource::ProviderConfig => "provider_config",
        CodexRouteAuthSource::ManagedAccount => "managed_account",
        CodexRouteAuthSource::ManagedCodexOauth => "managed_codex_oauth",
        CodexRouteAuthSource::NativeCodexAuth => "native_codex_auth",
        CodexRouteAuthSource::AccountPool => "account_pool",
    }
}


// ---------------------------------------------------------------------------
// The projected model catalog
// ---------------------------------------------------------------------------

/// One member, when there is a value for it.
pub open spec fn opt_member(key: Seq<char>, v: Option<JsonValue>) -> Seq<(Seq<char>, JsonValue)> {
    match v {
        Some(x) => seq![(key, x)],
        None => Seq::empty(),
    }
}

/// A list of strings as JSON text values.
pub open spec fn text_values(s: Seq<Seq<char>>) -> Seq<JsonValue> {
    s.map_values(|x: Seq<char>| JsonValue::Text(x))
}

pub open spec fn opt_unsigned(o: Option<u64>) -> Option<JsonValue> {
    match o {
        Some(n) => Some(JsonValue::Unsigned(n)),
        None => None,
    }
}

/// The catalog entry that Codex reads for one compiled model. `sort_index` is set only
/// when the source catalog has a custom order.
pub open spec fn projected_entry(m: CompiledCodexModel, sort_index: Option<u64>) -> JsonValue {
    let c = m.capability_summary;
    JsonValue::Object(
        seq![("model"@, JsonValue::Text(m.visible_model@))]
        + opt_member("sortIndex"@, opt_unsigned(sort_index))
        + seq![("upstreamModel"@, JsonValue::Text(m.upstream_model@))]
        + seq![("displayName"@, JsonValue::Text(m.display_name@))]
        + seq![("apiFormat"@, JsonValue::Text(m.api_format@))]
        + opt_member("contextWindow"@, opt_unsigned(c.context_window))
        + (if c.input_modalities@.len() > 0 {
            seq![("inputModalities"@, JsonValue::Array(text_values(views(c.input_modalities@))))]
        } else {
            Seq::empty()
        })
        + opt_member("reasoning"@, crate::compiler::opt_jview(c.reasoning))
        + opt_member("codexCache"@, crate::compiler::opt_jview(c.codex_cache))
        + opt_member("supportsParallelToolCalls"@, match c.supports_parallel_tool_calls {
            Some(b) => Some(JsonValue::Bool(b)),
            None => None,
        })
        + opt_member("baseInstructions"@, match c.base_instructions {
            Some(t) => Some(JsonValue::Text(t@)),
            None => None,
        })
        + opt_member("codexUltra"@, crate::compiler::opt_jview(c.codex_ultra)),
    )
}

proof fn lemma_eviews_push(es: Seq<(String, Json)>, e: (String, Json))
    ensures
        eviews(es.push(e)) == eviews(es).push((e.0@, jview(e.1))),
{
    assert(es.push(e).drop_last() =~= es);
}

fn push_member(es: &mut Vec<(String, Json)>, key: &str, value: Json)
    ensures
        eviews(final(es)@) == eviews(old(es)@) + seq![(key@, value@)],
{
    let ghost before = es@;
    let ghost vv = value@;
    let entry = (owned(key), value);
    proof {
        lemma_eviews_push(before, entry);
    }
    es.push(entry);
    assert(eviews(before).push((key@, vv)) =~= eviews(before) + seq![(key@, vv)]);
}

fn push_opt_member(es: &mut Vec<(String, Json)>, key: &str, value: Option<Json>)
    ensures
        eviews(final(es)@) == eviews(old(es)@) + opt_member(key@, crate::compiler::opt_jview(value)),
{
    match value {
        Some(v) => push_member(es, key, v),
        None => {
            assert(eviews(es@) + Seq::<(Seq<char>, JsonValue)>::empty() =~= eviews(es@));
        },
    }
}

fn text_array(v: &Vec<String>) -> (r: Json)
    ensures
        r@ == JsonValue::Array(text_values(views(v@))),
{
    let mut out: Vec<Json> = Vec::new();
    let mut i: usize = 0;
    while i < v.len()
        invariant
            i <= v.len(),
            jviews(out@) == text_values(views(v@)).take(i as int),
        decreases v.len() - i,
    {
        let ghost before = out@;
        let t = Json::Text(v[i].clone());
        assert(jview(t) == JsonValue::Text(v@[i as int]@));
        out.push(t);
        assert(out@.drop_last() =~= before);
        assert(jviews(out@) == jviews(before).push(JsonValue::Text(v@[i as int]@)));
        assert(views(v@)[i as int] == v@[i as int]@);
        assert(text_values(views(v@)).take(i + 1) =~= text_values(views(v@)).take(i as int).push(
            JsonValue::Text(v@[i as int]@),
        ));
        i = i + 1;
    }
    assert(text_values(views(v@)).take(v.len() as int) =~= text_values(views(v@)));
    Json::Array(out)
}

fn clone_json_opt(o: &Option<Json>) -> (r: Option<Json>)
    ensures
        crate::compiler::opt_jview(r) == crate::compiler::opt_jview(*o),
{
    match o {
        Some(j) => Some(json_clone(j)),
        None => None,
    }
}

/// The catalog entry of one compiled model.
pub fn projected_model_entry(model: &CompiledCodexModel, sort_index: Option<usize>) -> (r: Json)
    ensures
        r@ == projected_entry(*model, match sort_index {
            Some(k) => Some(k as u64),
            None => None,
        }),
{
    let c = &model.capability_summary;
    let mut es: Vec<(String, Json)> = Vec::new();
    push_member(&mut es, "model", Json::Text(model.visible_model.clone()));
    push_opt_member(&mut es, "sortIndex", match sort_index {
        Some(k) => Some(Json::Number(JsonNumber::Unsigned(k as u64))),
        None => None,
    });
    push_member(&mut es, "upstreamModel", Json::Text(model.upstream_model.clone()));
    push_member(&mut es, "displayName", Json::Text(model.display_name.clone()));
    push_member(&mut es, "apiFormat", Json::Text(model.api_format.clone()));
    push_opt_member(&mut es, "contextWindow", match c.context_window {
        Some(n) => Some(Json::Number(JsonNumber::Unsigned(n))),
        None => None,
    });
    let ghost before_modalities = eviews(es@);
    if c.input_modalities.len() > 0 {
        push_member(&mut es, "inputModalities", text_array(&c.input_modalities));
    } else {
        assert(eviews(es@) =~= before_modalities + Seq::<(Seq<char>, JsonValue)>::empty());
    }
    push_opt_member(&mut es, "reasoning", clone_json_opt(&c.reasoning));
    push_opt_member(&mut es, "codexCache", clone_json_opt(&c.codex_cache));
    push_opt_member(&mut es, "supportsParallelToolCalls", match c.supports_parallel_tool_calls {
        Some(b) => Some(Json::Bool(b)),
        None => None,
    });
    push_opt_member(&mut es, "baseInstructions", match &c.base_instructions {
        Some(t) => Some(Json::Text(t.clone())),
        None => None,
    });
    push_opt_member(&mut es, "codexUltra", clone_json_opt(&c.codex_ultra));
    let r = Json::Object(es);
    assert(r@ =~= projected_entry(*model, match sort_index {
        Some(k) => Some(k as u64),
        None => None,
    }));
    r
}

/// The position of a model in a catalog with a custom order: its sort index, and
/// after every indexed model when it has none.
pub open spec fn sort_key(models: Seq<CompiledCodexModel>, i: int) -> int {
    match models[i].sort_index {
        Some(k) => k as int,
        None => usize::MAX as int,
    }
}

/// Inserts index `i` after every index whose key is not greater than its own.
pub open spec fn insert_by_sort_key(models: Seq<CompiledCodexModel>, s: Seq<int>, i: int) -> Seq<int>
    decreases s.len(),
{
    if s.len() == 0 {
        seq![i]
    } else if sort_key(models, i) < sort_key(models, s[0]) {
        seq![i] + s
    } else {
        seq![s[0]] + insert_by_sort_key(models, s.drop_first(), i)
    }
}

/// The indices of the first `n` models ordered by sort key; models with equal keys keep
/// their catalog order (a stable sort).
pub open spec fn sorted_catalog_order(models: Seq<CompiledCodexModel>, n: nat) -> Seq<int>
    decreases n,
{
    if n == 0 {
        Seq::empty()
    } else {
        insert_by_sort_key(models, sorted_catalog_order(models, (n - 1) as nat), n - 1)
    }
}

/// Whether the source catalog gives any model a sort index.
pub open spec fn has_custom_order(models: Seq<CompiledCodexModel>) -> bool {
    exists|i: int| 0 <= i < models.len() && (#[trigger] models[i]).sort_index is Some
}

/// The order of the projected catalog: by sort index when the source has a custom
/// order, the catalog's own order otherwise.
pub open spec fn projection_order(models: Seq<CompiledCodexModel>) -> Seq<int> {
    if has_custom_order(models) {
        sorted_catalog_order(models, models.len())
    } else {
        Seq::new(models.len(), |i: int| i)
    }
}

/// The projected catalog entries: each model in projection order, numbered by its
/// position when the source has a custom order.
pub open spec fn projected_entries(models: Seq<CompiledCodexModel>) -> Seq<JsonValue> {
    let order = projection_order(models);
    Seq::new(
        order.len(),
        |j: int|
            projected_entry(
                models[order[j]],
                if has_custom_order(models) {
                    Some(j as u64)
                } else {
                    None
                },
            ),
    )
}

proof fn lemma_insert_by_sort_key_at(models: Seq<CompiledCodexModel>, s: Seq<int>, i: int, p: int)
    requires
        0 <= p <= s.len(),
        forall|q: int| 0 <= q < p ==> !(sort_key(models, i) < sort_key(models, #[trigger] s[q])),
        p < s.len() ==> sort_key(models, i) < sort_key(models, s[p]),
    ensures
        insert_by_sort_key(models, s, i) == s.take(p).push(i) + s.skip(p),
    decreases s.len(),
{
    if s.len() == 0 {
        assert(s.take(p).push(i) + s.skip(p) =~= seq![i]);
    } else if p == 0 {
        assert(s.take(p).push(i) + s.skip(p) =~= seq![i] + s);
    } else {
        let t = s.drop_first();
        assert forall|q: int| 0 <= q < p - 1 implies !(sort_key(models, i) < sort_key(models, #[trigger] t[q])) by {
            assert(t[q] == s[q + 1]);
        }
        lemma_insert_by_sort_key_at(models, t, i, p - 1);
        assert(s.take(p).push(i) + s.skip(p) =~= seq![s[0]] + (t.take(p - 1).push(i) + t.skip(p - 1)));
    }
}

proof fn lemma_insert_by_sort_key_range(models: Seq<CompiledCodexModel>, s: Seq<int>, i: int, m: int)
    requires
        0 <= i < m,
        forall|k: int| 0 <= k < s.len() ==> 0 <= #[trigger] s[k] < m,
    ensures
        insert_by_sort_key(models, s, i).len() == s.len() + 1,
        forall|k: int| 0 <= k < s.len() + 1 ==> 0 <= #[trigger] insert_by_sort_key(models, s, i)[k] < m,
    decreases s.len(),
{
    if s.len() > 0 && !(sort_key(models, i) < sort_key(models, s[0])) {
        let t = s.drop_first();
        assert forall|k: int| 0 <= k < t.len() implies 0 <= #[trigger] t[k] < m by {
            assert(t[k] == s[k + 1]);
        }
        lemma_insert_by_sort_key_range(models, t, i, m);
        let r = insert_by_sort_key(models, s, i);
        assert forall|k: int| 0 <= k < s.len() + 1 implies 0 <= #[trigger] r[k] < m by {
            if k > 0 {
                assert(r[k] == insert_by_sort_key(models, t, i)[k - 1]);
            }
        }
    } else if s.len() > 0 {
        let r = insert_by_sort_key(models, s, i);
        assert forall|k: int| 0 <= k < s.len() + 1 implies 0 <= #[trigger] r[k] < m by {
            if k > 0 {
                assert(r[k] == s[k - 1]);
            }
        }
    }
}

proof fn lemma_sorted_catalog_order_range(models: Seq<CompiledCodexModel>, n: nat)
    ensures
        sorted_catalog_order(models, n).len() == n,
        forall|k: int| 0 <= k < n ==> 0 <= #[trigger] sorted_catalog_order(models, n)[k] < n,
    decreases n,
{
    if n > 0 {
        let prev = sorted_catalog_order(models, (n - 1) as nat);
        lemma_sorted_catalog_order_range(models, (n - 1) as nat);
        lemma_insert_by_sort_key_range(models, prev, n - 1, n as int);
    }
}

fn catalog_sort_key(models: &Vec<CompiledCodexModel>, i: usize) -> (r: usize)
    requires
        i < models.len(),
    ensures
        r as int == sort_key(models@, i as int),
{
    match models[i].sort_index {
        Some(k) => k,
        None => usize::MAX,
    }
}

/// The model indices in sort-key order (see `sorted_catalog_order`).
fn sort_catalog(models: &Vec<CompiledCodexModel>) -> (r: Vec<usize>)
    ensures
        r@.map_values(|k: usize| k as int) == sorted_catalog_order(models@, models@.len()),
        forall|k: int| 0 <= k < r@.len() ==> (#[trigger] r@[k]) < models@.len(),
{
    let mut order: Vec<usize> = Vec::new();
    let mut i: usize = 0;
    while i < models.len()
        invariant
            i <= models.len(),
            order@.map_values(|k: usize| k as int) == sorted_catalog_order(models@, i as nat),
            forall|k: int| 0 <= k < order@.len() ==> (#[trigger] order@[k]) < i,
        decreases models.len() - i,
    {
        let ghost s = order@.map_values(|k: usize| k as int);
        let key = catalog_sort_key(models, i);
        let mut p: usize = 0;
        while p < order.len() && !(key < catalog_sort_key(models, order[p]))
            invariant
                i < models.len(),
                key as int == sort_key(models@, i as int),
                p <= order@.len(),
                s == order@.map_values(|k: usize| k as int),
                forall|k: int| 0 <= k < order@.len() ==> (#[trigger] order@[k]) < i,
                forall|q: int| 0 <= q < p ==> !(sort_key(models@, i as int) < sort_key(models@, #[trigger] s[q])),
            decreases order.len() - p,
        {
            p = p + 1;
        }
        proof {
            lemma_insert_by_sort_key_at(models@, s, i as int, p as int);
        }
        let ghost before = order@;
        order.insert(p, i);
        let ghost v = order@.map_values(|k: usize| k as int);
        assert(v =~= s.take(p as int).push(i as int) + s.skip(p as int));
        assert forall|k: int| 0 <= k < order@.len() implies (#[trigger] order@[k]) < i + 1 by {
            assert(v[k] == order@[k] as int);
            if k < p {
                assert(v[k] == s[k]);
                assert(s[k] == before[k] as int);
            } else if k > p {
                assert(v[k] == s[k - 1]);
                assert(s[k - 1] == before[k - 1] as int);
            }
        }
        i = i + 1;
    }
    order
}

fn has_source_custom_order(models: &Vec<CompiledCodexModel>) -> (r: bool)
    ensures
        r == has_custom_order(models@),
{
    let mut i: usize = 0;
    while i < models.len()
        invariant
            i <= models.len(),
            forall|k: int| 0 <= k < i ==> (#[trigger] models@[k]).sort_index is None,
        decreases models.len() - i,
    {
        if models[i].sort_index.is_some() {
            assert(models@[i as int].sort_index is Some);
            return true;
        }
        i = i + 1;
    }
    false
}

/// The projected catalog entries of a compiled plan (see `projected_entries`).
pub fn projected_model_entries(compiled: &CompiledCodexRoutingPlan) -> (r: Vec<Json>)
    ensures
        jviews(r@) == projected_entries(compiled.model_catalog@),
{
    let models = &compiled.model_catalog;
    let custom = has_source_custom_order(models);
    let n = models.len();
    let order: Vec<usize> = if custom {
        sort_catalog(models)
    } else {
        let mut ident: Vec<usize> = Vec::new();
        let mut i: usize = 0;
        while i < n
            invariant
                i <= n,
                n == models@.len(),
                ident@.len() == i,
                forall|k: int| 0 <= k < i ==> (#[trigger] ident@[k]) as int == k,
            decreases n - i,
        {
            ident.push(i);
            i = i + 1;
        }
        assert(ident@.map_values(|k: usize| k as int) =~= Seq::new(n as nat, |k: int| k));
        ident
    };
    let ghost ord = projection_order(models@);
    proof {
        if custom {
            lemma_sorted_catalog_order_range(models@, models@.len());
        }
        assert(order@.map_values(|k: usize| k as int) =~= ord);
    }
    let ghost target = projected_entries(models@);
    let mut out: Vec<Json> = Vec::new();
    let mut j: usize = 0;
    while j < order.len()
        invariant
            j <= order@.len(),
            order@.len() == ord.len(),
            forall|k: int| 0 <= k < order@.len() ==> (#[trigger] order@[k]) < models@.len(),
            forall|k: int| 0 <= k < order@.len() ==> (#[trigger] order@[k]) as int == ord[k],
            custom == has_custom_order(models@),
            ord == projection_order(models@),
            target == projected_entries(models@),
            jviews(out@) == target.take(j as int),
        decreases order.len() - j,
    {
        let sort_index = if custom {
            Some(j)
        } else {
            None
        };
        let e = projected_model_entry(&models[order[j]], sort_index);
        let ghost before = out@;
        out.push(e);
        assert(out@.drop_last() =~= before);
        assert(target.take(j + 1) =~= target.take(j as int).push(target[j as int]));
        j = j + 1;
    }
    assert(target.take(order.len() as int) =~= target);
    out
}

/// The router's settings with the projection written into them: the projected model
/// catalog with the models offered to spawned agents, and the fingerprint it was built
/// from.
pub open spec fn projection_settings_of(settings: JsonValue, compiled: CompiledCodexRoutingPlan) -> JsonValue {
    let catalog = JsonValue::Object(
        seq![
            ("models"@, JsonValue::Array(projected_entries(compiled.model_catalog@))),
            ("spawnAgentModels"@, JsonValue::Array(text_values(views(compiled.spawn_agent_models@)))),
        ],
    );
    let marker = JsonValue::Object(
        seq![("dependencyFingerprint"@, JsonValue::Text(compiled.dependency_fingerprint@))],
    );
    set_member(set_member(settings, "modelCatalog"@, catalog), "codexRoutingProjection"@, marker)
}

/// The router's settings with the compiled projection written into them.
pub fn projection_settings(router: &Provider, compiled: &CompiledCodexRoutingPlan) -> (r: Json)
    requires
        is_object_or_null(router.settings_config@),
    ensures
        r@ == projection_settings_of(router.settings_config@, *compiled),
{
    let mut settings = json_clone(&router.settings_config);
    let models = projected_model_entries(compiled);
    let spawn = text_array(&compiled.spawn_agent_models);
    let mut catalog_entries: Vec<(String, Json)> = Vec::new();
    push_member(&mut catalog_entries, "models", Json::Array(models));
    push_member(&mut catalog_entries, "spawnAgentModels", spawn);
    proof {
        assert(eviews(Seq::<(String, Json)>::empty()) =~= Seq::empty());
        assert(eviews(catalog_entries@) =~= seq![
            ("models"@, JsonValue::Array(projected_entries(compiled.model_catalog@))),
            ("spawnAgentModels"@, JsonValue::Array(text_values(views(compiled.spawn_agent_models@)))),
        ]);
    }
    let catalog = Json::Object(catalog_entries);
    let mut marker_entries: Vec<(String, Json)> = Vec::new();
    push_member(&mut marker_entries, "dependencyFingerprint", Json::Text(compiled.dependency_fingerprint.clone()));
    proof {
        assert(eviews(marker_entries@) =~= seq![("dependencyFingerprint"@, JsonValue::Text(compiled.dependency_fingerprint@))]);
    }
    let marker = Json::Object(marker_entries);
    json_set(&mut settings, owned("modelCatalog"), catalog);
    json_set(&mut settings, owned("codexRoutingProjection"), marker);
    settings
}

/// `target` with the members the projection owns (the model catalog and the
/// projection marker) copied from `projection` where it has them; every other member
/// of `target` is kept.
pub open spec fn owned_settings_applied(target: JsonValue, projection: JsonValue) -> JsonValue {
    let with_catalog = match get(projection, "modelCatalog"@) {
        Some(v) => set_member(target, "modelCatalog"@, v),
        None => target,
    };
    match get(projection, "codexRoutingProjection"@) {
        Some(v) => set_member(with_catalog, "codexRoutingProjection"@, v),
        None => with_catalog,
    }
}

/// Copies the projection-owned members of `projection` into `target`.
pub fn apply_projection_owned_settings(target: &mut Json, projection: &Json)
    requires
        get(projection@, "modelCatalog"@) is Some || get(projection@, "codexRoutingProjection"@) is Some
            ==> is_object_or_null(old(target)@),
    ensures
        final(target)@ == owned_settings_applied(old(target)@, projection@),
{
    match json_get(projection, "modelCatalog") {
        Some(v) => {
            let c = json_clone(v);
            json_set(target, owned("modelCatalog"), c);
        },
        None => {},
    }
    match json_get(projection, "codexRoutingProjection") {
        Some(v) => {
            let c = json_clone(v);
            json_set(target, owned("codexRoutingProjection"), c);
        },
        None => {},
    }
}

// ---------------------------------------------------------------------------
// Artifact and status
// ---------------------------------------------------------------------------

/// What one projection build produced: the compiled plan, the settings to publish,
/// and the names of the providers it targets (id, name).
#[derive(Debug)]
pub struct CodexRoutingProjectionArtifact {
    pub router_provider_id: String,
    pub dependency_fingerprint: String,
    pub projection_settings: Json,
    pub compiled: CompiledCodexRoutingPlan,
    pub target_provider_names: Vec<(String, String)>,
}

pub open spec fn name_pairs(ps: Seq<Provider>) -> Seq<(Seq<char>, Seq<char>)> {
    ps.map_values(|p: Provider| (p.id@, p.name@))
}

pub open spec fn pair_views(ns: Seq<(String, String)>) -> Seq<(Seq<char>, Seq<char>)> {
    ns.map_values(|p: (String, String)| (p.0@, p.1@))
}

/// Builds a router's projection from its schema-v2 plan and the providers: the plan is
/// compiled (a compile error becomes `code: message`), and the router's settings get
/// the projection written into them.
pub fn build_projection_artifact(
    router: &Provider,
    plan: &CodexRoutingConfigV2,
    providers: &[Provider],
) -> (r: Result<CodexRoutingProjectionArtifact, String>)
    requires
        is_object_or_null(router.settings_config@),
    ensures
        match crate::compiler::collect_routes(*plan, providers@, plan.routes@.len()) {
            Err((code, message)) => r is Err && r->Err_0@ == code + ": "@ + message,
            Ok(_) => r is Ok && ({
                let a = r->Ok_0;
                &&& crate::compiler::compiled_plan(*plan, providers@, a.compiled)
                &&& a.router_provider_id@ == router.id@
                &&& a.dependency_fingerprint@ == a.compiled.dependency_fingerprint@
                &&& a.projection_settings@ == projection_settings_of(router.settings_config@, a.compiled)
                &&& pair_views(a.target_provider_names@) == name_pairs(providers@)
            }),
        },
{
    let compiled = match compile_v2(plan, providers) {
        Ok(c) => c,
        Err(e) => return Err(crate::text::concat3(e.code.as_str(), ": ", e.message.as_str())),
    };
    let projection = projection_settings(router, &compiled);
    let mut names: Vec<(String, String)> = Vec::new();
    let mut i: usize = 0;
    while i < providers.len()
        invariant
            i <= providers.len(),
            pair_views(names@) == name_pairs(providers@).take(i as int),
        decreases providers.len() - i,
    {
        let ghost before = names@;
        names.push((providers[i].id.clone(), providers[i].name.clone()));
        assert(pair_views(names@) =~= pair_views(before).push((providers@[i as int].id@, providers@[i as int].name@)));
        assert(name_pairs(providers@).take(i + 1) =~= name_pairs(providers@).take(i as int).push(
            (providers@[i as int].id@, providers@[i as int].name@),
        ));
        i = i + 1;
    }
    assert(name_pairs(providers@).take(providers.len() as int) =~= name_pairs(providers@));
    Ok(CodexRoutingProjectionArtifact {
        router_provider_id: router.id.clone(),
        dependency_fingerprint: compiled.dependency_fingerprint.clone(),
        projection_settings: projection,
        compiled,
        target_provider_names: names,
    })
}

/// The last compiled route with this id (later routes win, as in a map keyed by id).
pub open spec fn last_route_with_id(routes: Seq<CompiledCodexRoute>, id: Seq<char>) -> Option<int>
    decreases routes.len(),
{
    if routes.len() == 0 {
        None
    } else if routes.last().id@ == id {
        Some(routes.len() - 1)
    } else {
        last_route_with_id(routes.drop_last(), id)
    }
}

/// The name recorded for a provider id; the id itself when none is.
pub open spec fn provider_name_for(names: Seq<(Seq<char>, Seq<char>)>, id: Seq<char>) -> Seq<char>
    decreases names.len(),
{
    if names.len() == 0 {
        id
    } else if names[0].0 == id {
        names[0].1
    } else {
        provider_name_for(names.drop_first(), id)
    }
}

/// The catalog indices of the models whose route is among the compiled routes.
pub open spec fn routed_models(models: Seq<CompiledCodexModel>, routes: Seq<CompiledCodexRoute>, n: nat) -> Seq<int>
    decreases n,
{
    if n == 0 {
        Seq::empty()
    } else {
        let before = routed_models(models, routes, (n - 1) as nat);
        if last_route_with_id(routes, models[n - 1].route_id@) is Some {
            before.push(n - 1)
        } else {
            before
        }
    }
}

/// `d` explains how model `m` is routed by route `r`.
pub open spec fn diagnostic_of(
    d: ProjectionRouteDiagnostic,
    m: CompiledCodexModel,
    r: CompiledCodexRoute,
    names: Seq<(Seq<char>, Seq<char>)>,
) -> bool {
    &&& d.route_id@ == m.route_id@
    &&& opt_view(d.route_label) == opt_view(r.label)
    &&& d.target_provider_id@ == m.target_provider_id@
    &&& d.target_provider_name@ == provider_name_for(names, m.target_provider_id@)
    &&& d.visible_model@ == m.visible_model@
    &&& d.canonical_model@ == m.canonical_model@
    &&& d.upstream_model@ == m.upstream_model@
    &&& d.api_format@ == m.api_format@
    &&& d.api_format_source@ == m.api_format_source@
    &&& d.auth_owner@ == auth_owner_name(r.auth_policy.source)
    &&& d.capability_sources.context_window@ == m.capability_summary.context_window_source@
    &&& d.capability_sources.input_modalities@ == m.capability_summary.input_modalities_source@
    &&& d.capability_sources.reasoning@ == m.capability_summary.reasoning_source@
    &&& d.capability_sources.codex_cache@ == m.capability_summary.codex_cache_source@
}

pub open spec fn warning_messages(ws: Seq<crate::compiler::CompilerWarning>) -> Seq<Seq<char>> {
    ws.map_values(|w: crate::compiler::CompilerWarning| w.message@)
}

fn find_last_route(routes: &Vec<CompiledCodexRoute>, id: &str) -> (r: Option<usize>)
    ensures
        match r {
            Some(k) => last_route_with_id(routes@, id@) == Some(k as int) && k < routes@.len(),
            None => last_route_with_id(routes@, id@) is None,
        },
{
    let mut i: usize = routes.len();
    assert(routes@.take(routes.len() as int) =~= routes@);
    while i > 0
        invariant
            i <= routes@.len(),
            last_route_with_id(routes@, id@) == last_route_with_id(routes@.take(i as int), id@),
        decreases i,
    {
        let ghost t = routes@.take(i as int);
        assert(t.drop_last() =~= routes@.take(i - 1));
        if str_eq(routes[i - 1].id.as_str(), id) {
            return Some(i - 1);
        }
        i = i - 1;
    }
    None
}

fn provider_name(names: &Vec<(String, String)>, id: &str) -> (r: String)
    ensures
        r@ == provider_name_for(pair_views(names@), id@),
{
    let ghost pv = pair_views(names@);
    let mut i: usize = 0;
    assert(pv.skip(0) =~= pv);
    while i < names.len()
        invariant
            i <= names@.len(),
            pv == pair_views(names@),
            provider_name_for(pv, id@) == provider_name_for(pv.skip(i as int), id@),
        decreases names.len() - i,
    {
        assert(pv.skip(i as int).drop_first() =~= pv.skip(i + 1));
        assert(pv.skip(i as int)[0] == (names@[i as int].0@, names@[i as int].1@));
        if str_eq(names[i].0.as_str(), id) {
            return names[i].1.clone();
        }
        i = i + 1;
    }
    owned(id)
}

fn diagnostic(
    m: &CompiledCodexModel,
    r: &CompiledCodexRoute,
    names: &Vec<(String, String)>,
) -> (d: ProjectionRouteDiagnostic)
    ensures
        diagnostic_of(d, *m, *r, pair_views(names@)),
{
    ProjectionRouteDiagnostic {
        route_id: m.route_id.clone(),
        route_label: owned_opt(&r.label),
        target_provider_id: m.target_provider_id.clone(),
        target_provider_name: provider_name(names, m.target_provider_id.as_str()),
        visible_model: m.visible_model.clone(),
        canonical_model: m.canonical_model.clone(),
        upstream_model: m.upstream_model.clone(),
        api_format: m.api_format.clone(),
        api_format_source: m.api_format_source.clone(),
        auth_owner: owned(auth_owner(r.auth_policy.source)),
        capability_sources: ProjectionCapabilitySources {
            context_window: m.capability_summary.context_window_source.clone(),
            input_modalities: m.capability_summary.input_modalities_source.clone(),
            reasoning: m.capability_summary.reasoning_source.clone(),
            codex_cache: m.capability_summary.codex_cache_source.clone(),
        },
    }
}

/// The status of a projection built from `artifact`: its state and error, when it was
/// generated, the compile warnings, and a diagnostic for every catalog model whose
/// route was compiled.
pub fn projection_status(
    artifact: &CodexRoutingProjectionArtifact,
    state: ProjectionState,
    error_code: Option<&str>,
    error: Option<&str>,
    generated_at: &str,
) -> (s: CodexRoutingProjectionStatus)
    ensures
        s.schema_version == 1,
        s.router_provider_id@ == artifact.router_provider_id@,
        s.state == state,
        s.dependency_fingerprint@ == artifact.dependency_fingerprint@,
        s.generated_at@ == generated_at@,
        views(s.warnings@) == warning_messages(artifact.compiled.warnings@),
        opt_view(s.last_error_code) == crate::history::sview(error_code),
        opt_view(s.last_error) == crate::history::sview(error),
        ({
            let models = artifact.compiled.model_catalog@;
            let routes = artifact.compiled.routes@;
            let kept = routed_models(models, routes, models.len());
            &&& s.routes@.len() == kept.len()
            &&& forall|j: int| 0 <= j < kept.len() ==> diagnostic_of(
                #[trigger] s.routes@[j],
                models[kept[j]],
                routes[last_route_with_id(routes, models[kept[j]].route_id@)->0],
                pair_views(artifact.target_provider_names@),
            )
        }),
{
    let models = &artifact.compiled.model_catalog;
    let routes = &artifact.compiled.routes;
    let ghost names = pair_views(artifact.target_provider_names@);
    let mut diagnostics: Vec<ProjectionRouteDiagnostic> = Vec::new();
    let mut i: usize = 0;
    while i < models.len()
        invariant
            i <= models@.len(),
            names == pair_views(artifact.target_provider_names@),
            *models == artifact.compiled.model_catalog,
            *routes == artifact.compiled.routes,
            ({
                let kept = routed_models(models@, routes@, i as nat);
                &&& diagnostics@.len() == kept.len()
                &&& forall|k: int| 0 <= k < kept.len() ==> 0 <= #[trigger] kept[k] < i
                &&& forall|j: int| 0 <= j < kept.len() ==> last_route_with_id(routes@, models@[kept[j]].route_id@) is Some
                &&& forall|j: int| 0 <= j < kept.len() ==> diagnostic_of(
                    #[trigger] diagnostics@[j],
                    models@[kept[j]],
                    routes@[last_route_with_id(routes@, models@[kept[j]].route_id@)->0],
                    names,
                )
            }),
        decreases models.len() - i,
    {
        match find_last_route(routes, models[i].route_id.as_str()) {
            Some(k) => {
                let d = diagnostic(&models[i], &routes[k], &artifact.target_provider_names);
                diagnostics.push(d);
            },
            None => {},
        }
        i = i + 1;
    }
    let mut warnings: Vec<String> = Vec::new();
    let mut w: usize = 0;
    while w < artifact.compiled.warnings.len()
        invariant
            w <= artifact.compiled.warnings@.len(),
            views(warnings@) == warning_messages(artifact.compiled.warnings@).take(w as int),
        decreases artifact.compiled.warnings.len() - w,
    {
        let ghost before = warnings@;
        let m = artifact.compiled.warnings[w].message.clone();
        assert(m@ == artifact.compiled.warnings@[w as int].message@);
        warnings.push(m);
        assert(views(warnings@) =~= views(before).push(m@));
        assert(views(warnings@) =~= warning_messages(artifact.compiled.warnings@).take(w + 1));
        w = w + 1;
    }
    assert(warning_messages(artifact.compiled.warnings@).take(w as int) =~= warning_messages(artifact.compiled.warnings@));
    CodexRoutingProjectionStatus {
        schema_version: 1,
        router_provider_id: artifact.router_provider_id.clone(),
        state,
        dependency_fingerprint: artifact.dependency_fingerprint.clone(),
        generated_at: owned(generated_at),
        warnings,
        routes: diagnostics,
        last_error_code: match error_code {
            Some(c) => Some(owned(c)),
            None => None,
        },
        last_error: match error {
            Some(e) => Some(owned(e)),
            None => None,
        },
    }
}

/// The status to record after a publish: ready or pending as `publish_verdict` decides
/// from the read-back (`None` when the publish failed).
pub fn published_status(
    artifact: &CodexRoutingProjectionArtifact,
    read_back: Option<&ProjectionReadBack>,
    generated_at: &str,
) -> (s: CodexRoutingProjectionStatus)
    ensures
        ({
            let ok = rb_view(read_back) is Some && rb_view(read_back)->0.agrees(artifact.dependency_fingerprint@);
            &&& s.state == if ok { ProjectionState::Ready } else { ProjectionState::Pending }
            &&& opt_view(s.last_error_code) == if ok {
                None
            } else if rb_view(read_back) is Some {
                Some("projection_readback_mismatch"@)
            } else {
                Some("projection_publish_failed"@)
            }
        }),
        s.router_provider_id@ == artifact.router_provider_id@,
        s.dependency_fingerprint@ == artifact.dependency_fingerprint@,
        s.generated_at@ == generated_at@,
{
    let v = publish_verdict(read_back, artifact.dependency_fingerprint.as_str());
    let code: Option<&str> = match &v.error_code {
        Some(c) => Some(c.as_str()),
        None => None,
    };
    let error: Option<&str> = match &v.error {
        Some(e) => Some(e.as_str()),
        None => None,
    };
    projection_status(artifact, v.state, code, error, generated_at)
}

/// The providers with `candidate` in place of the provider with its id, or added.
pub open spec fn with_candidate(ps: Seq<Provider>, candidate: Provider) -> Seq<Provider> {
    match crate::compiler::provider_position(ps, candidate.id@) {
        Some(i) => ps.update(i, candidate),
        None => ps.push(candidate),
    }
}

fn insert_candidate(providers: &mut Vec<Provider>, candidate: Provider) -> (k: usize)
    ensures
        final(providers)@ == with_candidate(old(providers)@, candidate),
        k < final(providers)@.len(),
        final(providers)@[k as int] == candidate,
{
    let found = crate::compiler::find_provider(providers.as_slice(), candidate.id.as_str());
    match found {
        Some(i) => {
            providers.set(i, candidate);
            i
        },
        None => {
            providers.push(candidate);
            providers.len() - 1
        },
    }
}

/// The settings a candidate provider takes effect with. Without a schema-v2 plan they
/// are its own settings. With one, the plan is compiled against the providers with the
/// candidate among them (strictly when asked), and the candidate's settings get the
/// projection written into them; a compile error becomes `code: message`.
pub fn effective_settings_for_candidate(
    candidate: Provider,
    plan: Option<&CodexRoutingConfigV2>,
    providers: Vec<Provider>,
    strict_router_references: bool,
) -> (r: Result<Json, String>)
    requires
        plan is Some ==> is_object_or_null(candidate.settings_config@),
    ensures
        match plan {
            None => r is Ok && r->Ok_0@ == candidate.settings_config@,
            Some(p) => {
                let ps = with_candidate(providers@, candidate);
                match crate::compiler::collect_routes(*p, ps, p.routes@.len()) {
                    Err((code, message)) => r is Err && r->Err_0@ == code + ": "@ + message,
                    Ok((cs, ws)) => {
                        let all = ws + crate::compiler::naming(*p, ps, cs, crate::compiler::initial_names(), cs.len()).warnings;
                        let blocking = if strict_router_references {
                            crate::compiler::first_blocking_warning(all)
                        } else {
                            None
                        };
                        match blocking {
                            Some(w) => r is Err && r->Err_0@ == crate::compiler::blocking_error_code(w.0) + ": "@ + w.2,
                            None => r is Ok && exists|c: CompiledCodexRoutingPlan|
                                crate::compiler::compiled_plan(*p, ps, c) && c.dependency_fingerprint@ == Seq::<char>::empty()
                                    && r->Ok_0@ == #[trigger] projection_settings_of(candidate.settings_config@, c),
                        }
                    },
                }
            },
        },
{
    let p = match plan {
        Some(p) => p,
        None => return Ok(json_clone(&candidate.settings_config)),
    };
    let mut ps = providers;
    let k = insert_candidate(&mut ps, candidate);
    let compiled = if strict_router_references {
        compile_v2_strict(p, ps.as_slice())
    } else {
        compile_v2(p, ps.as_slice())
    };
    match compiled {
        Ok(c) => {
            let settings = projection_settings(&ps[k], &c);
            proof {
                assert(crate::compiler::compiled_plan(*p, ps@, c) && c.dependency_fingerprint@ == Seq::<char>::empty()
                    && settings@ == projection_settings_of(candidate.settings_config@, c));
            }
            Ok(settings)
        },
        Err(e) => Err(crate::text::concat3(e.code.as_str(), ": ", e.message.as_str())),
    }
}

// ---------------------------------------------------------------------------
// Laws
// ---------------------------------------------------------------------------

/// Merging the projection into live settings copies only the members the projection
/// owns (the model catalog and the projection marker, where the projection has them)
/// and leaves every other member of the live settings as it was.
pub proof fn owned_merge_touches_only_owned_members(target: JsonValue, projection: JsonValue, key: Seq<char>)
    requires
        is_object_or_null(target),
    ensures
        key != "modelCatalog"@ && key != "codexRoutingProjection"@ ==> get(owned_settings_applied(target, projection), key)
            == get(target, key),
        get(projection, "modelCatalog"@) is Some ==> get(owned_settings_applied(target, projection), "modelCatalog"@)
            == get(projection, "modelCatalog"@),
        get(projection, "codexRoutingProjection"@) is Some ==> get(
            owned_settings_applied(target, projection),
            "codexRoutingProjection"@,
        ) == get(projection, "codexRoutingProjection"@),
        get(projection, "modelCatalog"@) is None ==> get(owned_settings_applied(target, projection), "modelCatalog"@)
            == get(target, "modelCatalog"@),
{
    reveal_strlit("modelCatalog");
    reveal_strlit("codexRoutingProjection");
    let mc = "modelCatalog"@;
    let crp = "codexRoutingProjection"@;
    assert(mc != crp) by {
        assert(mc.len() != crp.len());
    }
    let with_catalog = match get(projection, mc) {
        Some(v) => set_member(target, mc, v),
        None => target,
    };
    match get(projection, mc) {
        Some(v) => {
            crate::json::set_member_reads_back(target, mc, v, key);
            crate::json::set_member_reads_back(target, mc, v, crp);
        },
        None => {},
    }
    match get(projection, crp) {
        Some(v) => {
            crate::json::set_member_reads_back(with_catalog, crp, v, key);
            crate::json::set_member_reads_back(with_catalog, crp, v, mc);
        },
        None => {},
    }
}

/// The projected settings keep every member of the router's settings other than the
/// model catalog and the projection marker, which hold the compiled catalog and the
/// fingerprint it was built from.
pub proof fn projection_keeps_router_settings(settings: JsonValue, compiled: CompiledCodexRoutingPlan, key: Seq<char>)
    requires
        is_object_or_null(settings),
    ensures
        key != "modelCatalog"@ && key != "codexRoutingProjection"@ ==> get(projection_settings_of(settings, compiled), key)
            == get(settings, key),
        get(projection_settings_of(settings, compiled), "codexRoutingProjection"@) == Some(
            JsonValue::Object(seq![("dependencyFingerprint"@, JsonValue::Text(compiled.dependency_fingerprint@))]),
        ),
        get(projection_settings_of(settings, compiled), "modelCatalog"@) == Some(
            JsonValue::Object(
                seq![
                    ("models"@, JsonValue::Array(projected_entries(compiled.model_catalog@))),
                    ("spawnAgentModels"@, JsonValue::Array(text_values(views(compiled.spawn_agent_models@)))),
                ],
            ),
        ),
{
    reveal_strlit("modelCatalog");
    reveal_strlit("codexRoutingProjection");
    let mc = "modelCatalog"@;
    let crp = "codexRoutingProjection"@;
    assert(mc != crp) by {
        assert(mc.len() != crp.len());
    }
    let catalog = JsonValue::Object(
        seq![
            ("models"@, JsonValue::Array(projected_entries(compiled.model_catalog@))),
            ("spawnAgentModels"@, JsonValue::Array(text_values(views(compiled.spawn_agent_models@)))),
        ],
    );
    let marker = JsonValue::Object(seq![("dependencyFingerprint"@, JsonValue::Text(compiled.dependency_fingerprint@))]);
    let s1 = set_member(settings, mc, catalog);
    crate::json::set_member_reads_back(settings, mc, catalog, key);
    crate::json::set_member_reads_back(s1, crp, marker, key);
    crate::json::set_member_reads_back(s1, crp, marker, mc);
    crate::json::set_member_reads_back(settings, mc, catalog, crp);
}

/// Indices `a` before `b` in the sort order: a smaller sort key, or the same key and
/// an earlier place in the catalog.
pub open spec fn sorts_before(models: Seq<CompiledCodexModel>, a: int, b: int) -> bool {
    sort_key(models, a) < sort_key(models, b) || (sort_key(models, a) == sort_key(models, b) && a < b)
}

pub open spec fn sorted_by_key(models: Seq<CompiledCodexModel>, s: Seq<int>) -> bool {
    forall|a: int, b: int| 0 <= a < b < s.len() ==> sorts_before(models, #[trigger] s[a], #[trigger] s[b])
}

pub open spec fn first_greater(models: Seq<CompiledCodexModel>, s: Seq<int>, i: int) -> int
    decreases s.len(),
{
    if s.len() == 0 {
        0
    } else if sort_key(models, i) < sort_key(models, s[0]) {
        0
    } else {
        1 + first_greater(models, s.drop_first(), i)
    }
}

proof fn lemma_first_greater(models: Seq<CompiledCodexModel>, s: Seq<int>, i: int)
    ensures
        0 <= first_greater(models, s, i) <= s.len(),
        forall|q: int| 0 <= q < first_greater(models, s, i) ==> !(sort_key(models, i) < sort_key(models, #[trigger] s[q])),
        first_greater(models, s, i) < s.len() ==> sort_key(models, i) < sort_key(models, s[first_greater(models, s, i)]),
    decreases s.len(),
{
    if s.len() > 0 && !(sort_key(models, i) < sort_key(models, s[0])) {
        let t = s.drop_first();
        lemma_first_greater(models, t, i);
        assert forall|q: int| 0 <= q < first_greater(models, s, i) implies !(sort_key(models, i) < sort_key(models, #[trigger] s[q])) by {
            if q > 0 {
                assert(s[q] == t[q - 1]);
            }
        }
        if first_greater(models, s, i) < s.len() {
            assert(s[first_greater(models, s, i)] == t[first_greater(models, t, i)]);
        }
    }
}

proof fn lemma_insert_keeps_sorted(models: Seq<CompiledCodexModel>, s: Seq<int>, i: int)
    requires
        sorted_by_key(models, s),
        forall|k: int| 0 <= k < s.len() ==> #[trigger] s[k] < i,
    ensures
        sorted_by_key(models, insert_by_sort_key(models, s, i)),
{
    let p = first_greater(models, s, i);
    lemma_first_greater(models, s, i);
    lemma_insert_by_sort_key_at(models, s, i, p);
    let r = s.take(p).push(i) + s.skip(p);
    assert forall|a: int, b: int| 0 <= a < b < r.len() implies sorts_before(models, #[trigger] r[a], #[trigger] r[b]) by {
        if b < p {
            assert(r[a] == s[a] && r[b] == s[b]);
        } else if b == p {
            assert(r[a] == s[a]);
            assert(r[b] == i);
            assert(!(sort_key(models, i) < sort_key(models, s[a])));
        } else if a < p {
            assert(r[a] == s[a] && r[b] == s[b - 1]);
        } else if a == p {
            assert(r[a] == i);
            assert(r[b] == s[b - 1]);
            if b - 1 > p {
                assert(sorts_before(models, s[p], s[b - 1]));
            }
        } else {
            assert(r[a] == s[a - 1] && r[b] == s[b - 1]);
        }
    }
}

proof fn lemma_sorted_catalog_order_sorted(models: Seq<CompiledCodexModel>, n: nat)
    ensures
        sorted_by_key(models, sorted_catalog_order(models, n)),
    decreases n,
{
    if n > 0 {
        let prev = sorted_catalog_order(models, (n - 1) as nat);
        lemma_sorted_catalog_order_sorted(models, (n - 1) as nat);
        lemma_sorted_catalog_order_range(models, (n - 1) as nat);
        lemma_insert_keeps_sorted(models, prev, n - 1);
    }
}

/// With a custom order, the projected catalog lists the models by their source sort
/// index, models without one last, and models with equal keys in catalog order; each
/// model of the catalog appears at a position of its own.
pub proof fn projection_follows_source_order(models: Seq<CompiledCodexModel>)
    requires
        has_custom_order(models),
    ensures
        projection_order(models).len() == models.len(),
        sorted_by_key(models, projection_order(models)),
        forall|j: int| 0 <= j < models.len() ==> 0 <= #[trigger] projection_order(models)[j] < models.len(),
{
    lemma_sorted_catalog_order_sorted(models, models.len());
    lemma_sorted_catalog_order_range(models, models.len());
}

proof fn lemma_entries_get_concat(a: Seq<(Seq<char>, JsonValue)>, b: Seq<(Seq<char>, JsonValue)>, k: Seq<char>)
    ensures
        crate::json::entries_get(a + b, k) == match crate::json::entries_get(a, k) {
            Some(v) => Some(v),
            None => crate::json::entries_get(b, k),
        },
    decreases a.len(),
{
    if a.len() > 0 {
        assert((a + b).drop_first() =~= a.drop_first() + b);
        assert((a + b)[0] == a[0]);
        lemma_entries_get_concat(a.drop_first(), b, k);
    } else {
        assert(a + b =~= b);
    }
}

proof fn lemma_single_get(key: Seq<char>, v: JsonValue, k: Seq<char>)
    ensures
        crate::json::entries_get(seq![(key, v)], k) == if key == k {
            Some(v)
        } else {
            None::<JsonValue>
        },
{
    reveal_with_fuel(crate::json::entries_get, 2);
    assert(seq![(key, v)].drop_first() =~= Seq::<(Seq<char>, JsonValue)>::empty());
}

proof fn lemma_opt_member_get(key: Seq<char>, v: Option<JsonValue>, k: Seq<char>)
    ensures
        crate::json::entries_get(opt_member(key, v), k) == if key == k {
            v
        } else {
            None::<JsonValue>
        },
{
    match v {
        Some(x) => lemma_single_get(key, x, k),
        None => {},
    }
}

proof fn lemma_entry_member_model(m: CompiledCodexModel, sort_index: Option<u64>)
    ensures
        get(projected_entry(m, sort_index), "model"@) == Some(JsonValue::Text(m.visible_model@)),
{
    let c = m.capability_summary;
    let s1 = seq![("model"@, JsonValue::Text(m.visible_model@))];
    let s2 = opt_member("sortIndex"@, opt_unsigned(sort_index));
    let s3 = seq![("upstreamModel"@, JsonValue::Text(m.upstream_model@))];
    let s4 = seq![("displayName"@, JsonValue::Text(m.display_name@))];
    let s5 = seq![("apiFormat"@, JsonValue::Text(m.api_format@))];
    let s6 = opt_member("contextWindow"@, opt_unsigned(c.context_window));
    let s7 = if c.input_modalities@.len() > 0 {
        seq![("inputModalities"@, JsonValue::Array(text_values(views(c.input_modalities@))))]
    } else {
        Seq::empty()
    };
    let s8 = opt_member("reasoning"@, crate::compiler::opt_jview(c.reasoning));
    let s9 = opt_member("codexCache"@, crate::compiler::opt_jview(c.codex_cache));
    let s10 = opt_member("supportsParallelToolCalls"@, match c.supports_parallel_tool_calls {
        Some(b) => Some(JsonValue::Bool(b)),
        None => None,
    });
    let s11 = opt_member("baseInstructions"@, match c.base_instructions {
        Some(t) => Some(JsonValue::Text(t@)),
        None => None,
    });
    let s12 = opt_member("codexUltra"@, crate::compiler::opt_jview(c.codex_ultra));
    assert(projected_entry(m, sort_index) == JsonValue::Object(s1 + s2 + s3 + s4 + s5 + s6 + s7 + s8 + s9 + s10 + s11 + s12));
    let k = "model"@;
    reveal_strlit("model");
    reveal_strlit("sortIndex");
    reveal_strlit("upstreamModel");
    reveal_strlit("displayName");
    reveal_strlit("apiFormat");
    reveal_strlit("contextWindow");
    reveal_strlit("inputModalities");
    reveal_strlit("reasoning");
    reveal_strlit("codexCache");
    reveal_strlit("supportsParallelToolCalls");
    reveal_strlit("baseInstructions");
    reveal_strlit("codexUltra");
    assert("sortIndex"@.len() != "model"@.len());
    assert("upstreamModel"@.len() != "model"@.len());
    assert("displayName"@.len() != "model"@.len());
    assert("apiFormat"@.len() != "model"@.len());
    assert("contextWindow"@.len() != "model"@.len());
    assert("inputModalities"@.len() != "model"@.len());
    assert("reasoning"@.len() != "model"@.len());
    assert("codexCache"@.len() != "model"@.len());
    assert("supportsParallelToolCalls"@.len() != "model"@.len());
    assert("baseInstructions"@.len() != "model"@.len());
    assert("codexUltra"@.len() != "model"@.len());
    lemma_entries_get_concat(s1 + s2 + s3 + s4 + s5 + s6 + s7 + s8 + s9 + s10 + s11, s12, k);
    lemma_entries_get_concat(s1 + s2 + s3 + s4 + s5 + s6 + s7 + s8 + s9 + s10, s11, k);
    lemma_entries_get_concat(s1 + s2 + s3 + s4 + s5 + s6 + s7 + s8 + s9, s10, k);
    lemma_entries_get_concat(s1 + s2 + s3 + s4 + s5 + s6 + s7 + s8, s9, k);
    lemma_entries_get_concat(s1 + s2 + s3 + s4 + s5 + s6 + s7, s8, k);
    lemma_entries_get_concat(s1 + s2 + s3 + s4 + s5 + s6, s7, k);
    lemma_entries_get_concat(s1 + s2 + s3 + s4 + s5, s6, k);
    lemma_entries_get_concat(s1 + s2 + s3 + s4, s5, k);
    lemma_entries_get_concat(s1 + s2 + s3, s4, k);
    lemma_entries_get_concat(s1 + s2, s3, k);
    lemma_entries_get_concat(s1, s2, k);
    lemma_single_get("model"@, JsonValue::Text(m.visible_model@), k);
    lemma_opt_member_get("sortIndex"@, opt_unsigned(sort_index), k);
    lemma_single_get("upstreamModel"@, JsonValue::Text(m.upstream_model@), k);
    lemma_single_get("displayName"@, JsonValue::Text(m.display_name@), k);
    lemma_single_get("apiFormat"@, JsonValue::Text(m.api_format@), k);
    lemma_opt_member_get("contextWindow"@, opt_unsigned(c.context_window), k);
    if c.input_modalities@.len() > 0 {
        lemma_single_get("inputModalities"@, JsonValue::Array(text_values(views(c.input_modalities@))), k);
    }
    lemma_opt_member_get("reasoning"@, crate::compiler::opt_jview(c.reasoning), k);
    lemma_opt_member_get("codexCache"@, crate::compiler::opt_jview(c.codex_cache), k);
    lemma_opt_member_get("supportsParallelToolCalls"@, match c.supports_parallel_tool_calls {
        Some(b) => Some(JsonValue::Bool(b)),
        None => None,
    }, k);
    lemma_opt_member_get("baseInstructions"@, match c.base_instructions {
        Some(t) => Some(JsonValue::Text(t@)),
        None => None,
    }, k);
    lemma_opt_member_get("codexUltra"@, crate::compiler::opt_jview(c.codex_ultra), k);
}

proof fn lemma_entry_member_upstream_model(m: CompiledCodexModel, sort_index: Option<u64>)
    ensures
        get(projected_entry(m, sort_index), "upstreamModel"@) == Some(JsonValue::Text(m.upstream_model@)),
{
    let c = m.capability_summary;
    let s1 = seq![("model"@, JsonValue::Text(m.visible_model@))];
    let s2 = opt_member("sortIndex"@, opt_unsigned(sort_index));
    let s3 = seq![("upstreamModel"@, JsonValue::Text(m.upstream_model@))];
    let s4 = seq![("displayName"@, JsonValue::Text(m.display_name@))];
    let s5 = seq![("apiFormat"@, JsonValue::Text(m.api_format@))];
    let s6 = opt_member("contextWindow"@, opt_unsigned(c.context_window));
    let s7 = if c.input_modalities@.len() > 0 {
        seq![("inputModalities"@, JsonValue::Array(text_values(views(c.input_modalities@))))]
    } else {
        Seq::empty()
    };
    let s8 = opt_member("reasoning"@, crate::compiler::opt_jview(c.reasoning));
    let s9 = opt_member("codexCache"@, crate::compiler::opt_jview(c.codex_cache));
    let s10 = opt_member("supportsParallelToolCalls"@, match c.supports_parallel_tool_calls {
        Some(b) => Some(JsonValue::Bool(b)),
        None => None,
    });
    let s11 = opt_member("baseInstructions"@, match c.base_instructions {
        Some(t) => Some(JsonValue::Text(t@)),
        None => None,
    });
    let s12 = opt_member("codexUltra"@, crate::compiler::opt_jview(c.codex_ultra));
    assert(projected_entry(m, sort_index) == JsonValue::Object(s1 + s2 + s3 + s4 + s5 + s6 + s7 + s8 + s9 + s10 + s11 + s12));
    let k = "upstreamModel"@;
    reveal_strlit("model");
    reveal_strlit("sortIndex");
    reveal_strlit("upstreamModel");
    reveal_strlit("displayName");
    reveal_strlit("apiFormat");
    reveal_strlit("contextWindow");
    reveal_strlit("inputModalities");
    reveal_strlit("reasoning");
    reveal_strlit("codexCache");
    reveal_strlit("supportsParallelToolCalls");
    reveal_strlit("baseInstructions");
    reveal_strlit("codexUltra");
    assert("model"@.len() != "upstreamModel"@.len());
    assert("sortIndex"@.len() != "upstreamModel"@.len());
    assert("displayName"@.len() != "upstreamModel"@.len());
    assert("apiFormat"@.len() != "upstreamModel"@.len());
    assert("contextWindow"@[0] != "upstreamModel"@[0]);
    assert("inputModalities"@.len() != "upstreamModel"@.len());
    assert("reasoning"@.len() != "upstreamModel"@.len());
    assert("codexCache"@.len() != "upstreamModel"@.len());
    assert("supportsParallelToolCalls"@.len() != "upstreamModel"@.len());
    assert("baseInstructions"@.len() != "upstreamModel"@.len());
    assert("codexUltra"@.len() != "upstreamModel"@.len());
    lemma_entries_get_concat(s1 + s2 + s3 + s4 + s5 + s6 + s7 + s8 + s9 + s10 + s11, s12, k);
    lemma_entries_get_concat(s1 + s2 + s3 + s4 + s5 + s6 + s7 + s8 + s9 + s10, s11, k);
    lemma_entries_get_concat(s1 + s2 + s3 + s4 + s5 + s6 + s7 + s8 + s9, s10, k);
    lemma_entries_get_concat(s1 + s2 + s3 + s4 + s5 + s6 + s7 + s8, s9, k);
    lemma_entries_get_concat(s1 + s2 + s3 + s4 + s5 + s6 + s7, s8, k);
    lemma_entries_get_concat(s1 + s2 + s3 + s4 + s5 + s6, s7, k);
    lemma_entries_get_concat(s1 + s2 + s3 + s4 + s5, s6, k);
    lemma_entries_get_concat(s1 + s2 + s3 + s4, s5, k);
    lemma_entries_get_concat(s1 + s2 + s3, s4, k);
    lemma_entries_get_concat(s1 + s2, s3, k);
    lemma_entries_get_concat(s1, s2, k);
    lemma_single_get("model"@, JsonValue::Text(m.visible_model@), k);
    lemma_opt_member_get("sortIndex"@, opt_unsigned(sort_index), k);
    lemma_single_get("upstreamModel"@, JsonValue::Text(m.upstream_model@), k);
    lemma_single_get("displayName"@, JsonValue::Text(m.display_name@), k);
    lemma_single_get("apiFormat"@, JsonValue::Text(m.api_format@), k);
    lemma_opt_member_get("contextWindow"@, opt_unsigned(c.context_window), k);
    if c.input_modalities@.len() > 0 {
        lemma_single_get("inputModalities"@, JsonValue::Array(text_values(views(c.input_modalities@))), k);
    }
    lemma_opt_member_get("reasoning"@, crate::compiler::opt_jview(c.reasoning), k);
    lemma_opt_member_get("codexCache"@, crate::compiler::opt_jview(c.codex_cache), k);
    lemma_opt_member_get("supportsParallelToolCalls"@, match c.supports_parallel_tool_calls {
        Some(b) => Some(JsonValue::Bool(b)),
        None => None,
    }, k);
    lemma_opt_member_get("baseInstructions"@, match c.base_instructions {
        Some(t) => Some(JsonValue::Text(t@)),
        None => None,
    }, k);
    lemma_opt_member_get("codexUltra"@, crate::compiler::opt_jview(c.codex_ultra), k);
}

proof fn lemma_entry_member_display_name(m: CompiledCodexModel, sort_index: Option<u64>)
    ensures
        get(projected_entry(m, sort_index), "displayName"@) == Some(JsonValue::Text(m.display_name@)),
{
    let c = m.capability_summary;
    let s1 = seq![("model"@, JsonValue::Text(m.visible_model@))];
    let s2 = opt_member("sortIndex"@, opt_unsigned(sort_index));
    let s3 = seq![("upstreamModel"@, JsonValue::Text(m.upstream_model@))];
    let s4 = seq![("displayName"@, JsonValue::Text(m.display_name@))];
    let s5 = seq![("apiFormat"@, JsonValue::Text(m.api_format@))];
    let s6 = opt_member("contextWindow"@, opt_unsigned(c.context_window));
    let s7 = if c.input_modalities@.len() > 0 {
        seq![("inputModalities"@, JsonValue::Array(text_values(views(c.input_modalities@))))]
    } else {
        Seq::empty()
    };
    let s8 = opt_member("reasoning"@, crate::compiler::opt_jview(c.reasoning));
    let s9 = opt_member("codexCache"@, crate::compiler::opt_jview(c.codex_cache));
    let s10 = opt_member("supportsParallelToolCalls"@, match c.supports_parallel_tool_calls {
        Some(b) => Some(JsonValue::Bool(b)),
        None => None,
    });
    let s11 = opt_member("baseInstructions"@, match c.base_instructions {
        Some(t) => Some(JsonValue::Text(t@)),
        None => None,
    });
    let s12 = opt_member("codexUltra"@, crate::compiler::opt_jview(c.codex_ultra));
    assert(projected_entry(m, sort_index) == JsonValue::Object(s1 + s2 + s3 + s4 + s5 + s6 + s7 + s8 + s9 + s10 + s11 + s12));
    let k = "displayName"@;
    reveal_strlit("model");
    reveal_strlit("sortIndex");
    reveal_strlit("upstreamModel");
    reveal_strlit("displayName");
    reveal_strlit("apiFormat");
    reveal_strlit("contextWindow");
    reveal_strlit("inputModalities");
    reveal_strlit("reasoning");
    reveal_strlit("codexCache");
    reveal_strlit("supportsParallelToolCalls");
    reveal_strlit("baseInstructions");
    reveal_strlit("codexUltra");
    assert("model"@.len() != "displayName"@.len());
    assert("sortIndex"@.len() != "displayName"@.len());
    assert("upstreamModel"@.len() != "displayName"@.len());
    assert("apiFormat"@.len() != "displayName"@.len());
    assert("contextWindow"@.len() != "displayName"@.len());
    assert("inputModalities"@.len() != "displayName"@.len());
    assert("reasoning"@.len() != "displayName"@.len());
    assert("codexCache"@.len() != "displayName"@.len());
    assert("supportsParallelToolCalls"@.len() != "displayName"@.len());
    assert("baseInstructions"@.len() != "displayName"@.len());
    assert("codexUltra"@.len() != "displayName"@.len());
    lemma_entries_get_concat(s1 + s2 + s3 + s4 + s5 + s6 + s7 + s8 + s9 + s10 + s11, s12, k);
    lemma_entries_get_concat(s1 + s2 + s3 + s4 + s5 + s6 + s7 + s8 + s9 + s10, s11, k);
    lemma_entries_get_concat(s1 + s2 + s3 + s4 + s5 + s6 + s7 + s8 + s9, s10, k);
    lemma_entries_get_concat(s1 + s2 + s3 + s4 + s5 + s6 + s7 + s8, s9, k);
    lemma_entries_get_concat(s1 + s2 + s3 + s4 + s5 + s6 + s7, s8, k);
    lemma_entries_get_concat(s1 + s2 + s3 + s4 + s5 + s6, s7, k);
    lemma_entries_get_concat(s1 + s2 + s3 + s4 + s5, s6, k);
    lemma_entries_get_concat(s1 + s2 + s3 + s4, s5, k);
    lemma_entries_get_concat(s1 + s2 + s3, s4, k);
    lemma_entries_get_concat(s1 + s2, s3, k);
    lemma_entries_get_concat(s1, s2, k);
    lemma_single_get("model"@, JsonValue::Text(m.visible_model@), k);
    lemma_opt_member_get("sortIndex"@, opt_unsigned(sort_index), k);
    lemma_single_get("upstreamModel"@, JsonValue::Text(m.upstream_model@), k);
    lemma_single_get("displayName"@, JsonValue::Text(m.display_name@), k);
    lemma_single_get("apiFormat"@, JsonValue::Text(m.api_format@), k);
    lemma_opt_member_get("contextWindow"@, opt_unsigned(c.context_window), k);
    if c.input_modalities@.len() > 0 {
        lemma_single_get("inputModalities"@, JsonValue::Array(text_values(views(c.input_modalities@))), k);
    }
    lemma_opt_member_get("reasoning"@, crate::compiler::opt_jview(c.reasoning), k);
    lemma_opt_member_get("codexCache"@, crate::compiler::opt_jview(c.codex_cache), k);
    lemma_opt_member_get("supportsParallelToolCalls"@, match c.supports_parallel_tool_calls {
        Some(b) => Some(JsonValue::Bool(b)),
        None => None,
    }, k);
    lemma_opt_member_get("baseInstructions"@, match c.base_instructions {
        Some(t) => Some(JsonValue::Text(t@)),
        None => None,
    }, k);
    lemma_opt_member_get("codexUltra"@, crate::compiler::opt_jview(c.codex_ultra), k);
}

proof fn lemma_entry_member_api_format(m: CompiledCodexModel, sort_index: Option<u64>)
    ensures
        get(projected_entry(m, sort_index), "apiFormat"@) == Some(JsonValue::Text(m.api_format@)),
{
    let c = m.capability_summary;
    let s1 = seq![("model"@, JsonValue::Text(m.visible_model@))];
    let s2 = opt_member("sortIndex"@, opt_unsigned(sort_index));
    let s3 = seq![("upstreamModel"@, JsonValue::Text(m.upstream_model@))];
    let s4 = seq![("displayName"@, JsonValue::Text(m.display_name@))];
    let s5 = seq![("apiFormat"@, JsonValue::Text(m.api_format@))];
    let s6 = opt_member("contextWindow"@, opt_unsigned(c.context_window));
    let s7 = if c.input_modalities@.len() > 0 {
        seq![("inputModalities"@, JsonValue::Array(text_values(views(c.input_modalities@))))]
    } else {
        Seq::empty()
    };
    let s8 = opt_member("reasoning"@, crate::compiler::opt_jview(c.reasoning));
    let s9 = opt_member("codexCache"@, crate::compiler::opt_jview(c.codex_cache));
    let s10 = opt_member("supportsParallelToolCalls"@, match c.supports_parallel_tool_calls {
        Some(b) => Some(JsonValue::Bool(b)),
        None => None,
    });
    let s11 = opt_member("baseInstructions"@, match c.base_instructions {
        Some(t) => Some(JsonValue::Text(t@)),
        None => None,
    });
    let s12 = opt_member("codexUltra"@, crate::compiler::opt_jview(c.codex_ultra));
    assert(projected_entry(m, sort_index) == JsonValue::Object(s1 + s2 + s3 + s4 + s5 + s6 + s7 + s8 + s9 + s10 + s11 + s12));
    let k = "apiFormat"@;
    reveal_strlit("model");
    reveal_strlit("sortIndex");
    reveal_strlit("upstreamModel");
    reveal_strlit("displayName");
    reveal_strlit("apiFormat");
    reveal_strlit("contextWindow");
    reveal_strlit("inputModalities");
    reveal_strlit("reasoning");
    reveal_strlit("codexCache");
    reveal_strlit("supportsParallelToolCalls");
    reveal_strlit("baseInstructions");
    reveal_strlit("codexUltra");
    assert("model"@.len() != "apiFormat"@.len());
    assert("sortIndex"@[0] != "apiFormat"@[0]);
    assert("upstreamModel"@.len() != "apiFormat"@.len());
    assert("displayName"@.len() != "apiFormat"@.len());
    assert("contextWindow"@.len() != "apiFormat"@.len());
    assert("inputModalities"@.len() != "apiFormat"@.len());
    assert("reasoning"@[0] != "apiFormat"@[0]);
    assert("codexCache"@.len() != "apiFormat"@.len());
    assert("supportsParallelToolCalls"@.len() != "apiFormat"@.len());
    assert("baseInstructions"@.len() != "apiFormat"@.len());
    assert("codexUltra"@.len() != "apiFormat"@.len());
    lemma_entries_get_concat(s1 + s2 + s3 + s4 + s5 + s6 + s7 + s8 + s9 + s10 + s11, s12, k);
    lemma_entries_get_concat(s1 + s2 + s3 + s4 + s5 + s6 + s7 + s8 + s9 + s10, s11, k);
    lemma_entries_get_concat(s1 + s2 + s3 + s4 + s5 + s6 + s7 + s8 + s9, s10, k);
    lemma_entries_get_concat(s1 + s2 + s3 + s4 + s5 + s6 + s7 + s8, s9, k);
    lemma_entries_get_concat(s1 + s2 + s3 + s4 + s5 + s6 + s7, s8, k);
    lemma_entries_get_concat(s1 + s2 + s3 + s4 + s5 + s6, s7, k);
    lemma_entries_get_concat(s1 + s2 + s3 + s4 + s5, s6, k);
    lemma_entries_get_concat(s1 + s2 + s3 + s4, s5, k);
    lemma_entries_get_concat(s1 + s2 + s3, s4, k);
    lemma_entries_get_concat(s1 + s2, s3, k);
    lemma_entries_get_concat(s1, s2, k);
    lemma_single_get("model"@, JsonValue::Text(m.visible_model@), k);
    lemma_opt_member_get("sortIndex"@, opt_unsigned(sort_index), k);
    lemma_single_get("upstreamModel"@, JsonValue::Text(m.upstream_model@), k);
    lemma_single_get("displayName"@, JsonValue::Text(m.display_name@), k);
    lemma_single_get("apiFormat"@, JsonValue::Text(m.api_format@), k);
    lemma_opt_member_get("contextWindow"@, opt_unsigned(c.context_window), k);
    if c.input_modalities@.len() > 0 {
        lemma_single_get("inputModalities"@, JsonValue::Array(text_values(views(c.input_modalities@))), k);
    }
    lemma_opt_member_get("reasoning"@, crate::compiler::opt_jview(c.reasoning), k);
    lemma_opt_member_get("codexCache"@, crate::compiler::opt_jview(c.codex_cache), k);
    lemma_opt_member_get("supportsParallelToolCalls"@, match c.supports_parallel_tool_calls {
        Some(b) => Some(JsonValue::Bool(b)),
        None => None,
    }, k);
    lemma_opt_member_get("baseInstructions"@, match c.base_instructions {
        Some(t) => Some(JsonValue::Text(t@)),
        None => None,
    }, k);
    lemma_opt_member_get("codexUltra"@, crate::compiler::opt_jview(c.codex_ultra), k);
}

proof fn lemma_entry_member_reasoning(m: CompiledCodexModel, sort_index: Option<u64>)
    ensures
        get(projected_entry(m, sort_index), "reasoning"@) == crate::compiler::opt_jview(m.capability_summary.reasoning),
{
    let c = m.capability_summary;
    let s1 = seq![("model"@, JsonValue::Text(m.visible_model@))];
    let s2 = opt_member("sortIndex"@, opt_unsigned(sort_index));
    let s3 = seq![("upstreamModel"@, JsonValue::Text(m.upstream_model@))];
    let s4 = seq![("displayName"@, JsonValue::Text(m.display_name@))];
    let s5 = seq![("apiFormat"@, JsonValue::Text(m.api_format@))];
    let s6 = opt_member("contextWindow"@, opt_unsigned(c.context_window));
    let s7 = if c.input_modalities@.len() > 0 {
        seq![("inputModalities"@, JsonValue::Array(text_values(views(c.input_modalities@))))]
    } else {
        Seq::empty()
    };
    let s8 = opt_member("reasoning"@, crate::compiler::opt_jview(c.reasoning));
    let s9 = opt_member("codexCache"@, crate::compiler::opt_jview(c.codex_cache));
    let s10 = opt_member("supportsParallelToolCalls"@, match c.supports_parallel_tool_calls {
        Some(b) => Some(JsonValue::Bool(b)),
        None => None,
    });
    let s11 = opt_member("baseInstructions"@, match c.base_instructions {
        Some(t) => Some(JsonValue::Text(t@)),
        None => None,
    });
    let s12 = opt_member("codexUltra"@, crate::compiler::opt_jview(c.codex_ultra));
    assert(projected_entry(m, sort_index) == JsonValue::Object(s1 + s2 + s3 + s4 + s5 + s6 + s7 + s8 + s9 + s10 + s11 + s12));
    let k = "reasoning"@;
    reveal_strlit("model");
    reveal_strlit("sortIndex");
    reveal_strlit("upstreamModel");
    reveal_strlit("displayName");
    reveal_strlit("apiFormat");
    reveal_strlit("contextWindow");
    reveal_strlit("inputModalities");
    reveal_strlit("reasoning");
    reveal_strlit("codexCache");
    reveal_strlit("supportsParallelToolCalls");
    reveal_strlit("baseInstructions");
    reveal_strlit("codexUltra");
    assert("model"@.len() != "reasoning"@.len());
    assert("sortIndex"@[0] != "reasoning"@[0]);
    assert("upstreamModel"@.len() != "reasoning"@.len());
    assert("displayName"@.len() != "reasoning"@.len());
    assert("apiFormat"@[0] != "reasoning"@[0]);
    assert("contextWindow"@.len() != "reasoning"@.len());
    assert("inputModalities"@.len() != "reasoning"@.len());
    assert("codexCache"@.len() != "reasoning"@.len());
    assert("supportsParallelToolCalls"@.len() != "reasoning"@.len());
    assert("baseInstructions"@.len() != "reasoning"@.len());
    assert("codexUltra"@.len() != "reasoning"@.len());
    lemma_entries_get_concat(s1 + s2 + s3 + s4 + s5 + s6 + s7 + s8 + s9 + s10 + s11, s12, k);
    lemma_entries_get_concat(s1 + s2 + s3 + s4 + s5 + s6 + s7 + s8 + s9 + s10, s11, k);
    lemma_entries_get_concat(s1 + s2 + s3 + s4 + s5 + s6 + s7 + s8 + s9, s10, k);
    lemma_entries_get_concat(s1 + s2 + s3 + s4 + s5 + s6 + s7 + s8, s9, k);
    lemma_entries_get_concat(s1 + s2 + s3 + s4 + s5 + s6 + s7, s8, k);
    lemma_entries_get_concat(s1 + s2 + s3 + s4 + s5 + s6, s7, k);
    lemma_entries_get_concat(s1 + s2 + s3 + s4 + s5, s6, k);
    lemma_entries_get_concat(s1 + s2 + s3 + s4, s5, k);
    lemma_entries_get_concat(s1 + s2 + s3, s4, k);
    lemma_entries_get_concat(s1 + s2, s3, k);
    lemma_entries_get_concat(s1, s2, k);
    lemma_single_get("model"@, JsonValue::Text(m.visible_model@), k);
    lemma_opt_member_get("sortIndex"@, opt_unsigned(sort_index), k);
    lemma_single_get("upstreamModel"@, JsonValue::Text(m.upstream_model@), k);
    lemma_single_get("displayName"@, JsonValue::Text(m.display_name@), k);
    lemma_single_get("apiFormat"@, JsonValue::Text(m.api_format@), k);
    lemma_opt_member_get("contextWindow"@, opt_unsigned(c.context_window), k);
    if c.input_modalities@.len() > 0 {
        lemma_single_get("inputModalities"@, JsonValue::Array(text_values(views(c.input_modalities@))), k);
    }
    lemma_opt_member_get("reasoning"@, crate::compiler::opt_jview(c.reasoning), k);
    lemma_opt_member_get("codexCache"@, crate::compiler::opt_jview(c.codex_cache), k);
    lemma_opt_member_get("supportsParallelToolCalls"@, match c.supports_parallel_tool_calls {
        Some(b) => Some(JsonValue::Bool(b)),
        None => None,
    }, k);
    lemma_opt_member_get("baseInstructions"@, match c.base_instructions {
        Some(t) => Some(JsonValue::Text(t@)),
        None => None,
    }, k);
    lemma_opt_member_get("codexUltra"@, crate::compiler::opt_jview(c.codex_ultra), k);
}
proof fn lemma_entry_member_input_modalities(m: CompiledCodexModel, sort_index: Option<u64>)
    ensures
        get(projected_entry(m, sort_index), "inputModalities"@) == if m.capability_summary.input_modalities@.len() > 0 {
            Some(JsonValue::Array(m.capability_summary.input_modalities@.map_values(|t: String| JsonValue::Text(t@))))
        } else {
            None
        },
{
    let c = m.capability_summary;
    let s1 = seq![("model"@, JsonValue::Text(m.visible_model@))];
    let s2 = opt_member("sortIndex"@, opt_unsigned(sort_index));
    let s3 = seq![("upstreamModel"@, JsonValue::Text(m.upstream_model@))];
    let s4 = seq![("displayName"@, JsonValue::Text(m.display_name@))];
    let s5 = seq![("apiFormat"@, JsonValue::Text(m.api_format@))];
    let s6 = opt_member("contextWindow"@, opt_unsigned(c.context_window));
    let s7 = if c.input_modalities@.len() > 0 {
        seq![("inputModalities"@, JsonValue::Array(text_values(views(c.input_modalities@))))]
    } else {
        Seq::empty()
    };
    let s8 = opt_member("reasoning"@, crate::compiler::opt_jview(c.reasoning));
    let s9 = opt_member("codexCache"@, crate::compiler::opt_jview(c.codex_cache));
    let s10 = opt_member("supportsParallelToolCalls"@, match c.supports_parallel_tool_calls {
        Some(b) => Some(JsonValue::Bool(b)),
        None => None,
    });
    let s11 = opt_member("baseInstructions"@, match c.base_instructions {
        Some(t) => Some(JsonValue::Text(t@)),
        None => None,
    });
    let s12 = opt_member("codexUltra"@, crate::compiler::opt_jview(c.codex_ultra));
    assert(projected_entry(m, sort_index) == JsonValue::Object(s1 + s2 + s3 + s4 + s5 + s6 + s7 + s8 + s9 + s10 + s11 + s12));
    let k = "inputModalities"@;
    reveal_strlit("model");
    reveal_strlit("sortIndex");
    reveal_strlit("upstreamModel");
    reveal_strlit("displayName");
    reveal_strlit("apiFormat");
    reveal_strlit("contextWindow");
    reveal_strlit("inputModalities");
    reveal_strlit("reasoning");
    reveal_strlit("codexCache");
    reveal_strlit("supportsParallelToolCalls");
    reveal_strlit("baseInstructions");
    reveal_strlit("codexUltra");
    assert("model"@.len() != "inputModalities"@.len());
    assert("sortIndex"@.len() != "inputModalities"@.len());
    assert("upstreamModel"@.len() != "inputModalities"@.len());
    assert("displayName"@.len() != "inputModalities"@.len());
    assert("apiFormat"@.len() != "inputModalities"@.len());
    assert("contextWindow"@.len() != "inputModalities"@.len());
    assert("reasoning"@.len() != "inputModalities"@.len());
    assert("codexCache"@.len() != "inputModalities"@.len());
    assert("supportsParallelToolCalls"@.len() != "inputModalities"@.len());
    assert("baseInstructions"@.len() != "inputModalities"@.len());
    assert("codexUltra"@.len() != "inputModalities"@.len());
    lemma_entries_get_concat(s1 + s2 + s3 + s4 + s5 + s6 + s7 + s8 + s9 + s10 + s11, s12, k);
    lemma_entries_get_concat(s1 + s2 + s3 + s4 + s5 + s6 + s7 + s8 + s9 + s10, s11, k);
    lemma_entries_get_concat(s1 + s2 + s3 + s4 + s5 + s6 + s7 + s8 + s9, s10, k);
    lemma_entries_get_concat(s1 + s2 + s3 + s4 + s5 + s6 + s7 + s8, s9, k);
    lemma_entries_get_concat(s1 + s2 + s3 + s4 + s5 + s6 + s7, s8, k);
    lemma_entries_get_concat(s1 + s2 + s3 + s4 + s5 + s6, s7, k);
    lemma_entries_get_concat(s1 + s2 + s3 + s4 + s5, s6, k);
    lemma_entries_get_concat(s1 + s2 + s3 + s4, s5, k);
    lemma_entries_get_concat(s1 + s2 + s3, s4, k);
    lemma_entries_get_concat(s1 + s2, s3, k);
    lemma_entries_get_concat(s1, s2, k);
    lemma_single_get("model"@, JsonValue::Text(m.visible_model@), k);
    lemma_opt_member_get("sortIndex"@, opt_unsigned(sort_index), k);
    lemma_single_get("upstreamModel"@, JsonValue::Text(m.upstream_model@), k);
    lemma_single_get("displayName"@, JsonValue::Text(m.display_name@), k);
    lemma_single_get("apiFormat"@, JsonValue::Text(m.api_format@), k);
    lemma_opt_member_get("contextWindow"@, opt_unsigned(c.context_window), k);
    if c.input_modalities@.len() > 0 {
        lemma_single_get("inputModalities"@, JsonValue::Array(text_values(views(c.input_modalities@))), k);
    }
    lemma_opt_member_get("reasoning"@, crate::compiler::opt_jview(c.reasoning), k);
    lemma_opt_member_get("codexCache"@, crate::compiler::opt_jview(c.codex_cache), k);
    lemma_opt_member_get("supportsParallelToolCalls"@, match c.supports_parallel_tool_calls {
        Some(b) => Some(JsonValue::Bool(b)),
        None => None,
    }, k);
    lemma_opt_member_get("baseInstructions"@, match c.base_instructions {
        Some(t) => Some(JsonValue::Text(t@)),
        None => None,
    }, k);
    lemma_opt_member_get("codexUltra"@, crate::compiler::opt_jview(c.codex_ultra), k);
    assert(text_values(views(m.capability_summary.input_modalities@)) =~= m.capability_summary.input_modalities@.map_values(|t: String| JsonValue::Text(t@)));
}

proof fn lemma_entry_member_codex_cache(m: CompiledCodexModel, sort_index: Option<u64>)
    ensures
        get(projected_entry(m, sort_index), "codexCache"@) == crate::compiler::opt_jview(m.capability_summary.codex_cache),
{
    let c = m.capability_summary;
    let s1 = seq![("model"@, JsonValue::Text(m.visible_model@))];
    let s2 = opt_member("sortIndex"@, opt_unsigned(sort_index));
    let s3 = seq![("upstreamModel"@, JsonValue::Text(m.upstream_model@))];
    let s4 = seq![("displayName"@, JsonValue::Text(m.display_name@))];
    let s5 = seq![("apiFormat"@, JsonValue::Text(m.api_format@))];
    let s6 = opt_member("contextWindow"@, opt_unsigned(c.context_window));
    let s7 = if c.input_modalities@.len() > 0 {
        seq![("inputModalities"@, JsonValue::Array(text_values(views(c.input_modalities@))))]
    } else {
        Seq::empty()
    };
    let s8 = opt_member("reasoning"@, crate::compiler::opt_jview(c.reasoning));
    let s9 = opt_member("codexCache"@, crate::compiler::opt_jview(c.codex_cache));
    let s10 = opt_member("supportsParallelToolCalls"@, match c.supports_parallel_tool_calls {
        Some(b) => Some(JsonValue::Bool(b)),
        None => None,
    });
    let s11 = opt_member("baseInstructions"@, match c.base_instructions {
        Some(t) => Some(JsonValue::Text(t@)),
        None => None,
    });
    let s12 = opt_member("codexUltra"@, crate::compiler::opt_jview(c.codex_ultra));
    assert(projected_entry(m, sort_index) == JsonValue::Object(s1 + s2 + s3 + s4 + s5 + s6 + s7 + s8 + s9 + s10 + s11 + s12));
    let k = "codexCache"@;
    reveal_strlit("model");
    reveal_strlit("sortIndex");
    reveal_strlit("upstreamModel");
    reveal_strlit("displayName");
    reveal_strlit("apiFormat");
    reveal_strlit("contextWindow");
    reveal_strlit("inputModalities");
    reveal_strlit("reasoning");
    reveal_strlit("codexCache");
    reveal_strlit("supportsParallelToolCalls");
    reveal_strlit("baseInstructions");
    reveal_strlit("codexUltra");
    assert("model"@.len() != "codexCache"@.len());
    assert("sortIndex"@.len() != "codexCache"@.len());
    assert("upstreamModel"@.len() != "codexCache"@.len());
    assert("displayName"@.len() != "codexCache"@.len());
    assert("apiFormat"@.len() != "codexCache"@.len());
    assert("contextWindow"@.len() != "codexCache"@.len());
    assert("inputModalities"@.len() != "codexCache"@.len());
    assert("reasoning"@.len() != "codexCache"@.len());
    assert("supportsParallelToolCalls"@.len() != "codexCache"@.len());
    assert("baseInstructions"@.len() != "codexCache"@.len());
    assert("codexUltra"@[5] != "codexCache"@[5]);
    lemma_entries_get_concat(s1 + s2 + s3 + s4 + s5 + s6 + s7 + s8 + s9 + s10 + s11, s12, k);
    lemma_entries_get_concat(s1 + s2 + s3 + s4 + s5 + s6 + s7 + s8 + s9 + s10, s11, k);
    lemma_entries_get_concat(s1 + s2 + s3 + s4 + s5 + s6 + s7 + s8 + s9, s10, k);
    lemma_entries_get_concat(s1 + s2 + s3 + s4 + s5 + s6 + s7 + s8, s9, k);
    lemma_entries_get_concat(s1 + s2 + s3 + s4 + s5 + s6 + s7, s8, k);
    lemma_entries_get_concat(s1 + s2 + s3 + s4 + s5 + s6, s7, k);
    lemma_entries_get_concat(s1 + s2 + s3 + s4 + s5, s6, k);
    lemma_entries_get_concat(s1 + s2 + s3 + s4, s5, k);
    lemma_entries_get_concat(s1 + s2 + s3, s4, k);
    lemma_entries_get_concat(s1 + s2, s3, k);
    lemma_entries_get_concat(s1, s2, k);
    lemma_single_get("model"@, JsonValue::Text(m.visible_model@), k);
    lemma_opt_member_get("sortIndex"@, opt_unsigned(sort_index), k);
    lemma_single_get("upstreamModel"@, JsonValue::Text(m.upstream_model@), k);
    lemma_single_get("displayName"@, JsonValue::Text(m.display_name@), k);
    lemma_single_get("apiFormat"@, JsonValue::Text(m.api_format@), k);
    lemma_opt_member_get("contextWindow"@, opt_unsigned(c.context_window), k);
    if c.input_modalities@.len() > 0 {
        lemma_single_get("inputModalities"@, JsonValue::Array(text_values(views(c.input_modalities@))), k);
    }
    lemma_opt_member_get("reasoning"@, crate::compiler::opt_jview(c.reasoning), k);
    lemma_opt_member_get("codexCache"@, crate::compiler::opt_jview(c.codex_cache), k);
    lemma_opt_member_get("supportsParallelToolCalls"@, match c.supports_parallel_tool_calls {
        Some(b) => Some(JsonValue::Bool(b)),
        None => None,
    }, k);
    lemma_opt_member_get("baseInstructions"@, match c.base_instructions {
        Some(t) => Some(JsonValue::Text(t@)),
        None => None,
    }, k);
    lemma_opt_member_get("codexUltra"@, crate::compiler::opt_jview(c.codex_ultra), k);
}

proof fn lemma_entry_member_codex_ultra(m: CompiledCodexModel, sort_index: Option<u64>)
    ensures
        get(projected_entry(m, sort_index), "codexUltra"@) == crate::compiler::opt_jview(m.capability_summary.codex_ultra),
{
    let c = m.capability_summary;
    let s1 = seq![("model"@, JsonValue::Text(m.visible_model@))];
    let s2 = opt_member("sortIndex"@, opt_unsigned(sort_index));
    let s3 = seq![("upstreamModel"@, JsonValue::Text(m.upstream_model@))];
    let s4 = seq![("displayName"@, JsonValue::Text(m.display_name@))];
    let s5 = seq![("apiFormat"@, JsonValue::Text(m.api_format@))];
    let s6 = opt_member("contextWindow"@, opt_unsigned(c.context_window));
    let s7 = if c.input_modalities@.len() > 0 {
        seq![("inputModalities"@, JsonValue::Array(text_values(views(c.input_modalities@))))]
    } else {
        Seq::empty()
    };
    let s8 = opt_member("reasoning"@, crate::compiler::opt_jview(c.reasoning));
    let s9 = opt_member("codexCache"@, crate::compiler::opt_jview(c.codex_cache));
    let s10 = opt_member("supportsParallelToolCalls"@, match c.supports_parallel_tool_calls {
        Some(b) => Some(JsonValue::Bool(b)),
        None => None,
    });
    let s11 = opt_member("baseInstructions"@, match c.base_instructions {
        Some(t) => Some(JsonValue::Text(t@)),
        None => None,
    });
    let s12 = opt_member("codexUltra"@, crate::compiler::opt_jview(c.codex_ultra));
    assert(projected_entry(m, sort_index) == JsonValue::Object(s1 + s2 + s3 + s4 + s5 + s6 + s7 + s8 + s9 + s10 + s11 + s12));
    let k = "codexUltra"@;
    reveal_strlit("model");
    reveal_strlit("sortIndex");
    reveal_strlit("upstreamModel");
    reveal_strlit("displayName");
    reveal_strlit("apiFormat");
    reveal_strlit("contextWindow");
    reveal_strlit("inputModalities");
    reveal_strlit("reasoning");
    reveal_strlit("codexCache");
    reveal_strlit("supportsParallelToolCalls");
    reveal_strlit("baseInstructions");
    reveal_strlit("codexUltra");
    assert("model"@.len() != "codexUltra"@.len());
    assert("sortIndex"@.len() != "codexUltra"@.len());
    assert("upstreamModel"@.len() != "codexUltra"@.len());
    assert("displayName"@.len() != "codexUltra"@.len());
    assert("apiFormat"@.len() != "codexUltra"@.len());
    assert("contextWindow"@.len() != "codexUltra"@.len());
    assert("inputModalities"@.len() != "codexUltra"@.len());
    assert("reasoning"@.len() != "codexUltra"@.len());
    assert("codexCache"@[5] != "codexUltra"@[5]);
    assert("supportsParallelToolCalls"@.len() != "codexUltra"@.len());
    assert("baseInstructions"@.len() != "codexUltra"@.len());
    lemma_entries_get_concat(s1 + s2 + s3 + s4 + s5 + s6 + s7 + s8 + s9 + s10 + s11, s12, k);
    lemma_entries_get_concat(s1 + s2 + s3 + s4 + s5 + s6 + s7 + s8 + s9 + s10, s11, k);
    lemma_entries_get_concat(s1 + s2 + s3 + s4 + s5 + s6 + s7 + s8 + s9, s10, k);
    lemma_entries_get_concat(s1 + s2 + s3 + s4 + s5 + s6 + s7 + s8, s9, k);
    lemma_entries_get_concat(s1 + s2 + s3 + s4 + s5 + s6 + s7, s8, k);
    lemma_entries_get_concat(s1 + s2 + s3 + s4 + s5 + s6, s7, k);
    lemma_entries_get_concat(s1 + s2 + s3 + s4 + s5, s6, k);
    lemma_entries_get_concat(s1 + s2 + s3 + s4, s5, k);
    lemma_entries_get_concat(s1 + s2 + s3, s4, k);
    lemma_entries_get_concat(s1 + s2, s3, k);
    lemma_entries_get_concat(s1, s2, k);
    lemma_single_get("model"@, JsonValue::Text(m.visible_model@), k);
    lemma_opt_member_get("sortIndex"@, opt_unsigned(sort_index), k);
    lemma_single_get("upstreamModel"@, JsonValue::Text(m.upstream_model@), k);
    lemma_single_get("displayName"@, JsonValue::Text(m.display_name@), k);
    lemma_single_get("apiFormat"@, JsonValue::Text(m.api_format@), k);
    lemma_opt_member_get("contextWindow"@, opt_unsigned(c.context_window), k);
    if c.input_modalities@.len() > 0 {
        lemma_single_get("inputModalities"@, JsonValue::Array(text_values(views(c.input_modalities@))), k);
    }
    lemma_opt_member_get("reasoning"@, crate::compiler::opt_jview(c.reasoning), k);
    lemma_opt_member_get("codexCache"@, crate::compiler::opt_jview(c.codex_cache), k);
    lemma_opt_member_get("supportsParallelToolCalls"@, match c.supports_parallel_tool_calls {
        Some(b) => Some(JsonValue::Bool(b)),
        None => None,
    }, k);
    lemma_opt_member_get("baseInstructions"@, match c.base_instructions {
        Some(t) => Some(JsonValue::Text(t@)),
        None => None,
    }, k);
    lemma_opt_member_get("codexUltra"@, crate::compiler::opt_jview(c.codex_ultra), k);
}

proof fn lemma_entry_member_context_window(m: CompiledCodexModel, sort_index: Option<u64>)
    ensures
        get(projected_entry(m, sort_index), "contextWindow"@) == match m.capability_summary.context_window {
            Some(n) => Some(JsonValue::Unsigned(n)),
            None => None,
        },
{
    let c = m.capability_summary;
    let s1 = seq![("model"@, JsonValue::Text(m.visible_model@))];
    let s2 = opt_member("sortIndex"@, opt_unsigned(sort_index));
    let s3 = seq![("upstreamModel"@, JsonValue::Text(m.upstream_model@))];
    let s4 = seq![("displayName"@, JsonValue::Text(m.display_name@))];
    let s5 = seq![("apiFormat"@, JsonValue::Text(m.api_format@))];
    let s6 = opt_member("contextWindow"@, opt_unsigned(c.context_window));
    let s7 = if c.input_modalities@.len() > 0 {
        seq![("inputModalities"@, JsonValue::Array(text_values(views(c.input_modalities@))))]
    } else {
        Seq::empty()
    };
    let s8 = opt_member("reasoning"@, crate::compiler::opt_jview(c.reasoning));
    let s9 = opt_member("codexCache"@, crate::compiler::opt_jview(c.codex_cache));
    let s10 = opt_member("supportsParallelToolCalls"@, match c.supports_parallel_tool_calls {
        Some(b) => Some(JsonValue::Bool(b)),
        None => None,
    });
    let s11 = opt_member("baseInstructions"@, match c.base_instructions {
        Some(t) => Some(JsonValue::Text(t@)),
        None => None,
    });
    let s12 = opt_member("codexUltra"@, crate::compiler::opt_jview(c.codex_ultra));
    assert(projected_entry(m, sort_index) == JsonValue::Object(s1 + s2 + s3 + s4 + s5 + s6 + s7 + s8 + s9 + s10 + s11 + s12));
    let k = "contextWindow"@;
    reveal_strlit("model");
    reveal_strlit("sortIndex");
    reveal_strlit("upstreamModel");
    reveal_strlit("displayName");
    reveal_strlit("apiFormat");
    reveal_strlit("contextWindow");
    reveal_strlit("inputModalities");
    reveal_strlit("reasoning");
    reveal_strlit("codexCache");
    reveal_strlit("supportsParallelToolCalls");
    reveal_strlit("baseInstructions");
    reveal_strlit("codexUltra");
    assert("model"@.len() != "contextWindow"@.len());
    assert("sortIndex"@.len() != "contextWindow"@.len());
    assert("upstreamModel"@[0] != "contextWindow"@[0]);
    assert("displayName"@.len() != "contextWindow"@.len());
    assert("apiFormat"@.len() != "contextWindow"@.len());
    assert("inputModalities"@.len() != "contextWindow"@.len());
    assert("reasoning"@.len() != "contextWindow"@.len());
    assert("codexCache"@.len() != "contextWindow"@.len());
    assert("supportsParallelToolCalls"@.len() != "contextWindow"@.len());
    assert("baseInstructions"@.len() != "contextWindow"@.len());
    assert("codexUltra"@.len() != "contextWindow"@.len());
    lemma_entries_get_concat(s1 + s2 + s3 + s4 + s5 + s6 + s7 + s8 + s9 + s10 + s11, s12, k);
    lemma_entries_get_concat(s1 + s2 + s3 + s4 + s5 + s6 + s7 + s8 + s9 + s10, s11, k);
    lemma_entries_get_concat(s1 + s2 + s3 + s4 + s5 + s6 + s7 + s8 + s9, s10, k);
    lemma_entries_get_concat(s1 + s2 + s3 + s4 + s5 + s6 + s7 + s8, s9, k);
    lemma_entries_get_concat(s1 + s2 + s3 + s4 + s5 + s6 + s7, s8, k);
    lemma_entries_get_concat(s1 + s2 + s3 + s4 + s5 + s6, s7, k);
    lemma_entries_get_concat(s1 + s2 + s3 + s4 + s5, s6, k);
    lemma_entries_get_concat(s1 + s2 + s3 + s4, s5, k);
    lemma_entries_get_concat(s1 + s2 + s3, s4, k);
    lemma_entries_get_concat(s1 + s2, s3, k);
    lemma_entries_get_concat(s1, s2, k);
    lemma_single_get("model"@, JsonValue::Text(m.visible_model@), k);
    lemma_opt_member_get("sortIndex"@, opt_unsigned(sort_index), k);
    lemma_single_get("upstreamModel"@, JsonValue::Text(m.upstream_model@), k);
    lemma_single_get("displayName"@, JsonValue::Text(m.display_name@), k);
    lemma_single_get("apiFormat"@, JsonValue::Text(m.api_format@), k);
    lemma_opt_member_get("contextWindow"@, opt_unsigned(c.context_window), k);
    if c.input_modalities@.len() > 0 {
        lemma_single_get("inputModalities"@, JsonValue::Array(text_values(views(c.input_modalities@))), k);
    }
    lemma_opt_member_get("reasoning"@, crate::compiler::opt_jview(c.reasoning), k);
    lemma_opt_member_get("codexCache"@, crate::compiler::opt_jview(c.codex_cache), k);
    lemma_opt_member_get("supportsParallelToolCalls"@, match c.supports_parallel_tool_calls {
        Some(b) => Some(JsonValue::Bool(b)),
        None => None,
    }, k);
    lemma_opt_member_get("baseInstructions"@, match c.base_instructions {
        Some(t) => Some(JsonValue::Text(t@)),
        None => None,
    }, k);
    lemma_opt_member_get("codexUltra"@, crate::compiler::opt_jview(c.codex_ultra), k);
}

proof fn lemma_entry_member_supports_parallel_tool_calls(m: CompiledCodexModel, sort_index: Option<u64>)
    ensures
        get(projected_entry(m, sort_index), "supportsParallelToolCalls"@) == match m.capability_summary.supports_parallel_tool_calls {
            Some(b) => Some(JsonValue::Bool(b)),
            None => None,
        },
{
    let c = m.capability_summary;
    let s1 = seq![("model"@, JsonValue::Text(m.visible_model@))];
    let s2 = opt_member("sortIndex"@, opt_unsigned(sort_index));
    let s3 = seq![("upstreamModel"@, JsonValue::Text(m.upstream_model@))];
    let s4 = seq![("displayName"@, JsonValue::Text(m.display_name@))];
    let s5 = seq![("apiFormat"@, JsonValue::Text(m.api_format@))];
    let s6 = opt_member("contextWindow"@, opt_unsigned(c.context_window));
    let s7 = if c.input_modalities@.len() > 0 {
        seq![("inputModalities"@, JsonValue::Array(text_values(views(c.input_modalities@))))]
    } else {
        Seq::empty()
    };
    let s8 = opt_member("reasoning"@, crate::compiler::opt_jview(c.reasoning));
    let s9 = opt_member("codexCache"@, crate::compiler::opt_jview(c.codex_cache));
    let s10 = opt_member("supportsParallelToolCalls"@, match c.supports_parallel_tool_calls {
        Some(b) => Some(JsonValue::Bool(b)),
        None => None,
    });
    let s11 = opt_member("baseInstructions"@, match c.base_instructions {
        Some(t) => Some(JsonValue::Text(t@)),
        None => None,
    });
    let s12 = opt_member("codexUltra"@, crate::compiler::opt_jview(c.codex_ultra));
    assert(projected_entry(m, sort_index) == JsonValue::Object(s1 + s2 + s3 + s4 + s5 + s6 + s7 + s8 + s9 + s10 + s11 + s12));
    let k = "supportsParallelToolCalls"@;
    reveal_strlit("model");
    reveal_strlit("sortIndex");
    reveal_strlit("upstreamModel");
    reveal_strlit("displayName");
    reveal_strlit("apiFormat");
    reveal_strlit("contextWindow");
    reveal_strlit("inputModalities");
    reveal_strlit("reasoning");
    reveal_strlit("codexCache");
    reveal_strlit("supportsParallelToolCalls");
    reveal_strlit("baseInstructions");
    reveal_strlit("codexUltra");
    assert("model"@.len() != "supportsParallelToolCalls"@.len());
    assert("sortIndex"@.len() != "supportsParallelToolCalls"@.len());
    assert("upstreamModel"@.len() != "supportsParallelToolCalls"@.len());
    assert("displayName"@.len() != "supportsParallelToolCalls"@.len());
    assert("apiFormat"@.len() != "supportsParallelToolCalls"@.len());
    assert("contextWindow"@.len() != "supportsParallelToolCalls"@.len());
    assert("inputModalities"@.len() != "supportsParallelToolCalls"@.len());
    assert("reasoning"@.len() != "supportsParallelToolCalls"@.len());
    assert("codexCache"@.len() != "supportsParallelToolCalls"@.len());
    assert("baseInstructions"@.len() != "supportsParallelToolCalls"@.len());
    assert("codexUltra"@.len() != "supportsParallelToolCalls"@.len());
    lemma_entries_get_concat(s1 + s2 + s3 + s4 + s5 + s6 + s7 + s8 + s9 + s10 + s11, s12, k);
    lemma_entries_get_concat(s1 + s2 + s3 + s4 + s5 + s6 + s7 + s8 + s9 + s10, s11, k);
    lemma_entries_get_concat(s1 + s2 + s3 + s4 + s5 + s6 + s7 + s8 + s9, s10, k);
    lemma_entries_get_concat(s1 + s2 + s3 + s4 + s5 + s6 + s7 + s8, s9, k);
    lemma_entries_get_concat(s1 + s2 + s3 + s4 + s5 + s6 + s7, s8, k);
    lemma_entries_get_concat(s1 + s2 + s3 + s4 + s5 + s6, s7, k);
    lemma_entries_get_concat(s1 + s2 + s3 + s4 + s5, s6, k);
    lemma_entries_get_concat(s1 + s2 + s3 + s4, s5, k);
    lemma_entries_get_concat(s1 + s2 + s3, s4, k);
    lemma_entries_get_concat(s1 + s2, s3, k);
    lemma_entries_get_concat(s1, s2, k);
    lemma_single_get("model"@, JsonValue::Text(m.visible_model@), k);
    lemma_opt_member_get("sortIndex"@, opt_unsigned(sort_index), k);
    lemma_single_get("upstreamModel"@, JsonValue::Text(m.upstream_model@), k);
    lemma_single_get("displayName"@, JsonValue::Text(m.display_name@), k);
    lemma_single_get("apiFormat"@, JsonValue::Text(m.api_format@), k);
    lemma_opt_member_get("contextWindow"@, opt_unsigned(c.context_window), k);
    if c.input_modalities@.len() > 0 {
        lemma_single_get("inputModalities"@, JsonValue::Array(text_values(views(c.input_modalities@))), k);
    }
    lemma_opt_member_get("reasoning"@, crate::compiler::opt_jview(c.reasoning), k);
    lemma_opt_member_get("codexCache"@, crate::compiler::opt_jview(c.codex_cache), k);
    lemma_opt_member_get("supportsParallelToolCalls"@, match c.supports_parallel_tool_calls {
        Some(b) => Some(JsonValue::Bool(b)),
        None => None,
    }, k);
    lemma_opt_member_get("baseInstructions"@, match c.base_instructions {
        Some(t) => Some(JsonValue::Text(t@)),
        None => None,
    }, k);
    lemma_opt_member_get("codexUltra"@, crate::compiler::opt_jview(c.codex_ultra), k);
}

proof fn lemma_entry_member_base_instructions(m: CompiledCodexModel, sort_index: Option<u64>)
    ensures
        get(projected_entry(m, sort_index), "baseInstructions"@) == match m.capability_summary.base_instructions {
            Some(t) => Some(JsonValue::Text(t@)),
            None => None,
        },
{
    let c = m.capability_summary;
    let s1 = seq![("model"@, JsonValue::Text(m.visible_model@))];
    let s2 = opt_member("sortIndex"@, opt_unsigned(sort_index));
    let s3 = seq![("upstreamModel"@, JsonValue::Text(m.upstream_model@))];
    let s4 = seq![("displayName"@, JsonValue::Text(m.display_name@))];
    let s5 = seq![("apiFormat"@, JsonValue::Text(m.api_format@))];
    let s6 = opt_member("contextWindow"@, opt_unsigned(c.context_window));
    let s7 = if c.input_modalities@.len() > 0 {
        seq![("inputModalities"@, JsonValue::Array(text_values(views(c.input_modalities@))))]
    } else {
        Seq::empty()
    };
    let s8 = opt_member("reasoning"@, crate::compiler::opt_jview(c.reasoning));
    let s9 = opt_member("codexCache"@, crate::compiler::opt_jview(c.codex_cache));
    let s10 = opt_member("supportsParallelToolCalls"@, match c.supports_parallel_tool_calls {
        Some(b) => Some(JsonValue::Bool(b)),
        None => None,
    });
    let s11 = opt_member("baseInstructions"@, match c.base_instructions {
        Some(t) => Some(JsonValue::Text(t@)),
        None => None,
    });
    let s12 = opt_member("codexUltra"@, crate::compiler::opt_jview(c.codex_ultra));
    assert(projected_entry(m, sort_index) == JsonValue::Object(s1 + s2 + s3 + s4 + s5 + s6 + s7 + s8 + s9 + s10 + s11 + s12));
    let k = "baseInstructions"@;
    reveal_strlit("model");
    reveal_strlit("sortIndex");
    reveal_strlit("upstreamModel");
    reveal_strlit("displayName");
    reveal_strlit("apiFormat");
    reveal_strlit("contextWindow");
    reveal_strlit("inputModalities");
    reveal_strlit("reasoning");
    reveal_strlit("codexCache");
    reveal_strlit("supportsParallelToolCalls");
    reveal_strlit("baseInstructions");
    reveal_strlit("codexUltra");
    assert("model"@.len() != "baseInstructions"@.len());
    assert("sortIndex"@.len() != "baseInstructions"@.len());
    assert("upstreamModel"@.len() != "baseInstructions"@.len());
    assert("displayName"@.len() != "baseInstructions"@.len());
    assert("apiFormat"@.len() != "baseInstructions"@.len());
    assert("contextWindow"@.len() != "baseInstructions"@.len());
    assert("inputModalities"@.len() != "baseInstructions"@.len());
    assert("reasoning"@.len() != "baseInstructions"@.len());
    assert("codexCache"@.len() != "baseInstructions"@.len());
    assert("supportsParallelToolCalls"@.len() != "baseInstructions"@.len());
    assert("codexUltra"@.len() != "baseInstructions"@.len());
    lemma_entries_get_concat(s1 + s2 + s3 + s4 + s5 + s6 + s7 + s8 + s9 + s10 + s11, s12, k);
    lemma_entries_get_concat(s1 + s2 + s3 + s4 + s5 + s6 + s7 + s8 + s9 + s10, s11, k);
    lemma_entries_get_concat(s1 + s2 + s3 + s4 + s5 + s6 + s7 + s8 + s9, s10, k);
    lemma_entries_get_concat(s1 + s2 + s3 + s4 + s5 + s6 + s7 + s8, s9, k);
    lemma_entries_get_concat(s1 + s2 + s3 + s4 + s5 + s6 + s7, s8, k);
    lemma_entries_get_concat(s1 + s2 + s3 + s4 + s5 + s6, s7, k);
    lemma_entries_get_concat(s1 + s2 + s3 + s4 + s5, s6, k);
    lemma_entries_get_concat(s1 + s2 + s3 + s4, s5, k);
    lemma_entries_get_concat(s1 + s2 + s3, s4, k);
    lemma_entries_get_concat(s1 + s2, s3, k);
    lemma_entries_get_concat(s1, s2, k);
    lemma_single_get("model"@, JsonValue::Text(m.visible_model@), k);
    lemma_opt_member_get("sortIndex"@, opt_unsigned(sort_index), k);
    lemma_single_get("upstreamModel"@, JsonValue::Text(m.upstream_model@), k);
    lemma_single_get("displayName"@, JsonValue::Text(m.display_name@), k);
    lemma_single_get("apiFormat"@, JsonValue::Text(m.api_format@), k);
    lemma_opt_member_get("contextWindow"@, opt_unsigned(c.context_window), k);
    if c.input_modalities@.len() > 0 {
        lemma_single_get("inputModalities"@, JsonValue::Array(text_values(views(c.input_modalities@))), k);
    }
    lemma_opt_member_get("reasoning"@, crate::compiler::opt_jview(c.reasoning), k);
    lemma_opt_member_get("codexCache"@, crate::compiler::opt_jview(c.codex_cache), k);
    lemma_opt_member_get("supportsParallelToolCalls"@, match c.supports_parallel_tool_calls {
        Some(b) => Some(JsonValue::Bool(b)),
        None => None,
    }, k);
    lemma_opt_member_get("baseInstructions"@, match c.base_instructions {
        Some(t) => Some(JsonValue::Text(t@)),
        None => None,
    }, k);
    lemma_opt_member_get("codexUltra"@, crate::compiler::opt_jview(c.codex_ultra), k);
}

proof fn lemma_entry_member_sort_index(m: CompiledCodexModel, sort_index: Option<u64>)
    ensures
        get(projected_entry(m, sort_index), "sortIndex"@) == match sort_index {
            Some(n) => Some(JsonValue::Unsigned(n)),
            None => None,
        },
{
    let c = m.capability_summary;
    let s1 = seq![("model"@, JsonValue::Text(m.visible_model@))];
    let s2 = opt_member("sortIndex"@, opt_unsigned(sort_index));
    let s3 = seq![("upstreamModel"@, JsonValue::Text(m.upstream_model@))];
    let s4 = seq![("displayName"@, JsonValue::Text(m.display_name@))];
    let s5 = seq![("apiFormat"@, JsonValue::Text(m.api_format@))];
    let s6 = opt_member("contextWindow"@, opt_unsigned(c.context_window));
    let s7 = if c.input_modalities@.len() > 0 {
        seq![("inputModalities"@, JsonValue::Array(text_values(views(c.input_modalities@))))]
    } else {
        Seq::empty()
    };
    let s8 = opt_member("reasoning"@, crate::compiler::opt_jview(c.reasoning));
    let s9 = opt_member("codexCache"@, crate::compiler::opt_jview(c.codex_cache));
    let s10 = opt_member("supportsParallelToolCalls"@, match c.supports_parallel_tool_calls {
        Some(b) => Some(JsonValue::Bool(b)),
        None => None,
    });
    let s11 = opt_member("baseInstructions"@, match c.base_instructions {
        Some(t) => Some(JsonValue::Text(t@)),
        None => None,
    });
    let s12 = opt_member("codexUltra"@, crate::compiler::opt_jview(c.codex_ultra));
    assert(projected_entry(m, sort_index) == JsonValue::Object(s1 + s2 + s3 + s4 + s5 + s6 + s7 + s8 + s9 + s10 + s11 + s12));
    let k = "sortIndex"@;
    reveal_strlit("model");
    reveal_strlit("sortIndex");
    reveal_strlit("upstreamModel");
    reveal_strlit("displayName");
    reveal_strlit("apiFormat");
    reveal_strlit("contextWindow");
    reveal_strlit("inputModalities");
    reveal_strlit("reasoning");
    reveal_strlit("codexCache");
    reveal_strlit("supportsParallelToolCalls");
    reveal_strlit("baseInstructions");
    reveal_strlit("codexUltra");
    assert("model"@.len() != "sortIndex"@.len());
    assert("upstreamModel"@.len() != "sortIndex"@.len());
    assert("displayName"@.len() != "sortIndex"@.len());
    assert("apiFormat"@[0] != "sortIndex"@[0]);
    assert("contextWindow"@.len() != "sortIndex"@.len());
    assert("inputModalities"@.len() != "sortIndex"@.len());
    assert("reasoning"@[0] != "sortIndex"@[0]);
    assert("codexCache"@.len() != "sortIndex"@.len());
    assert("supportsParallelToolCalls"@.len() != "sortIndex"@.len());
    assert("baseInstructions"@.len() != "sortIndex"@.len());
    assert("codexUltra"@.len() != "sortIndex"@.len());
    lemma_entries_get_concat(s1 + s2 + s3 + s4 + s5 + s6 + s7 + s8 + s9 + s10 + s11, s12, k);
    lemma_entries_get_concat(s1 + s2 + s3 + s4 + s5 + s6 + s7 + s8 + s9 + s10, s11, k);
    lemma_entries_get_concat(s1 + s2 + s3 + s4 + s5 + s6 + s7 + s8 + s9, s10, k);
    lemma_entries_get_concat(s1 + s2 + s3 + s4 + s5 + s6 + s7 + s8, s9, k);
    lemma_entries_get_concat(s1 + s2 + s3 + s4 + s5 + s6 + s7, s8, k);
    lemma_entries_get_concat(s1 + s2 + s3 + s4 + s5 + s6, s7, k);
    lemma_entries_get_concat(s1 + s2 + s3 + s4 + s5, s6, k);
    lemma_entries_get_concat(s1 + s2 + s3 + s4, s5, k);
    lemma_entries_get_concat(s1 + s2 + s3, s4, k);
    lemma_entries_get_concat(s1 + s2, s3, k);
    lemma_entries_get_concat(s1, s2, k);
    lemma_single_get("model"@, JsonValue::Text(m.visible_model@), k);
    lemma_opt_member_get("sortIndex"@, opt_unsigned(sort_index), k);
    lemma_single_get("upstreamModel"@, JsonValue::Text(m.upstream_model@), k);
    lemma_single_get("displayName"@, JsonValue::Text(m.display_name@), k);
    lemma_single_get("apiFormat"@, JsonValue::Text(m.api_format@), k);
    lemma_opt_member_get("contextWindow"@, opt_unsigned(c.context_window), k);
    if c.input_modalities@.len() > 0 {
        lemma_single_get("inputModalities"@, JsonValue::Array(text_values(views(c.input_modalities@))), k);
    }
    lemma_opt_member_get("reasoning"@, crate::compiler::opt_jview(c.reasoning), k);
    lemma_opt_member_get("codexCache"@, crate::compiler::opt_jview(c.codex_cache), k);
    lemma_opt_member_get("supportsParallelToolCalls"@, match c.supports_parallel_tool_calls {
        Some(b) => Some(JsonValue::Bool(b)),
        None => None,
    }, k);
    lemma_opt_member_get("baseInstructions"@, match c.base_instructions {
        Some(t) => Some(JsonValue::Text(t@)),
        None => None,
    }, k);
    lemma_opt_member_get("codexUltra"@, crate::compiler::opt_jview(c.codex_ultra), k);
}

/// A projected catalog entry names the model, its upstream model, display name and
/// protocol, and carries every capability the compiled model has under its own key
/// with the same value (and no member for a capability it lacks).
pub proof fn projected_entry_carries_every_capability(m: CompiledCodexModel, sort_index: Option<u64>)
    ensures
        get(projected_entry(m, sort_index), "model"@) == Some(JsonValue::Text(m.visible_model@)),
        get(projected_entry(m, sort_index), "upstreamModel"@) == Some(JsonValue::Text(m.upstream_model@)),
        get(projected_entry(m, sort_index), "displayName"@) == Some(JsonValue::Text(m.display_name@)),
        get(projected_entry(m, sort_index), "apiFormat"@) == Some(JsonValue::Text(m.api_format@)),
        get(projected_entry(m, sort_index), "reasoning"@) == crate::compiler::opt_jview(m.capability_summary.reasoning),
        get(projected_entry(m, sort_index), "codexCache"@) == crate::compiler::opt_jview(m.capability_summary.codex_cache),
        get(projected_entry(m, sort_index), "codexUltra"@) == crate::compiler::opt_jview(m.capability_summary.codex_ultra),
        get(projected_entry(m, sort_index), "contextWindow"@) == match m.capability_summary.context_window {
            Some(n) => Some(JsonValue::Unsigned(n)),
            None => None,
        },
        get(projected_entry(m, sort_index), "supportsParallelToolCalls"@) == match m.capability_summary.supports_parallel_tool_calls {
            Some(b) => Some(JsonValue::Bool(b)),
            None => None,
        },
        get(projected_entry(m, sort_index), "baseInstructions"@) == match m.capability_summary.base_instructions {
            Some(t) => Some(JsonValue::Text(t@)),
            None => None,
        },
        get(projected_entry(m, sort_index), "inputModalities"@) == if m.capability_summary.input_modalities@.len() > 0 {
            Some(JsonValue::Array(m.capability_summary.input_modalities@.map_values(|t: String| JsonValue::Text(t@))))
        } else {
            None
        },
        get(projected_entry(m, sort_index), "sortIndex"@) == match sort_index {
            Some(n) => Some(JsonValue::Unsigned(n)),
            None => None,
        },
{
    lemma_entry_member_model(m, sort_index);
    lemma_entry_member_upstream_model(m, sort_index);
    lemma_entry_member_display_name(m, sort_index);
    lemma_entry_member_api_format(m, sort_index);
    lemma_entry_member_reasoning(m, sort_index);
    lemma_entry_member_input_modalities(m, sort_index);
    lemma_entry_member_codex_cache(m, sort_index);
    lemma_entry_member_codex_ultra(m, sort_index);
    lemma_entry_member_context_window(m, sort_index);
    lemma_entry_member_supports_parallel_tool_calls(m, sort_index);
    lemma_entry_member_base_instructions(m, sort_index);
    lemma_entry_member_sort_index(m, sort_index);
}

} // verus!
