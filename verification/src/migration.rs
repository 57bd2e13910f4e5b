//! Migrating a legacy Codex MultiRouter to a schema-v2 plan: the revision that guards
//! a migration, the reading of legacy routes, and the decisions a migration makes.
//!
//! Loading and storing providers, and the token store, are the caller's; this module
//! reads legacy settings and decides.
use vstd::prelude::*;
use crate::compiler::{
    clone_provider, find_provider, provider_position, CodexModelSelection, CodexRouteAuthPolicy,
    CodexRouteAuthSource, CodexRoutingConfigV2, CodexRoutingRouteV2, Provider, ProviderMeta,
};
use crate::json::{
    as_object, as_str, eviews, get, get_path, json_as_array, json_as_object, json_as_str, json_get, jview,
    jviews, lemma_eviews_index, lemma_jviews_index, opt_array, opt_get, opt_ref_view, opt_str, Json,
    JsonValue, json_clone, json_set, set_member, opt_bool, json_get_bool, json_get_str,
};
use crate::compiler::nonblank_trimmed;
use crate::model_catalog::{hex_lower, hex_lower_string, sha256_digest, sha256_of};
use crate::text::{
    eq_ignore_ascii_case, eq_ignore_case, lex_lt, lower, opt_view, owned, sorted_set, sorted_set_of,
    starts_with, str_eq, str_lt, str_starts_with, to_lower, trim, trim_str, views, contains_str,
};

verus! {

// ---------------------------------------------------------------------------
// Outcomes
// ---------------------------------------------------------------------------

/// What a migration changes.
#[derive(Debug, Clone)]
pub struct MigrationDiff {
    pub removed_route_fields: Vec<String>,
    pub created_provider_ids: Vec<String>,
    pub changed_route_ids: Vec<String>,
}

/// A provider the migration creates for a route that kept its own overrides.
#[derive(Debug, Clone)]
pub struct GeneratedProviderSummary {
    pub id: String,
    pub name: String,
    pub migration_generated: bool,
    pub source_provider_id: String,
}

/// What a migration would do, and the token that applies it.
#[derive(Debug, Clone)]
pub struct CodexMultiRouterMigrationPreview {
    pub schema_version: u32,
    pub provider_id: String,
    pub expected_revision: String,
    pub plan_token: String,
    pub diff: MigrationDiff,
    pub warnings: Vec<String>,
    pub generated_providers: Vec<GeneratedProviderSummary>,
}

/// What applying a migration did.
#[derive(Debug, Clone)]
pub struct CodexMultiRouterMigrationApplyOutcome {
    pub provider_id: String,
    pub revision: String,
    pub created_provider_ids: Vec<String>,
    pub already_applied: bool,
}

// ---------------------------------------------------------------------------
// Revision
// ---------------------------------------------------------------------------

/// The revision of a provider record: `sha256:` and the lower-case hex SHA-256 of its
/// serialized form.
pub open spec fn revision_of(serialized: Seq<u8>) -> Seq<char> {
    "sha256:"@ + hex_lower(sha256_of(serialized))
}

/// The revision of a router, from its serialized record (`None` when the provider does
/// not exist).
pub fn codex_multirouter_revision(serialized_provider: Option<&[u8]>) -> (r: Result<String, String>)
    ensures
        match serialized_provider {
            None => r is Err && r->Err_0@ == "Codex MultiRouter provider does not exist"@,
            Some(b) => r is Ok && r->Ok_0@ == revision_of(b@),
        },
{
    match serialized_provider {
        None => Err(owned("Codex MultiRouter provider does not exist")),
        Some(bytes) => {
            let digest = sha256_digest(bytes);
            let hex = hex_lower_string(digest.as_slice());
            Ok(crate::text::concat("sha256:", hex.as_str()))
        },
    }
}

// ---------------------------------------------------------------------------
// Applying a previewed migration
// ---------------------------------------------------------------------------

/// What a stored preview recorded.
#[derive(Debug, Clone)]
pub struct StoredMigrationInfo {
    pub provider_id: String,
    pub expected_revision: String,
    pub created_provider_ids: Vec<String>,
    pub result_revision: Option<String>,
}

/// What applying a preview does next.
#[derive(Debug, Clone)]
pub enum MigrationApplyStep {
    /// The migration was applied before and the router is still at its result.
    AlreadyApplied(CodexMultiRouterMigrationApplyOutcome),
    /// Write the migration.
    Write,
}

/// The decision before applying a previewed migration: an expired token, a token for
/// another router or revision, and a router changed since the preview are refused; a
/// router already at the migration's result is reported as applied; otherwise the
/// migration is written.
pub fn migration_apply_step(
    stored: &StoredMigrationInfo,
    token_expired: bool,
    provider_id: &str,
    expected_revision: &str,
    actual_revision: &str,
) -> (r: Result<MigrationApplyStep, String>)
    ensures
        token_expired ==> r is Err && r->Err_0@ == "migration_plan_token_expired"@,
        !token_expired && (stored.provider_id@ != provider_id@ || stored.expected_revision@ != expected_revision@)
            ==> r is Err && r->Err_0@ == "migration_plan_token_mismatch"@,
        !token_expired && stored.provider_id@ == provider_id@ && stored.expected_revision@ == expected_revision@ ==> {
            if opt_view(stored.result_revision) == Some(actual_revision@) {
                &&& r is Ok
                &&& r->Ok_0 matches MigrationApplyStep::AlreadyApplied(o)
                &&& o.provider_id@ == provider_id@
                &&& o.revision@ == actual_revision@
                &&& views(o.created_provider_ids@) == views(stored.created_provider_ids@)
                &&& o.already_applied
            } else if actual_revision@ != expected_revision@ {
                r is Err && r->Err_0@ == "migration_revision_conflict"@
            } else {
                r is Ok && r->Ok_0 is Write
            }
        },
{
    if token_expired {
        return Err(owned("migration_plan_token_expired"));
    }
    if !str_eq(stored.provider_id.as_str(), provider_id) || !str_eq(
        stored.expected_revision.as_str(),
        expected_revision,
    ) {
        return Err(owned("migration_plan_token_mismatch"));
    }
    match &stored.result_revision {
        Some(result) => {
            if str_eq(result.as_str(), actual_revision) {
                let ids = crate::text::clone_strings(&stored.created_provider_ids);
                return Ok(
                    MigrationApplyStep::AlreadyApplied(
                        CodexMultiRouterMigrationApplyOutcome {
                            provider_id: owned(provider_id),
                            revision: owned(actual_revision),
                            created_provider_ids: ids,
                            already_applied: true,
                        },
                    ),
                );
            }
        },
        None => {},
    }
    if !str_eq(actual_revision, expected_revision) {
        return Err(owned("migration_revision_conflict"));
    }
    Ok(MigrationApplyStep::Write)
}

// ---------------------------------------------------------------------------
// Legacy routes
// ---------------------------------------------------------------------------

/// The authentication of a legacy route's upstream: its `source` (provider config when
/// absent) and account.
pub open spec fn auth_source_named(name: Seq<char>) -> Option<CodexRouteAuthSource> {
    if name == "provider_config"@ {
        Some(CodexRouteAuthSource::ProviderConfig)
    } else if name == "managed_account"@ {
        Some(CodexRouteAuthSource::ManagedAccount)
    } else if name == "managed_codex_oauth"@ {
        Some(CodexRouteAuthSource::ManagedCodexOauth)
    } else if name == "native_codex_auth"@ {
        Some(CodexRouteAuthSource::NativeCodexAuth)
    } else if name == "account_pool"@ {
        Some(CodexRouteAuthSource::AccountPool)
    } else {
        None
    }
}

pub open spec fn legacy_auth_source_name(auth: Option<JsonValue>) -> Seq<char> {
    match auth {
        Some(a) => match get(a, "source"@) {
            Some(s) => match as_str(s) {
                Some(t) => t,
                None => "provider_config"@,
            },
            None => "provider_config"@,
        },
        None => "provider_config"@,
    }
}

pub open spec fn legacy_account_id(auth: Option<JsonValue>) -> Option<Seq<char>> {
    match auth {
        Some(a) => match get(a, "accountId"@) {
            Some(s) => as_str(s),
            None => None,
        },
        None => None,
    }
}

/// The auth policy of a legacy route's `upstream.auth`; an unknown source is refused
/// as `migration_auth_source_unknown:<source>`.
pub fn legacy_auth_policy(auth: Option<&Json>) -> (r: Result<CodexRouteAuthPolicy, String>)
    ensures
        match auth_source_named(legacy_auth_source_name(opt_ref_view(auth))) {
            Some(source) => r is Ok && r->Ok_0.source == source && opt_view(r->Ok_0.account_id)
                == legacy_account_id(opt_ref_view(auth)),
            None => r is Err && r->Err_0@ == "migration_auth_source_unknown:"@ + legacy_auth_source_name(
                opt_ref_view(auth),
            ),
        },
{
    proof {
        reveal_strlit("provider_config");
    }
    let source: &str = match auth {
        Some(a) => match json_get(a, "source") {
            Some(s) => match json_as_str(s) {
                Some(t) => t.as_str(),
                None => "provider_config",
            },
            None => "provider_config",
        },
        None => "provider_config",
    };
    let parsed = if str_eq(source, "provider_config") {
        CodexRouteAuthSource::ProviderConfig
    } else if str_eq(source, "managed_account") {
        CodexRouteAuthSource::ManagedAccount
    } else if str_eq(source, "managed_codex_oauth") {
        CodexRouteAuthSource::ManagedCodexOauth
    } else if str_eq(source, "native_codex_auth") {
        CodexRouteAuthSource::NativeCodexAuth
    } else if str_eq(source, "account_pool") {
        CodexRouteAuthSource::AccountPool
    } else {
        return Err(crate::text::concat("migration_auth_source_unknown:", source));
    };
    let account_id = match auth {
        Some(a) => match json_get(a, "accountId") {
            Some(s) => match json_as_str(s) {
                Some(t) => Some(t.clone()),
                None => None,
            },
            None => None,
        },
        None => None,
    };
    Ok(CodexRouteAuthPolicy { source: parsed, account_id })
}

/// The trimmed, non-empty strings of a JSON array, in order (other values are skipped).
pub open spec fn trimmed_strings(a: Seq<JsonValue>) -> Seq<Seq<char>>
    decreases a.len(),
{
    if a.len() == 0 {
        Seq::empty()
    } else {
        let before = trimmed_strings(a.drop_last());
        match as_str(a.last()) {
            Some(t) => if trim(t).len() > 0 {
                before.push(trim(t))
            } else {
                before
            },
            None => before,
        }
    }
}

/// Inserts `x` after every string whose lower-case form is not greater than its own.
pub open spec fn insert_by_lower(s: Seq<Seq<char>>, x: Seq<char>) -> Seq<Seq<char>>
    decreases s.len(),
{
    if s.len() == 0 {
        seq![x]
    } else if lex_lt(lower(x), lower(s[0])) {
        seq![x] + s
    } else {
        seq![s[0]] + insert_by_lower(s.drop_first(), x)
    }
}

/// The strings ordered by their ASCII lower-case form; equal forms keep their order
/// (a stable sort by key).
pub open spec fn sort_by_lower(s: Seq<Seq<char>>) -> Seq<Seq<char>>
    decreases s.len(),
{
    if s.len() == 0 {
        Seq::empty()
    } else {
        insert_by_lower(sort_by_lower(s.drop_last()), s.last())
    }
}

/// Drops every string equal, ignoring ASCII case, to the string kept before it
/// (`Vec::dedup_by` with `eq_ignore_ascii_case`).
pub open spec fn dedup_ignore_case(s: Seq<Seq<char>>) -> Seq<Seq<char>>
    decreases s.len(),
{
    if s.len() == 0 {
        Seq::empty()
    } else {
        let kept = dedup_ignore_case(s.drop_last());
        if kept.len() > 0 && eq_ignore_case(kept.last(), s.last()) {
            kept
        } else {
            kept.push(s.last())
        }
    }
}

/// The array at `/match/prefixes` of a legacy route.
pub open spec fn prefix_values(route: JsonValue) -> Seq<JsonValue> {
    match opt_array(get_path(route, seq!["match"@, "prefixes"@])) {
        Some(a) => a,
        None => Seq::empty(),
    }
}

/// A legacy route's match prefixes: trimmed, ordered ignoring case, and without
/// case-insensitive repeats (the first spelling is kept).
pub open spec fn match_prefixes_of(route: JsonValue) -> Seq<Seq<char>> {
    dedup_ignore_case(sort_by_lower(trimmed_strings(prefix_values(route))))
}

fn json_path2<'a>(v: &'a Json, a: &str, b: &str) -> (r: Option<&'a Json>)
    ensures
        opt_ref_view(r) == get_path(v@, seq![a@, b@]),
{
    proof {
        reveal_with_fuel(get_path, 3);
        assert(seq![a@, b@].drop_first() =~= seq![b@]);
        assert(seq![b@].drop_first() =~= Seq::<Seq<char>>::empty());
    }
    match json_get(v, a) {
        Some(x) => json_get(x, b),
        None => None,
    }
}

/// The trimmed, non-empty strings of an array (see `trimmed_strings`).
pub fn trimmed_string_items(a: &Vec<Json>) -> (r: Vec<String>)
    ensures
        views(r@) == trimmed_strings(jviews(a@)),
{
    proof {
        lemma_jviews_index(a@);
    }
    let mut out: Vec<String> = Vec::new();
    let mut i: usize = 0;
    while i < a.len()
        invariant
            i <= a@.len(),
            jviews(a@).len() == a@.len(),
            forall|k: int| 0 <= k < a@.len() ==> #[trigger] jviews(a@)[k] == jview(a@[k]),
            views(out@) == trimmed_strings(jviews(a@).take(i as int)),
        decreases a.len() - i,
    {
        assert(jviews(a@).take(i + 1).drop_last() =~= jviews(a@).take(i as int));
        assert(jviews(a@).take(i + 1).last() == jview(a@[i as int]));
        match json_as_str(&a[i]) {
            Some(t) => {
                let tt = trim_str(t.as_str());
                if tt.as_str().unicode_len() > 0 {
                    let ghost before = out@;
                    out.push(tt);
                    assert(views(out@) =~= views(before).push(trim(t@)));
                }
            },
            None => {},
        }
        i = i + 1;
    }
    assert(jviews(a@).take(a@.len() as int) =~= jviews(a@));
    out
}

proof fn lemma_insert_by_lower_at(s: Seq<Seq<char>>, x: Seq<char>, p: int)
    requires
        0 <= p <= s.len(),
        forall|q: int| 0 <= q < p ==> !lex_lt(lower(x), lower(#[trigger] s[q])),
        p < s.len() ==> lex_lt(lower(x), lower(s[p])),
    ensures
        insert_by_lower(s, x) == s.take(p).push(x) + s.skip(p),
    decreases s.len(),
{
    if s.len() == 0 {
        assert(s.take(p).push(x) + s.skip(p) =~= seq![x]);
    } else if p == 0 {
        assert(s.take(p).push(x) + s.skip(p) =~= seq![x] + s);
    } else {
        let t = s.drop_first();
        assert forall|q: int| 0 <= q < p - 1 implies !lex_lt(lower(x), lower(#[trigger] t[q])) by {
            assert(t[q] == s[q + 1]);
        }
        lemma_insert_by_lower_at(t, x, p - 1);
        assert(s.take(p).push(x) + s.skip(p) =~= seq![s[0]] + (t.take(p - 1).push(x) + t.skip(p - 1)));
    }
}

/// Strings ordered by their lower-case form (see `sort_by_lower`).
pub fn sort_strings_by_lower(v: Vec<String>) -> (r: Vec<String>)
    ensures
        views(r@) == sort_by_lower(views(v@)),
{
    let mut out: Vec<String> = Vec::new();
    let mut i: usize = 0;
    while i < v.len()
        invariant
            i <= v@.len(),
            views(out@) == sort_by_lower(views(v@).take(i as int)),
        decreases v.len() - i,
    {
        let ghost s = views(out@);
        let x = v[i].clone();
        let lx = to_lower(x.as_str());
        let mut p: usize = 0;
        while p < out.len() && !str_lt(lx.as_str(), to_lower(out[p].as_str()).as_str())
            invariant
                p <= out@.len(),
                s == views(out@),
                lx@ == lower(x@),
                forall|q: int| 0 <= q < p ==> !lex_lt(lower(x@), lower(#[trigger] s[q])),
            decreases out.len() - p,
        {
            p = p + 1;
        }
        proof {
            lemma_insert_by_lower_at(s, x@, p as int);
            assert(views(v@).take(i + 1).drop_last() =~= views(v@).take(i as int));
            assert(views(v@).take(i + 1).last() == x@);
        }
        let ghost xv = x@;
        out.insert(p, x);
        assert(views(out@) =~= s.take(p as int).push(xv) + s.skip(p as int));
        i = i + 1;
    }
    assert(views(v@).take(v@.len() as int) =~= views(v@));
    out
}

/// Drops case-insensitive repeats (see `dedup_ignore_case`).
pub fn dedup_strings_ignore_case(v: Vec<String>) -> (r: Vec<String>)
    ensures
        views(r@) == dedup_ignore_case(views(v@)),
{
    let mut out: Vec<String> = Vec::new();
    let mut i: usize = 0;
    while i < v.len()
        invariant
            i <= v@.len(),
            views(out@) == dedup_ignore_case(views(v@).take(i as int)),
        decreases v.len() - i,
    {
        proof {
            assert(views(v@).take(i + 1).drop_last() =~= views(v@).take(i as int));
            assert(views(v@).take(i + 1).last() == v@[i as int]@);
        }
        let repeat = out.len() > 0 && eq_ignore_ascii_case(out[out.len() - 1].as_str(), v[i].as_str());
        if !repeat {
            let ghost before = views(out@);
            let c = v[i].clone();
            assert(c@ == v@[i as int]@);
            out.push(c);
            assert(views(out@) =~= before.push(c@));
        }
        i = i + 1;
    }
    assert(views(v@).take(v@.len() as int) =~= views(v@));
    out
}

/// A legacy route's match prefixes (see `match_prefixes_of`).
pub fn legacy_route_match_prefixes(route: &Json) -> (r: Vec<String>)
    ensures
        views(r@) == match_prefixes_of(route@),
{
    let items = match json_path2(route, "match", "prefixes") {
        Some(p) => match json_as_array(p) {
            Some(a) => trimmed_string_items(a),
            None => Vec::new(),
        },
        None => Vec::new(),
    };
    proof {
        assert(trimmed_strings(Seq::<JsonValue>::empty()) =~= Seq::<Seq<char>>::empty());
    }
    let sorted = sort_strings_by_lower(items);
    dedup_strings_ignore_case(sorted)
}

// ---------------------------------------------------------------------------
// A provider's model catalog
// ---------------------------------------------------------------------------

/// The catalog in a provider's settings: `modelCatalog`, else `model_catalog`.
pub open spec fn catalog_value(settings: JsonValue) -> Option<JsonValue> {
    match get(settings, "modelCatalog"@) {
        Some(c) => Some(c),
        None => get(settings, "model_catalog"@),
    }
}

/// The catalog's model entries (none when there is no `models` array).
pub open spec fn catalog_model_values(settings: JsonValue) -> Seq<JsonValue> {
    match opt_array(opt_get(catalog_value(settings), "models"@)) {
        Some(a) => a,
        None => Seq::empty(),
    }
}

/// A catalog entry's visible name and upstream identity: the trimmed `model`, and the
/// trimmed `upstreamModel` (else `upstream_model`) or the visible name. Entries without
/// a model name are skipped.
pub open spec fn catalog_entry_of(m: JsonValue) -> Option<(Seq<char>, Seq<char>)> {
    match nonblank_trimmed(opt_str(get(m, "model"@))) {
        Some(v) => {
            let up_value = match get(m, "upstreamModel"@) {
                Some(x) => Some(x),
                None => get(m, "upstream_model"@),
            };
            match nonblank_trimmed(opt_str(up_value)) {
                Some(u) => Some((v, u)),
                None => Some((v, v)),
            }
        },
        None => None,
    }
}

pub open spec fn catalog_entries_of(ms: Seq<JsonValue>) -> Seq<(Seq<char>, Seq<char>)>
    decreases ms.len(),
{
    if ms.len() == 0 {
        Seq::empty()
    } else {
        let before = catalog_entries_of(ms.drop_last());
        match catalog_entry_of(ms.last()) {
            Some(e) => before.push(e),
            None => before,
        }
    }
}

/// The (visible, upstream) names of a provider's current catalog, in order.
pub open spec fn provider_catalog(p: Provider) -> Seq<(Seq<char>, Seq<char>)> {
    catalog_entries_of(catalog_model_values(p.settings_config@))
}

pub open spec fn entry_views(es: Seq<(String, String)>) -> Seq<(Seq<char>, Seq<char>)> {
    es.map_values(|e: (String, String)| (e.0@, e.1@))
}

fn nonblank_str(o: Option<&Json>) -> (r: Option<String>)
    ensures
        opt_view(r) == nonblank_trimmed(opt_str(opt_ref_view(o))),
{
    match o {
        Some(j) => match json_as_str(j) {
            Some(t) => {
                let tt = trim_str(t.as_str());
                if tt.as_str().unicode_len() > 0 {
                    Some(tt)
                } else {
                    None
                }
            },
            None => None,
        },
        None => None,
    }
}

fn catalog_entry(m: &Json) -> (r: Option<(String, String)>)
    ensures
        match r {
            Some(e) => catalog_entry_of(m@) == Some((e.0@, e.1@)),
            None => catalog_entry_of(m@) is None,
        },
{
    match nonblank_str(json_get(m, "model")) {
        Some(v) => {
            let up_value = match json_get(m, "upstreamModel") {
                Some(x) => Some(x),
                None => json_get(m, "upstream_model"),
            };
            match nonblank_str(up_value) {
                Some(u) => Some((v, u)),
                None => {
                    let v2 = v.clone();
                    Some((v, v2))
                },
            }
        },
        None => None,
    }
}

/// The (visible, upstream) names of a provider's current catalog (see
/// `provider_catalog`).
pub fn provider_catalog_entries(provider: &Provider) -> (r: Vec<(String, String)>)
    ensures
        entry_views(r@) == provider_catalog(*provider),
{
    let settings = &provider.settings_config;
    let catalog = match json_get(settings, "modelCatalog") {
        Some(c) => Some(c),
        None => json_get(settings, "model_catalog"),
    };
    let models: Option<&Vec<Json>> = match catalog {
        Some(c) => match json_get(c, "models") {
            Some(m) => json_as_array(m),
            None => None,
        },
        None => None,
    };
    let mut out: Vec<(String, String)> = Vec::new();
    match models {
        Some(a) => {
            proof {
                lemma_jviews_index(a@);
            }
            let mut i: usize = 0;
            while i < a.len()
                invariant
                    i <= a@.len(),
                    jviews(a@) == catalog_model_values(provider.settings_config@),
                    jviews(a@).len() == a@.len(),
                    forall|k: int| 0 <= k < a@.len() ==> #[trigger] jviews(a@)[k] == jview(a@[k]),
                    entry_views(out@) == catalog_entries_of(jviews(a@).take(i as int)),
                decreases a.len() - i,
            {
                assert(jviews(a@).take(i + 1).drop_last() =~= jviews(a@).take(i as int));
                assert(jviews(a@).take(i + 1).last() == jview(a@[i as int]));
                match catalog_entry(&a[i]) {
                    Some(e) => {
                        let ghost before = out@;
                        out.push(e);
                        assert(entry_views(out@) =~= entry_views(before).push((e.0@, e.1@)));
                    },
                    None => {},
                }
                i = i + 1;
            }
            assert(jviews(a@).take(a@.len() as int) =~= jviews(a@));
        },
        None => {
            assert(entry_views(out@) =~= catalog_entries_of(Seq::empty()));
        },
    }
    out
}

/// The upstream names of a provider's catalog, each once, in order.
pub fn provider_catalog_models(provider: &Provider) -> (r: Vec<String>)
    ensures
        views(r@) == sorted_set(provider_catalog(*provider).map_values(|e: (Seq<char>, Seq<char>)| e.1)),
{
    let entries = provider_catalog_entries(provider);
    let mut ups: Vec<String> = Vec::new();
    let mut i: usize = 0;
    while i < entries.len()
        invariant
            i <= entries@.len(),
            views(ups@) == entry_views(entries@).map_values(|e: (Seq<char>, Seq<char>)| e.1).take(i as int),
        decreases entries.len() - i,
    {
        let ghost before = ups@;
        let c = entries[i].1.clone();
        assert(c@ == entries@[i as int].1@);
        ups.push(c);
        assert(views(ups@) =~= views(before).push(c@));
        assert(views(ups@) =~= entry_views(entries@).map_values(|e: (Seq<char>, Seq<char>)| e.1).take(i + 1));
        i = i + 1;
    }
    assert(entry_views(entries@).map_values(|e: (Seq<char>, Seq<char>)| e.1).take(i as int)
        =~= entry_views(entries@).map_values(|e: (Seq<char>, Seq<char>)| e.1));
    sorted_set_of(&ups)
}

// ---------------------------------------------------------------------------
// A legacy route's models
// ---------------------------------------------------------------------------

/// A legacy route's `upstream.modelMap`.
pub open spec fn model_map_of(route: JsonValue) -> Option<JsonValue> {
    opt_get(get(route, "upstream"@), "modelMap"@)
}

/// The canonical model a legacy visible name maps to: its non-blank `modelMap` entry,
/// else itself.
pub open spec fn canonical_for(map: Option<JsonValue>, visible: Seq<char>) -> Seq<char> {
    match nonblank_trimmed(opt_str(opt_get(map, visible))) {
        Some(c) => c,
        None => visible,
    }
}

/// The models a legacy route matches (`/match/models`), trimmed.
pub open spec fn match_models_of(route: JsonValue) -> Seq<Seq<char>> {
    trimmed_strings(
        match opt_array(get_path(route, seq!["match"@, "models"@])) {
            Some(a) => a,
            None => Seq::empty(),
        },
    )
}

/// The canonical models a legacy route selects, each once, in order.
pub open spec fn route_canonical_models(route: JsonValue) -> Seq<Seq<char>> {
    sorted_set(match_models_of(route).map_values(|v: Seq<char>| canonical_for(model_map_of(route), v)))
}

fn get_opt<'a>(v: Option<&'a Json>, key: &str) -> (r: Option<&'a Json>)
    ensures
        opt_ref_view(r) == opt_get(opt_ref_view(v), key@),
{
    match v {
        Some(x) => json_get(x, key),
        None => None,
    }
}

/// The canonical models a legacy route selects (see `route_canonical_models`).
pub fn legacy_route_canonical_models(route: &Json) -> (r: Vec<String>)
    ensures
        views(r@) == route_canonical_models(route@),
{
    let map = get_opt(json_get(route, "upstream"), "modelMap");
    let visible = match json_path2(route, "match", "models") {
        Some(p) => match json_as_array(p) {
            Some(a) => trimmed_string_items(a),
            None => Vec::new(),
        },
        None => Vec::new(),
    };
    proof {
        assert(trimmed_strings(Seq::<JsonValue>::empty()) =~= Seq::<Seq<char>>::empty());
    }
    let ghost mv = opt_ref_view(map);
    let mut canon: Vec<String> = Vec::new();
    let mut i: usize = 0;
    while i < visible.len()
        invariant
            i <= visible@.len(),
            mv == model_map_of(route@),
            mv == opt_ref_view(map),
            views(visible@) == match_models_of(route@),
            views(canon@) == views(visible@).map_values(|v: Seq<char>| canon_view(mv, v)).take(i as int),
        decreases visible.len() - i,
    {
        let key = visible[i].as_str();
        let found = get_opt(map, key);
        assert(opt_ref_view(found) == opt_get(mv, visible@[i as int]@));
        let c = match nonblank_str(found) {
            Some(c) => c,
            None => {
                let d = visible[i].clone();
                assert(d@ == visible@[i as int]@);
                d
            },
        };
        assert(c@ == canon_view(mv, visible@[i as int]@));
        let ghost before = canon@;
        canon.push(c);
        assert(views(canon@) =~= views(before).push(c@));
        assert(views(canon@) =~= views(visible@).map_values(|v: Seq<char>| canon_view(mv, v)).take(i + 1));
        i = i + 1;
    }
    assert(views(visible@).map_values(|v: Seq<char>| canon_view(mv, v)).take(i as int)
        =~= views(visible@).map_values(|v: Seq<char>| canon_view(mv, v)));
    assert(views(visible@).map_values(|v: Seq<char>| canon_view(mv, v))
        =~= match_models_of(route@).map_values(|v: Seq<char>| canonical_for(model_map_of(route@), v)));
    sorted_set_of(&canon)
}

pub open spec fn canon_view(map: Option<JsonValue>, v: Seq<char>) -> Seq<char> {
    canonical_for(map, v)
}

// ---------------------------------------------------------------------------
// Expanding legacy prefixes
// ---------------------------------------------------------------------------

/// `name` starts with one of the prefixes, ignoring ASCII case.
pub open spec fn any_prefix(name: Seq<char>, prefixes: Seq<Seq<char>>) -> bool {
    exists|i: int| 0 <= i < prefixes.len() && starts_with(lower(name), lower(#[trigger] prefixes[i]))
}

/// The visible catalog names that a prefix selects, in catalog order.
pub open spec fn visible_prefix_matches(entries: Seq<(Seq<char>, Seq<char>)>, prefixes: Seq<Seq<char>>) -> Seq<Seq<char>>
    decreases entries.len(),
{
    if entries.len() == 0 {
        Seq::empty()
    } else {
        let before = visible_prefix_matches(entries.drop_last(), prefixes);
        if any_prefix(entries.last().0, prefixes) {
            before.push(entries.last().0)
        } else {
            before
        }
    }
}

/// The visible name of the first catalog entry whose visible or upstream name is
/// `identity`, ignoring ASCII case.
pub open spec fn first_catalog_match(entries: Seq<(Seq<char>, Seq<char>)>, identity: Seq<char>) -> Option<Seq<char>>
    decreases entries.len(),
{
    if entries.len() == 0 {
        None
    } else if eq_ignore_case(entries[0].0, identity) || eq_ignore_case(entries[0].1, identity) {
        Some(entries[0].0)
    } else {
        first_catalog_match(entries.drop_first(), identity)
    }
}

/// The trimmed string of a JSON value (empty for other values).
pub open spec fn trimmed_text(v: JsonValue) -> Seq<char> {
    match as_str(v) {
        Some(t) => trim(t),
        None => Seq::empty(),
    }
}

/// The catalog names that legacy aliases selected by a prefix resolve to.
pub open spec fn alias_prefix_matches(
    aliases: Seq<(Seq<char>, JsonValue)>,
    entries: Seq<(Seq<char>, Seq<char>)>,
    prefixes: Seq<Seq<char>>,
) -> Seq<Seq<char>>
    decreases aliases.len(),
{
    if aliases.len() == 0 {
        Seq::empty()
    } else {
        let before = alias_prefix_matches(aliases.drop_last(), entries, prefixes);
        let alias = trim(aliases.last().0);
        let identity = trimmed_text(aliases.last().1);
        if alias.len() > 0 && identity.len() > 0 && any_prefix(alias, prefixes) {
            match first_catalog_match(entries, identity) {
                Some(v) => before.push(v),
                None => before,
            }
        } else {
            before
        }
    }
}

/// The models a legacy route's prefixes select from the target's current catalog:
/// visible names that start with a prefix, and the catalog names that aliases starting
/// with a prefix resolve to; each once, in order.
pub open spec fn prefix_selected_models(route: JsonValue, target: Provider, prefixes: Seq<Seq<char>>) -> Seq<Seq<char>> {
    let entries = provider_catalog(target);
    let aliases = match model_map_of(route) {
        Some(m) => match as_object(m) {
            Some(es) => es,
            None => Seq::empty(),
        },
        None => Seq::empty(),
    };
    sorted_set(visible_prefix_matches(entries, prefixes) + alias_prefix_matches(aliases, entries, prefixes))
}

fn starts_with_any(name: &str, lowered_prefixes: &Vec<String>, prefixes: Ghost<Seq<Seq<char>>>) -> (r: bool)
    requires
        views(lowered_prefixes@) == prefixes@.map_values(|p: Seq<char>| lower(p)),
    ensures
        r == any_prefix(name@, prefixes@),
{
    let ln = to_lower(name);
    let mut i: usize = 0;
    assert(views(lowered_prefixes@).len() == lowered_prefixes@.len());
    while i < lowered_prefixes.len()
        invariant
            i <= lowered_prefixes@.len(),
            lowered_prefixes@.len() == prefixes@.len(),
            ln@ == lower(name@),
            views(lowered_prefixes@) == prefixes@.map_values(|p: Seq<char>| lower(p)),
            forall|k: int| 0 <= k < i ==> !starts_with(lower(name@), lower(#[trigger] prefixes@[k])),
        decreases lowered_prefixes.len() - i,
    {
        assert(views(lowered_prefixes@)[i as int] == lowered_prefixes@[i as int]@);
        assert(prefixes@.map_values(|p: Seq<char>| lower(p))[i as int] == lower(prefixes@[i as int]));
        if str_starts_with(ln.as_str(), lowered_prefixes[i].as_str()) {
            assert(starts_with(lower(name@), lower(prefixes@[i as int])));
            return true;
        }
        i = i + 1;
    }
    false
}

fn find_catalog_match(entries: &Vec<(String, String)>, identity: &str) -> (r: Option<String>)
    ensures
        opt_view(r) == first_catalog_match(entry_views(entries@), identity@),
{
    let ghost ev = entry_views(entries@);
    let mut i: usize = 0;
    assert(ev.skip(0) =~= ev);
    while i < entries.len()
        invariant
            i <= entries@.len(),
            ev == entry_views(entries@),
            first_catalog_match(ev, identity@) == first_catalog_match(ev.skip(i as int), identity@),
        decreases entries.len() - i,
    {
        assert(ev.skip(i as int).drop_first() =~= ev.skip(i + 1));
        assert(ev.skip(i as int)[0] == (entries@[i as int].0@, entries@[i as int].1@));
        if eq_ignore_ascii_case(entries[i].0.as_str(), identity) || eq_ignore_ascii_case(
            entries[i].1.as_str(),
            identity,
        ) {
            return Some(entries[i].0.clone());
        }
        i = i + 1;
    }
    None
}

/// The models a legacy route's prefixes select (see `prefix_selected_models`).
pub fn legacy_prefix_selected_models(route: &Json, target: &Provider, prefixes: &Vec<String>) -> (r: Vec<String>)
    ensures
        views(r@) == prefix_selected_models(route@, *target, views(prefixes@)),
{
    let ghost pv = views(prefixes@);
    let mut lowered: Vec<String> = Vec::new();
    let mut i: usize = 0;
    while i < prefixes.len()
        invariant
            i <= prefixes@.len(),
            pv == views(prefixes@),
            views(lowered@) == pv.map_values(|p: Seq<char>| lower(p)).take(i as int),
        decreases prefixes.len() - i,
    {
        let ghost before = lowered@;
        let l = to_lower(prefixes[i].as_str());
        lowered.push(l);
        assert(views(lowered@) =~= views(before).push(l@));
        assert(views(lowered@) =~= pv.map_values(|p: Seq<char>| lower(p)).take(i + 1));
        i = i + 1;
    }
    assert(pv.map_values(|p: Seq<char>| lower(p)).take(i as int) =~= pv.map_values(|p: Seq<char>| lower(p)));
    let entries = provider_catalog_entries(target);
    let ghost ev = entry_views(entries@);
    let mut selected: Vec<String> = Vec::new();
    let mut j: usize = 0;
    while j < entries.len()
        invariant
            j <= entries@.len(),
            ev == entry_views(entries@),
            views(lowered@) == pv.map_values(|p: Seq<char>| lower(p)),
            views(selected@) == visible_prefix_matches(ev.take(j as int), pv),
        decreases entries.len() - j,
    {
        assert(ev.take(j + 1).drop_last() =~= ev.take(j as int));
        assert(ev.take(j + 1).last() == (entries@[j as int].0@, entries@[j as int].1@));
        if starts_with_any(entries[j].0.as_str(), &lowered, Ghost(pv)) {
            let ghost before = selected@;
            let c = entries[j].0.clone();
            assert(c@ == entries@[j as int].0@);
            selected.push(c);
            assert(views(selected@) =~= views(before).push(c@));
        }
        j = j + 1;
    }
    assert(ev.take(entries@.len() as int) =~= ev);
    let ghost visible_part = views(selected@);
    let aliases: Option<&Vec<(String, Json)>> = match get_opt(json_get(route, "upstream"), "modelMap") {
        Some(m) => json_as_object(m),
        None => None,
    };
    let ghost av = match aliases {
        Some(es) => eviews(es@),
        None => Seq::empty(),
    };
    let mut alias_part: Vec<String> = Vec::new();
    match aliases {
        Some(es) => {
            proof {
                lemma_eviews_index(es@);
            }
            let mut k: usize = 0;
            while k < es.len()
                invariant
                    k <= es@.len(),
                    av == eviews(es@),
                    av.len() == es@.len(),
                    forall|q: int| 0 <= q < es@.len() ==> #[trigger] av[q] == (es@[q].0@, jview(es@[q].1)),
                    ev == entry_views(entries@),
                    views(lowered@) == pv.map_values(|p: Seq<char>| lower(p)),
                    views(alias_part@) == alias_prefix_matches(av.take(k as int), ev, pv),
                decreases es.len() - k,
            {
                assert(av.take(k + 1).drop_last() =~= av.take(k as int));
                assert(av.take(k + 1).last() == (es@[k as int].0@, jview(es@[k as int].1)));
                let alias = trim_str(es[k].0.as_str());
                let identity = match json_as_str(&es[k].1) {
                    Some(t) => trim_str(t.as_str()),
                    None => String::new(),
                };
                assert(identity@ == trimmed_text(jview(es@[k as int].1)));
                if alias.as_str().unicode_len() > 0 && identity.as_str().unicode_len() > 0 && starts_with_any(
                    alias.as_str(),
                    &lowered,
                    Ghost(pv),
                ) {
                    match find_catalog_match(&entries, identity.as_str()) {
                        Some(v) => {
                            let ghost before = alias_part@;
                            let ghost vv = v@;
                            alias_part.push(v);
                            assert(views(alias_part@) =~= views(before).push(vv));
                        },
                        None => {},
                    }
                }
                k = k + 1;
            }
            assert(av.take(es@.len() as int) =~= av);
        },
        None => {},
    }
    let mut all = selected;
    let mut m: usize = 0;
    while m < alias_part.len()
        invariant
            m <= alias_part@.len(),
            views(all@) == visible_part + views(alias_part@).take(m as int),
        decreases alias_part.len() - m,
    {
        let ghost before = all@;
        let c = alias_part[m].clone();
        assert(c@ == alias_part@[m as int]@);
        all.push(c);
        assert(views(all@) =~= views(before).push(c@));
        assert(views(all@) =~= visible_part + views(alias_part@).take(m + 1));
        m = m + 1;
    }
    assert(views(alias_part@).take(m as int) =~= views(alias_part@));
    proof {
        if aliases is None {
            assert(alias_prefix_matches(Seq::empty(), ev, pv) =~= Seq::<Seq<char>>::empty());
        }
    }
    sorted_set_of(&all)
}

// ---------------------------------------------------------------------------
// Conflicting legacy overrides
// ---------------------------------------------------------------------------

/// The two lists name a common model.
pub open spec fn shares_model(a: Seq<Seq<char>>, b: Seq<Seq<char>>) -> bool {
    exists|i: int| 0 <= i < a.len() && b.contains(#[trigger] a[i])
}

/// A legacy route targets this provider.
pub open spec fn targets_provider(route: JsonValue, target: Seq<char>) -> bool {
    opt_str(get(route, "targetProviderId"@)) == Some(target)
}

/// A string member of a legacy route's `upstream`.
pub open spec fn upstream_str(route: JsonValue, key: Seq<char>) -> Option<Seq<char>> {
    opt_str(opt_get(get(route, "upstream"@), key))
}

/// `route` overrides the protocol of a model in `canonical` with another format.
pub open spec fn protocol_conflict_with(route: JsonValue, target: Seq<char>, canonical: Seq<Seq<char>>, api_format: Seq<char>) -> bool {
    &&& targets_provider(route, target)
    &&& upstream_str(route, "apiFormatSource"@) != Some("provider"@)
    &&& match upstream_str(route, "apiFormat"@) {
        Some(f) => f != api_format && shares_model(route_canonical_models(route), canonical),
        None => false,
    }
}

/// `route` gives a model in `canonical` other capabilities.
pub open spec fn capability_conflict_with(route: JsonValue, target: Seq<char>, canonical: Seq<Seq<char>>, capabilities: JsonValue) -> bool {
    &&& targets_provider(route, target)
    &&& match get(route, "capabilities"@) {
        Some(c) => c != capabilities && shares_model(route_canonical_models(route), canonical),
        None => false,
    }
}

fn shares_any(a: &Vec<String>, b: &Vec<String>) -> (r: bool)
    ensures
        r == shares_model(views(a@), views(b@)),
{
    let mut i: usize = 0;
    while i < a.len()
        invariant
            i <= a@.len(),
            forall|k: int| 0 <= k < i ==> !views(b@).contains(#[trigger] views(a@)[k]),
        decreases a.len() - i,
    {
        assert(views(a@)[i as int] == a@[i as int]@);
        if contains_str(b, a[i].as_str()) {
            assert(views(b@).contains(views(a@)[i as int]));
            return true;
        }
        i = i + 1;
    }
    false
}

fn route_targets(route: &Json, target: &str) -> (r: bool)
    ensures
        r == targets_provider(route@, target@),
{
    match json_get(route, "targetProviderId") {
        Some(t) => match json_as_str(t) {
            Some(s) => str_eq(s.as_str(), target),
            None => false,
        },
        None => false,
    }
}

fn route_upstream_str<'a>(route: &'a Json, key: &str) -> (r: Option<&'a String>)
    ensures
        match r {
            Some(s) => upstream_str(route@, key@) == Some(s@),
            None => upstream_str(route@, key@) is None,
        },
{
    match get_opt(json_get(route, "upstream"), key) {
        Some(v) => json_as_str(v),
        None => None,
    }
}

/// Whether another legacy route to the same provider overrides the protocol of one of
/// these models with a different format.
pub fn legacy_protocol_conflicts(
    routes: &Vec<Json>,
    target_provider_id: &str,
    canonical_models: &Vec<String>,
    api_format: &str,
) -> (r: bool)
    ensures
        r == exists|i: int| 0 <= i < routes@.len() && protocol_conflict_with(
            #[trigger] routes@[i]@,
            target_provider_id@,
            views(canonical_models@),
            api_format@,
        ),
{
    proof {
        reveal_strlit("provider");
    }
    let mut i: usize = 0;
    while i < routes.len()
        invariant
            i <= routes@.len(),
            forall|k: int| 0 <= k < i ==> !protocol_conflict_with(
                #[trigger] routes@[k]@,
                target_provider_id@,
                views(canonical_models@),
                api_format@,
            ),
        decreases routes.len() - i,
    {
        let route = &routes[i];
        if route_targets(route, target_provider_id) {
            let from_provider = match route_upstream_str(route, "apiFormatSource") {
                Some(s) => str_eq(s.as_str(), "provider"),
                None => false,
            };
            if !from_provider {
                match route_upstream_str(route, "apiFormat") {
                    Some(f) => {
                        if !str_eq(f.as_str(), api_format) {
                            let other = legacy_route_canonical_models(route);
                            if shares_any(&other, canonical_models) {
                                return true;
                            }
                        }
                    },
                    None => {},
                }
            }
        }
        i = i + 1;
    }
    false
}

/// Whether another legacy route to the same provider gives one of these models
/// different capabilities.
pub fn legacy_capability_conflicts(
    routes: &Vec<Json>,
    target_provider_id: &str,
    canonical_models: &Vec<String>,
    capabilities: &Json,
) -> (r: bool)
    ensures
        r == exists|i: int| 0 <= i < routes@.len() && capability_conflict_with(
            #[trigger] routes@[i]@,
            target_provider_id@,
            views(canonical_models@),
            capabilities@,
        ),
{
    let mut i: usize = 0;
    while i < routes.len()
        invariant
            i <= routes@.len(),
            forall|k: int| 0 <= k < i ==> !capability_conflict_with(
                #[trigger] routes@[k]@,
                target_provider_id@,
                views(canonical_models@),
                capabilities@,
            ),
        decreases routes.len() - i,
    {
        let route = &routes[i];
        if route_targets(route, target_provider_id) {
            match json_get(route, "capabilities") {
                Some(c) => {
                    if !crate::json::json_eq(c, capabilities) {
                        let other = legacy_route_canonical_models(route);
                        if shares_any(&other, canonical_models) {
                            return true;
                        }
                    }
                },
                None => {},
            }
        }
        i = i + 1;
    }
    false
}

// ---------------------------------------------------------------------------
// Generated providers
// ---------------------------------------------------------------------------

/// A route id as an id suffix: ASCII letters and digits kept, other characters made
/// `-`, outer dashes trimmed, lower-cased.
pub open spec fn clone_suffix(route_id: Seq<char>) -> Seq<char> {
    lower(
        crate::auto_launch::trim_matches(
            route_id.map_values(|c: char| if crate::text::is_ascii_alnum(c) { c } else { '-' }),
            '-',
        ),
    )
}

/// The id a generated provider is named from: `<target>-migration-<suffix>`.
pub open spec fn clone_base(target_id: Seq<char>, route_id: Seq<char>) -> Seq<char> {
    target_id + "-migration-"@ + clone_suffix(route_id)
}

/// `k` is the first number whose name is not taken (exact comparison).
pub open spec fn first_untaken(taken: Seq<Seq<char>>, base: Seq<char>, k: nat) -> bool {
    &&& k >= 1
    &&& !taken.contains(crate::compiler::numbered(base, k))
    &&& forall|j: nat| 1 <= j < k ==> taken.contains(#[trigger] crate::compiler::numbered(base, j))
}

proof fn lemma_some_id_free(taken: Seq<Seq<char>>, base: Seq<char>)
    ensures
        !(forall|j: nat| 1 <= j <= taken.len() + 1 ==> taken.contains(#[trigger] crate::compiler::numbered(base, j))),
{
    let used = taken.map_values(|t: Seq<char>| lower(t));
    crate::compiler::lemma_some_number_free(used, base);
    if forall|j: nat| 1 <= j <= taken.len() + 1 ==> taken.contains(#[trigger] crate::compiler::numbered(base, j)) {
        assert forall|j: nat| 1 <= j <= used.len() + 1 implies used.contains(#[trigger] lower(crate::compiler::numbered(base, j))) by {
            assert(taken.contains(crate::compiler::numbered(base, j)));
            let i = choose|i: int| 0 <= i < taken.len() && taken[i] == crate::compiler::numbered(base, j);
            assert(used[i] == lower(crate::compiler::numbered(base, j)));
        }
    }
}

/// The id a provider generated from `base` gets: the first numbering of `base` that is
/// not taken.
pub open spec fn clone_id_for(taken: Seq<Seq<char>>, base: Seq<char>) -> Seq<char> {
    crate::compiler::numbered(base, choose|k: nat| first_untaken(taken, base, k))
}

proof fn lemma_first_untaken_unique(taken: Seq<Seq<char>>, base: Seq<char>, k: nat)
    requires
        first_untaken(taken, base, k),
    ensures
        clone_id_for(taken, base) == crate::compiler::numbered(base, k),
{
    let c = choose|c: nat| first_untaken(taken, base, c);
    assert(first_untaken(taken, base, c));
    if c < k {
        assert(taken.contains(crate::compiler::numbered(base, c)));
    } else if k < c {
        assert(taken.contains(crate::compiler::numbered(base, k)));
    }
}

fn clone_suffix_of(route_id: &str) -> (r: String)
    ensures
        r@ == clone_suffix(route_id@),
{
    let chars = crate::text::chars_of(route_id);
    let mut mapped: Vec<char> = Vec::new();
    let mut i: usize = 0;
    while i < chars.len()
        invariant
            i <= chars@.len(),
            chars@ == route_id@,
            mapped@ == route_id@.map_values(|c: char| if crate::text::is_ascii_alnum(c) { c } else { '-' }).take(i as int),
        decreases chars.len() - i,
    {
        let c = chars[i];
        let m = if crate::text::char_is_ascii_alnum(c) {
            c
        } else {
            '-'
        };
        mapped.push(m);
        assert(mapped@ =~= route_id@.map_values(|c: char| if crate::text::is_ascii_alnum(c) { c } else { '-' }).take(i + 1));
        i = i + 1;
    }
    assert(route_id@.map_values(|c: char| if crate::text::is_ascii_alnum(c) { c } else { '-' }).take(i as int)
        =~= route_id@.map_values(|c: char| if crate::text::is_ascii_alnum(c) { c } else { '-' }));
    let trimmed = crate::auto_launch::trim_matches_chars(mapped.as_slice(), '-');
    let lowered = crate::text::lower_chars(trimmed.as_slice());
    crate::text::string_of(lowered.as_slice())
}

/// The id of a provider generated for a route: the base id, numbered from 2 until it
/// names no existing or already generated provider.
pub fn unique_clone_id(target_id: &str, route_id: &str, taken: &Vec<String>) -> (r: String)
    ensures
        exists|k: nat| #[trigger] first_untaken(views(taken@), clone_base(target_id@, route_id@), k)
            && r@ == crate::compiler::numbered(clone_base(target_id@, route_id@), k),
{
    let suffix = clone_suffix_of(route_id);
    let base = crate::text::concat3(target_id, "-migration-", suffix.as_str());
    let ghost t = views(taken@);
    let mut candidate = base.clone();
    let mut k: u128 = 1;
    let n = taken.len();
    proof {
        lemma_some_id_free(t, base@);
        assert(t.len() == n);
        assert(base@ == clone_base(target_id@, route_id@));
    }
    while contains_str(taken, candidate.as_str())
        invariant
            t == views(taken@),
            t.len() <= usize::MAX,
            1 <= k <= t.len() + 1,
            candidate@ == crate::compiler::numbered(base@, k as nat),
            forall|j: nat| 1 <= j < k ==> t.contains(#[trigger] crate::compiler::numbered(base@, j)),
            !(forall|j: nat| 1 <= j <= t.len() + 1 ==> t.contains(#[trigger] crate::compiler::numbered(base@, j))),
        decreases t.len() + 1 - k,
    {
        assert(t.contains(crate::compiler::numbered(base@, k as nat)));
        proof {
            if k == t.len() + 1 {
                assert(forall|j: nat| 1 <= j <= t.len() + 1 ==> t.contains(#[trigger] crate::compiler::numbered(base@, j)));
            }
        }
        k = k + 1;
        candidate = crate::text::concat3(base.as_str(), "-", crate::text::decimal_string_u128(k).as_str());
    }
    assert(first_untaken(t, base@, k as nat));
    candidate
}

/// The name of a provider generated for a route.
pub open spec fn clone_name(target_name: Seq<char>, route_id: Seq<char>) -> Seq<char> {
    target_name + "（迁移生成："@ + route_id + "）"@
}

pub fn migration_clone_name(target_name: &str, route_id: &str) -> (r: String)
    ensures
        r@ == clone_name(target_name@, route_id@),
{
    crate::text::concat(crate::text::concat3(target_name, "（迁移生成：", route_id).as_str(), "）")
}

// ---------------------------------------------------------------------------
// Moving route overrides onto catalog models
// ---------------------------------------------------------------------------

/// The models of a provider's `modelCatalog`.
pub open spec fn catalog_models_at(settings: JsonValue) -> Option<Seq<JsonValue>> {
    opt_array(get_path(settings, seq!["modelCatalog"@, "models"@]))
}

/// The name a catalog model is matched by: its `upstreamModel`, else its `model`.
pub open spec fn model_identity(m: JsonValue) -> Option<Seq<char>> {
    opt_str(
        match get(m, "upstreamModel"@) {
            Some(x) => Some(x),
            None => get(m, "model"@),
        },
    )
}

/// The first catalog model matched by `canonical`.
pub open spec fn is_first_model_named(ms: Seq<JsonValue>, canonical: Seq<char>, k: int) -> bool {
    &&& 0 <= k < ms.len()
    &&& model_identity(ms[k]) == Some(canonical)
    &&& forall|j: int| 0 <= j < k ==> model_identity(#[trigger] ms[j]) != Some(canonical)
}

/// The settings with catalog model `k` replaced by `model`.
pub open spec fn with_catalog_model(settings: JsonValue, ms: Seq<JsonValue>, k: int, model: JsonValue) -> JsonValue {
    let catalog = get(settings, "modelCatalog"@)->0;
    set_member(settings, "modelCatalog"@, set_member(catalog, "models"@, JsonValue::Array(ms.update(k, model))))
}

/// `settings` with the first model matched by `canonical` rewritten by `f`; the errors
/// name a missing catalog or a missing model.
pub open spec fn catalog_model_update(
    provider: Provider,
    canonical: Seq<char>,
    f: spec_fn(JsonValue) -> JsonValue,
    updated: Provider,
    r: Result<(), String>,
) -> bool {
    match catalog_models_at(provider.settings_config@) {
        None => r is Err && r->Err_0@ == "migration_model_catalog_missing:"@ + provider.id@ && updated == provider,
        Some(ms) => {
            if exists|k: int| is_first_model_named(ms, canonical, k) {
                let k = choose|k: int| is_first_model_named(ms, canonical, k);
                &&& r is Ok
                &&& updated.settings_config@ == with_catalog_model(provider.settings_config@, ms, k, f(ms[k]))
                &&& updated.id == provider.id
                &&& updated.name == provider.name
                &&& updated.category == provider.category
                &&& updated.meta == provider.meta
                &&& updated.config_base_url == provider.config_base_url
            } else {
                r is Err && r->Err_0@ == "migration_model_missing:"@ + provider.id@ + ":"@ + canonical && updated == provider
            }
        },
    }
}

fn find_catalog_model(settings: &Json, canonical: &str) -> (r: Option<usize>)
    requires
        catalog_models_at(settings@) is Some,
    ensures
        match r {
            Some(k) => is_first_model_named(catalog_models_at(settings@)->0, canonical@, k as int),
            None => !exists|k: int| is_first_model_named(catalog_models_at(settings@)->0, canonical@, k),
        },
{
    let models = match json_path2(settings, "modelCatalog", "models") {
        Some(m) => match json_as_array(m) {
            Some(a) => a,
            None => {
                return None;
            },
        },
        None => {
            return None;
        },
    };
    let ghost ms = jviews(models@);
    proof {
        lemma_jviews_index(models@);
    }
    let mut i: usize = 0;
    while i < models.len()
        invariant
            i <= models@.len(),
            ms == jviews(models@),
            ms == catalog_models_at(settings@)->0,
            ms.len() == models@.len(),
            forall|q: int| 0 <= q < models@.len() ==> #[trigger] ms[q] == jview(models@[q]),
            forall|j: int| 0 <= j < i ==> model_identity(#[trigger] ms[j]) != Some(canonical@),
        decreases models.len() - i,
    {
        let m = &models[i];
        let id = match json_get(m, "upstreamModel") {
            Some(x) => json_as_str(x),
            None => match json_get(m, "model") {
                Some(x) => json_as_str(x),
                None => None,
            },
        };
        let hit = match id {
            Some(t) => str_eq(t.as_str(), canonical),
            None => false,
        };
        assert(hit == (model_identity(ms[i as int]) == Some(canonical@)));
        if hit {
            return Some(i);
        }
        i = i + 1;
    }
    proof {
        assert forall|k: int| !is_first_model_named(ms, canonical@, k) by {
            if 0 <= k < ms.len() {
                assert(model_identity(ms[k]) != Some(canonical@));
            }
        }
    }
    None
}

fn replace_catalog_model(settings: &Json, k: usize, model: Json) -> (r: Json)
    requires
        catalog_models_at(settings@) is Some,
        k < catalog_models_at(settings@)->0.len(),
    ensures
        r@ == with_catalog_model(settings@, catalog_models_at(settings@)->0, k as int, model@),
{
    proof {
        reveal_with_fuel(get_path, 3);
    }
    let catalog = json_get(settings, "modelCatalog").unwrap();
    let models = json_as_array(json_get(catalog, "models").unwrap()).unwrap();
    let ghost ms = jviews(models@);
    let ghost mv = model@;
    proof {
        lemma_jviews_index(models@);
    }
    let mut out: Vec<Json> = Vec::new();
    let mut replacement = Some(model);
    let mut i: usize = 0;
    while i < models.len()
        invariant
            i <= models@.len(),
            k < models@.len(),
            ms == jviews(models@),
            ms.len() == models@.len(),
            forall|q: int| 0 <= q < models@.len() ==> #[trigger] ms[q] == jview(models@[q]),
            i <= k ==> replacement is Some && jview(replacement->0) == mv,
            jviews(out@) == ms.update(k as int, mv).take(i as int),
        decreases models.len() - i,
    {
        let ghost before = out@;
        let item = if i == k {
            let taken = replacement.take();
            taken.unwrap()
        } else {
            json_clone(&models[i])
        };
        let ghost iv = jview(item);
        out.push(item);
        assert(out@.drop_last() =~= before);
        assert(jviews(out@) == jviews(before).push(iv));
        assert(jviews(out@) =~= ms.update(k as int, mv).take(i + 1));
        i = i + 1;
    }
    assert(ms.update(k as int, mv).take(i as int) =~= ms.update(k as int, mv));
    let mut new_catalog = json_clone(catalog);
    json_set(&mut new_catalog, owned("models"), Json::Array(out));
    let mut new_settings = json_clone(settings);
    json_set(&mut new_settings, owned("modelCatalog"), new_catalog);
    new_settings
}

/// The catalog model with its protocol set to `api_format`.
pub open spec fn with_api_format(api_format: Seq<char>) -> spec_fn(JsonValue) -> JsonValue {
    |m: JsonValue| set_member(m, "apiFormat"@, JsonValue::Text(api_format))
}

/// Sets the protocol of the first catalog model matched by `canonical_model`.
pub fn apply_model_api_format(provider: &mut Provider, canonical_model: &str, api_format: &str) -> (r: Result<(), String>)
    ensures
        catalog_model_update(*old(provider), canonical_model@, with_api_format(api_format@), *final(provider), r),
{
    proof {
        reveal_with_fuel(get_path, 3);
    }
    let has_catalog = match json_path2(&provider.settings_config, "modelCatalog", "models") {
        Some(m) => json_as_array(m).is_some(),
        None => false,
    };
    if !has_catalog {
        return Err(crate::text::concat("migration_model_catalog_missing:", provider.id.as_str()));
    }
    let ghost ms = catalog_models_at(provider.settings_config@)->0;
    let k = match find_catalog_model(&provider.settings_config, canonical_model) {
        Some(k) => k,
        None => {
            let a = crate::text::concat3("migration_model_missing:", provider.id.as_str(), ":");
            return Err(crate::text::concat(a.as_str(), canonical_model));
        },
    };
    let models = json_as_array(json_path2(&provider.settings_config, "modelCatalog", "models").unwrap()).unwrap();
    proof {
        lemma_jviews_index(models@);
    }
    let mut model = json_clone(&models[k]);
    assert(model@ == ms[k as int]);
    json_set(&mut model, owned("apiFormat"), Json::Text(owned(api_format)));
    let updated = replace_catalog_model(&provider.settings_config, k, model);
    provider.settings_config = updated;
    proof {
        assert(is_first_model_named(ms, canonical_model@, k as int));
    }
    Ok(())
}

/// The catalog model with a legacy route's capabilities: its input modalities (text
/// only when `textOnly`), reasoning support and Codex cache settings.
pub open spec fn with_capabilities(caps: JsonValue) -> spec_fn(JsonValue) -> JsonValue {
    |m: JsonValue|
        {
            let m1 = match get(caps, "inputModalities"@) {
                Some(v) => set_member(m, "inputModalities"@, v),
                None => if opt_bool(get(caps, "textOnly"@)) == Some(true) {
                    set_member(m, "inputModalities"@, JsonValue::Array(seq![JsonValue::Text("text"@)]))
                } else {
                    m
                },
            };
            let m2 = match opt_bool(get(caps, "supportsReasoning"@)) {
                Some(b) => set_member(m1, "reasoning"@, JsonValue::Object(seq![("supported"@, JsonValue::Bool(b))])),
                None => m1,
            };
            match get(caps, "codexCache"@) {
                Some(c) => set_member(m2, "codexCache"@, c),
                None => m2,
            }
        }
}

fn single_member(key: &str, value: Json) -> (r: Json)
    ensures
        r@ == JsonValue::Object(seq![(key@, value@)]),
{
    let e = (owned(key), value);
    let ghost kv = (e.0@, jview(e.1));
    let mut es: Vec<(String, Json)> = Vec::new();
    es.push(e);
    assert(es@.drop_last() =~= Seq::<(String, Json)>::empty());
    assert(eviews(Seq::<(String, Json)>::empty()) =~= Seq::empty());
    assert(es@.last() == e);
    assert(eviews(es@) =~= seq![kv]);
    Json::Object(es)
}

/// Moves a legacy route's capabilities onto the first catalog model matched by
/// `canonical_model`.
pub fn apply_model_capabilities(provider: &mut Provider, canonical_model: &str, capabilities: &Json) -> (r: Result<(), String>)
    ensures
        catalog_model_update(*old(provider), canonical_model@, with_capabilities(capabilities@), *final(provider), r),
{
    proof {
        reveal_with_fuel(get_path, 3);
    }
    let has_catalog = match json_path2(&provider.settings_config, "modelCatalog", "models") {
        Some(m) => json_as_array(m).is_some(),
        None => false,
    };
    if !has_catalog {
        return Err(crate::text::concat("migration_model_catalog_missing:", provider.id.as_str()));
    }
    let ghost ms = catalog_models_at(provider.settings_config@)->0;
    let k = match find_catalog_model(&provider.settings_config, canonical_model) {
        Some(k) => k,
        None => {
            let a = crate::text::concat3("migration_model_missing:", provider.id.as_str(), ":");
            return Err(crate::text::concat(a.as_str(), canonical_model));
        },
    };
    let models = json_as_array(json_path2(&provider.settings_config, "modelCatalog", "models").unwrap()).unwrap();
    proof {
        lemma_jviews_index(models@);
    }
    let mut model = json_clone(&models[k]);
    assert(model@ == ms[k as int]);
    match json_get(capabilities, "inputModalities") {
        Some(v) => json_set(&mut model, owned("inputModalities"), json_clone(v)),
        None => {
            if json_get_bool(capabilities, "textOnly") == Some(true) {
                let mut texts: Vec<Json> = Vec::new();
                let t = Json::Text(owned("text"));
                assert(jview(t) == JsonValue::Text("text"@));
                texts.push(t);
                proof {
                    assert(texts@.last() == t);
                    assert(texts@.drop_last() =~= Seq::<Json>::empty());
                    assert(jviews(Seq::<Json>::empty()) =~= Seq::empty());
                    assert(jviews(texts@) =~= seq![JsonValue::Text("text"@)]);
                }
                json_set(&mut model, owned("inputModalities"), Json::Array(texts));
            }
        },
    }
    match json_get_bool(capabilities, "supportsReasoning") {
        Some(b) => json_set(&mut model, owned("reasoning"), single_member("supported", Json::Bool(b))),
        None => {},
    }
    match json_get(capabilities, "codexCache") {
        Some(c) => json_set(&mut model, owned("codexCache"), json_clone(c)),
        None => {},
    }
    assert(model@ == (with_capabilities(capabilities@))(ms[k as int]));
    let updated = replace_catalog_model(&provider.settings_config, k, model);
    provider.settings_config = updated;
    proof {
        assert(is_first_model_named(ms, canonical_model@, k as int));
    }
    Ok(())
}

/// One catalog update on provider settings: the settings with the first model matched
/// by `canonical` rewritten by `f`; or, as the error, `None` when there is no catalog and
/// the model's name when no catalog model matches it.
pub open spec fn catalog_step(settings: JsonValue, canonical: Seq<char>, f: spec_fn(JsonValue) -> JsonValue) -> Result<JsonValue, Option<Seq<char>>> {
    match catalog_models_at(settings) {
        None => Err(None),
        Some(ms) => if exists|k: int| is_first_model_named(ms, canonical, k) {
            let k = choose|k: int| is_first_model_named(ms, canonical, k);
            Ok(with_catalog_model(settings, ms, k, f(ms[k])))
        } else {
            Err(Some(canonical))
        },
    }
}

/// The catalog updates for each of `canonical`, in order, stopping at the first that fails.
pub open spec fn catalog_steps(settings: JsonValue, canonical: Seq<Seq<char>>, f: spec_fn(JsonValue) -> JsonValue) -> Result<JsonValue, Option<Seq<char>>>
    decreases canonical.len(),
{
    if canonical.len() == 0 {
        Ok(settings)
    } else {
        match catalog_steps(settings, canonical.drop_last(), f) {
            Ok(s) => catalog_step(s, canonical.last(), f),
            Err(e) => Err(e),
        }
    }
}

/// The message of a failed catalog update on provider `id`.
pub open spec fn catalog_error(id: Seq<char>, e: Option<Seq<char>>) -> Seq<char> {
    match e {
        None => "migration_model_catalog_missing:"@ + id,
        Some(c) => "migration_model_missing:"@ + id + ":"@ + c,
    }
}

/// A provider's value with its settings replaced.
pub open spec fn with_settings_view(
    v: (Seq<char>, Seq<char>, Option<Seq<char>>, JsonValue, Option<(Option<Seq<char>>, Option<Seq<char>>, Option<JsonValue>, Option<JsonValue>, Option<JsonValue>)>, Option<Seq<char>>),
    settings: JsonValue,
) -> (Seq<char>, Seq<char>, Option<Seq<char>>, JsonValue, Option<(Option<Seq<char>>, Option<Seq<char>>, Option<JsonValue>, Option<JsonValue>, Option<JsonValue>)>, Option<Seq<char>>) {
    (v.0, v.1, v.2, settings, v.4, v.5)
}

proof fn lemma_catalog_step(p: Provider, canonical: Seq<char>, f: spec_fn(JsonValue) -> JsonValue, q: Provider, r: Result<(), String>)
    requires
        catalog_model_update(p, canonical, f, q, r),
    ensures
        match catalog_step(p.settings_config@, canonical, f) {
            Ok(s) => r is Ok && crate::compiler::provider_view(q) == with_settings_view(crate::compiler::provider_view(p), s),
            Err(e) => r is Err && r->Err_0@ == catalog_error(p.id@, e) && q == p,
        },
{
}

proof fn lemma_catalog_steps_err(settings: JsonValue, canonical: Seq<Seq<char>>, n: int, f: spec_fn(JsonValue) -> JsonValue)
    requires
        0 <= n <= canonical.len(),
        catalog_steps(settings, canonical.take(n), f) is Err,
    ensures
        catalog_steps(settings, canonical, f) == catalog_steps(settings, canonical.take(n), f),
    decreases canonical.len(),
{
    if n == canonical.len() {
        assert(canonical.take(n) =~= canonical);
    } else {
        let d = canonical.drop_last();
        assert(d.take(n) =~= canonical.take(n));
        lemma_catalog_steps_err(settings, d, n, f);
    }
}

// ---------------------------------------------------------------------------
// Reading one legacy route
// ---------------------------------------------------------------------------

/// A legacy route's id: its `id` when not blank, else `route-<index>`.
pub open spec fn legacy_route_id(route: JsonValue, index: nat) -> Seq<char> {
    match opt_str(get(route, "id"@)) {
        Some(id) => if trim(id).len() > 0 {
            id
        } else {
            "route-"@ + crate::text::decimal(index)
        },
        None => "route-"@ + crate::text::decimal(index),
    }
}

pub fn route_id_of(route: &Json, index: usize) -> (r: String)
    ensures
        r@ == legacy_route_id(route@, index as nat),
{
    match json_get_str(route, "id") {
        Some(id) => {
            if trim_str(id.as_str()).as_str().unicode_len() > 0 {
                return id.clone();
            }
        },
        None => {},
    }
    crate::text::concat("route-", crate::text::decimal_string(index).as_str())
}

/// The authentication source named by a legacy route's `upstream.auth.source`.
pub open spec fn route_auth_source(route: JsonValue) -> Option<Seq<char>> {
    opt_str(opt_get(opt_get(get(route, "upstream"@), "auth"@), "source"@))
}

/// A legacy route's target: its `targetProviderId`, else the official provider when
/// the route authenticates with Codex's own accounts.
pub open spec fn legacy_target(route: JsonValue, official_provider_id: Seq<char>) -> Option<Seq<char>> {
    match opt_str(get(route, "targetProviderId"@)) {
        Some(t) => Some(t),
        None => match route_auth_source(route) {
            Some(src) => if src == "managed_codex_oauth"@ || src == "native_codex_auth"@ || src == "account_pool"@ {
                Some(official_provider_id)
            } else {
                None
            },
            None => None,
        },
    }
}

pub fn legacy_target_of(route: &Json, official_provider_id: &str) -> (r: Option<String>)
    ensures
        opt_view(r) == legacy_target(route@, official_provider_id@),
{
    match json_get_str(route, "targetProviderId") {
        Some(t) => Some(t.clone()),
        None => {
            let src = match get_opt(get_opt(json_get(route, "upstream"), "auth"), "source") {
                Some(v) => json_as_str(v),
                None => None,
            };
            match src {
                Some(s) => {
                    if str_eq(s.as_str(), "managed_codex_oauth") || str_eq(s.as_str(), "native_codex_auth")
                        || str_eq(s.as_str(), "account_pool") {
                        Some(owned(official_provider_id))
                    } else {
                        None
                    }
                },
                None => None,
            }
        },
    }
}

/// A member of a legacy route's `upstream`, under its camel-case name or else its
/// snake-case one.
pub open spec fn upstream_either(route: JsonValue, camel: Seq<char>, snake: Seq<char>) -> Option<Seq<char>> {
    let up = get(route, "upstream"@);
    opt_str(
        match opt_get(up, camel) {
            Some(v) => Some(v),
            None => opt_get(up, snake),
        },
    )
}

/// A legacy route's inline base URL (when not blank).
pub open spec fn inline_base_url(route: JsonValue) -> Option<Seq<char>> {
    match upstream_either(route, "baseUrl"@, "base_url"@) {
        Some(u) => if trim(u).len() > 0 {
            Some(u)
        } else {
            None
        },
        None => None,
    }
}

/// A legacy route's inline API key (when not empty).
pub open spec fn inline_api_key(route: JsonValue) -> Option<Seq<char>> {
    match upstream_either(route, "apiKey"@, "api_key"@) {
        Some(k) => if k.len() > 0 {
            Some(k)
        } else {
            None
        },
        None => None,
    }
}

fn upstream_either_of<'a>(route: &'a Json, camel: &str, snake: &str) -> (r: Option<&'a String>)
    ensures
        match r {
            Some(s) => upstream_either(route@, camel@, snake@) == Some(s@),
            None => upstream_either(route@, camel@, snake@) is None,
        },
{
    let up = json_get(route, "upstream");
    let v = match get_opt(up, camel) {
        Some(v) => Some(v),
        None => get_opt(up, snake),
    };
    match v {
        Some(x) => json_as_str(x),
        None => None,
    }
}

pub fn inline_base_url_of(route: &Json) -> (r: Option<String>)
    ensures
        opt_view(r) == inline_base_url(route@),
{
    match upstream_either_of(route, "baseUrl", "base_url") {
        Some(u) => if trim_str(u.as_str()).as_str().unicode_len() > 0 {
            Some(u.clone())
        } else {
            None
        },
        None => None,
    }
}

pub fn inline_api_key_of(route: &Json) -> (r: Option<String>)
    ensures
        opt_view(r) == inline_api_key(route@),
{
    match upstream_either_of(route, "apiKey", "api_key") {
        Some(k) => if k.as_str().unicode_len() > 0 {
            Some(k.clone())
        } else {
            None
        },
        None => None,
    }
}

/// A legacy route overrides its provider's protocol: it names an `apiFormat` that does
/// not come from the provider.
pub open spec fn protocol_override(route: JsonValue) -> bool {
    upstream_str(route, "apiFormatSource"@) != Some("provider"@) && upstream_str(route, "apiFormat"@) is Some
}

/// A legacy route's overrides need a provider of their own: an inline base URL or key,
/// or a protocol or capabilities that another route to the same provider contradicts.
pub open spec fn requires_clone(route: JsonValue, routes: Seq<JsonValue>, target: Seq<char>) -> bool {
    let canonical = route_canonical_models(route);
    ||| inline_base_url(route) is Some
    ||| inline_api_key(route) is Some
    ||| (protocol_override(route) && exists|i: int| 0 <= i < routes.len() && protocol_conflict_with(
        #[trigger] routes[i],
        target,
        canonical,
        upstream_str(route, "apiFormat"@)->0,
    ))
    ||| match get(route, "capabilities"@) {
        Some(c) => exists|i: int| 0 <= i < routes.len() && capability_conflict_with(#[trigger] routes[i], target, canonical, c),
        None => false,
    }
}

pub open spec fn json_views(v: Seq<Json>) -> Seq<JsonValue> {
    jviews(v)
}

/// Whether a legacy route needs a provider of its own (see `requires_clone`).
pub fn route_requires_clone(route: &Json, routes: &Vec<Json>, target: &str) -> (r: bool)
    ensures
        r == requires_clone(route@, jviews(routes@), target@),
{
    proof {
        lemma_jviews_index(routes@);
        reveal_strlit("provider");
    }
    let canonical = legacy_route_canonical_models(route);
    let base_url = inline_base_url_of(route);
    let key = inline_api_key_of(route);
    let from_provider = match route_upstream_str(route, "apiFormatSource") {
        Some(s) => str_eq(s.as_str(), "provider"),
        None => false,
    };
    let protocol_conflict = match route_upstream_str(route, "apiFormat") {
        Some(f) => if !from_provider {
            legacy_protocol_conflicts(routes, target, &canonical, f.as_str())
        } else {
            false
        },
        None => false,
    };
    let capability_conflict = match json_get(route, "capabilities") {
        Some(c) => legacy_capability_conflicts(routes, target, &canonical, c),
        None => false,
    };
    proof {
        let rv = jviews(routes@);
        let cm = route_canonical_models(route@);
        if protocol_override(route@) {
            let f = upstream_str(route@, "apiFormat"@)->0;
            if exists|i: int| 0 <= i < routes@.len() && protocol_conflict_with(#[trigger] routes@[i]@, target@, views(canonical@), f) {
                let i = choose|i: int| 0 <= i < routes@.len() && protocol_conflict_with(#[trigger] routes@[i]@, target@, views(canonical@), f);
                assert(rv[i] == routes@[i]@);
                assert(protocol_conflict_with(rv[i], target@, cm, f));
            }
            if exists|i: int| 0 <= i < rv.len() && protocol_conflict_with(#[trigger] rv[i], target@, cm, f) {
                let i = choose|i: int| 0 <= i < rv.len() && protocol_conflict_with(#[trigger] rv[i], target@, cm, f);
                assert(rv[i] == routes@[i]@);
                assert(protocol_conflict_with(routes@[i]@, target@, views(canonical@), f));
            }
        }
        match get(route@, "capabilities"@) {
            Some(c) => {
                if exists|i: int| 0 <= i < routes@.len() && capability_conflict_with(#[trigger] routes@[i]@, target@, views(canonical@), c) {
                    let i = choose|i: int| 0 <= i < routes@.len() && capability_conflict_with(#[trigger] routes@[i]@, target@, views(canonical@), c);
                    assert(rv[i] == routes@[i]@);
                    assert(capability_conflict_with(rv[i], target@, cm, c));
                }
                if exists|i: int| 0 <= i < rv.len() && capability_conflict_with(#[trigger] rv[i], target@, cm, c) {
                    let i = choose|i: int| 0 <= i < rv.len() && capability_conflict_with(#[trigger] rv[i], target@, cm, c);
                    assert(rv[i] == routes@[i]@);
                    assert(capability_conflict_with(routes@[i]@, target@, views(canonical@), c));
                }
            },
            None => {},
        }
    }
    base_url.is_some() || key.is_some() || protocol_conflict || capability_conflict
}

/// A legacy route's aliases: the `modelMap` entries whose target is a string other
/// than the visible name, in key order.
pub open spec fn legacy_aliases(entries: Seq<(Seq<char>, JsonValue)>) -> Seq<(Seq<char>, Seq<char>)>
    decreases entries.len(),
{
    if entries.len() == 0 {
        Seq::empty()
    } else {
        let before = legacy_aliases(entries.drop_last());
        match as_str(entries.last().1) {
            Some(c) => if entries.last().0 != c {
                before.push((entries.last().0, c))
            } else {
                before
            },
            None => before,
        }
    }
}

pub open spec fn model_map_entries(route: JsonValue) -> Seq<(Seq<char>, JsonValue)> {
    match model_map_of(route) {
        Some(m) => match as_object(m) {
            Some(es) => es,
            None => Seq::empty(),
        },
        None => Seq::empty(),
    }
}

pub fn legacy_route_aliases(route: &Json) -> (r: Vec<(String, String)>)
    ensures
        entry_views(r@) == legacy_aliases(model_map_entries(route@)),
{
    let mut out: Vec<(String, String)> = Vec::new();
    match get_opt(json_get(route, "upstream"), "modelMap") {
        Some(m) => match json_as_object(m) {
            Some(es) => {
                proof {
                    lemma_eviews_index(es@);
                }
                let ghost av = eviews(es@);
                let mut k: usize = 0;
                while k < es.len()
                    invariant
                        k <= es@.len(),
                        av == eviews(es@),
                        av == model_map_entries(route@),
                        av.len() == es@.len(),
                        forall|q: int| 0 <= q < es@.len() ==> #[trigger] av[q] == (es@[q].0@, jview(es@[q].1)),
                        entry_views(out@) == legacy_aliases(av.take(k as int)),
                    decreases es.len() - k,
                {
                    assert(av.take(k + 1).drop_last() =~= av.take(k as int));
                    assert(av.take(k + 1).last() == (es@[k as int].0@, jview(es@[k as int].1)));
                    match json_as_str(&es[k].1) {
                        Some(c) => {
                            if !str_eq(es[k].0.as_str(), c.as_str()) {
                                let ghost before = out@;
                                let e = (es[k].0.clone(), c.clone());
                                assert(e.0@ == es@[k as int].0@ && e.1@ == c@);
                                out.push(e);
                                assert(entry_views(out@) =~= entry_views(before).push((e.0@, e.1@)));
                            }
                        },
                        None => {},
                    }
                    k = k + 1;
                }
                assert(av.take(es@.len() as int) =~= av);
            },
            None => {},
        },
        None => {},
    }
    proof {
        assert(legacy_aliases(Seq::empty()) =~= Seq::<(Seq<char>, Seq<char>)>::empty());
        assert(entry_views(Seq::<(String, String)>::empty()) =~= Seq::<(Seq<char>, Seq<char>)>::empty());
    }
    out
}

// ---------------------------------------------------------------------------
// Building a migration
// ---------------------------------------------------------------------------

/// What a migration builds: the schema-v2 plan, the router's settings without its
/// legacy catalog (the plan is stored under `codexRouting` by the caller), the
/// providers it creates and updates, and what it reports.
#[derive(Debug)]
pub struct BuiltMigration {
    pub plan: CodexRoutingConfigV2,
    pub migrated_settings: Json,
    pub generated_providers: Vec<Provider>,
    pub updated_providers: Vec<Provider>,
    pub summaries: Vec<GeneratedProviderSummary>,
    pub diff: MigrationDiff,
    pub warnings: Vec<String>,
}

/// The fields a migration removes from legacy routes, in order.
pub open spec fn removed_fields() -> Seq<Seq<char>> {
    seq!["capabilities"@, "upstream.apiFormat"@, "upstream.apiKey"@, "upstream.baseUrl"@, "upstream.modelMap"@]
}

/// The models a migrated route selects: its canonical models and, with prefixes, the
/// models they expand to; each once, in order.
pub open spec fn selected_models(route: JsonValue, target: Provider) -> Seq<Seq<char>> {
    let prefixes = match_prefixes_of(route);
    let expanded = if prefixes.len() == 0 {
        Seq::empty()
    } else {
        prefix_selected_models(route, target, prefixes)
    };
    sorted_set(route_canonical_models(route) + expanded)
}

/// A migrated route takes all of its provider's models when it has no prefixes and
/// selects exactly the provider's current (non-empty) catalog.
pub open spec fn selects_all(route: JsonValue, target: Provider) -> bool {
    let catalog = sorted_set(provider_catalog(target).map_values(|e: (Seq<char>, Seq<char>)| e.1));
    match_prefixes_of(route).len() == 0 && catalog.len() > 0 && selected_models(route, target) == catalog
}

pub open spec fn selection_view(m: CodexModelSelection) -> Option<Seq<Seq<char>>> {
    match m {
        CodexModelSelection::All => None,
        CodexModelSelection::Include { models } => Some(views(models@)),
    }
}

/// The auth policy a legacy route migrates to, when its source is known.
pub open spec fn route_auth_policy(route: JsonValue) -> Option<CodexRouteAuthSource> {
    auth_source_named(legacy_auth_source_name(opt_get(get(route, "upstream"@), "auth"@)))
}

/// `v2` is the migration of legacy route `route` (the `index`-th of `routes`) whose
/// legacy target is provider `target`: same id, label, enabled flag, prefixes, aliases
/// and authentication; its models as `selects_all`/`selected_models` say; and routed to
/// the target, or to a generated provider when its overrides need one.
pub open spec fn migrated_route_of(
    v2: CodexRoutingRouteV2,
    route: JsonValue,
    index: nat,
    routes: Seq<JsonValue>,
    target: Provider,
    summaries: Seq<GeneratedProviderSummary>,
) -> bool {
    &&& v2.id@ == legacy_route_id(route, index)
    &&& opt_view(v2.label) == opt_str(get(route, "label"@))
    &&& v2.enabled == match opt_bool(get(route, "enabled"@)) {
        Some(b) => b,
        None => true,
    }
    &&& views(v2.match_prefixes@) == match_prefixes_of(route)
    &&& entry_views(v2.aliases@) == legacy_aliases(model_map_entries(route))
    &&& route_auth_policy(route) == Some(v2.auth_policy.source)
    &&& opt_view(v2.auth_policy.account_id) == legacy_account_id(opt_get(get(route, "upstream"@), "auth"@))
    &&& selection_view(v2.model_selection) == if selects_all(route, target) {
        None
    } else {
        Some(selected_models(route, target))
    }
    &&& if requires_clone(route, routes, target.id@) {
        exists|g: int| 0 <= g < summaries.len() && (#[trigger] summaries[g]).id@ == v2.target_provider_id@
            && summaries[g].source_provider_id@ == target.id@ && summaries[g].migration_generated
    } else {
        v2.target_provider_id@ == target.id@
    }
}

/// The ids of a list of providers.
pub open spec fn provider_ids(ps: Seq<Provider>) -> Seq<Seq<char>> {
    ps.map_values(|p: Provider| p.id@)
}

fn ids_of(ps: &[Provider]) -> (r: Vec<String>)
    ensures
        views(r@) == provider_ids(ps@),
{
    let mut out: Vec<String> = Vec::new();
    let mut i: usize = 0;
    while i < ps.len()
        invariant
            i <= ps@.len(),
            views(out@) == provider_ids(ps@).take(i as int),
        decreases ps.len() - i,
    {
        let ghost before = out@;
        let c = ps[i].id.clone();
        assert(c@ == ps@[i as int].id@);
        out.push(c);
        assert(views(out@) =~= views(before).push(c@));
        assert(views(out@) =~= provider_ids(ps@).take(i + 1));
        i = i + 1;
    }
    assert(provider_ids(ps@).take(i as int) =~= provider_ids(ps@));
    out
}

/// The settings of a provider generated from `target` for `route`: marked as generated
/// from `target_id`, with the route's inline base URL and API key.
pub open spec fn generated_settings(target: JsonValue, route: JsonValue, target_id: Seq<char>) -> JsonValue {
    let s1 = set_member(
        set_member(target, "migrationGenerated"@, JsonValue::Bool(true)),
        "migrationSourceProviderId"@,
        JsonValue::Text(target_id),
    );
    let s2 = match inline_base_url(route) {
        Some(u) => set_member(s1, "base_url"@, JsonValue::Text(u)),
        None => s1,
    };
    match inline_api_key(route) {
        Some(k) => set_member(s2, "auth"@, JsonValue::Object(seq![("OPENAI_API_KEY"@, JsonValue::Text(k))])),
        None => s2,
    }
}

/// The metadata of a provider generated for `route`: the target's, with the route's
/// protocol when it names one.
pub open spec fn generated_meta(
    target: Option<(Option<Seq<char>>, Option<Seq<char>>, Option<JsonValue>, Option<JsonValue>, Option<JsonValue>)>,
    route: JsonValue,
) -> Option<(Option<Seq<char>>, Option<Seq<char>>, Option<JsonValue>, Option<JsonValue>, Option<JsonValue>)> {
    match upstream_str(route, "apiFormat"@) {
        Some(f) => match target {
            Some(m) => Some((m.0, Some(f), m.2, m.3, m.4)),
            None => Some((None, Some(f), None, None, None)),
        },
        None => target,
    }
}

/// The settings of a generated provider once the route's capabilities (if any) are
/// moved onto its catalog models.
pub open spec fn generated_outcome(target: Provider, route: JsonValue, canonical: Seq<Seq<char>>) -> Result<JsonValue, Option<Seq<char>>> {
    let s = generated_settings(target.settings_config@, route, target.id@);
    match get(route, "capabilities"@) {
        Some(c) => catalog_steps(s, canonical, with_capabilities(c)),
        None => Ok(s),
    }
}

/// A provider generated for a route: the target's record under the new id and name,
/// marked as generated from the target, with the route's inline base URL, key and
/// protocol, and its capabilities moved onto the catalog models.
fn generated_provider(
    target: &Provider,
    clone_id: String,
    route_id: &str,
    target_id: &str,
    route: &Json,
    canonical: &Vec<String>,
) -> (r: Result<Provider, String>)
    requires
        crate::json::is_object_or_null(target.settings_config@),
        target_id@ == target.id@,
    ensures
        match generated_outcome(*target, route@, views(canonical@)) {
            Ok(s) => r is Ok && crate::compiler::provider_view(r->Ok_0) == (
                clone_id@,
                clone_name(target.name@, route_id@),
                opt_view(target.category),
                s,
                generated_meta(crate::compiler::opt_meta_view(target.meta), route@),
                opt_view(target.config_base_url),
            ),
            Err(e) => r is Err && r->Err_0@ == catalog_error(clone_id@, e),
        },
{
    let ghost cv = views(canonical@);
    let mut clone = clone_provider(target);
    clone.id = clone_id;
    clone.name = migration_clone_name(target.name.as_str(), route_id);
    json_set(&mut clone.settings_config, owned("migrationGenerated"), Json::Bool(true));
    json_set(&mut clone.settings_config, owned("migrationSourceProviderId"), Json::Text(owned(target_id)));
    match inline_base_url_of(route) {
        Some(url) => json_set(&mut clone.settings_config, owned("base_url"), Json::Text(url)),
        None => {},
    }
    match inline_api_key_of(route) {
        Some(key) => json_set(&mut clone.settings_config, owned("auth"), single_member("OPENAI_API_KEY", Json::Text(key))),
        None => {},
    }
    match route_upstream_str(route, "apiFormat") {
        Some(f) => {
            let format = f.clone();
            let meta = match clone.meta {
                Some(m) => ProviderMeta { api_format: Some(format), ..m },
                None => ProviderMeta {
                    provider_type: None,
                    api_format: Some(format),
                    codex_chat_reasoning: None,
                    codex_cache: None,
                    auth_binding: None,
                },
            };
            clone.meta = Some(meta);
        },
        None => {},
    }
    let ghost base = clone;
    assert(base.settings_config@ == generated_settings(target.settings_config@, route@, target.id@));
    assert(crate::compiler::opt_meta_view(base.meta) == generated_meta(crate::compiler::opt_meta_view(target.meta), route@));
    match json_get(route, "capabilities") {
        Some(caps) => {
            let ghost f = with_capabilities(caps@);
            assert(cv.take(0) =~= Seq::<Seq<char>>::empty());
            let mut i: usize = 0;
            while i < canonical.len()
                invariant
                    i <= canonical@.len(),
                    cv == views(canonical@),
                    f == with_capabilities(caps@),
                    get(route@, "capabilities"@) == Some(caps@),
                    base.id@ == clone_id@,
                    base.settings_config@ == generated_settings(target.settings_config@, route@, target.id@),
                    catalog_steps(base.settings_config@, cv.take(i as int), f) is Ok,
                    crate::compiler::provider_view(clone) == with_settings_view(
                        crate::compiler::provider_view(base),
                        catalog_steps(base.settings_config@, cv.take(i as int), f)->Ok_0,
                    ),
                decreases canonical.len() - i,
            {
                let ghost before = clone;
                let res = apply_model_capabilities(&mut clone, canonical[i].as_str(), caps);
                proof {
                    lemma_catalog_step(before, canonical@[i as int]@, f, clone, res);
                    let t = cv.take(i + 1);
                    assert(t.drop_last() =~= cv.take(i as int));
                    assert(t.last() == canonical@[i as int]@);
                }
                match res {
                    Ok(()) => {},
                    Err(e) => {
                        proof {
                            assert(before.settings_config@ == catalog_steps(base.settings_config@, cv.take(i as int), f)->Ok_0);
                            assert(before.id@ == clone_id@);
                            assert(catalog_steps(base.settings_config@, cv.take(i + 1), f) == catalog_step(before.settings_config@, canonical@[i as int]@, f));
                            lemma_catalog_steps_err(base.settings_config@, cv, i + 1, f);
                            assert(generated_outcome(*target, route@, cv) == catalog_steps(base.settings_config@, cv, f));
                        }
                        return Err(e);
                    },
                }
                i = i + 1;
            }
            assert(cv.take(i as int) =~= cv);
        },
        None => {},
    }
    Ok(clone)
}

/// The provider a legacy route's overrides are applied to: the updated copy of the
/// target when there is one, else the target itself.
pub open spec fn update_base(updated: Seq<Provider>, target: Provider) -> Provider {
    match provider_position(updated, target.id@) {
        Some(k) => updated[k],
        None => target,
    }
}

/// Where the updated copy of the target stands: at its position, or appended.
pub open spec fn update_slot(updated: Seq<Provider>, target: Provider) -> int {
    match provider_position(updated, target.id@) {
        Some(k) => k,
        None => updated.len() as int,
    }
}

/// The settings after a protocol (or else capabilities) override is moved onto the
/// catalog models of `canonical`.
pub open spec fn target_update(
    settings: JsonValue,
    canonical: Seq<Seq<char>>,
    api_format: Option<Seq<char>>,
    capabilities: Option<JsonValue>,
) -> Result<JsonValue, Option<Seq<char>>> {
    match api_format {
        Some(f) => catalog_steps(settings, canonical, with_api_format(f)),
        None => match capabilities {
            Some(c) => catalog_steps(settings, canonical, with_capabilities(c)),
            None => Ok(settings),
        },
    }
}

/// Applies `f` (a protocol, or capabilities) of a legacy route to the updated copy of
/// its target, creating that copy first.
fn update_target(
    updated: &mut Vec<Provider>,
    target: &Provider,
    canonical: &Vec<String>,
    api_format: Option<&str>,
    capabilities: Option<&Json>,
) -> (r: Result<(), String>)
    ensures
        ({
            let base = update_base(old(updated)@, *target);
            let k = update_slot(old(updated)@, *target);
            &&& final(updated)@.len() == if provider_position(old(updated)@, target.id@) is Some {
                old(updated)@.len()
            } else {
                old(updated)@.len() + 1
            }
            &&& forall|q: int| 0 <= q < old(updated)@.len() && q != k ==> #[trigger] final(updated)@[q] == old(updated)@[q]
            &&& match target_update(
                base.settings_config@,
                views(canonical@),
                crate::auto_launch::opt_str_view(api_format),
                crate::json::opt_ref_view(capabilities),
            ) {
                Ok(s) => r is Ok && crate::compiler::provider_view(final(updated)@[k]) == with_settings_view(
                    crate::compiler::provider_view(base),
                    s,
                ),
                Err(e) => r is Err && r->Err_0@ == catalog_error(target.id@, e) && crate::compiler::provider_view(
                    final(updated)@[k],
                ) == crate::compiler::provider_view(base),
            }
        }),
{
    let ghost old_updated = updated@;
    proof {
        lemma_provider_position(updated@, target.id@);
    }
    let k = match find_provider(updated.as_slice(), target.id.as_str()) {
        Some(k) => k,
        None => {
            updated.push(clone_provider(target));
            updated.len() - 1
        },
    };
    let ghost base = update_base(old_updated, *target);
    assert(k as int == update_slot(old_updated, *target));
    assert(crate::compiler::provider_view(updated@[k as int]) == crate::compiler::provider_view(base));
    assert(base.id@ == target.id@);
    let ghost cv = views(canonical@);
    let ghost f = match api_format {
        Some(a) => with_api_format(a@),
        None => match capabilities {
            Some(c) => with_capabilities(c@),
            None => |m: JsonValue| m,
        },
    };
    let ghost stepping = api_format is Some || capabilities is Some;
    let mut p = clone_provider(&updated[k]);
    assert(cv.take(0) =~= Seq::<Seq<char>>::empty());
    let mut i: usize = 0;
    while i < canonical.len()
        invariant
            i <= canonical@.len(),
            cv == views(canonical@),
            stepping == (api_format is Some || capabilities is Some),
            api_format is Some ==> f == with_api_format(api_format->0@),
            api_format is None && capabilities is Some ==> f == with_capabilities(capabilities->0@),
            base.id@ == target.id@,
            stepping ==> catalog_steps(base.settings_config@, cv.take(i as int), f) is Ok,
            stepping ==> crate::compiler::provider_view(p) == with_settings_view(
                crate::compiler::provider_view(base),
                catalog_steps(base.settings_config@, cv.take(i as int), f)->Ok_0,
            ),
            !stepping ==> crate::compiler::provider_view(p) == crate::compiler::provider_view(base),
            k < updated@.len(),
            crate::compiler::provider_view(updated@[k as int]) == crate::compiler::provider_view(base),
            updated@.len() == if provider_position(old_updated, target.id@) is Some {
                old_updated.len()
            } else {
                old_updated.len() + 1
            },
            k as int == update_slot(old_updated, *target),
            old_updated == old(updated)@,
            base == update_base(old_updated, *target),
            forall|q: int| 0 <= q < old_updated.len() && q != k ==> #[trigger] updated@[q] == old_updated[q],
        decreases canonical.len() - i,
    {
        let ghost before = p;
        let step = match api_format {
            Some(a) => apply_model_api_format(&mut p, canonical[i].as_str(), a),
            None => match capabilities {
                Some(c) => apply_model_capabilities(&mut p, canonical[i].as_str(), c),
                None => Ok(()),
            },
        };
        proof {
            if stepping {
                lemma_catalog_step(before, canonical@[i as int]@, f, p, step);
                let t = cv.take(i + 1);
                assert(t.drop_last() =~= cv.take(i as int));
                assert(t.last() == canonical@[i as int]@);
                assert(before.settings_config@ == catalog_steps(base.settings_config@, cv.take(i as int), f)->Ok_0);
                assert(catalog_steps(base.settings_config@, t, f) == catalog_step(before.settings_config@, canonical@[i as int]@, f));
            }
        }
        match step {
            Ok(()) => {},
            Err(e) => {
                proof {
                    assert(stepping);
                    lemma_catalog_steps_err(base.settings_config@, cv, i + 1, f);
                    assert(target_update(
                        base.settings_config@,
                        cv,
                        crate::auto_launch::opt_str_view(api_format),
                        crate::json::opt_ref_view(capabilities),
                    ) == catalog_steps(base.settings_config@, cv, f));
                }
                return Err(e);
            },
        }
        i = i + 1;
    }
    assert(cv.take(i as int) =~= cv);
    updated.set(k, p);
    Ok(())
}

/// The protocol a legacy route moves onto its target's models: its `apiFormat`, unless
/// that comes from the provider.
pub open spec fn route_format(route: JsonValue) -> Option<Seq<char>> {
    if protocol_override(route) {
        upstream_str(route, "apiFormat"@)
    } else {
        None
    }
}

/// The settings after a route's protocol, then its capabilities, are moved onto the
/// catalog models of `canonical`, stopping at the first failure.
pub open spec fn override_outcome(
    settings: JsonValue,
    canonical: Seq<Seq<char>>,
    api_format: Option<Seq<char>>,
    capabilities: Option<JsonValue>,
) -> Result<JsonValue, Option<Seq<char>>> {
    match target_update(settings, canonical, api_format, None) {
        Ok(s) => target_update(s, canonical, None, capabilities),
        Err(e) => Err(e),
    }
}

/// `new` is `old` with a route's protocol and capabilities moved onto the updated copy
/// of its target (when it overrides either); when that succeeds, the copy holds the
/// resulting settings.
pub open spec fn overrides_updated(old: Seq<Provider>, new: Seq<Provider>, target: Provider, route: JsonValue) -> bool {
    let base = update_base(old, target);
    let k = update_slot(old, target);
    let caps = get(route, "capabilities"@);
    if route_format(route) is None && caps is None {
        new == old
    } else {
        &&& new.len() == if provider_position(old, target.id@) is Some {
            old.len()
        } else {
            old.len() + 1
        }
        &&& forall|q: int| 0 <= q < old.len() && q != k ==> #[trigger] new[q] == old[q]
        &&& match override_outcome(base.settings_config@, route_canonical_models(route), route_format(route), caps) {
            Ok(s) => crate::compiler::provider_view(new[k]) == with_settings_view(crate::compiler::provider_view(base), s),
            Err(_) => true,
        }
    }
}

proof fn lemma_position_at(ps: Seq<Provider>, id: Seq<char>, k: int)
    requires
        0 <= k < ps.len(),
        ps[k].id@ == id,
        forall|j: int| 0 <= j < k ==> (#[trigger] ps[j]).id@ != id,
    ensures
        provider_position(ps, id) == Some(k),
{
    assert(ps[k].id@ == id);
    let i = choose|i: int| 0 <= i < ps.len() && ps[i].id@ == id && forall|j: int| 0 <= j < i ==> (#[trigger] ps[j]).id@ != id;
    assert(0 <= i < ps.len() && ps[i].id@ == id && forall|j: int| 0 <= j < i ==> (#[trigger] ps[j]).id@ != id);
    if i < k {
        assert(ps[i].id@ != id);
    } else if i > k {
        assert(ps[k].id@ != id);
    }
}

proof fn lemma_slot_after_update(old: Seq<Provider>, new: Seq<Provider>, target: Provider)
    requires
        new.len() == if provider_position(old, target.id@) is Some {
            old.len()
        } else {
            old.len() + 1
        },
        forall|q: int| 0 <= q < old.len() && q != update_slot(old, target) ==> #[trigger] new[q] == old[q],
        new[update_slot(old, target)].id@ == target.id@,
    ensures
        provider_position(new, target.id@) == Some(update_slot(old, target)),
        update_slot(new, target) == update_slot(old, target),
{
    let id = target.id@;
    let k = update_slot(old, target);
    lemma_provider_position(old, id);
    assert(forall|j: int| 0 <= j < k ==> (#[trigger] old[j]).id@ != id);
    assert forall|j: int| 0 <= j < k implies (#[trigger] new[j]).id@ != id by {
        assert(new[j] == old[j]);
    }
    lemma_position_at(new, id, k);
}

/// Moves a legacy route's protocol override, then its capabilities, onto the updated
/// copy of its target.
fn apply_route_overrides(updated: &mut Vec<Provider>, target: &Provider, canonical: &Vec<String>, route: &Json) -> (r: Result<(), String>)
    requires
        views(canonical@) == route_canonical_models(route@),
    ensures
        overrides_updated(old(updated)@, final(updated)@, *target, route@),
        match override_outcome(
            update_base(old(updated)@, *target).settings_config@,
            route_canonical_models(route@),
            route_format(route@),
            get(route@, "capabilities"@),
        ) {
            Ok(_) => r is Ok,
            Err(e) => r is Err && r->Err_0@ == catalog_error(target.id@, e),
        },
{
    proof {
        reveal_strlit("provider");
    }
    let ghost old_updated = updated@;
    let ghost cv = views(canonical@);
    let format = match route_upstream_str(route, "apiFormat") {
        Some(f) => {
            let from_provider = match route_upstream_str(route, "apiFormatSource") {
                Some(s) => str_eq(s.as_str(), "provider"),
                None => false,
            };
            if from_provider {
                None
            } else {
                Some(f.as_str())
            }
        },
        None => None,
    };
    assert(crate::auto_launch::opt_str_view(format) == route_format(route@));
    let ghost base = update_base(old_updated, *target);
    let ghost k = update_slot(old_updated, *target);
    match format {
        Some(f) => {
            match update_target(updated, target, canonical, Some(f), None) {
                Ok(()) => {},
                Err(e) => {
                    return Err(e);
                },
            }
        },
        None => {},
    }
    let ghost mid = updated@;
    let ghost s1 = target_update(base.settings_config@, cv, route_format(route@), None);
    assert(s1 is Ok);
    proof {
        if format is Some {
            assert(base.id@ == target.id@) by {
                lemma_provider_position(old_updated, target.id@);
            }
            assert(crate::compiler::provider_view(mid[k]) == with_settings_view(crate::compiler::provider_view(base), s1->Ok_0));
            lemma_slot_after_update(old_updated, mid, *target);
        }
    }
    match json_get(route, "capabilities") {
        Some(caps) => {
            let res = update_target(updated, target, canonical, None, Some(caps));
            proof {
                if format is Some {
                    assert(update_base(mid, *target) == mid[k]);
                    assert(update_base(mid, *target).settings_config@ == s1->Ok_0);
                    assert forall|q: int| 0 <= q < old_updated.len() && q != k implies #[trigger] updated@[q] == old_updated[q] by {
                        assert(updated@[q] == mid[q]);
                    }
                } else {
                    assert(mid == old_updated);
                }
            }
            match res {
                Ok(()) => {},
                Err(e) => {
                    return Err(e);
                },
            }
        },
        None => {},
    }
    Ok(())
}

fn string_items(a: Option<&Vec<Json>>) -> (r: Vec<String>)
    ensures
        views(r@) == match a {
            Some(v) => strings_in(jviews(v@)),
            None => Seq::empty(),
        },
{
    let mut out: Vec<String> = Vec::new();
    match a {
        Some(v) => {
            proof {
                lemma_jviews_index(v@);
            }
            let mut i: usize = 0;
            while i < v.len()
                invariant
                    i <= v@.len(),
                    jviews(v@).len() == v@.len(),
                    forall|k: int| 0 <= k < v@.len() ==> #[trigger] jviews(v@)[k] == jview(v@[k]),
                    views(out@) == strings_in(jviews(v@).take(i as int)),
                decreases v.len() - i,
            {
                assert(jviews(v@).take(i + 1).drop_last() =~= jviews(v@).take(i as int));
                assert(jviews(v@).take(i + 1).last() == jview(v@[i as int]));
                match json_as_str(&v[i]) {
                    Some(t) => {
                        let ghost before = out@;
                        let c = t.clone();
                        out.push(c);
                        assert(views(out@) =~= views(before).push(c@));
                    },
                    None => {},
                }
                i = i + 1;
            }
            assert(jviews(v@).take(v@.len() as int) =~= jviews(v@));
        },
        None => {},
    }
    out
}

/// The strings of a JSON array, in order (other values are skipped).
pub open spec fn strings_in(a: Seq<JsonValue>) -> Seq<Seq<char>>
    decreases a.len(),
{
    if a.len() == 0 {
        Seq::empty()
    } else {
        let before = strings_in(a.drop_last());
        match as_str(a.last()) {
            Some(t) => before.push(t),
            None => before,
        }
    }
}

/// The legacy routing of a router: its `codexRouting` object.
pub open spec fn legacy_routing(router: Provider) -> Option<JsonValue> {
    match get(router.settings_config@, "codexRouting"@) {
        Some(v) => if v is Object {
            Some(v)
        } else {
            None
        },
        None => None,
    }
}

/// The legacy routes of a router.
pub open spec fn legacy_routes(router: Provider) -> Option<Seq<JsonValue>> {
    match legacy_routing(router) {
        Some(l) => opt_array(get(l, "routes"@)),
        None => None,
    }
}

fn strings_equal(a: &Vec<String>, b: &Vec<String>) -> (r: bool)
    ensures
        r == (views(a@) == views(b@)),
{
    if a.len() != b.len() {
        assert(views(a@).len() != views(b@).len());
        return false;
    }
    let mut i: usize = 0;
    while i < a.len()
        invariant
            i <= a@.len(),
            a@.len() == b@.len(),
            forall|k: int| 0 <= k < i ==> #[trigger] views(a@)[k] == views(b@)[k],
        decreases a.len() - i,
    {
        if !str_eq(a[i].as_str(), b[i].as_str()) {
            assert(views(a@)[i as int] != views(b@)[i as int]);
            return false;
        }
        i = i + 1;
    }
    assert(views(a@) =~= views(b@));
    true
}

fn join_strings(v: &Vec<String>, sep: &str) -> (r: String)
    ensures
        r@ == crate::text::join(views(v@), sep@),
{
    crate::text::join_strings(v, sep)
}

fn append_strings(a: &Vec<String>, b: &Vec<String>) -> (r: Vec<String>)
    ensures
        views(r@) == views(a@) + views(b@),
{
    let mut out = crate::text::clone_strings(a);
    let mut i: usize = 0;
    while i < b.len()
        invariant
            i <= b@.len(),
            views(out@) == views(a@) + views(b@).take(i as int),
        decreases b.len() - i,
    {
        let ghost before = out@;
        let c = b[i].clone();
        assert(c@ == b@[i as int]@);
        out.push(c);
        assert(views(out@) =~= views(before).push(c@));
        assert(views(out@) =~= views(a@) + views(b@).take(i + 1));
        i = i + 1;
    }
    assert(views(b@).take(i as int) =~= views(b@));
    out
}

/// Whether some explicit model names catalog entry `e`, by its visible or its upstream
/// name, ignoring ASCII case.
pub open spec fn names_entry(explicit: Seq<Seq<char>>, e: (Seq<char>, Seq<char>)) -> bool {
    exists|j: int| 0 <= j < explicit.len() && (eq_ignore_case(#[trigger] explicit[j], e.0) || eq_ignore_case(explicit[j], e.1))
}

/// Whether a catalog entry selected by the prefixes is one that no explicit model names.
pub open spec fn prefix_adds(entries: Seq<(Seq<char>, Seq<char>)>, prefix_models: Seq<Seq<char>>, explicit: Seq<Seq<char>>) -> bool {
    exists|i: int| 0 <= i < entries.len() && prefix_models.contains((#[trigger] entries[i]).0) && !names_entry(explicit, entries[i])
}

/// Whether the prefix models add a catalog model that the explicit models do not name.
fn prefix_adds_models(entries: &Vec<(String, String)>, prefix_models: &Vec<String>, explicit: &Vec<String>) -> (r: bool)
    ensures
        r == prefix_adds(entry_views(entries@), views(prefix_models@), views(explicit@)),
{
    let ghost ev = entry_views(entries@);
    let ghost pm = views(prefix_models@);
    let ghost ex = views(explicit@);
    let mut i: usize = 0;
    while i < entries.len()
        invariant
            i <= entries@.len(),
            ev == entry_views(entries@),
            pm == views(prefix_models@),
            ex == views(explicit@),
            forall|q: int| 0 <= q < i ==> !(pm.contains((#[trigger] ev[q]).0) && !names_entry(ex, ev[q])),
        decreases entries.len() - i,
    {
        assert(ev[i as int] == (entries@[i as int].0@, entries@[i as int].1@));
        if contains_str(prefix_models, entries[i].0.as_str()) {
            let mut named = false;
            let mut j: usize = 0;
            while j < explicit.len() && !named
                invariant
                    i < entries@.len(),
                    j <= explicit@.len(),
                    ev == entry_views(entries@),
                    ex == views(explicit@),
                    ev[i as int] == (entries@[i as int].0@, entries@[i as int].1@),
                    named == exists|q: int| 0 <= q < j && (eq_ignore_case(#[trigger] ex[q], ev[i as int].0) || eq_ignore_case(ex[q], ev[i as int].1)),
                decreases explicit.len() - j,
            {
                if eq_ignore_ascii_case(explicit[j].as_str(), entries[i].0.as_str()) || eq_ignore_ascii_case(
                    explicit[j].as_str(),
                    entries[i].1.as_str(),
                ) {
                    named = true;
                    assert(eq_ignore_case(ex[j as int], ev[i as int].0) || eq_ignore_case(ex[j as int], ev[i as int].1));
                }
                j = j + 1;
            }
            assert(named == names_entry(ex, ev[i as int]));
            if !named {
                assert(pm.contains(ev[i as int].0));
                return true;
            }
        }
        i = i + 1;
    }
    false
}

proof fn lemma_migrated_route_extends(
    v2: CodexRoutingRouteV2,
    route: JsonValue,
    index: nat,
    routes: Seq<JsonValue>,
    target: Provider,
    s1: Seq<GeneratedProviderSummary>,
    s2: Seq<GeneratedProviderSummary>,
)
    requires
        migrated_route_of(v2, route, index, routes, target, s1),
        s1.len() <= s2.len(),
        s2.take(s1.len() as int) == s1,
    ensures
        migrated_route_of(v2, route, index, routes, target, s2),
{
    if requires_clone(route, routes, target.id@) {
        let g = choose|g: int| 0 <= g < s1.len() && (#[trigger] s1[g]).id@ == v2.target_provider_id@
            && s1[g].source_provider_id@ == target.id@ && s1[g].migration_generated;
        assert(s2[g] == s2.take(s1.len() as int)[g]);
        assert(s2[g] == s1[g]);
    }
}

pub open spec fn summary_ids(ss: Seq<GeneratedProviderSummary>) -> Seq<Seq<char>> {
    ss.map_values(|g: GeneratedProviderSummary| g.id@)
}

proof fn lemma_first_provider(ps: Seq<Provider>, id: Seq<char>, m: int)
    requires
        0 <= m < ps.len(),
        ps[m].id@ == id,
    ensures
        exists|i: int| 0 <= i < ps.len() && ps[i].id@ == id && forall|j: int| 0 <= j < i ==> (#[trigger] ps[j]).id@ != id,
    decreases m,
{
    if exists|j: int| 0 <= j < m && (#[trigger] ps[j]).id@ == id {
        let j = choose|j: int| 0 <= j < m && (#[trigger] ps[j]).id@ == id;
        lemma_first_provider(ps, id, j);
    } else {
        assert(forall|j: int| 0 <= j < m ==> (#[trigger] ps[j]).id@ != id);
    }
}

proof fn lemma_provider_position(ps: Seq<Provider>, id: Seq<char>)
    ensures
        match provider_position(ps, id) {
            Some(i) => 0 <= i < ps.len() && ps[i].id@ == id && forall|j: int| 0 <= j < i ==> (#[trigger] ps[j]).id@ != id,
            None => forall|i: int| 0 <= i < ps.len() ==> (#[trigger] ps[i]).id@ != id,
        },
{
    if exists|i: int| 0 <= i < ps.len() && #[trigger] ps[i].id@ == id {
        let m = choose|i: int| 0 <= i < ps.len() && #[trigger] ps[i].id@ == id;
        lemma_first_provider(ps, id, m);
    }
}

/// Route `k` of the migrated plan is the migration of legacy route `k`.
pub open spec fn route_migrated_at(
    v2: CodexRoutingRouteV2,
    rv: Seq<JsonValue>,
    k: int,
    providers: Seq<Provider>,
    official_provider_id: Seq<char>,
    summaries: Seq<GeneratedProviderSummary>,
) -> bool {
    &&& legacy_target(rv[k], official_provider_id) is Some
    &&& provider_position(providers, legacy_target(rv[k], official_provider_id)->0) is Some
    &&& migrated_route_of(
        v2,
        rv[k],
        k as nat,
        rv,
        providers[provider_position(providers, legacy_target(rv[k], official_provider_id)->0)->0],
        summaries,
    )
}

/// Every route of `v2s` is the migration of the legacy route at its position.
pub open spec fn routes_migrated(
    v2s: Seq<CodexRoutingRouteV2>,
    rv: Seq<JsonValue>,
    providers: Seq<Provider>,
    official_provider_id: Seq<char>,
    summaries: Seq<GeneratedProviderSummary>,
) -> bool {
    forall|k: int| 0 <= k < v2s.len() ==> route_migrated_at(#[trigger] v2s[k], rv, k, providers, official_provider_id, summaries)
}

proof fn lemma_routes_migrated_push(
    v2s: Seq<CodexRoutingRouteV2>,
    v2: CodexRoutingRouteV2,
    rv: Seq<JsonValue>,
    providers: Seq<Provider>,
    official_provider_id: Seq<char>,
    s1: Seq<GeneratedProviderSummary>,
    s2: Seq<GeneratedProviderSummary>,
)
    requires
        routes_migrated(v2s, rv, providers, official_provider_id, s1),
        s1.len() <= s2.len(),
        s2.take(s1.len() as int) == s1,
        route_migrated_at(v2, rv, v2s.len() as int, providers, official_provider_id, s2),
    ensures
        routes_migrated(v2s.push(v2), rv, providers, official_provider_id, s2),
{
    let n = v2s.push(v2);
    assert forall|k: int| 0 <= k < n.len() implies route_migrated_at(#[trigger] n[k], rv, k, providers, official_provider_id, s2) by {
        if k < v2s.len() {
            assert(n[k] == v2s[k]);
            assert(route_migrated_at(v2s[k], rv, k, providers, official_provider_id, s1));
            lemma_migrated_route_extends(
                v2s[k],
                rv[k],
                k as nat,
                rv,
                providers[provider_position(providers, legacy_target(rv[k], official_provider_id)->0)->0],
                s1,
                s2,
            );
        }
    }
}

/// The provider a legacy route targets, when its target is known and present.
pub open spec fn route_target(route: JsonValue, providers: Seq<Provider>, official_provider_id: Seq<char>) -> Option<Provider> {
    match legacy_target(route, official_provider_id) {
        Some(t) => match provider_position(providers, t) {
            Some(p) => Some(providers[p]),
            None => None,
        },
        None => None,
    }
}

/// A route's overrides can be carried over: onto a generated provider when the route
/// needs one, else onto the updated copy of its target.
pub open spec fn route_overrides_apply(route: JsonValue, routes: Seq<JsonValue>, target: Provider, updated: Seq<Provider>) -> bool {
    let canonical = route_canonical_models(route);
    if requires_clone(route, routes, target.id@) {
        generated_outcome(target, route, canonical) is Ok
    } else {
        override_outcome(update_base(updated, target).settings_config@, canonical, route_format(route), get(route, "capabilities"@)) is Ok
    }
}

/// A route selects by prefix only, and its target's catalog is empty or has no model
/// the prefixes select.
pub open spec fn prefix_selection_fails(route: JsonValue, target: Provider) -> bool {
    let prefixes = match_prefixes_of(route);
    &&& prefixes.len() > 0
    &&& route_canonical_models(route).len() == 0
    &&& (provider_catalog(target).len() == 0 || prefix_selected_models(route, target, prefixes).len() == 0)
}

/// A legacy route migrates: its target is known and present, its overrides carry over,
/// its prefix selection finds models, and its authentication source is known.
pub open spec fn route_migrates(
    route: JsonValue,
    routes: Seq<JsonValue>,
    providers: Seq<Provider>,
    official_provider_id: Seq<char>,
    updated: Seq<Provider>,
) -> bool {
    match route_target(route, providers, official_provider_id) {
        Some(target) => {
            &&& route_overrides_apply(route, routes, target, updated)
            &&& !prefix_selection_fails(route, target)
            &&& route_auth_policy(route) is Some
        },
        None => false,
    }
}

/// What migrating a route does to the generated providers: appends the provider
/// generated for it when the route needs one and its capabilities carry over.
pub open spec fn generated_after_route(
    old: Seq<Provider>,
    new: Seq<Provider>,
    route: JsonValue,
    index: nat,
    routes: Seq<JsonValue>,
    providers: Seq<Provider>,
    official_provider_id: Seq<char>,
) -> bool {
    match route_target(route, providers, official_provider_id) {
        Some(target) => if requires_clone(route, routes, target.id@) {
            match generated_outcome(target, route, route_canonical_models(route)) {
                Ok(s) => {
                    &&& new.len() == old.len() + 1
                    &&& new.drop_last() == old
                    &&& crate::compiler::provider_view(new.last()) == (
                        clone_id_for(
                            provider_ids(providers) + provider_ids(old),
                            clone_base(target.id@, legacy_route_id(route, index)),
                        ),
                        clone_name(target.name@, legacy_route_id(route, index)),
                        opt_view(target.category),
                        s,
                        generated_meta(crate::compiler::opt_meta_view(target.meta), route),
                        opt_view(target.config_base_url),
                    )
                },
                Err(_) => new == old,
            }
        } else {
            new == old
        },
        None => new == old,
    }
}

/// The warnings migrating a legacy route reports: that it got a generated provider;
/// that its prefixes were expanded into the current catalog's models; and that they
/// add no model to its explicit ones.
pub open spec fn route_warnings(route: JsonValue, index: nat, routes: Seq<JsonValue>, target: Provider) -> Seq<Seq<char>> {
    let rid = legacy_route_id(route, index);
    let prefixes = match_prefixes_of(route);
    let canonical = route_canonical_models(route);
    let pm = prefix_selected_models(route, target, prefixes);
    let cloned = if requires_clone(route, routes, target.id@) {
        seq!["route "@ + rid + "：使用迁移生成的 Provider，以保留旧路由覆盖设置"@]
    } else {
        Seq::empty()
    };
    let frozen = if prefixes.len() > 0 {
        seq![
            "prefix_selection_frozen: route `"@ + rid + "` 的 prefix 规则已按当前 catalog 展开为 "@ + crate::text::decimal(pm.len())
                + " 个精确模型；未来新增模型不会自动加入。刷新模型目录后，请在路由规则中重新勾选并保存。"@,
        ]
    } else {
        Seq::empty()
    };
    let kept = if prefixes.len() > 0 && canonical.len() > 0 && !prefix_adds(provider_catalog(target), pm, canonical) {
        seq![
            "prefix_selection_no_current_matches: route `"@ + rid + "` 的 prefix ["@ + crate::text::join(prefixes, ", "@)
                + "] 当前没有命中额外 catalog 模型；本次只保留显式模型，未来新增模型不会自动加入。"@,
        ]
    } else {
        Seq::empty()
    };
    cloned + frozen + kept
}

/// The error a route whose prefix selection fails is refused with (see
/// `prefix_selection_fails`).
pub open spec fn prefix_error(route: JsonValue, index: nat, target: Provider) -> Seq<char> {
    let rid = legacy_route_id(route, index);
    let joined = crate::text::join(match_prefixes_of(route), ", "@);
    if provider_catalog(target).len() == 0 {
        "prefix_selection_catalog_empty: 路由 `"@ + rid + "` 的目标 Provider `"@ + target.id@
            + "` 没有可用的模型目录，无法根据 prefix ["@ + joined + "] 展开"@
    } else {
        "prefix_selection_no_matches: 路由 `"@ + rid + "` 的目标 Provider `"@ + target.id@
            + "` 当前目录没有可见模型或别名命中 prefix ["@ + joined + "]"@
    }
}

/// The errors a route with a present target is refused with, in the order they are
/// checked: its overrides (on the generated provider, named `clone_id`, or on the
/// target), its prefix selection, its authentication source.
pub open spec fn route_errors(
    r: Result<CodexRoutingRouteV2, String>,
    route: JsonValue,
    index: nat,
    routes: Seq<JsonValue>,
    target: Provider,
    updated: Seq<Provider>,
    taken: Seq<Seq<char>>,
) -> bool {
    let canonical = route_canonical_models(route);
    let base = clone_base(target.id@, legacy_route_id(route, index));
    &&& requires_clone(route, routes, target.id@) ==> match generated_outcome(target, route, canonical) {
        Err(e) => r is Err && r->Err_0@ == catalog_error(clone_id_for(taken, base), e),
        Ok(_) => true,
    }
    &&& !requires_clone(route, routes, target.id@) ==> match override_outcome(
        update_base(updated, target).settings_config@,
        canonical,
        route_format(route),
        get(route, "capabilities"@),
    ) {
        Err(e) => r is Err && r->Err_0@ == catalog_error(target.id@, e),
        Ok(_) => true,
    }
    &&& route_overrides_apply(route, routes, target, updated) && prefix_selection_fails(route, target)
        ==> r is Err && r->Err_0@ == prefix_error(route, index, target)
    &&& route_overrides_apply(route, routes, target, updated) && !prefix_selection_fails(route, target)
        && route_auth_policy(route) is None ==> r is Err && r->Err_0@ == "migration_auth_source_unknown:"@
        + legacy_auth_source_name(opt_get(get(route, "upstream"@), "auth"@))
}

/// What migrating a route does to the updated providers (see `overrides_updated`).
pub open spec fn updated_after_route(
    old: Seq<Provider>,
    new: Seq<Provider>,
    route: JsonValue,
    routes: Seq<JsonValue>,
    providers: Seq<Provider>,
    official_provider_id: Seq<char>,
) -> bool {
    match route_target(route, providers, official_provider_id) {
        Some(target) => if requires_clone(route, routes, target.id@) {
            new == old
        } else {
            overrides_updated(old, new, target, route)
        },
        None => new == old,
    }
}

/// Migrates the `i`-th legacy route (see `migrated_route_of`), generating a provider
/// for it or updating its target as its overrides need.
#[verifier::rlimit(100)]
#[verifier::spinoff_prover]
fn migrate_route(
    routes: &Vec<Json>,
    i: usize,
    providers: &[Provider],
    official_provider_id: &str,
    existing_ids: &Vec<String>,
    generated: &mut Vec<Provider>,
    summaries: &mut Vec<GeneratedProviderSummary>,
    updated: &mut Vec<Provider>,
    warnings: &mut Vec<String>,
) -> (r: Result<CodexRoutingRouteV2, String>)
    requires
        i < routes@.len(),
        forall|q: int| 0 <= q < providers@.len() ==> crate::json::is_object_or_null((#[trigger] providers@[q]).settings_config@),
        views(existing_ids@) == provider_ids(providers@),
        summary_ids(old(summaries)@) == provider_ids(old(generated)@),
        provider_ids(old(generated)@).no_duplicates(),
        forall|g: int| 0 <= g < old(generated)@.len() ==> !provider_ids(providers@).contains(#[trigger] provider_ids(old(generated)@)[g]),
    ensures
        summary_ids(final(summaries)@) == provider_ids(final(generated)@),
        provider_ids(final(generated)@).no_duplicates(),
        forall|g: int| 0 <= g < final(generated)@.len() ==> !provider_ids(providers@).contains(#[trigger] provider_ids(final(generated)@)[g]),
        old(summaries)@.len() <= final(summaries)@.len(),
        final(summaries)@.take(old(summaries)@.len() as int) == old(summaries)@,
        (r is Ok) == route_migrates(jviews(routes@)[i as int], jviews(routes@), providers@, official_provider_id@, old(updated)@),
        legacy_target(jviews(routes@)[i as int], official_provider_id@) is None ==> r is Err && r->Err_0@
            == "migration_target_ambiguous:"@ + legacy_route_id(jviews(routes@)[i as int], i as nat),
        match legacy_target(jviews(routes@)[i as int], official_provider_id@) {
            Some(t) => provider_position(providers@, t) is None ==> r is Err && r->Err_0@ == "migration_target_missing:"@ + t,
            None => true,
        },
        generated_after_route(old(generated)@, final(generated)@, jviews(routes@)[i as int], i as nat, jviews(routes@), providers@, official_provider_id@),
        updated_after_route(old(updated)@, final(updated)@, jviews(routes@)[i as int], jviews(routes@), providers@, official_provider_id@),
        match route_target(jviews(routes@)[i as int], providers@, official_provider_id@) {
            Some(target) => route_errors(
                r,
                jviews(routes@)[i as int],
                i as nat,
                jviews(routes@),
                target,
                old(updated)@,
                provider_ids(providers@) + provider_ids(old(generated)@),
            ),
            None => true,
        },
        old(warnings)@.len() <= final(warnings)@.len(),
        final(warnings)@.take(old(warnings)@.len() as int) == old(warnings)@,
        r is Ok ==> views(final(warnings)@) == views(old(warnings)@) + route_warnings(
            jviews(routes@)[i as int],
            i as nat,
            jviews(routes@),
            route_target(jviews(routes@)[i as int], providers@, official_provider_id@)->0,
        ),
        r is Ok ==> {
            let route = jviews(routes@)[i as int];
            &&& legacy_target(route, official_provider_id@) is Some
            &&& provider_position(providers@, legacy_target(route, official_provider_id@)->0) is Some
            &&& migrated_route_of(
                r->Ok_0,
                route,
                i as nat,
                jviews(routes@),
                providers@[provider_position(providers@, legacy_target(route, official_provider_id@)->0)->0],
                final(summaries)@,
            )
        },
{
    let ghost summaries_before = summaries@;
    let route = &routes[i];
    proof {
        lemma_jviews_index(routes@);
    }
    let route_id = route_id_of(route, i);
    let legacy_target_id = match legacy_target_of(route, official_provider_id) {
        Some(t) => t,
        None => {
            return Err(crate::text::concat("migration_target_ambiguous:", route_id.as_str()));
        },
    };
    let pos = match find_provider(providers, legacy_target_id.as_str()) {
        Some(p) => p,
        None => {
            return Err(crate::text::concat("migration_target_missing:", legacy_target_id.as_str()));
        },
    };
    let target = &providers[pos];
    proof {
        lemma_provider_position(providers@, legacy_target_id@);
    }
    assert(target.id@ == legacy_target_id@);
    let canonical = legacy_route_canonical_models(route);
    let needs_clone = route_requires_clone(route, routes, legacy_target_id.as_str());
    let mut target_id = legacy_target_id.clone();
    if needs_clone {
        let gen_ids = ids_of(generated.as_slice());
        let taken = append_strings(&existing_ids, &gen_ids);
        let clone_id = unique_clone_id(legacy_target_id.as_str(), route_id.as_str(), &taken);
        proof {
            let k = choose|k: nat| #[trigger] first_untaken(views(taken@), clone_base(legacy_target_id@, route_id@), k)
                && clone_id@ == crate::compiler::numbered(clone_base(legacy_target_id@, route_id@), k);
            lemma_first_untaken_unique(views(taken@), clone_base(legacy_target_id@, route_id@), k);
            assert(views(taken@) =~= provider_ids(providers@) + provider_ids(old(generated)@));
            assert(clone_id@ == clone_id_for(provider_ids(providers@) + provider_ids(old(generated)@), clone_base(legacy_target_id@, route_id@)));
            assert(!views(taken@).contains(clone_id@));
            if provider_ids(providers@).contains(clone_id@) {
                let j = choose|j: int| 0 <= j < provider_ids(providers@).len() && provider_ids(providers@)[j] == clone_id@;
                assert(views(taken@)[j] == clone_id@);
            }
            if provider_ids(generated@).contains(clone_id@) {
                let j = choose|j: int| 0 <= j < provider_ids(generated@).len() && provider_ids(generated@)[j] == clone_id@;
                assert(views(taken@)[existing_ids@.len() + j] == clone_id@);
            }
        }
        let clone = match generated_provider(target, clone_id.clone(), route_id.as_str(), legacy_target_id.as_str(), route, &canonical) {
            Ok(c) => c,
            Err(e) => {
                proof {
                    assert(views(taken@) =~= provider_ids(providers@) + provider_ids(old(generated)@));
                    let k = choose|k: nat| #[trigger] first_untaken(views(taken@), clone_base(legacy_target_id@, route_id@), k)
                        && clone_id@ == crate::compiler::numbered(clone_base(legacy_target_id@, route_id@), k);
                    lemma_first_untaken_unique(views(taken@), clone_base(legacy_target_id@, route_id@), k);
                    assert(route_target(jviews(routes@)[i as int], providers@, official_provider_id@) == Some(*target));
                }
                return Err(e);
            },
        };
        let summary = GeneratedProviderSummary {
            id: clone_id.clone(),
            name: clone.name.clone(),
            migration_generated: true,
            source_provider_id: legacy_target_id.clone(),
        };
        let ghost gen_before = generated@;
        let ghost cg = clone;
        summaries.push(summary);
        generated.push(clone);
        proof {
            assert(route_target(jviews(routes@)[i as int], providers@, official_provider_id@) == Some(*target));
            assert(generated@.drop_last() =~= gen_before);
            assert(generated@.last() == cg);
            assert(generated_after_route(
                old(generated)@,
                generated@,
                jviews(routes@)[i as int],
                i as nat,
                jviews(routes@),
                providers@,
                official_provider_id@,
            ));
            assert(summary_ids(summaries@) =~= summary_ids(summaries_before).push(clone_id@));
            assert(provider_ids(generated@) =~= provider_ids(gen_before).push(clone_id@));
            assert forall|a: int, b: int| 0 <= a < b < provider_ids(generated@).len() implies provider_ids(generated@)[a] != provider_ids(generated@)[b] by {
                if b == provider_ids(generated@).len() - 1 {
                    assert(provider_ids(gen_before)[a] == provider_ids(generated@)[a]);
                    assert(provider_ids(gen_before).contains(provider_ids(generated@)[a]));
                }
            }
            assert(summaries@[summaries@.len() - 1].id@ == clone_id@);
        }
        target_id = clone_id;
        let w = crate::text::concat3("route ", route_id.as_str(), "：使用迁移生成的 Provider，以保留旧路由覆盖设置");
        let ghost wb = warnings@;
        warnings.push(w);
        proof {
            assert(views(warnings@) =~= views(wb).push(w@));
        }
    } else {
        match apply_route_overrides(updated, target, &canonical, route) {
            Ok(()) => {},
            Err(e) => {
                return Err(e);
            },
        }
    }
    let ghost rv = jviews(routes@)[i as int];
    let ghost cloned_warnings = if needs_clone {
        seq!["route "@ + legacy_route_id(rv, i as nat) + "：使用迁移生成的 Provider，以保留旧路由覆盖设置"@]
    } else {
        Seq::<Seq<char>>::empty()
    };
    assert(views(warnings@) =~= views(old(warnings)@) + cloned_warnings);
    let prefixes = legacy_route_match_prefixes(route);
    let prefix_models = if prefixes.len() == 0 {
        Vec::new()
    } else {
        legacy_prefix_selected_models(route, target, &prefixes)
    };
    let combined = append_strings(&canonical, &prefix_models);
    let selected = sorted_set_of(&combined);
    if prefixes.len() > 0 {
        let entries = provider_catalog_entries(target);
        let joined = join_strings(&prefixes, ", ");
        let has_explicit = canonical.len() > 0;
        if entries.len() == 0 && !has_explicit {
            let a = crate::text::concat3("prefix_selection_catalog_empty: 路由 `", route_id.as_str(), "` 的目标 Provider `");
            let b = crate::text::concat3(a.as_str(), target.id.as_str(), "` 没有可用的模型目录，无法根据 prefix [");
            return Err(crate::text::concat3(b.as_str(), joined.as_str(), "] 展开"));
        }
        if prefix_models.len() == 0 && !has_explicit {
            let a = crate::text::concat3("prefix_selection_no_matches: 路由 `", route_id.as_str(), "` 的目标 Provider `");
            let b = crate::text::concat3(a.as_str(), target.id.as_str(), "` 当前目录没有可见模型或别名命中 prefix [");
            return Err(crate::text::concat3(b.as_str(), joined.as_str(), "]"));
        }
        let count = crate::text::decimal_string(prefix_models.len());
        let a = crate::text::concat3("prefix_selection_frozen: route `", route_id.as_str(), "` 的 prefix 规则已按当前 catalog 展开为 ");
        let w2 = crate::text::concat3(a.as_str(), count.as_str(), " 个精确模型；未来新增模型不会自动加入。刷新模型目录后，请在路由规则中重新勾选并保存。");
        let ghost wb2 = warnings@;
        warnings.push(w2);
        proof {
            assert(views(warnings@) =~= views(wb2).push(w2@));
        }
        if has_explicit && !prefix_adds_models(&entries, &prefix_models, &canonical) {
            let a = crate::text::concat3("prefix_selection_no_current_matches: route `", route_id.as_str(), "` 的 prefix [");
            let w3 = crate::text::concat3(a.as_str(), joined.as_str(), "] 当前没有命中额外 catalog 模型；本次只保留显式模型，未来新增模型不会自动加入。");
            let ghost wb3 = warnings@;
            warnings.push(w3);
            proof {
                assert(views(warnings@) =~= views(wb3).push(w3@));
            }
        }
    }
    proof {
        assert(views(warnings@) =~= views(old(warnings)@) + route_warnings(rv, i as nat, jviews(routes@), *target));
    }
    let catalog = provider_catalog_models(target);
    let all = prefixes.len() == 0 && catalog.len() > 0 && strings_equal(&selected, &catalog);
    let model_selection = if all {
        CodexModelSelection::All
    } else {
        CodexModelSelection::Include { models: selected }
    };
    let aliases = legacy_route_aliases(route);
    let auth_policy = match legacy_auth_policy(get_opt(json_get(route, "upstream"), "auth")) {
        Ok(p) => p,
        Err(e) => {
            return Err(e);
        },
    };
    let label = match json_get_str(route, "label") {
        Some(l) => Some(l.clone()),
        None => None,
    };
    let enabled = match json_get_bool(route, "enabled") {
        Some(e) => e,
        None => true,
    };
    let v2 = CodexRoutingRouteV2 {
        id: route_id,
        label,
        enabled,
        target_provider_id: target_id,
        model_selection,
        match_prefixes: prefixes,
        aliases,
        auth_policy,
    };
    proof {
        lemma_provider_position(providers@, legacy_target_id@);
        assert(summaries@.take(summaries_before.len() as int) =~= summaries_before);
    }
    Ok(v2)
}

/// The value of a provider record (see `provider_view`).
pub type ProviderValue = (
    Seq<char>,
    Seq<char>,
    Option<Seq<char>>,
    JsonValue,
    Option<(Option<Seq<char>>, Option<Seq<char>>, Option<JsonValue>, Option<JsonValue>, Option<JsonValue>)>,
    Option<Seq<char>>,
);

/// The values of a list of providers.
pub open spec fn provider_values(ps: Seq<Provider>) -> Seq<ProviderValue> {
    ps.map_values(|p: Provider| crate::compiler::provider_view(p))
}

/// The position of the first provider value with id `id`.
pub open spec fn value_position(vs: Seq<ProviderValue>, id: Seq<char>) -> Option<int>
    decreases vs.len(),
{
    if vs.len() == 0 {
        None
    } else {
        match value_position(vs.drop_last(), id) {
            Some(i) => Some(i),
            None => if vs.last().0 == id {
                Some(vs.len() - 1)
            } else {
                None
            },
        }
    }
}

/// What a migration has built after some routes: the updated copies of targets, the
/// generated providers, and the warnings, in order.
pub type MigrationProgress = (Seq<ProviderValue>, Seq<ProviderValue>, Seq<Seq<char>>);

/// Migrating legacy route `route` (the `index`-th of `routes`) after `st`: the progress
/// it leads to, or the error it is refused with.
pub open spec fn route_step(
    st: MigrationProgress,
    route: JsonValue,
    index: nat,
    routes: Seq<JsonValue>,
    providers: Seq<Provider>,
    official_provider_id: Seq<char>,
) -> Result<MigrationProgress, Seq<char>> {
    match route_target(route, providers, official_provider_id) {
        None => Err(
            match legacy_target(route, official_provider_id) {
                None => "migration_target_ambiguous:"@ + legacy_route_id(route, index),
                Some(t) => "migration_target_missing:"@ + t,
            },
        ),
        Some(target) => {
            let rid = legacy_route_id(route, index);
            let canonical = route_canonical_models(route);
            let caps = get(route, "capabilities"@);
            let overrides: Result<(Seq<ProviderValue>, Seq<ProviderValue>), Seq<char>> = if requires_clone(route, routes, target.id@) {
                let id = clone_id_for(
                    provider_ids(providers) + st.1.map_values(|v: ProviderValue| v.0),
                    clone_base(target.id@, rid),
                );
                match generated_outcome(target, route, canonical) {
                    Ok(s) => Ok((
                        st.0,
                        st.1.push((
                            id,
                            clone_name(target.name@, rid),
                            opt_view(target.category),
                            s,
                            generated_meta(crate::compiler::opt_meta_view(target.meta), route),
                            opt_view(target.config_base_url),
                        )),
                    )),
                    Err(e) => Err(catalog_error(id, e)),
                }
            } else if route_format(route) is None && caps is None {
                Ok((st.0, st.1))
            } else {
                let pos = value_position(st.0, target.id@);
                let base = match pos {
                    Some(p) => st.0[p],
                    None => crate::compiler::provider_view(target),
                };
                match override_outcome(base.3, canonical, route_format(route), caps) {
                    Ok(s) => Ok((
                        match pos {
                            Some(p) => st.0.update(p, with_settings_view(base, s)),
                            None => st.0.push(with_settings_view(base, s)),
                        },
                        st.1,
                    )),
                    Err(e) => Err(catalog_error(target.id@, e)),
                }
            };
            match overrides {
                Err(e) => Err(e),
                Ok(ug) => if prefix_selection_fails(route, target) {
                    Err(prefix_error(route, index, target))
                } else if route_auth_policy(route) is None {
                    Err("migration_auth_source_unknown:"@ + legacy_auth_source_name(opt_get(get(route, "upstream"@), "auth"@)))
                } else {
                    Ok((ug.0, ug.1, st.2 + route_warnings(route, index, routes, target)))
                },
            }
        },
    }
}

/// Migrating the first `n` legacy routes in order, stopping at the first refused.
pub open spec fn migration_steps(
    routes: Seq<JsonValue>,
    n: nat,
    providers: Seq<Provider>,
    official_provider_id: Seq<char>,
) -> Result<MigrationProgress, Seq<char>>
    decreases n,
{
    if n == 0 {
        Ok((Seq::empty(), Seq::empty(), Seq::empty()))
    } else {
        match migration_steps(routes, (n - 1) as nat, providers, official_provider_id) {
            Ok(st) => route_step(st, routes[n - 1], (n - 1) as nat, routes, providers, official_provider_id),
            Err(e) => Err(e),
        }
    }
}

proof fn lemma_migration_steps_err(routes: Seq<JsonValue>, n: nat, m: nat, providers: Seq<Provider>, official_provider_id: Seq<char>)
    requires
        n <= m,
        migration_steps(routes, n, providers, official_provider_id) is Err,
    ensures
        migration_steps(routes, m, providers, official_provider_id) == migration_steps(routes, n, providers, official_provider_id),
    decreases m,
{
    if n < m {
        lemma_migration_steps_err(routes, n, (m - 1) as nat, providers, official_provider_id);
    }
}

proof fn lemma_value_position(ps: Seq<Provider>, id: Seq<char>)
    ensures
        value_position(provider_values(ps), id) == provider_position(ps, id),
    decreases ps.len(),
{
    if ps.len() > 0 {
        let d = ps.drop_last();
        assert(provider_values(ps).drop_last() =~= provider_values(d));
        lemma_value_position(d, id);
        lemma_provider_position(d, id);
        match provider_position(d, id) {
            Some(i) => {
                assert(ps[i] == d[i]);
                assert forall|j: int| 0 <= j < i implies (#[trigger] ps[j]).id@ != id by {
                    assert(ps[j] == d[j]);
                }
                lemma_position_at(ps, id, i);
            },
            None => {
                assert forall|j: int| 0 <= j < ps.len() - 1 implies (#[trigger] ps[j]).id@ != id by {
                    assert(ps[j] == d[j]);
                }
                if ps.last().id@ == id {
                    lemma_position_at(ps, id, ps.len() - 1);
                } else {
                    lemma_provider_position(ps, id);
                    if provider_position(ps, id) is Some {
                        let i = provider_position(ps, id)->0;
                        assert(ps[i].id@ == id);
                    }
                }
            },
        }
    } else {
        lemma_provider_position(ps, id);
    }
}

proof fn lemma_route_step(
    r: Result<CodexRoutingRouteV2, String>,
    old_u: Seq<Provider>,
    new_u: Seq<Provider>,
    old_g: Seq<Provider>,
    new_g: Seq<Provider>,
    old_w: Seq<String>,
    new_w: Seq<String>,
    routes: Seq<JsonValue>,
    i: nat,
    providers: Seq<Provider>,
    official_provider_id: Seq<char>,
)
    requires
        i < routes.len(),
        (r is Ok) == route_migrates(routes[i as int], routes, providers, official_provider_id, old_u),
        legacy_target(routes[i as int], official_provider_id) is None ==> r is Err && r->Err_0@
            == "migration_target_ambiguous:"@ + legacy_route_id(routes[i as int], i),
        match legacy_target(routes[i as int], official_provider_id) {
            Some(t) => provider_position(providers, t) is None ==> r is Err && r->Err_0@ == "migration_target_missing:"@ + t,
            None => true,
        },
        match route_target(routes[i as int], providers, official_provider_id) {
            Some(target) => route_errors(r, routes[i as int], i, routes, target, old_u, provider_ids(providers) + provider_ids(old_g)),
            None => true,
        },
        generated_after_route(old_g, new_g, routes[i as int], i, routes, providers, official_provider_id),
        updated_after_route(old_u, new_u, routes[i as int], routes, providers, official_provider_id),
        r is Ok ==> views(new_w) == views(old_w) + route_warnings(
            routes[i as int],
            i,
            routes,
            route_target(routes[i as int], providers, official_provider_id)->0,
        ),
    ensures
        match route_step(
            (provider_values(old_u), provider_values(old_g), views(old_w)),
            routes[i as int],
            i,
            routes,
            providers,
            official_provider_id,
        ) {
            Ok(st) => r is Ok && (provider_values(new_u), provider_values(new_g), views(new_w)) == st,
            Err(e) => r is Err && r->Err_0@ == e,
        },
{
    let route = routes[i as int];
    let st = (provider_values(old_u), provider_values(old_g), views(old_w));
    match route_target(route, providers, official_provider_id) {
        None => {},
        Some(target) => {
            assert(st.1.map_values(|v: ProviderValue| v.0) =~= provider_ids(old_g));
            lemma_value_position(old_u, target.id@);
            lemma_provider_position(old_u, target.id@);
            if requires_clone(route, routes, target.id@) {
                if generated_outcome(target, route, route_canonical_models(route)) is Ok {
                    assert(provider_values(new_g) =~= provider_values(old_g).push(crate::compiler::provider_view(new_g.last())));
                }
            } else if route_format(route) is None && get(route, "capabilities"@) is None {
            } else {
                let k = update_slot(old_u, target);
                match override_outcome(
                    update_base(old_u, target).settings_config@,
                    route_canonical_models(route),
                    route_format(route),
                    get(route, "capabilities"@),
                ) {
                    Ok(s) => {
                        let nv = with_settings_view(crate::compiler::provider_view(update_base(old_u, target)), s);
                        if provider_position(old_u, target.id@) is Some {
                            assert(provider_values(new_u) =~= provider_values(old_u).update(k, nv));
                        } else {
                            assert(provider_values(new_u) =~= provider_values(old_u).push(nv));
                        }
                    },
                    Err(_) => {},
                }
            }
        },
    }
}

/// Builds the migration of a legacy router: every legacy route becomes a schema-v2
/// route (see `migrated_route_of`); a route whose overrides need it gets a provider of
/// its own, generated from its target under an id no provider has; other overrides
/// move onto the target's catalog models. `official_provider_id` is the provider that
/// routes authenticating with Codex accounts target.
///
/// The routes are migrated in order (see `migration_steps`): the migration succeeds
/// exactly when every route does, and otherwise fails with the first route's error;
/// its updated providers, generated providers and warnings are those the steps build.
#[verifier::rlimit(60)]
#[verifier::spinoff_prover]
pub fn build_migration(router: &Provider, providers: &[Provider], official_provider_id: &str) -> (r: Result<BuiltMigration, String>)
    requires
        forall|i: int| 0 <= i < providers@.len() ==> crate::json::is_object_or_null((#[trigger] providers@[i]).settings_config@),
    ensures
        legacy_routing(*router) is None ==> r is Err && r->Err_0@ == "legacy codexRouting must be an object"@,
        legacy_routing(*router) is Some && legacy_routes(*router) is None ==> r is Err && r->Err_0@ == "legacy routes are missing"@,
        r is Ok ==> legacy_routes(*router) is Some && ({
            let routes = legacy_routes(*router)->0;
            let legacy = legacy_routing(*router)->0;
            let b = r->Ok_0;
            &&& b.plan.routes@.len() == routes.len()
            &&& forall|i: int| 0 <= i < routes.len() ==> route_migrated_at(
                #[trigger] b.plan.routes@[i],
                routes,
                i,
                providers@,
                official_provider_id@,
                b.summaries@,
            )
            &&& b.plan.schema_version == 2
            &&& b.plan.enabled == match opt_bool(get(legacy, "enabled"@)) {
                Some(e) => e,
                None => false,
            }
            &&& opt_view(b.plan.default_route_id) == opt_str(get(legacy, "defaultRouteId"@))
            &&& views(b.plan.spawn_agent_models@) == match opt_array(opt_get(get(router.settings_config@, "modelCatalog"@), "spawnAgentModels"@)) {
                Some(a) => strings_in(a),
                None => Seq::empty(),
            }
            &&& b.migrated_settings@ == crate::json::remove_member(router.settings_config@, "modelCatalog"@)
            &&& views(b.diff.changed_route_ids@) == b.plan.routes@.map_values(|v: CodexRoutingRouteV2| v.id@)
            &&& views(b.diff.created_provider_ids@) == provider_ids(b.generated_providers@)
            &&& summary_ids(b.summaries@) == provider_ids(b.generated_providers@)
            &&& views(b.diff.removed_route_fields@) == if routes.len() > 0 {
                removed_fields()
            } else {
                Seq::empty()
            }
            &&& provider_ids(b.generated_providers@).no_duplicates()
            &&& forall|g: int| 0 <= g < b.generated_providers@.len() ==> !provider_ids(providers@).contains(
                #[trigger] provider_ids(b.generated_providers@)[g],
            )
        }),
        match legacy_routes(*router) {
            Some(routes) => match migration_steps(routes, routes.len(), providers@, official_provider_id@) {
                Ok(st) => {
                    &&& r is Ok
                    &&& provider_values(r->Ok_0.updated_providers@) == st.0
                    &&& provider_values(r->Ok_0.generated_providers@) == st.1
                    &&& views(r->Ok_0.warnings@) == st.2
                },
                Err(e) => r is Err && r->Err_0@ == e,
            },
            None => true,
        },
{
    let legacy = match json_get(&router.settings_config, "codexRouting") {
        Some(l) => match l {
            Json::Object(_) => l,
            _ => {
                return Err(owned("legacy codexRouting must be an object"));
            },
        },
        None => {
            return Err(owned("legacy codexRouting must be an object"));
        },
    };
    let routes = match json_get(legacy, "routes") {
        Some(v) => match json_as_array(v) {
            Some(a) => a,
            None => {
                return Err(owned("legacy routes are missing"));
            },
        },
        None => {
            return Err(owned("legacy routes are missing"));
        },
    };
    let ghost rv = jviews(routes@);
    proof {
        lemma_jviews_index(routes@);
    }
    let existing_ids = ids_of(providers);
    let mut generated: Vec<Provider> = Vec::new();
    let mut updated: Vec<Provider> = Vec::new();
    let mut summaries: Vec<GeneratedProviderSummary> = Vec::new();
    let mut v2_routes: Vec<CodexRoutingRouteV2> = Vec::new();
    let mut warnings: Vec<String> = Vec::new();
    proof {
        assert(provider_values(updated@) =~= Seq::<ProviderValue>::empty());
        assert(provider_values(generated@) =~= Seq::<ProviderValue>::empty());
        assert(views(warnings@) =~= Seq::<Seq<char>>::empty());
    }
    let mut i: usize = 0;
    while i < routes.len()
        invariant
            i <= routes@.len(),
            rv == jviews(routes@),
            legacy_routing(*router) is Some,
            legacy_routes(*router) is Some,
            rv == legacy_routes(*router)->0,
            rv.len() == routes@.len(),
            forall|k: int| 0 <= k < routes@.len() ==> #[trigger] rv[k] == jview(routes@[k]),
            forall|q: int| 0 <= q < providers@.len() ==> crate::json::is_object_or_null((#[trigger] providers@[q]).settings_config@),
            views(existing_ids@) == provider_ids(providers@),
            v2_routes@.len() == i,
            routes_migrated(v2_routes@, rv, providers@, official_provider_id@, summaries@),
            summary_ids(summaries@) == provider_ids(generated@),
            provider_ids(generated@).no_duplicates(),
            forall|g: int| 0 <= g < generated@.len() ==> !provider_ids(providers@).contains(#[trigger] provider_ids(generated@)[g]),
            migration_steps(rv, i as nat, providers@, official_provider_id@)
                == Ok::<MigrationProgress, Seq<char>>((provider_values(updated@), provider_values(generated@), views(warnings@))),
        decreases routes.len() - i,
    {
        let ghost summaries_before = summaries@;
        let ghost old_u = updated@;
        let ghost old_g = generated@;
        let ghost old_w = warnings@;
        let res = migrate_route(
            routes,
            i,
            providers,
            official_provider_id,
            &existing_ids,
            &mut generated,
            &mut summaries,
            &mut updated,
            &mut warnings,
        );
        proof {
            lemma_route_step(res, old_u, updated@, old_g, generated@, old_w, warnings@, rv, i as nat, providers@, official_provider_id@);
            assert(migration_steps(rv, (i + 1) as nat, providers@, official_provider_id@) == route_step(
                (provider_values(old_u), provider_values(old_g), views(old_w)),
                rv[i as int],
                i as nat,
                rv,
                providers@,
                official_provider_id@,
            ));
        }
        let v2 = match res {
            Ok(v) => v,
            Err(e) => {
                proof {
                    lemma_migration_steps_err(rv, (i + 1) as nat, rv.len(), providers@, official_provider_id@);
                }
                return Err(e);
            },
        };
        proof {
            lemma_routes_migrated_push(v2_routes@, v2, rv, providers@, official_provider_id@, summaries_before, summaries@);
        }
        v2_routes.push(v2);
        i = i + 1;
    }
    proof {
        assert forall|k: int| 0 <= k < rv.len() implies route_migrated_at(
            #[trigger] v2_routes@[k],
            rv,
            k,
            providers@,
            official_provider_id@,
            summaries@,
        ) by {
            assert(routes_migrated(v2_routes@, rv, providers@, official_provider_id@, summaries@));
        }
    }
    let spawn = string_items(match get_opt(json_get(&router.settings_config, "modelCatalog"), "spawnAgentModels") {
        Some(v) => json_as_array(v),
        None => None,
    });
    let enabled = match json_get_bool(legacy, "enabled") {
        Some(e) => e,
        None => false,
    };
    let default_route_id = match json_get_str(legacy, "defaultRouteId") {
        Some(d) => Some(d.clone()),
        None => None,
    };
    let mut changed: Vec<String> = Vec::new();
    let mut k: usize = 0;
    while k < v2_routes.len()
        invariant
            k <= v2_routes@.len(),
            views(changed@) == v2_routes@.map_values(|v: CodexRoutingRouteV2| v.id@).take(k as int),
        decreases v2_routes.len() - k,
    {
        let ghost before = changed@;
        let c = v2_routes[k].id.clone();
        assert(c@ == v2_routes@[k as int].id@);
        changed.push(c);
        assert(views(changed@) =~= views(before).push(c@));
        assert(views(changed@) =~= v2_routes@.map_values(|v: CodexRoutingRouteV2| v.id@).take(k + 1));
        k = k + 1;
    }
    assert(v2_routes@.map_values(|v: CodexRoutingRouteV2| v.id@).take(k as int) =~= v2_routes@.map_values(|v: CodexRoutingRouteV2| v.id@));
    let mut removed: Vec<String> = Vec::new();
    if routes.len() > 0 {
        removed.push(owned("capabilities"));
        removed.push(owned("upstream.apiFormat"));
        removed.push(owned("upstream.apiKey"));
        removed.push(owned("upstream.baseUrl"));
        removed.push(owned("upstream.modelMap"));
        assert(views(removed@) =~= removed_fields());
    } else {
        assert(views(removed@) =~= Seq::<Seq<char>>::empty());
    }
    let created = ids_of(generated.as_slice());
    let migrated_settings = crate::json::json_remove_member(&router.settings_config, "modelCatalog");
    let plan = CodexRoutingConfigV2 {
        schema_version: 2,
        enabled,
        default_route_id,
        routes: v2_routes,
        spawn_agent_models: spawn,
    };
    Ok(BuiltMigration {
        plan,
        migrated_settings,
        generated_providers: generated,
        updated_providers: updated,
        summaries,
        diff: MigrationDiff { removed_route_fields: removed, created_provider_ids: created, changed_route_ids: changed },
        warnings,
    })
}

// ---------------------------------------------------------------------------
// Previewing a migration
// ---------------------------------------------------------------------------

/// The checks before a migration is previewed: the router must still be at the
/// expected revision, have `codexRouting`, and not be on schema v2 already
/// (`routing_is_v2`, as the caller's schema parser says).
pub fn migration_preview_check(
    actual_revision: &str,
    expected_revision: &str,
    router_settings: &Json,
    routing_is_v2: bool,
) -> (r: Result<(), String>)
    ensures
        actual_revision@ != expected_revision@ ==> r is Err && r->Err_0@ == "migration_revision_conflict"@,
        actual_revision@ == expected_revision@ && get(router_settings@, "codexRouting"@) is None ==> r is Err
            && r->Err_0@ == "codexRouting is missing"@,
        actual_revision@ == expected_revision@ && get(router_settings@, "codexRouting"@) is Some && routing_is_v2
            ==> r is Err && r->Err_0@ == "migration_already_v2"@,
        actual_revision@ == expected_revision@ && get(router_settings@, "codexRouting"@) is Some && !routing_is_v2
            ==> r is Ok,
{
    if !str_eq(actual_revision, expected_revision) {
        return Err(owned("migration_revision_conflict"));
    }
    if json_get(router_settings, "codexRouting").is_none() {
        return Err(owned("codexRouting is missing"));
    }
    if routing_is_v2 {
        return Err(owned("migration_already_v2"));
    }
    Ok(())
}

/// The preview of a built migration under its token.
pub fn migration_preview(
    provider_id: &str,
    expected_revision: &str,
    plan_token: String,
    built: BuiltMigration,
) -> (r: CodexMultiRouterMigrationPreview)
    ensures
        r.schema_version == 2,
        r.provider_id@ == provider_id@,
        r.expected_revision@ == expected_revision@,
        r.plan_token@ == plan_token@,
        r.diff == built.diff,
        r.warnings == built.warnings,
        r.generated_providers == built.summaries,
{
    CodexMultiRouterMigrationPreview {
        schema_version: 2,
        provider_id: owned(provider_id),
        expected_revision: owned(expected_revision),
        plan_token,
        diff: built.diff,
        warnings: built.warnings,
        generated_providers: built.summaries,
    }
}

/// The outcome of a migration just written: the router's new revision and the
/// providers created.
pub fn migration_applied(provider_id: &str, result_revision: String, created_provider_ids: &Vec<String>) -> (r: CodexMultiRouterMigrationApplyOutcome)
    ensures
        r.provider_id@ == provider_id@,
        r.revision@ == result_revision@,
        views(r.created_provider_ids@) == views(created_provider_ids@),
        !r.already_applied,
{
    CodexMultiRouterMigrationApplyOutcome {
        provider_id: owned(provider_id),
        revision: result_revision,
        created_provider_ids: crate::text::clone_strings(created_provider_ids),
        already_applied: false,
    }
}

} // verus!
