//! Decisions around writing Codex history: whether a write may run while Codex is
//! open, which provider buckets a sync gathers, and what a sync, repair or restore
//! reports. Scanning directories, rewriting files and databases is the caller's.
use vstd::prelude::*;
use crate::json::{as_str, get, json_as_str, json_get, opt_ref_view, Json, JsonValue};
use crate::text::{
    clone_strings, join, opt_view, owned, sorted_set, sorted_set_of, str_eq, trim_str, views,
};

verus! {

// ---------------------------------------------------------------------------
// Outcomes and options
// ---------------------------------------------------------------------------

/// What moving history between provider buckets did.
#[derive(Debug, Clone)]
pub struct CodexHistoryProviderBucketMigrationOutcome {
    pub source_provider_ids: Vec<String>,
    pub migrated_jsonl_files: usize,
    pub migrated_state_rows: usize,
    pub skipped_reason: Option<String>,
    pub backup_dir: Option<String>,
}

/// What moving provider templates between buckets did.
#[derive(Debug, Clone)]
pub struct CodexProviderTemplateBucketMigrationOutcome {
    pub migrated_provider_ids: Vec<String>,
    pub skipped_reason: Option<String>,
}

/// What restoring official history from the unify backups did.
#[derive(Debug, Clone)]
pub struct CodexOfficialHistoryRestoreOutcome {
    pub restored_jsonl_files: usize,
    pub restored_state_rows: usize,
    pub skipped_reason: Option<String>,
}

/// How a history visibility repair is asked for.
#[derive(Debug, Clone)]
pub struct CodexHistoryVisibilityRepairOptions {
    pub dry_run: bool,
    pub codex_home: Option<String>,
    pub state_db_path: Option<String>,
    pub project_path: Option<String>,
    pub session_ids: Option<Vec<String>>,
    pub target_provider: Option<String>,
    pub count: Option<usize>,
    pub window_limit: Option<usize>,
    pub balance_recent_window: Option<bool>,
    pub max_per_project: Option<usize>,
    pub max_total: Option<usize>,
    pub source_filter: Option<String>,
    pub include_archived: Option<bool>,
    pub include_subagents: Option<bool>,
    pub skip_provider_bucket_sync: Option<bool>,
}

impl CodexHistoryVisibilityRepairOptions {
    /// The conservative defaults: a dry run into the router's bucket, focusing 30
    /// threads in a balanced window of at most 300 (10 per project) out of 80 recent.
    pub fn new(router_provider_id: &str) -> (r: Self)
        ensures
            r.dry_run,
            r.codex_home is None && r.state_db_path is None && r.project_path is None && r.session_ids is None,
            opt_view(r.target_provider) == Some(router_provider_id@),
            r.count == Some(30usize) && r.window_limit == Some(80usize),
            r.balance_recent_window == Some(true),
            r.max_per_project == Some(10usize) && r.max_total == Some(300usize),
            r.source_filter is None,
            r.include_archived == Some(false) && r.include_subagents == Some(false),
            r.skip_provider_bucket_sync == Some(false),
    {
        CodexHistoryVisibilityRepairOptions {
            dry_run: true,
            codex_home: None,
            state_db_path: None,
            project_path: None,
            session_ids: None,
            target_provider: Some(owned(router_provider_id)),
            count: Some(30),
            window_limit: Some(80),
            balance_recent_window: Some(true),
            max_per_project: Some(10),
            max_total: Some(300),
            source_filter: None,
            include_archived: Some(false),
            include_subagents: Some(false),
            skip_provider_bucket_sync: Some(false),
        }
    }
}

/// How the standalone history repair is asked for.
#[derive(Debug, Clone)]
pub struct CodexHistoryStandaloneRepairOptions {
    pub dry_run: bool,
    pub codex_home: Option<String>,
    pub state_db_path: Option<String>,
    pub project_path: Option<String>,
    pub target_provider: Option<String>,
    pub source_provider_ids: Option<Vec<String>>,
    pub count: Option<usize>,
    pub window_limit: Option<usize>,
    pub balance_recent_window: Option<bool>,
    pub max_per_project: Option<usize>,
    pub max_total: Option<usize>,
    pub source_filter: Option<String>,
    pub include_archived: Option<bool>,
    pub include_subagents: Option<bool>,
    pub skip_provider_bucket_sync: Option<bool>,
    pub force_while_codex_running: Option<bool>,
}

impl CodexHistoryStandaloneRepairOptions {
    /// The conservative defaults of the standalone tool: a dry run with the target
    /// taken from Codex's live configuration, never forced while Codex runs.
    pub fn new() -> (r: Self)
        ensures
            r.dry_run,
            r.codex_home is None && r.state_db_path is None && r.project_path is None,
            r.target_provider is None && r.source_provider_ids is None,
            r.count == Some(30usize) && r.window_limit == Some(80usize),
            r.balance_recent_window == Some(true),
            r.max_per_project == Some(10usize) && r.max_total == Some(300usize),
            r.source_filter is None,
            r.include_archived == Some(false) && r.include_subagents == Some(false),
            r.skip_provider_bucket_sync == Some(false),
            r.force_while_codex_running == Some(false),
    {
        CodexHistoryStandaloneRepairOptions {
            dry_run: true,
            codex_home: None,
            state_db_path: None,
            project_path: None,
            target_provider: None,
            source_provider_ids: None,
            count: Some(30),
            window_limit: Some(80),
            balance_recent_window: Some(true),
            max_per_project: Some(10),
            max_total: Some(300),
            source_filter: None,
            include_archived: Some(false),
            include_subagents: Some(false),
            skip_provider_bucket_sync: Some(false),
            force_while_codex_running: Some(false),
        }
    }
}

// ---------------------------------------------------------------------------
// Writing while Codex runs
// ---------------------------------------------------------------------------

fn join_running(running: &Vec<String>) -> (r: String)
    ensures
        r@ == join(views(running@), "; "@),
{
    crate::text::join_strings(running, "; ")
}

/// Switching back to the official history refuses to write while Codex Desktop or its
/// app server runs (`running` describes the processes found).
pub fn ensure_codex_history_write_is_offline(running: &Vec<String>) -> (r: Result<(), String>)
    ensures
        running@.len() == 0 ==> r is Ok,
        running@.len() > 0 ==> r is Err && r->Err_0@
            == "Codex/ChatGPT App 或 app-server 仍在运行，请完全退出后再一键切回官方。检测到: "@ + join(
            views(running@),
            "; "@,
        ),
{
    if running.len() == 0 {
        return Ok(());
    }
    let listed = join_running(running);
    Err(crate::text::concat("Codex/ChatGPT App 或 app-server 仍在运行，请完全退出后再一键切回官方。检测到: ", listed.as_str()))
}

/// The standalone repair writes only in a dry run, when forced, or when no Codex
/// process runs.
pub fn standalone_write_check(dry_run: bool, force_while_codex_running: Option<bool>, running: &Vec<String>) -> (r: Result<(), String>)
    ensures
        (dry_run || force_while_codex_running == Some(true) || running@.len() == 0) ==> r is Ok,
        !(dry_run || force_while_codex_running == Some(true) || running@.len() == 0) ==> r is Err && r->Err_0@
            == "Codex Desktop/app-server 仍在运行。请先完全退出 Codex 后再写入，或勾选强制写入。检测到: "@ + join(
            views(running@),
            "; "@,
        ),
{
    let forced = match force_while_codex_running {
        Some(f) => f,
        None => false,
    };
    if dry_run || forced || running.len() == 0 {
        return Ok(());
    }
    let listed = join_running(running);
    Err(crate::text::concat("Codex Desktop/app-server 仍在运行。请先完全退出 Codex 后再写入，或勾选强制写入。检测到: ", listed.as_str()))
}

/// The bucket a standalone repair writes to: the requested provider when not blank,
/// else the live configuration's provider, else the router's bucket.
pub open spec fn standalone_target(requested: Option<Seq<char>>, live: Option<Seq<char>>, router_provider_id: Seq<char>) -> Seq<char> {
    match crate::compiler::nonblank_trimmed(requested) {
        Some(t) => t,
        None => match live {
            Some(l) => l,
            None => router_provider_id,
        },
    }
}

pub fn standalone_target_provider(requested: &Option<String>, live: &Option<String>, router_provider_id: &str) -> (r: String)
    ensures
        r@ == standalone_target(opt_view(*requested), opt_view(*live), router_provider_id@),
{
    match requested {
        Some(t) => {
            let tt = trim_str(t.as_str());
            if tt.as_str().unicode_len() > 0 {
                return tt;
            }
        },
        None => {},
    }
    match live {
        Some(l) => l.clone(),
        None => owned(router_provider_id),
    }
}

// ---------------------------------------------------------------------------
// Provider bucket syncs
// ---------------------------------------------------------------------------

/// The buckets whose history moves to the router's: the collected provider ids, the
/// official `openai` bucket and the app's own legacy buckets, without the router's
/// bucket itself; each once, in order.
pub open spec fn multirouter_sources(collected: Seq<Seq<char>>, own_buckets: Seq<Seq<char>>, router_provider_id: Seq<char>) -> Seq<Seq<char>> {
    sorted_set(collected + seq!["openai"@] + own_buckets).filter(|id: Seq<char>| id != router_provider_id)
}

/// The buckets a sync to the router's bucket gathers (see `multirouter_sources`), and
/// the outcome when there are none to gather.
pub fn sync_codex_history_provider_bucket_to_multirouter(
    collected: &Vec<String>,
    own_buckets: &Vec<String>,
    router_provider_id: &str,
) -> (r: (Vec<String>, Option<CodexHistoryProviderBucketMigrationOutcome>))
    ensures
        views(r.0@) == multirouter_sources(views(collected@), views(own_buckets@), router_provider_id@),
        r.0@.len() == 0 ==> r.1 is Some && opt_view(r.1->0.skipped_reason) == Some("no_source_provider_ids"@)
            && r.1->0.source_provider_ids@.len() == 0 && r.1->0.migrated_jsonl_files == 0
            && r.1->0.migrated_state_rows == 0 && r.1->0.backup_dir is None,
        r.0@.len() > 0 ==> r.1 is None,
{
    let mut all = clone_strings(collected);
    let ghost c0 = views(all@);
    all.push(owned("openai"));
    assert(views(all@) =~= c0 + seq!["openai"@]);
    let mut i: usize = 0;
    while i < own_buckets.len()
        invariant
            i <= own_buckets@.len(),
            views(all@) == views(collected@) + seq!["openai"@] + views(own_buckets@).take(i as int),
        decreases own_buckets.len() - i,
    {
        let ghost before = views(all@);
        let c = own_buckets[i].clone();
        assert(c@ == own_buckets@[i as int]@);
        all.push(c);
        assert(views(all@) =~= before.push(c@));
        assert(views(all@) =~= views(collected@) + seq!["openai"@] + views(own_buckets@).take(i + 1));
        i = i + 1;
    }
    assert(views(own_buckets@).take(i as int) =~= views(own_buckets@));
    let sorted = sorted_set_of(&all);
    let ghost ss = views(sorted@);
    let mut kept: Vec<String> = Vec::new();
    let mut j: usize = 0;
    while j < sorted.len()
        invariant
            j <= sorted@.len(),
            ss == views(sorted@),
            views(kept@) == ss.take(j as int).filter(|id: Seq<char>| id != router_provider_id@),
        decreases sorted.len() - j,
    {
        proof {
            assert(ss.take(j + 1).drop_last() =~= ss.take(j as int));
            assert(ss.take(j + 1).last() == sorted@[j as int]@);
            ss.take(j as int).lemma_filter_push(sorted@[j as int]@, |id: Seq<char>| id != router_provider_id@);
            assert(ss.take(j + 1) =~= ss.take(j as int).push(sorted@[j as int]@));
        }
        if !str_eq(sorted[j].as_str(), router_provider_id) {
            let ghost before = views(kept@);
            let c = sorted[j].clone();
            assert(c@ == sorted@[j as int]@);
            kept.push(c);
            assert(views(kept@) =~= before.push(c@));
        }
        j = j + 1;
    }
    assert(ss.take(j as int) =~= ss);
    if kept.len() == 0 {
        (
            kept,
            Some(
                CodexHistoryProviderBucketMigrationOutcome {
                    source_provider_ids: Vec::new(),
                    migrated_jsonl_files: 0,
                    migrated_state_rows: 0,
                    skipped_reason: Some(owned("no_source_provider_ids")),
                    backup_dir: None,
                },
            ),
        )
    } else {
        (kept, None)
    }
}

/// What a sync to the router's bucket reports once the files and databases moved.
pub fn multirouter_sync_outcome(
    sources: Vec<String>,
    migrated_jsonl_files: usize,
    migrated_state_rows: usize,
) -> (r: CodexHistoryProviderBucketMigrationOutcome)
    ensures
        r.source_provider_ids == sources,
        r.migrated_jsonl_files == migrated_jsonl_files,
        r.migrated_state_rows == migrated_state_rows,
        r.skipped_reason is None,
        r.backup_dir is None,
{
    CodexHistoryProviderBucketMigrationOutcome {
        source_provider_ids: sources,
        migrated_jsonl_files,
        migrated_state_rows,
        skipped_reason: None,
        backup_dir: None,
    }
}

/// What merging every bucket into the official one reports: the buckets found in the
/// rollouts and the databases (each once, in order); when nothing moved it says so,
/// and when something did it names the backup.
pub fn sync_all_codex_history_provider_buckets_to_openai(
    jsonl_source_ids: &Vec<String>,
    state_source_ids: &Vec<String>,
    migrated_jsonl_files: usize,
    migrated_state_rows: usize,
    backup_root: &str,
) -> (r: CodexHistoryProviderBucketMigrationOutcome)
    ensures
        views(r.source_provider_ids@) == sorted_set(views(jsonl_source_ids@) + views(state_source_ids@)),
        r.migrated_jsonl_files == migrated_jsonl_files,
        r.migrated_state_rows == migrated_state_rows,
        (migrated_jsonl_files > 0 || migrated_state_rows > 0) ==> r.skipped_reason is None && opt_view(r.backup_dir)
            == Some(backup_root@),
        !(migrated_jsonl_files > 0 || migrated_state_rows > 0) ==> opt_view(r.skipped_reason) == Some(
            "already_openai_or_no_history"@,
        ) && r.backup_dir is None,
{
    let mut all = clone_strings(jsonl_source_ids);
    let mut i: usize = 0;
    while i < state_source_ids.len()
        invariant
            i <= state_source_ids@.len(),
            views(all@) == views(jsonl_source_ids@) + views(state_source_ids@).take(i as int),
        decreases state_source_ids.len() - i,
    {
        let ghost before = views(all@);
        let c = state_source_ids[i].clone();
        assert(c@ == state_source_ids@[i as int]@);
        all.push(c);
        assert(views(all@) =~= before.push(c@));
        assert(views(all@) =~= views(jsonl_source_ids@) + views(state_source_ids@).take(i + 1));
        i = i + 1;
    }
    assert(views(state_source_ids@).take(i as int) =~= views(state_source_ids@));
    let sources = sorted_set_of(&all);
    let changed = migrated_jsonl_files > 0 || migrated_state_rows > 0;
    CodexHistoryProviderBucketMigrationOutcome {
        source_provider_ids: sources,
        migrated_jsonl_files,
        migrated_state_rows,
        skipped_reason: if changed {
            None
        } else {
            Some(owned("already_openai_or_no_history"))
        },
        backup_dir: if changed {
            Some(owned(backup_root))
        } else {
            None
        },
    }
}

// ---------------------------------------------------------------------------
// Unify backups and restoring official history
// ---------------------------------------------------------------------------

/// A backup generation belongs to a Codex directory unless its metadata names another
/// one (`None`: the metadata could not be read or parsed, which is accepted).
pub open spec fn generation_matches(meta: Option<JsonValue>, codex_dir_key: Seq<char>) -> bool {
    match meta {
        Some(m) => match get(m, "codexConfigDir"@) {
            Some(d) => match as_str(d) {
                Some(dir) => dir == codex_dir_key,
                None => true,
            },
            None => true,
        },
        None => true,
    }
}

pub fn backup_generation_matches_dir(meta: Option<&Json>, codex_dir_key: &str) -> (r: bool)
    ensures
        r == generation_matches(opt_ref_view(meta), codex_dir_key@),
{
    match meta {
        Some(m) => match json_get(m, "codexConfigDir") {
            Some(d) => match json_as_str(d) {
                Some(dir) => str_eq(dir.as_str(), codex_dir_key),
                None => true,
            },
            None => true,
        },
        None => true,
    }
}

pub open spec fn opt_json_view(o: Option<Json>) -> Option<JsonValue> {
    match o {
        Some(j) => Some(j@),
        None => None,
    }
}

/// Whether any backup generation (given by its metadata) belongs to the Codex
/// directory.
pub fn has_codex_official_history_unify_backup(generations: &Vec<Option<Json>>, codex_dir_key: &str) -> (r: bool)
    ensures
        r == exists|i: int| 0 <= i < generations@.len() && generation_matches(opt_json_view(#[trigger] generations@[i]), codex_dir_key@),
{
    let mut i: usize = 0;
    while i < generations.len()
        invariant
            i <= generations@.len(),
            forall|k: int| 0 <= k < i ==> !generation_matches(opt_json_view(#[trigger] generations@[k]), codex_dir_key@),
        decreases generations.len() - i,
    {
        let meta: Option<&Json> = match &generations[i] {
            Some(m) => Some(m),
            None => None,
        };
        if backup_generation_matches_dir(meta, codex_dir_key) {
            assert(generation_matches(opt_json_view(generations@[i as int]), codex_dir_key@));
            return true;
        }
        i = i + 1;
    }
    false
}

/// Before restoring official history: refused while the unify setting is on, and
/// pointless without a ledger of official sessions; `None` means restore.
pub fn restore_codex_official_history_from_backups(
    unify_toggle_on: bool,
    ledger_session_ids: usize,
    ledger_thread_ids: usize,
) -> (r: Option<CodexOfficialHistoryRestoreOutcome>)
    ensures
        unify_toggle_on ==> r is Some && opt_view(r->0.skipped_reason) == Some("unify_toggle_on"@),
        !unify_toggle_on && ledger_session_ids == 0 && ledger_thread_ids == 0 ==> r is Some && opt_view(
            r->0.skipped_reason,
        ) == Some("no_backup_ledger"@),
        !unify_toggle_on && (ledger_session_ids > 0 || ledger_thread_ids > 0) ==> r is None,
        r is Some ==> r->0.restored_jsonl_files == 0 && r->0.restored_state_rows == 0,
{
    if unify_toggle_on {
        return Some(
            CodexOfficialHistoryRestoreOutcome {
                restored_jsonl_files: 0,
                restored_state_rows: 0,
                skipped_reason: Some(owned("unify_toggle_on")),
            },
        );
    }
    if ledger_session_ids == 0 && ledger_thread_ids == 0 {
        return Some(
            CodexOfficialHistoryRestoreOutcome {
                restored_jsonl_files: 0,
                restored_state_rows: 0,
                skipped_reason: Some(owned("no_backup_ledger")),
            },
        );
    }
    None
}

/// What a restore reports: the files and rows restored, or that nothing was left to
/// restore.
pub fn official_history_restore_outcome(restored_jsonl_files: usize, restored_state_rows: usize) -> (r: CodexOfficialHistoryRestoreOutcome)
    ensures
        restored_jsonl_files == 0 && restored_state_rows == 0 ==> r.restored_jsonl_files == 0 && r.restored_state_rows
            == 0 && opt_view(r.skipped_reason) == Some("nothing_to_restore"@),
        !(restored_jsonl_files == 0 && restored_state_rows == 0) ==> r.restored_jsonl_files == restored_jsonl_files
            && r.restored_state_rows == restored_state_rows && r.skipped_reason is None,
{
    if restored_jsonl_files == 0 && restored_state_rows == 0 {
        CodexOfficialHistoryRestoreOutcome {
            restored_jsonl_files: 0,
            restored_state_rows: 0,
            skipped_reason: Some(owned("nothing_to_restore")),
        }
    } else {
        CodexOfficialHistoryRestoreOutcome { restored_jsonl_files, restored_state_rows, skipped_reason: None }
    }
}

// ---------------------------------------------------------------------------
// Gates of the one-off bucket migrations
// ---------------------------------------------------------------------------

/// Why moving official history into the unified bucket does not run, checked in this
/// order: the unify switch is off, the user did not ask to move existing history,
/// Codex is running, this Codex directory was already migrated, or the live
/// configuration does not route to the shared bucket yet; `None` when it runs.
pub open spec fn official_unify_skip(
    unify_on: bool,
    migrate_requested: bool,
    codex_running: bool,
    migrated_for_dir: bool,
    live_routes_custom: bool,
) -> Option<Seq<char>> {
    if !unify_on {
        Some("unify_toggle_off"@)
    } else if !migrate_requested {
        Some("stock_migration_not_requested"@)
    } else if codex_running {
        Some("codex_running"@)
    } else if migrated_for_dir {
        Some("already_migrated"@)
    } else if !live_routes_custom {
        Some("live_not_unified"@)
    } else {
        None
    }
}

pub fn official_unify_migration_skip(
    unify_on: bool,
    migrate_requested: bool,
    codex_running: bool,
    migrated_for_dir: bool,
    live_routes_custom: bool,
) -> (r: Option<String>)
    ensures
        opt_view(r) == official_unify_skip(unify_on, migrate_requested, codex_running, migrated_for_dir, live_routes_custom),
{
    if !unify_on {
        Some(owned("unify_toggle_off"))
    } else if !migrate_requested {
        Some(owned("stock_migration_not_requested"))
    } else if codex_running {
        Some(owned("codex_running"))
    } else if migrated_for_dir {
        Some(owned("already_migrated"))
    } else if !live_routes_custom {
        Some(owned("live_not_unified"))
    } else {
        None
    }
}

/// What a bucket migration that did not run reports.
pub fn skipped_bucket_migration(reason: String) -> (r: CodexHistoryProviderBucketMigrationOutcome)
    ensures
        r.skipped_reason == Some(reason),
        r.source_provider_ids@.len() == 0,
        r.migrated_jsonl_files == 0 && r.migrated_state_rows == 0,
        r.backup_dir is None,
{
    CodexHistoryProviderBucketMigrationOutcome {
        source_provider_ids: Vec::new(),
        migrated_jsonl_files: 0,
        migrated_state_rows: 0,
        skipped_reason: Some(reason),
        backup_dir: None,
    }
}

/// The buckets whose history moves into the official one: the collected provider ids
/// and the app's own buckets that held official sessions, each once, sorted, without
/// the official bucket.
pub fn openai_bucket_sources(collected: &Vec<String>, own_buckets: &Vec<String>, official_provider_id: &str) -> (r:
    Vec<String>)
    ensures
        views(r@) == sorted_set(views(collected@) + views(own_buckets@)).filter(
            |id: Seq<char>| id != official_provider_id@,
        ),
{
    let mut all = clone_strings(collected);
    let mut i: usize = 0;
    while i < own_buckets.len()
        invariant
            i <= own_buckets@.len(),
            views(all@) == views(collected@) + views(own_buckets@).take(i as int),
        decreases own_buckets.len() - i,
    {
        let ghost before = views(all@);
        let c = owned(own_buckets[i].as_str());
        all.push(c);
        assert(views(all@) =~= before.push(own_buckets@[i as int]@));
        assert(views(all@) =~= views(collected@) + views(own_buckets@).take(i + 1));
        i = i + 1;
    }
    assert(views(own_buckets@).take(i as int) =~= views(own_buckets@));
    let sorted = sorted_set_of(&all);
    let ghost ss = views(sorted@);
    let mut kept: Vec<String> = Vec::new();
    let mut j: usize = 0;
    while j < sorted.len()
        invariant
            j <= sorted@.len(),
            ss == views(sorted@),
            views(kept@) == ss.take(j as int).filter(|id: Seq<char>| id != official_provider_id@),
        decreases sorted.len() - j,
    {
        proof {
            assert(ss.take(j + 1).drop_last() =~= ss.take(j as int));
            ss.take(j as int).lemma_filter_push(sorted@[j as int]@, |id: Seq<char>| id != official_provider_id@);
            assert(ss.take(j + 1) =~= ss.take(j as int).push(sorted@[j as int]@));
        }
        if !str_eq(sorted[j].as_str(), official_provider_id) {
            let ghost before = views(kept@);
            let c = owned(sorted[j].as_str());
            kept.push(c);
            assert(views(kept@) =~= before.push(sorted@[j as int]@));
        }
        j = j + 1;
    }
    assert(ss.take(j as int) =~= ss);
    kept
}

} // verus!
