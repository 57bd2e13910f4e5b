//! The Codex Desktop model-menu guardian as a state machine.
//!
//! Each cycle the caller observes Codex (is it running, which renderer targets do
//! its debugging ports list, which model catalog is current) and hands the
//! observation to [`guardian_observe`], which updates the guardian state and the
//! status shown to the user and says whether to inject. After an injection the
//! caller reports its outcome to [`guardian_record_injection`]. The guardian never
//! stops a running Codex; it re-injects only when a new renderer target appears or
//! the model catalog changed.
use vstd::prelude::*;
use crate::desktop::CdpTarget;
use crate::text::{
    concat, concat3, contains_str, decimal, decimal_string, decimal_string_u64, opt_view, owned,
    views,
};

verus! {

/// The guardian status reported to the front end.
#[derive(Debug)]
pub struct CodexGuardianStatus {
    pub active: bool,
    pub codex_running: bool,
    pub cdp_available: bool,
    pub injected_target_count: usize,
    pub injected: bool,
    pub last_event: String,
    pub message: String,
}

/// What the guardian remembers between cycles.
#[derive(Debug)]
pub struct GuardianInner {
    pub injected_target_ids: Vec<String>,
    pub injected_catalog_fingerprint: Option<String>,
    pub inject_generation: u64,
}

/// What one cycle observed.
pub enum GuardianObservation {
    /// No Codex Desktop main process is running.
    CodexNotRunning,
    /// Codex runs, but no debugging port lists a Codex renderer page.
    CdpUnavailable,
    /// Renderer pages were found, but the model catalog could not be loaded.
    CatalogLoadFailed { error: String },
    /// Renderer pages (their ids, deduplicated, in order) and the current catalog fingerprint.
    Targets { current_ids: Vec<String>, catalog_fingerprint: String },
}

/// What the caller is to do after an observation.
#[derive(Debug, PartialEq, Eq, Structural)]
pub enum GuardianAction {
    /// Nothing; wait for the next cycle.
    Wait,
    /// Inject the compatibility layer; `generation` numbers this attempt.
    Inject { generation: u64 },
}

/// How an injection attempt ended.
pub enum InjectionOutcome {
    Injected,
    Incomplete { message: String },
    NoTarget,
}

// ---------------------------------------------------------------------------
// Specifications
// ---------------------------------------------------------------------------

/// The ids of `xs` that are (`keep == true`) or are not in `ys`, in order.
pub open spec fn filter_in(xs: Seq<Seq<char>>, ys: Seq<Seq<char>>, keep: bool) -> Seq<Seq<char>>
    decreases xs.len(),
{
    if xs.len() == 0 {
        Seq::empty()
    } else {
        let rest = filter_in(xs.drop_last(), ys, keep);
        if ys.contains(xs.last()) == keep {
            rest.push(xs.last())
        } else {
            rest
        }
    }
}

/// Targets not injected yet.
pub open spec fn new_targets(current: Seq<Seq<char>>, injected: Seq<Seq<char>>) -> Seq<Seq<char>> {
    filter_in(current, injected, false)
}

/// Injection is due when a new target appeared or the catalog changed.
pub open spec fn should_inject(
    new_ids: Seq<Seq<char>>,
    injected_fingerprint: Option<Seq<char>>,
    current_fingerprint: Seq<char>,
) -> bool {
    new_ids.len() > 0 || injected_fingerprint != Some(current_fingerprint)
}

/// The injected targets after a successful injection: those still present, then the new ones.
pub open spec fn injected_after_success(
    injected: Seq<Seq<char>>,
    current: Seq<Seq<char>>,
) -> Seq<Seq<char>> {
    filter_in(injected, current, true) + filter_in(current, injected, false)
}

pub open spec fn forgotten(inner: GuardianInner) -> bool {
    inner.injected_target_ids@.len() == 0 && inner.injected_catalog_fingerprint is None
}

/// The catalog changed since the last injection (or none was made).
pub open spec fn catalog_changed(injected: Option<Seq<char>>, current: Seq<char>) -> bool {
    match injected {
        Some(f) => f != current,
        None => true,
    }
}

pub open spec fn waiting_message(n: nat) -> Seq<char> {
    "已守护 "@ + decimal(n) + " 个 CDP renderer target；模型菜单注入有效。"@
}

pub open spec fn injected_message(n: nat, generation: nat) -> Seq<char> {
    "已将模型菜单兼容层注入 "@ + decimal(n) + " 个 renderer target (gen "@ + decimal(generation)
        + ")。"@
}

// ---------------------------------------------------------------------------
// Construction
// ---------------------------------------------------------------------------

/// The state of a freshly started guardian.
pub fn initial_guardian() -> (r: (GuardianInner, CodexGuardianStatus))
    ensures
        forgotten(r.0),
        r.0.inject_generation == 0,
        r.1.active,
        !r.1.codex_running,
        !r.1.cdp_available,
        !r.1.injected,
        r.1.injected_target_count == 0,
        r.1.last_event@ == "守护已启动"@,
        r.1.message@ == "守护已启动，等待 Codex Desktop..."@,
{
    (
        GuardianInner {
            injected_target_ids: Vec::new(),
            injected_catalog_fingerprint: None,
            inject_generation: 0,
        },
        CodexGuardianStatus {
            active: true,
            codex_running: false,
            cdp_available: false,
            injected_target_count: 0,
            injected: false,
            last_event: owned("守护已启动"),
            message: owned("守护已启动，等待 Codex Desktop..."),
        },
    )
}

/// Marks the guardian as stopped.
pub fn guardian_stopped(status: &mut CodexGuardianStatus)
    ensures
        !final(status).active,
        final(status).last_event@ == "守护已停止"@,
        final(status).message@ == "守护已停止"@,
        final(status).codex_running == old(status).codex_running,
        final(status).cdp_available == old(status).cdp_available,
        final(status).injected == old(status).injected,
        final(status).injected_target_count == old(status).injected_target_count,
{
    status.active = false;
    status.last_event = owned("守护已停止");
    status.message = owned("守护已停止");
}

// ---------------------------------------------------------------------------
// Target bookkeeping
// ---------------------------------------------------------------------------

/// Whether the guardian must (re)inject.
pub fn guardian_should_inject(
    new_target_ids: &Vec<String>,
    injected_catalog_fingerprint: Option<&str>,
    current_catalog_fingerprint: &str,
) -> (r: bool)
    ensures
        r == should_inject(
            views(new_target_ids@),
            match injected_catalog_fingerprint {
                Some(f) => Some(f@),
                None => None,
            },
            current_catalog_fingerprint@,
        ),
{
    if new_target_ids.len() > 0 {
        return true;
    }
    match injected_catalog_fingerprint {
        Some(f) => !crate::text::str_eq(f, current_catalog_fingerprint),
        None => true,
    }
}

/// The ids of `xs` that are (`keep`) or are not in `ys`, in order.
pub fn filter_ids(xs: &Vec<String>, ys: &Vec<String>, keep: bool) -> (r: Vec<String>)
    ensures
        views(r@) == filter_in(views(xs@), views(ys@), keep),
{
    let ghost xv = views(xs@);
    let mut r: Vec<String> = Vec::new();
    let mut i: usize = 0;
    while i < xs.len()
        invariant
            i <= xs.len(),
            xv == views(xs@),
            views(r@) == filter_in(xv.take(i as int), views(ys@), keep),
        decreases xs.len() - i,
    {
        assert(xv.take(i + 1).drop_last() =~= xv.take(i as int));
        if contains_str(ys, xs[i].as_str()) == keep {
            let ghost old = views(r@);
            r.push(xs[i].clone());
            assert(views(r@) =~= old.push(xv[i as int]));
        }
        i = i + 1;
    }
    assert(xv.take(xs.len() as int) =~= xv);
    r
}

/// Adds the ids of `pages` not yet in `current`, in order.
pub fn merge_target_ids(current: &mut Vec<String>, pages: &[CdpTarget])
    ensures
        views(final(current)@) == merge_spec(
            views(old(current)@),
            pages@.map_values(|t: CdpTarget| t.id@),
        ),
{
    let ghost start = views(current@);
    let ghost ids = pages@.map_values(|t: CdpTarget| t.id@);
    let mut i: usize = 0;
    while i < pages.len()
        invariant
            i <= pages.len(),
            ids == pages@.map_values(|t: CdpTarget| t.id@),
            views(current@) == merge_spec(start, ids.take(i as int)),
        decreases pages.len() - i,
    {
        assert(ids.take(i + 1).drop_last() =~= ids.take(i as int));
        if !contains_str(current, pages[i].id.as_str()) {
            let ghost old = views(current@);
            current.push(pages[i].id.clone());
            assert(views(current@) =~= old.push(ids[i as int]));
        }
        i = i + 1;
    }
    assert(ids.take(pages.len() as int) =~= ids);
    proof {
        lemma_merge_extends(start, ids);
    }
}

/// `base` extended by the ids of `added` it does not hold yet (each added once).
pub open spec fn merge_spec(base: Seq<Seq<char>>, added: Seq<Seq<char>>) -> Seq<Seq<char>>
    decreases added.len(),
{
    if added.len() == 0 {
        base
    } else {
        let r = merge_spec(base, added.drop_last());
        if r.contains(added.last()) {
            r
        } else {
            r.push(added.last())
        }
    }
}

proof fn lemma_merge_extends(base: Seq<Seq<char>>, added: Seq<Seq<char>>)
    ensures
        merge_spec(base, added).len() >= base.len(),
        merge_spec(base, added).take(base.len() as int) == base,
    decreases added.len(),
{
    if added.len() > 0 {
        lemma_merge_extends(base, added.drop_last());
        let r = merge_spec(base, added.drop_last());
        assert(r.push(added.last()).take(base.len() as int) =~= r.take(base.len() as int));
    } else {
        assert(base.take(base.len() as int) =~= base);
    }
}

// ---------------------------------------------------------------------------
// The cycle
// ---------------------------------------------------------------------------

/// Updates the guardian for one observation and decides whether to inject.
pub fn guardian_observe(
    inner: &mut GuardianInner,
    status: &mut CodexGuardianStatus,
    observation: GuardianObservation,
) -> (action: GuardianAction)
    requires
        old(inner).inject_generation < u64::MAX,
    ensures
        match observation {
            GuardianObservation::CodexNotRunning => {
                &&& action == GuardianAction::Wait
                &&& forgotten(*final(inner))
                &&& !final(status).codex_running && !final(status).cdp_available
                &&& !final(status).injected && final(status).injected_target_count == 0
                &&& final(status).last_event@ == "Codex 未运行"@
                &&& final(status).message@ == "Codex Desktop 未运行，等待用户启动..."@
            },
            GuardianObservation::CdpUnavailable => {
                &&& action == GuardianAction::Wait
                &&& forgotten(*final(inner))
                &&& final(status).codex_running && !final(status).cdp_available
                &&& !final(status).injected && final(status).injected_target_count == 0
                &&& final(status).last_event@ == "Codex 运行中但无 CDP"@
                &&& final(status).message@
                    == "Codex Desktop 正在运行但未开放 CDP 调试端口；CCSM 不会静默终止 Codex，请退出后从 CCSM 启动或等待下次 CCSM 启动 Codex 时自动注入。"@
            },
            GuardianObservation::CatalogLoadFailed { error } => {
                &&& action == GuardianAction::Wait
                &&& views(final(inner).injected_target_ids@) == views(old(inner).injected_target_ids@)
                &&& final(inner).injected_catalog_fingerprint == old(inner).injected_catalog_fingerprint
                &&& final(status).codex_running && final(status).cdp_available
                &&& final(status).last_event@ == "模型目录加载失败"@
                &&& final(status).message@ == "无法加载 CCSM 模型目录: "@ + error@
            },
            GuardianObservation::Targets { current_ids, catalog_fingerprint } => {
                let injected = views(old(inner).injected_target_ids@);
                let due = should_inject(
                    new_targets(views(current_ids@), injected),
                    opt_view(old(inner).injected_catalog_fingerprint),
                    catalog_fingerprint@,
                );
                &&& final(status).codex_running && final(status).cdp_available
                &&& due ==> {
                    &&& action == GuardianAction::Inject { generation: (old(inner).inject_generation + 1) as u64 }
                    &&& final(inner).inject_generation == old(inner).inject_generation + 1
                    &&& views(final(inner).injected_target_ids@) == injected
                    &&& final(inner).injected_catalog_fingerprint == old(inner).injected_catalog_fingerprint
                    &&& final(status).last_event@ == if catalog_changed(opt_view(old(inner).injected_catalog_fingerprint), catalog_fingerprint@) {
                        "检测到模型目录变化，发起注入 (gen "@ + decimal((old(inner).inject_generation + 1) as nat) + ")"@
                    } else {
                        "检测到新 CDP target，发起注入 (gen "@ + decimal((old(inner).inject_generation + 1) as nat) + ")"@
                    }
                    &&& final(status).message@ == if catalog_changed(opt_view(old(inner).injected_catalog_fingerprint), catalog_fingerprint@) {
                        "Provider 模型目录已更新，正在刷新现有 Codex Desktop renderer..."@
                    } else {
                        "检测到 "@ + decimal(new_targets(views(current_ids@), injected).len()) + " 个新 CDP renderer target，正在注入..."@
                    }
                }
                &&& !due ==> {
                    &&& action == GuardianAction::Wait
                    &&& final(inner).inject_generation == old(inner).inject_generation
                    &&& views(final(inner).injected_target_ids@) == filter_in(injected, views(current_ids@), true)
                    &&& final(inner).injected_catalog_fingerprint == old(inner).injected_catalog_fingerprint
                    &&& final(status).injected == (injected.len() > 0)
                    &&& final(status).injected_target_count == injected.len()
                    &&& final(status).last_event@ == "CDP target 与模型目录无变化"@
                    &&& injected.len() > 0 ==> final(status).message@ == waiting_message(injected.len())
                    &&& injected.len() == 0 ==> final(status).message@ == "CDP 可用但尚未注入（可能 target 启动中）"@
                }
            },
        },
{
    match observation {
        GuardianObservation::CodexNotRunning => {
            status.codex_running = false;
            status.cdp_available = false;
            status.injected = false;
            status.injected_target_count = 0;
            status.last_event = owned("Codex 未运行");
            status.message = owned("Codex Desktop 未运行，等待用户启动...");
            inner.injected_target_ids = Vec::new();
            inner.injected_catalog_fingerprint = None;
            GuardianAction::Wait
        },
        GuardianObservation::CdpUnavailable => {
            status.codex_running = true;
            status.cdp_available = false;
            status.injected = false;
            status.injected_target_count = 0;
            status.last_event = owned("Codex 运行中但无 CDP");
            status.message = owned(
                "Codex Desktop 正在运行但未开放 CDP 调试端口；CCSM 不会静默终止 Codex，请退出后从 CCSM 启动或等待下次 CCSM 启动 Codex 时自动注入。",
            );
            inner.injected_target_ids = Vec::new();
            inner.injected_catalog_fingerprint = None;
            GuardianAction::Wait
        },
        GuardianObservation::CatalogLoadFailed { error } => {
            status.codex_running = true;
            status.cdp_available = true;
            status.last_event = owned("模型目录加载失败");
            status.message = concat("无法加载 CCSM 模型目录: ", error.as_str());
            GuardianAction::Wait
        },
        GuardianObservation::Targets { current_ids, catalog_fingerprint } => {
            status.codex_running = true;
            status.cdp_available = true;
            let new_ids = filter_ids(&current_ids, &inner.injected_target_ids, false);
            let injected_fingerprint = match &inner.injected_catalog_fingerprint {
                Some(f) => Some(f.as_str()),
                None => None,
            };
            if !guardian_should_inject(&new_ids, injected_fingerprint, catalog_fingerprint.as_str()) {
                let count = inner.injected_target_ids.len();
                status.injected = count > 0;
                status.injected_target_count = count;
                status.last_event = owned("CDP target 与模型目录无变化");
                if count > 0 {
                    let n = decimal_string(count);
                    status.message = concat3(
                        "已守护 ",
                        n.as_str(),
                        " 个 CDP renderer target；模型菜单注入有效。",
                    );
                } else {
                    status.message = owned("CDP 可用但尚未注入（可能 target 启动中）");
                }
                inner.injected_target_ids = filter_ids(&inner.injected_target_ids, &current_ids, true);
                return GuardianAction::Wait;
            }
            let catalog_changed = match injected_fingerprint {
                Some(f) => !crate::text::str_eq(f, catalog_fingerprint.as_str()),
                None => true,
            };
            inner.inject_generation = inner.inject_generation + 1;
            let generation = inner.inject_generation;
            let g = decimal_string_u64(generation);
            if catalog_changed {
                status.last_event = concat3("检测到模型目录变化，发起注入 (gen ", g.as_str(), ")");
                status.message = owned(
                    "Provider 模型目录已更新，正在刷新现有 Codex Desktop renderer...",
                );
            } else {
                status.last_event = concat3("检测到新 CDP target，发起注入 (gen ", g.as_str(), ")");
                let n = decimal_string(new_ids.len());
                status.message = concat3(
                    "检测到 ",
                    n.as_str(),
                    " 个新 CDP renderer target，正在注入...",
                );
            }
            GuardianAction::Inject { generation }
        },
    }
}

/// Records how an injection ended. On success the injected targets become those
/// current, and the catalog fingerprint is remembered.
pub fn guardian_record_injection(
    inner: &mut GuardianInner,
    status: &mut CodexGuardianStatus,
    current_ids: &Vec<String>,
    catalog_fingerprint: &str,
    generation: u64,
    outcome: InjectionOutcome,
)
    ensures
        final(status).codex_running && final(status).cdp_available,
        final(inner).inject_generation == old(inner).inject_generation,
        match outcome {
            InjectionOutcome::Injected => {
                &&& views(final(inner).injected_target_ids@) == injected_after_success(
                    views(old(inner).injected_target_ids@),
                    views(current_ids@),
                )
                &&& opt_view(final(inner).injected_catalog_fingerprint) == Some(catalog_fingerprint@)
                &&& final(status).injected
                &&& final(status).injected_target_count == final(inner).injected_target_ids@.len()
                &&& final(status).message@ == injected_message(
                    final(inner).injected_target_ids@.len() as nat,
                    generation as nat,
                )
            },
            InjectionOutcome::Incomplete { message } => {
                &&& views(final(inner).injected_target_ids@) == views(old(inner).injected_target_ids@)
                &&& final(inner).injected_catalog_fingerprint == old(inner).injected_catalog_fingerprint
                &&& final(status).message@ == "模型菜单注入尝试未完成: "@ + message@
            },
            InjectionOutcome::NoTarget => {
                &&& views(final(inner).injected_target_ids@) == views(old(inner).injected_target_ids@)
                &&& final(inner).injected_catalog_fingerprint == old(inner).injected_catalog_fingerprint
                &&& final(status).message@ == "模型菜单注入失败：未找到可注入的 CDP target。"@
            },
        },
{
    status.codex_running = true;
    status.cdp_available = true;
    let g = decimal_string_u64(generation);
    match outcome {
        InjectionOutcome::Injected => {
            let kept = filter_ids(&inner.injected_target_ids, current_ids, true);
            let added = filter_ids(current_ids, &inner.injected_target_ids, false);
            let mut ids = kept;
            let ghost kv = views(ids@);
            let mut k: usize = 0;
            while k < added.len()
                invariant
                    k <= added.len(),
                    views(ids@) == kv + views(added@).take(k as int),
                decreases added.len() - k,
            {
                let ghost old = views(ids@);
                ids.push(added[k].clone());
                assert(views(ids@) =~= old.push(views(added@)[k as int]));
                assert(views(added@).take(k + 1) =~= views(added@).take(k as int).push(views(added@)[k as int]));
                k = k + 1;
            }
            assert(views(added@).take(added.len() as int) =~= views(added@));
            inner.injected_target_ids = ids;
            inner.injected_catalog_fingerprint = Some(owned(catalog_fingerprint));
            let count = inner.injected_target_ids.len();
            status.injected = true;
            status.injected_target_count = count;
            status.last_event = concat3("注入成功 (gen ", g.as_str(), ")");
            let n = decimal_string(count);
            let head = concat3("已将模型菜单兼容层注入 ", n.as_str(), " 个 renderer target (gen ");
            status.message = concat3(head.as_str(), g.as_str(), ")。");
        },
        InjectionOutcome::Incomplete { message } => {
            status.last_event = concat3("注入未完成 (gen ", g.as_str(), ")");
            status.message = concat("模型菜单注入尝试未完成: ", message.as_str());
        },
        InjectionOutcome::NoTarget => {
            status.last_event = concat3("注入失败 (gen ", g.as_str(), ")");
            status.message = owned("模型菜单注入失败：未找到可注入的 CDP target。");
        },
    }
}

// ---------------------------------------------------------------------------
// Laws
// ---------------------------------------------------------------------------

/// An id is kept by `filter_in` exactly when it is in `xs` and its membership in `ys` is `keep`.
pub proof fn lemma_filter_in_contains(xs: Seq<Seq<char>>, ys: Seq<Seq<char>>, keep: bool, x: Seq<char>)
    ensures
        filter_in(xs, ys, keep).contains(x) <==> (xs.contains(x) && ys.contains(x) == keep),
    decreases xs.len(),
{
    if xs.len() > 0 {
        lemma_filter_in_contains(xs.drop_last(), ys, keep, x);
        let rest = filter_in(xs.drop_last(), ys, keep);
        assert(rest.push(xs.last())[rest.len() as int] == xs.last());
        if xs.contains(x) {
            let k = choose|k: int| 0 <= k < xs.len() && xs[k] == x;
            if k < xs.len() - 1 {
                assert(xs.drop_last()[k] == x);
            }
        }
        if xs.drop_last().contains(x) {
            let k = choose|k: int| 0 <= k < xs.drop_last().len() && xs.drop_last()[k] == x;
            assert(xs[k] == x);
        }
        if rest.push(xs.last()).contains(x) && x != xs.last() {
            let k = choose|k: int| 0 <= k < rest.push(xs.last()).len() && rest.push(xs.last())[k] == x;
            assert(rest[k] == x);
        }
        if rest.contains(x) {
            let k = choose|k: int| 0 <= k < rest.len() && rest[k] == x;
            assert(rest.push(xs.last())[k] == x);
        }
    }
}

/// A new target is one that is current and not yet injected.
pub proof fn lemma_new_targets_empty(current: Seq<Seq<char>>, injected: Seq<Seq<char>>)
    requires
        forall|x: Seq<char>| current.contains(x) ==> injected.contains(x),
    ensures
        new_targets(current, injected).len() == 0,
{
    if new_targets(current, injected).len() > 0 {
        let x = new_targets(current, injected)[0];
        assert(new_targets(current, injected).contains(x));
        lemma_filter_in_contains(current, injected, false, x);
    }
}

/// Injection is idempotent: once a catalog was injected into the current targets, the
/// same targets with the same catalog call for no further injection.
pub proof fn successful_injection_is_idempotent(
    injected: Seq<Seq<char>>,
    current: Seq<Seq<char>>,
    fingerprint: Seq<char>,
)
    ensures
        !should_inject(
            new_targets(current, injected_after_success(injected, current)),
            Some(fingerprint),
            fingerprint,
        ),
{
    let after = injected_after_success(injected, current);
    assert forall|x: Seq<char>| current.contains(x) implies after.contains(x) by {
        lemma_filter_in_contains(injected, current, true, x);
        lemma_filter_in_contains(current, injected, false, x);
        let a = filter_in(injected, current, true);
        let b = filter_in(current, injected, false);
        if a.contains(x) {
            let k = choose|k: int| 0 <= k < a.len() && a[k] == x;
            assert((a + b)[k] == x);
        } else {
            let k = choose|k: int| 0 <= k < b.len() && b[k] == x;
            assert((a + b)[a.len() + k] == x);
        }
    }
    lemma_new_targets_empty(current, after);
}

/// After a successful injection the guardian tracks exactly the current targets.
pub proof fn injected_targets_are_the_current_ones(
    injected: Seq<Seq<char>>,
    current: Seq<Seq<char>>,
    x: Seq<char>,
)
    ensures
        injected_after_success(injected, current).contains(x) <==> current.contains(x),
{
    lemma_filter_in_contains(injected, current, true, x);
    lemma_filter_in_contains(current, injected, false, x);
    let a = filter_in(injected, current, true);
    let b = filter_in(current, injected, false);
    if (a + b).contains(x) {
        let k = choose|k: int| 0 <= k < (a + b).len() && (a + b)[k] == x;
        if k < a.len() {
            assert(a[k] == x);
        } else {
            assert(b[k - a.len()] == x);
        }
    }
    if current.contains(x) {
        if a.contains(x) {
            let k = choose|k: int| 0 <= k < a.len() && a[k] == x;
            assert((a + b)[k] == x);
        } else {
            let k = choose|k: int| 0 <= k < b.len() && b[k] == x;
            assert((a + b)[a.len() + k] == x);
        }
    }
}

/// A changed catalog forces re-injection even when no target is new.
pub proof fn catalog_change_forces_injection(
    new_ids: Seq<Seq<char>>,
    injected_fingerprint: Seq<char>,
    current_fingerprint: Seq<char>,
)
    requires
        injected_fingerprint != current_fingerprint,
    ensures
        should_inject(new_ids, Some(injected_fingerprint), current_fingerprint),
{
}

/// A current target that was never injected forces injection even when the catalog
/// is unchanged.
pub proof fn new_target_forces_injection(
    current: Seq<Seq<char>>,
    injected: Seq<Seq<char>>,
    fingerprint: Option<Seq<char>>,
    current_fingerprint: Seq<char>,
    id: Seq<char>,
)
    requires
        current.contains(id),
        !injected.contains(id),
    ensures
        should_inject(new_targets(current, injected), fingerprint, current_fingerprint),
{
    lemma_filter_in_contains(current, injected, false, id);
}

} // verus!
