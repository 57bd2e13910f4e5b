//! Application exit and crash monitoring: how a previous run is classified at
//! startup, and where the monitor keeps its evidence.
//!
//! Reading and writing the marker and event files is done by the caller; this
//! module decides what the evidence means.
use vstd::prelude::*;
use crate::text::{
    chars_of, contains, contains_chars, lex_lt, lower, lower_chars, opt_view, owned, owned_opt,
    str_eq, str_lt, trim, trim_chars,
};
use crate::paths::{is_separator, join_path, path_join};

verus! {

pub const RUN_MARKER_FILE: &'static str = "app-run-marker.json";

pub const EXIT_EVENTS_FILE: &'static str = "app-exit-events.jsonl";

/// How the previous run of the application ended.
#[derive(Debug, Clone, Copy, PartialEq, Eq, Structural)]
pub enum PreviousRunClassification {
    NoPreviousRun,
    ActivePreviousInstance,
    ConfirmedCrash,
    PlannedRestartOrUpdate,
    CleanExit,
    UncleanExit,
}

impl PreviousRunClassification {
    pub open spec fn recovery_allowed(self) -> bool {
        self == PreviousRunClassification::ConfirmedCrash || self
            == PreviousRunClassification::UncleanExit
    }

    pub open spec fn proxy_allowed(self) -> bool {
        self != PreviousRunClassification::ActivePreviousInstance
    }

    /// Crash recovery runs only after a confirmed or presumed crash.
    pub fn allows_crash_recovery(self) -> (r: bool)
        ensures
            r == self.recovery_allowed(),
    {
        match self {
            PreviousRunClassification::ConfirmedCrash => true,
            PreviousRunClassification::UncleanExit => true,
            _ => false,
        }
    }

    /// The proxy may start unless another instance of this application is still alive.
    pub fn allows_proxy_startup(self) -> (r: bool)
        ensures
            r == self.proxy_allowed(),
    {
        match self {
            PreviousRunClassification::ActivePreviousInstance => false,
            _ => true,
        }
    }
}

/// The identity of a running process: pid, executable and start time.
#[derive(Debug, Clone)]
pub struct ProcessIdentity {
    pub pid: u32,
    pub executable_path: String,
    pub started_at_ticks: u64,
}

impl ProcessIdentity {
    pub open spec fn same_as(self, other: ProcessIdentity) -> bool {
        &&& self.pid == other.pid
        &&& self.executable_path@ == other.executable_path@
        &&& self.started_at_ticks == other.started_at_ticks
    }

    /// Two identities denote the same process when pid, executable and start time agree.
    pub fn matches(&self, other: &ProcessIdentity) -> (r: bool)
        ensures
            r == self.same_as(*other),
    {
        self.pid == other.pid && str_eq(self.executable_path.as_str(), other.executable_path.as_str())
            && self.started_at_ticks == other.started_at_ticks
    }
}

/// The marker a running instance leaves behind until it exits cleanly.
#[derive(Debug, Clone)]
pub struct RunMarker {
    pub started_at: String,
    pub pid: u32,
    pub version: String,
    pub os: String,
    pub arch: String,
    pub cwd: String,
    pub executable_path: Option<String>,
    pub process_started_at_ticks: Option<u64>,
    pub config_scope: Option<String>,
}

impl RunMarker {
    pub open spec fn same_as(self, other: RunMarker) -> bool {
        &&& self.started_at@ == other.started_at@
        &&& self.pid == other.pid
        &&& self.version@ == other.version@
        &&& self.os@ == other.os@
        &&& self.arch@ == other.arch@
        &&& self.cwd@ == other.cwd@
        &&& opt_view(self.executable_path) == opt_view(other.executable_path)
        &&& self.process_started_at_ticks == other.process_started_at_ticks
        &&& opt_view(self.config_scope) == opt_view(other.config_scope)
    }

    /// A field-by-field copy.
    pub fn duplicate(&self) -> (r: RunMarker)
        ensures
            r.same_as(*self),
    {
        RunMarker {
            started_at: owned(self.started_at.as_str()),
            pid: self.pid,
            version: owned(self.version.as_str()),
            os: owned(self.os.as_str()),
            arch: owned(self.arch.as_str()),
            cwd: owned(self.cwd.as_str()),
            executable_path: owned_opt(&self.executable_path),
            process_started_at_ticks: self.process_started_at_ticks,
            config_scope: owned_opt(&self.config_scope),
        }
    }
}

/// The report on a run whose marker was still present at startup.
#[derive(Debug, Clone)]
pub struct PreviousRunReport {
    pub marker: RunMarker,
    pub crash_log_modified_at: Option<String>,
}

/// What startup learned about the previous run.
#[derive(Debug, Clone)]
pub struct StartupRecoveryReport {
    pub previous: Option<PreviousRunReport>,
    pub classification: PreviousRunClassification,
}

/// One line of the exit event log.
#[derive(Debug, Clone)]
pub struct ExitEvent {
    pub timestamp: String,
    pub kind: String,
    pub reason: String,
    pub exit_code: Option<i32>,
    pub version: String,
    pub os: String,
    pub arch: String,
    pub pid: u32,
}

/// What the running process knows about itself, as recorded in markers and events.
#[derive(Debug, Clone)]
pub struct ProcessEnvironment {
    pub pid: u32,
    pub version: String,
    pub os: String,
    pub arch: String,
    pub cwd: String,
}

/// The directory the monitor keeps its evidence in. It is set at most once; until it
/// is set, the default `~/.cc-switch` is used so that early crashes still leave
/// evidence.
#[derive(Debug, Clone)]
pub struct AppConfigDir {
    pub dir: Option<String>,
}

/// Everything startup reads before it classifies the previous run.
#[derive(Debug, Clone)]
pub struct StartupObservation {
    /// The run marker left on disk, if any.
    pub previous_marker: Option<RunMarker>,
    /// When the crash log was last written, as local time text.
    pub crash_log_modified_at: Option<String>,
    /// The exit event log.
    pub events: Vec<ExitEvent>,
    /// The process now holding the previous marker's pid.
    pub observed_process: Option<ProcessIdentity>,
    /// The fingerprint of this configuration scope.
    pub config_scope: String,
    /// The identity of this process.
    pub current_identity: Option<ProcessIdentity>,
    /// The time the abnormal-exit event is recorded at.
    pub detected_at: String,
    /// The time the new marker records as this run's start.
    pub started_at: String,
    pub environment: ProcessEnvironment,
}

/// What startup records: the report, the abnormal-exit event to append, and the run
/// marker to write.
#[derive(Debug, Clone)]
pub struct StartupRecord {
    pub report: StartupRecoveryReport,
    pub abnormal_exit_event: Option<ExitEvent>,
    pub marker_to_write: Option<RunMarker>,
}

/// What a clean exit records: the event to append and whether to remove the marker.
#[derive(Debug, Clone)]
pub struct CleanExitRecord {
    pub event: ExitEvent,
    pub remove_marker: bool,
}

// ---------------------------------------------------------------------------
// Specifications
// ---------------------------------------------------------------------------

/// An event of the given kind written by this process at `now`.
pub open spec fn event_written(
    e: ExitEvent,
    kind: Seq<char>,
    reason: Seq<char>,
    exit_code: Option<i32>,
    now: Seq<char>,
    env: ProcessEnvironment,
) -> bool {
    &&& e.timestamp@ == now
    &&& e.kind@ == kind
    &&& e.reason@ == reason
    &&& e.exit_code == exit_code
    &&& e.version@ == env.version@
    &&& e.os@ == env.os@
    &&& e.arch@ == env.arch@
    &&& e.pid == env.pid
}

/// The crash log was written after the marker's run started.
pub open spec fn crash_log_after(marker: RunMarker, crash_log_modified_at: Option<String>) -> bool {
    crash_log_modified_at is Some && lex_lt(marker.started_at@, crash_log_modified_at->0@)
}

/// The classification startup arrives at for an observation.
pub open spec fn observed_classification(obs: StartupObservation) -> PreviousRunClassification {
    classification_of(
        obs.previous_marker,
        obs.events@,
        obs.previous_marker is Some && crash_log_after(
            obs.previous_marker->0,
            obs.crash_log_modified_at,
        ),
        obs.observed_process,
        obs.config_scope@,
    )
}

/// The marker this run writes for itself.
pub open spec fn own_marker(m: RunMarker, obs: StartupObservation) -> bool {
    &&& m.started_at@ == obs.started_at@
    &&& m.pid == obs.environment.pid
    &&& m.version@ == obs.environment.version@
    &&& m.os@ == obs.environment.os@
    &&& m.arch@ == obs.environment.arch@
    &&& m.cwd@ == obs.environment.cwd@
    &&& opt_view(m.executable_path) == match obs.current_identity {
        Some(id) => Some(id.executable_path@),
        None => None,
    }
    &&& m.process_started_at_ticks == match obs.current_identity {
        Some(id) => Some(id.started_at_ticks),
        None => None,
    }
    &&& opt_view(m.config_scope) == Some(obs.config_scope@)
}

/// The marker records a complete identity equal to the observed process.
pub open spec fn marker_identifies(marker: RunMarker, process: ProcessIdentity) -> bool {
    &&& marker.executable_path is Some
    &&& marker.process_started_at_ticks is Some
    &&& marker.pid == process.pid
    &&& marker.executable_path->0@ == process.executable_path@
    &&& marker.process_started_at_ticks->0 == process.started_at_ticks
}

/// Exit reasons that announce a planned restart, update or reload.
pub open spec fn planned_exit_reason(reason: Seq<char>) -> bool {
    let l = lower(trim(reason));
    contains(l, "restart"@) || contains(l, "update"@) || contains(l, "reload"@)
}

/// An event written by the marker's process at or after its start.
pub open spec fn event_of_run(e: ExitEvent, marker: RunMarker) -> bool {
    e.pid == marker.pid && !lex_lt(e.timestamp@, marker.started_at@)
}

pub open spec fn is_crash_event(e: ExitEvent) -> bool {
    e.kind@ == "panic"@ || e.kind@ == "forced_exit"@
}

pub open spec fn is_clean_exit_event(e: ExitEvent) -> bool {
    e.kind@ == "clean_exit"@
}

pub open spec fn run_has_crash(events: Seq<ExitEvent>, marker: RunMarker) -> bool {
    exists|i: int| 0 <= i < events.len() && event_of_run(events[i], marker) && is_crash_event(events[i])
}

pub open spec fn run_has_clean_exit(events: Seq<ExitEvent>, marker: RunMarker) -> bool {
    exists|i: int|
        0 <= i < events.len() && event_of_run(events[i], marker) && is_clean_exit_event(events[i])
}

pub open spec fn run_has_planned_exit(events: Seq<ExitEvent>, marker: RunMarker) -> bool {
    exists|i: int|
        0 <= i < events.len() && event_of_run(events[i], marker) && is_clean_exit_event(events[i])
            && planned_exit_reason(events[i].reason@)
}

/// The still-running previous instance: same configuration scope and the complete
/// recorded identity equals the observed process.
pub open spec fn is_active_previous(
    marker: RunMarker,
    observed: Option<ProcessIdentity>,
    scope: Seq<char>,
) -> bool {
    &&& marker.config_scope is Some
    &&& marker.config_scope->0@ == scope
    &&& observed is Some
    &&& marker_identifies(marker, observed->0)
}

/// The classification of the previous run.
pub open spec fn classification_of(
    marker: Option<RunMarker>,
    events: Seq<ExitEvent>,
    crash_log_after_marker: bool,
    observed: Option<ProcessIdentity>,
    scope: Seq<char>,
) -> PreviousRunClassification {
    match marker {
        None => PreviousRunClassification::NoPreviousRun,
        Some(m) => if is_active_previous(m, observed, scope) {
            PreviousRunClassification::ActivePreviousInstance
        } else if crash_log_after_marker || run_has_crash(events, m) {
            PreviousRunClassification::ConfirmedCrash
        } else if run_has_planned_exit(events, m) {
            PreviousRunClassification::PlannedRestartOrUpdate
        } else if run_has_clean_exit(events, m) {
            PreviousRunClassification::CleanExit
        } else {
            PreviousRunClassification::UncleanExit
        },
    }
}

// ---------------------------------------------------------------------------
// Decisions
// ---------------------------------------------------------------------------

/// Whether a clean exit reason announces a restart, update or reload.
pub fn is_planned_exit_reason(reason: &str) -> (r: bool)
    ensures
        r == planned_exit_reason(reason@),
{
    let l = lower_chars(trim_chars(chars_of(reason).as_slice()).as_slice());
    contains_chars(l.as_slice(), chars_of("restart").as_slice()) || contains_chars(
        l.as_slice(),
        chars_of("update").as_slice(),
    ) || contains_chars(l.as_slice(), chars_of("reload").as_slice())
}

/// Whether the marker's recorded identity is the given process.
pub fn marker_matches_process(marker: &RunMarker, process: &ProcessIdentity) -> (r: bool)
    ensures
        r == marker_identifies(*marker, *process),
{
    match (&marker.executable_path, marker.process_started_at_ticks) {
        (Some(executable_path), Some(started_at_ticks)) => {
            let expected = ProcessIdentity {
                pid: marker.pid,
                executable_path: executable_path.clone(),
                started_at_ticks,
            };
            expected.matches(process)
        },
        _ => false,
    }
}

/// Whether the crash log was written after the previous run started
/// (timestamps compare as text).
pub fn crash_log_modified_after_marker(report: &PreviousRunReport) -> (r: bool)
    ensures
        r == (report.crash_log_modified_at is Some && lex_lt(
            report.marker.started_at@,
            report.crash_log_modified_at->0@,
        )),
{
    match &report.crash_log_modified_at {
        Some(modified) => str_lt(report.marker.started_at.as_str(), modified.as_str()),
        None => false,
    }
}

/// Classifies how the previous run ended from its marker, the exit event log, the
/// crash log, the process now holding the marker's pid, and the configuration scope.
pub fn classify_previous_run(
    marker: Option<&RunMarker>,
    events: &[ExitEvent],
    crash_log_modified_after_marker: bool,
    observed_process: Option<&ProcessIdentity>,
    expected_config_scope: &str,
) -> (r: PreviousRunClassification)
    ensures
        r == classification_of(
            match marker {
                Some(m) => Some(*m),
                None => None,
            },
            events@,
            crash_log_modified_after_marker,
            match observed_process {
                Some(p) => Some(*p),
                None => None,
            },
            expected_config_scope@,
        ),
{
    let marker = match marker {
        None => return PreviousRunClassification::NoPreviousRun,
        Some(m) => m,
    };
    let same_scope = match &marker.config_scope {
        Some(scope) => str_eq(scope.as_str(), expected_config_scope),
        None => false,
    };
    let identity_matches = match observed_process {
        Some(observed) => marker_matches_process(marker, observed),
        None => false,
    };
    if same_scope && identity_matches {
        return PreviousRunClassification::ActivePreviousInstance;
    }
    let mut confirmed_crash = crash_log_modified_after_marker;
    let mut planned_restart = false;
    let mut clean_exit = false;
    let mut i: usize = 0;
    while i < events.len()
        invariant
            i <= events.len(),
            confirmed_crash == (crash_log_modified_after_marker || exists|k: int|
                0 <= k < i && event_of_run(events@[k], *marker) && is_crash_event(events@[k])),
            clean_exit == (exists|k: int|
                0 <= k < i && event_of_run(events@[k], *marker) && is_clean_exit_event(events@[k])),
            planned_restart == (exists|k: int|
                0 <= k < i && event_of_run(events@[k], *marker) && is_clean_exit_event(events@[k])
                    && planned_exit_reason(events@[k].reason@)),
        decreases events.len() - i,
    {
        let event = &events[i];
        let counts = event.pid == marker.pid && !str_lt(
            event.timestamp.as_str(),
            marker.started_at.as_str(),
        );
        if counts {
            if str_eq(event.kind.as_str(), "panic") || str_eq(event.kind.as_str(), "forced_exit") {
                confirmed_crash = true;
            }
            if str_eq(event.kind.as_str(), "clean_exit") {
                clean_exit = true;
                if is_planned_exit_reason(event.reason.as_str()) {
                    planned_restart = true;
                }
            }
        }
        i = i + 1;
    }
    if confirmed_crash {
        PreviousRunClassification::ConfirmedCrash
    } else if clean_exit && !planned_restart {
        PreviousRunClassification::CleanExit
    } else if planned_restart {
        PreviousRunClassification::PlannedRestartOrUpdate
    } else {
        PreviousRunClassification::UncleanExit
    }
}

/// A new run marker is written unless another instance still owns the current one.
pub fn should_write_run_marker(classification: PreviousRunClassification) -> (r: bool)
    ensures
        r == (classification != PreviousRunClassification::ActivePreviousInstance),
{
    classification.allows_proxy_startup()
}

/// The run's own marker is removed at exit only when it records this very process.
pub fn should_remove_run_marker(marker: Option<&RunMarker>, current: Option<&ProcessIdentity>) -> (r:
    bool)
    ensures
        r == (marker is Some && current is Some && marker_identifies(*marker->0, *current->0)),
{
    match (marker, current) {
        (Some(m), Some(c)) => marker_matches_process(m, c),
        _ => false,
    }
}

// ---------------------------------------------------------------------------
// Evidence locations
// ---------------------------------------------------------------------------

/// `<home>/.cc-switch`, or `./.cc-switch` when no home directory is known.
pub fn default_app_config_dir(home: Option<&str>, sep: char) -> (r: String)
    requires
        is_separator(sep),
    ensures
        r@ == path_join(
            match home {
                Some(h) => h@,
                None => "."@,
            },
            ".cc-switch"@,
            sep,
        ),
{
    match home {
        Some(h) => join_path(h, ".cc-switch", sep),
        None => join_path(".", ".cc-switch", sep),
    }
}

/// The log directory: `<config dir>/logs`.
pub fn log_dir_path(app_config_dir: &str, sep: char) -> (r: String)
    requires
        is_separator(sep),
    ensures
        r@ == path_join(app_config_dir@, "logs"@, sep),
{
    join_path(app_config_dir, "logs", sep)
}

/// The exit event history: `<config dir>/logs/app-exit-events.jsonl`.
pub fn exit_events_path(app_config_dir: &str, sep: char) -> (r: String)
    requires
        is_separator(sep),
    ensures
        r@ == path_join(path_join(app_config_dir@, "logs"@, sep), EXIT_EVENTS_FILE@, sep),
{
    let logs = log_dir_path(app_config_dir, sep);
    join_path(logs.as_str(), EXIT_EVENTS_FILE, sep)
}

/// The run marker: `<config dir>/logs/app-run-marker.json`.
pub fn run_marker_path(app_config_dir: &str, sep: char) -> (r: String)
    requires
        is_separator(sep),
    ensures
        r@ == path_join(path_join(app_config_dir@, "logs"@, sep), RUN_MARKER_FILE@, sep),
{
    let logs = log_dir_path(app_config_dir, sep);
    join_path(logs.as_str(), RUN_MARKER_FILE, sep)
}

/// The panic hook's crash log: `<config dir>/crash.log`.
pub fn crash_log_path(app_config_dir: &str, sep: char) -> (r: String)
    requires
        is_separator(sep),
    ensures
        r@ == path_join(app_config_dir@, "crash.log"@, sep),
{
    join_path(app_config_dir, "crash.log", sep)
}

// ---------------------------------------------------------------------------
// Recording startup and exit
// ---------------------------------------------------------------------------

impl AppConfigDir {
    /// No directory set yet.
    pub fn new() -> (r: AppConfigDir)
        ensures
            r.dir is None,
    {
        AppConfigDir { dir: None }
    }

    /// The directory in use: the one set, else `<home>/.cc-switch`.
    pub fn get(&self, home: Option<&str>, sep: char) -> (r: String)
        requires
            is_separator(sep),
        ensures
            r@ == match self.dir {
                Some(d) => d@,
                None => path_join(
                    match home {
                        Some(h) => h@,
                        None => "."@,
                    },
                    ".cc-switch"@,
                    sep,
                ),
            },
    {
        match &self.dir {
            Some(d) => owned(d.as_str()),
            None => default_app_config_dir(home, sep),
        }
    }
}

/// Sets the evidence directory. Only the first call takes effect.
pub fn init_app_config_dir(config: &mut AppConfigDir, dir: String)
    ensures
        opt_view(final(config).dir) == match old(config).dir {
            Some(d) => Some(d@),
            None => Some(dir@),
        },
{
    if config.dir.is_none() {
        config.dir = Some(dir);
    }
}

/// An exit event of the given kind, written by this process at `now`.
pub fn exit_event(
    kind: &str,
    reason: &str,
    exit_code: Option<i32>,
    now: &str,
    env: &ProcessEnvironment,
) -> (r: ExitEvent)
    ensures
        event_written(r, kind@, reason@, exit_code, now@, *env),
{
    ExitEvent {
        timestamp: owned(now),
        kind: owned(kind),
        reason: owned(reason),
        exit_code,
        version: owned(env.version.as_str()),
        os: owned(env.os.as_str()),
        arch: owned(env.arch.as_str()),
        pid: env.pid,
    }
}

/// Records this startup: classifies the previous run from what was observed, reports
/// a marker that remained as an abnormal exit, and writes a new marker for this run
/// unless the previous instance is still alive.
pub fn record_startup(obs: &StartupObservation) -> (r: StartupRecord)
    ensures
        r.report.classification == observed_classification(*obs),
        r.report.previous is Some <==> obs.previous_marker is Some,
        r.report.previous is Some ==> {
            &&& r.report.previous->0.marker.same_as(obs.previous_marker->0)
            &&& opt_view(r.report.previous->0.crash_log_modified_at) == opt_view(
                obs.crash_log_modified_at,
            )
        },
        r.abnormal_exit_event is Some <==> obs.previous_marker is Some,
        r.abnormal_exit_event is Some ==> event_written(
            r.abnormal_exit_event->0,
            "abnormal_exit_detected"@,
            "previous run marker remained at startup"@,
            None,
            obs.detected_at@,
            obs.environment,
        ),
        r.marker_to_write is Some <==> r.report.classification
            != PreviousRunClassification::ActivePreviousInstance,
        r.marker_to_write is Some ==> own_marker(r.marker_to_write->0, *obs),
{
    let previous = match &obs.previous_marker {
        Some(marker) => Some(
            PreviousRunReport {
                marker: marker.duplicate(),
                crash_log_modified_at: owned_opt(&obs.crash_log_modified_at),
            },
        ),
        None => None,
    };
    let crash_after = match &previous {
        Some(report) => crash_log_modified_after_marker(report),
        None => false,
    };
    proof {
        if obs.previous_marker is Some {
            assert(crash_after == crash_log_after(obs.previous_marker->0, obs.crash_log_modified_at));
        }
    }
    let classification = classify_previous_run(
        obs.previous_marker.as_ref(),
        obs.events.as_slice(),
        crash_after,
        obs.observed_process.as_ref(),
        obs.config_scope.as_str(),
    );
    let abnormal_exit_event = if obs.previous_marker.is_some() {
        Some(
            exit_event(
                "abnormal_exit_detected",
                "previous run marker remained at startup",
                None,
                obs.detected_at.as_str(),
                &obs.environment,
            ),
        )
    } else {
        None
    };
    let marker_to_write = if should_write_run_marker(classification) {
        let (executable_path, process_started_at_ticks) = match &obs.current_identity {
            Some(id) => (Some(owned(id.executable_path.as_str())), Some(id.started_at_ticks)),
            None => (None, None),
        };
        Some(
            RunMarker {
                started_at: owned(obs.started_at.as_str()),
                pid: obs.environment.pid,
                version: owned(obs.environment.version.as_str()),
                os: owned(obs.environment.os.as_str()),
                arch: owned(obs.environment.arch.as_str()),
                cwd: owned(obs.environment.cwd.as_str()),
                executable_path,
                process_started_at_ticks,
                config_scope: Some(owned(obs.config_scope.as_str())),
            },
        )
    } else {
        None
    };
    StartupRecord {
        report: StartupRecoveryReport { previous, classification },
        abnormal_exit_event,
        marker_to_write,
    }
}

/// Records a clean exit: the `clean_exit` event with its reason and exit code, and
/// whether the run marker is this process's own and may be removed.
pub fn record_clean_exit(
    reason: &str,
    exit_code: i32,
    now: &str,
    env: &ProcessEnvironment,
    marker: Option<&RunMarker>,
    current: Option<&ProcessIdentity>,
) -> (r: CleanExitRecord)
    ensures
        event_written(r.event, "clean_exit"@, reason@, Some(exit_code), now@, *env),
        r.remove_marker == (marker is Some && current is Some && marker_identifies(
            *marker->0,
            *current->0,
        )),
{
    CleanExitRecord {
        event: exit_event("clean_exit", reason, Some(exit_code), now, env),
        remove_marker: should_remove_run_marker(marker, current),
    }
}

// ---------------------------------------------------------------------------
// Laws
// ---------------------------------------------------------------------------

/// A marker without a complete identity (a legacy pid-only marker) is never taken
/// for a live previous instance, whatever process now holds its pid.
pub proof fn legacy_marker_is_never_active(
    marker: RunMarker,
    events: Seq<ExitEvent>,
    crash_log_after_marker: bool,
    observed: Option<ProcessIdentity>,
    scope: Seq<char>,
)
    requires
        marker.executable_path is None || marker.process_started_at_ticks is None,
    ensures
        classification_of(Some(marker), events, crash_log_after_marker, observed, scope)
            != PreviousRunClassification::ActivePreviousInstance,
{
}

/// A panic or forced exit recorded by the previous run confirms a crash, whatever
/// clean exits it also recorded, unless that run is still alive.
pub proof fn crash_event_dominates_clean_exit(
    marker: RunMarker,
    events: Seq<ExitEvent>,
    crash_log_after_marker: bool,
    observed: Option<ProcessIdentity>,
    scope: Seq<char>,
    i: int,
)
    requires
        0 <= i < events.len(),
        event_of_run(events[i], marker),
        is_crash_event(events[i]),
        !is_active_previous(marker, observed, scope),
    ensures
        classification_of(Some(marker), events, crash_log_after_marker, observed, scope)
            == PreviousRunClassification::ConfirmedCrash,
{
}

/// Only a live previous instance blocks the proxy, and whenever crash recovery runs
/// the proxy may start too.
pub proof fn active_instance_blocks_proxy_and_recovery(c: PreviousRunClassification)
    ensures
        !c.proxy_allowed() <==> c == PreviousRunClassification::ActivePreviousInstance,
        c.recovery_allowed() ==> c.proxy_allowed(),
{
}

/// Events from another process, or from before the marker was written, never change
/// the classification.
pub proof fn foreign_events_are_ignored(
    marker: RunMarker,
    events: Seq<ExitEvent>,
    extra: ExitEvent,
    crash_log_after_marker: bool,
    observed: Option<ProcessIdentity>,
    scope: Seq<char>,
)
    requires
        !event_of_run(extra, marker),
    ensures
        classification_of(Some(marker), events.push(extra), crash_log_after_marker, observed, scope)
            == classification_of(Some(marker), events, crash_log_after_marker, observed, scope),
{
    let e2 = events.push(extra);
    assert(run_has_crash(e2, marker) == run_has_crash(events, marker)) by {
        if run_has_crash(e2, marker) {
            let i = choose|i: int| 0 <= i < e2.len() && event_of_run(e2[i], marker) && is_crash_event(e2[i]);
            assert(i < events.len());
            assert(e2[i] == events[i]);
        }
        if run_has_crash(events, marker) {
            let i = choose|i: int| 0 <= i < events.len() && event_of_run(events[i], marker) && is_crash_event(events[i]);
            assert(e2[i] == events[i]);
        }
    }
    assert(run_has_clean_exit(e2, marker) == run_has_clean_exit(events, marker)) by {
        if run_has_clean_exit(e2, marker) {
            let i = choose|i: int| 0 <= i < e2.len() && event_of_run(e2[i], marker) && is_clean_exit_event(e2[i]);
            assert(i < events.len());
            assert(e2[i] == events[i]);
        }
        if run_has_clean_exit(events, marker) {
            let i = choose|i: int| 0 <= i < events.len() && event_of_run(events[i], marker) && is_clean_exit_event(events[i]);
            assert(e2[i] == events[i]);
        }
    }
    assert(run_has_planned_exit(e2, marker) == run_has_planned_exit(events, marker)) by {
        if run_has_planned_exit(e2, marker) {
            let i = choose|i: int| 0 <= i < e2.len() && event_of_run(e2[i], marker) && is_clean_exit_event(e2[i]) && planned_exit_reason(e2[i].reason@);
            assert(i < events.len());
            assert(e2[i] == events[i]);
        }
        if run_has_planned_exit(events, marker) {
            let i = choose|i: int| 0 <= i < events.len() && event_of_run(events[i], marker) && is_clean_exit_event(events[i]) && planned_exit_reason(events[i].reason@);
            assert(e2[i] == events[i]);
        }
    }
}

/// A clean exit of the previous run whose reason (trimmed, in any letter case)
/// mentions a restart, an update or a reload makes the previous run a planned restart
/// or update, unless it is still running or crashed.
pub proof fn announced_restart_or_update_is_planned(
    marker: RunMarker,
    events: Seq<ExitEvent>,
    observed: Option<ProcessIdentity>,
    scope: Seq<char>,
    i: int,
)
    requires
        0 <= i < events.len(),
        event_of_run(events[i], marker),
        events[i].kind@ == "clean_exit"@,
        contains(lower(trim(events[i].reason@)), "restart"@) || contains(lower(trim(events[i].reason@)), "update"@)
            || contains(lower(trim(events[i].reason@)), "reload"@),
        !is_active_previous(marker, observed, scope),
        !run_has_crash(events, marker),
    ensures
        classification_of(Some(marker), events, false, observed, scope)
            == PreviousRunClassification::PlannedRestartOrUpdate,
{
    assert(event_of_run(events[i], marker) && is_clean_exit_event(events[i]) && planned_exit_reason(events[i].reason@));
}

/// A clean exit whose reason mentions none of restart, update or reload is a plain
/// clean exit, when it is the only exit the previous run recorded and it neither
/// runs nor crashed.
pub proof fn unannounced_clean_exit_is_clean(
    marker: RunMarker,
    e: ExitEvent,
    observed: Option<ProcessIdentity>,
    scope: Seq<char>,
)
    requires
        event_of_run(e, marker),
        e.kind@ == "clean_exit"@,
        !contains(lower(trim(e.reason@)), "restart"@),
        !contains(lower(trim(e.reason@)), "update"@),
        !contains(lower(trim(e.reason@)), "reload"@),
        !is_active_previous(marker, observed, scope),
    ensures
        classification_of(Some(marker), seq![e], false, observed, scope) == PreviousRunClassification::CleanExit,
{
    let events = seq![e];
    reveal_strlit("clean_exit");
    reveal_strlit("panic");
    reveal_strlit("forced_exit");
    assert(!run_has_crash(events, marker)) by {
        if run_has_crash(events, marker) {
            let k = choose|k: int| 0 <= k < events.len() && event_of_run(events[k], marker) && is_crash_event(events[k]);
            assert(events[k] == e);
            assert(e.kind@.len() != "panic"@.len());
            assert(e.kind@[0] != "forced_exit"@[0]);
        }
    }
    assert(!run_has_planned_exit(events, marker)) by {
        if run_has_planned_exit(events, marker) {
            let k = choose|k: int| 0 <= k < events.len() && event_of_run(events[k], marker) && is_clean_exit_event(events[k])
                && planned_exit_reason(events[k].reason@);
            assert(events[k] == e);
        }
    }
    assert(event_of_run(events[0], marker) && is_clean_exit_event(events[0]));
}

} // verus!
