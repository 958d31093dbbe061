//! Processes that an executor started: what is known of them, and what may be done to them.

use crate::json::{u64_or_null, Json, JsonView};
use crate::lease::{end_of, later};
use crate::lines::{lines, lines_view};
use crate::rpc::{fails, rpc_error, unknown, unknown_error, RpcError, RpcErrorView};
use crate::table::{find_in, lemma_position_from, lemma_position_unique, position_of, unique, Keyed};
use crate::text::{
    concat3, str_eq, str_lt, text_lt, text_order_is_total, text_order_is_transitive, views,
};
use vstd::prelude::*;

verus! {

/// How long an observation of a process is worth anything, in milliseconds.
pub const OBSERVATION_TTL_MS: u64 = 5_000;

#[derive(Debug, Clone, Copy, PartialEq, Eq, Structural)]
pub enum ProcessState {
    Running,
    Stopped,
    Failed,
}

#[derive(Debug, Clone, Copy, PartialEq, Eq, Structural)]
pub enum ReadinessState {
    Pending,
    Ready,
    Failed,
    NotConfigured,
}

/// Whether a process is ready, and how often it was asked.
#[derive(Debug, Clone, Copy, PartialEq, Eq, Structural)]
pub struct ReadinessStatus {
    pub state: ReadinessState,
    pub attempts: u64,
}

/// What is known of a process. The operating system may give its number to another process; the
/// birth identity tells the two apart. A record without one is never verified.
#[derive(Debug, Clone)]
pub struct ProcessRecord {
    pub id: String,
    pub pid: u32,
    pub birth_identity: Option<String>,
    pub identity_verified: bool,
    pub observed_at: Option<u64>,
    pub cwd: String,
    pub argv: Vec<String>,
    pub env: Vec<(String, String)>,
    pub restartable: bool,
    pub metadata: Json,
    pub log_path: String,
    pub log_start_offset: u64,
    pub state: ProcessState,
    pub readiness: ReadinessStatus,
    pub phase: String,
    pub last_successful_probe_at: Option<u64>,
    pub last_log_progress: Option<u64>,
    pub readiness_spec: Option<Json>,
    pub readiness_deadline_at: Option<u64>,
    pub started_at: u64,
    pub updated_at: u64,
}

impl Keyed for ProcessRecord {
    open spec fn key_view(&self) -> Seq<char> {
        self.id@
    }

    fn key(&self) -> (r: &str) {
        self.id.as_str()
    }
}

/// The phase of a process that has just been started.
pub fn starting_phase() -> (r: String)
    ensures
        r@ == "STARTING"@,
{
    "STARTING".to_owned()
}

/// Whether a record that was looked at belongs to a process that was born with an identity.
pub open spec fn same_birth(recorded: Option<String>, current: Option<String>) -> bool {
    recorded is Some && current is Some && recorded->0@ == current->0@
}

/// Whether a record that was looked at belongs to another process than the one that runs now.
pub open spec fn other_birth(recorded: Option<String>, current: Option<String>) -> bool {
    recorded is Some && current is Some && recorded->0@ != current->0@
}

/// Whether the readiness of a process is asked for anew each time: it is a tunnel that says how.
pub open spec fn probed_live(r: ProcessRecord) -> bool {
    r.metadata@.get_str("kind"@) == Some("tunnel"@) && r.readiness_spec is Some
}

/// A record as far as looking at its process settles it: whether the process lives, by which
/// identity, and how long its log is.
pub open spec fn observed(r: ProcessRecord, alive: bool, current: Option<String>, log: Option<u64>, now: u64) -> ProcessRecord {
    let seen = ProcessRecord { observed_at: Some(now), identity_verified: false, ..r };
    if r.state != ProcessState::Running {
        seen
    } else if !alive || other_birth(r.birth_identity, current) {
        ProcessRecord { state: ProcessState::Failed, updated_at: now, ..seen }
    } else if !same_birth(r.birth_identity, current) {
        seen
    } else {
        let progress = match r.last_log_progress {
            Some(n) => n,
            None => r.log_start_offset,
        };
        let grown = log is Some && log->0 > progress;
        let asked = r.readiness.state == ReadinessState::Pending || probed_live(r);
        ProcessRecord {
            identity_verified: true,
            readiness: if asked {
                ReadinessStatus {
                    state: ReadinessState::Pending,
                    attempts: if r.readiness.attempts < u64::MAX {
                        (r.readiness.attempts + 1) as u64
                    } else {
                        u64::MAX
                    },
                }
            } else {
                r.readiness
            },
            last_log_progress: if grown {
                log
            } else {
                r.last_log_progress
            },
            updated_at: if grown || asked {
                now
            } else {
                r.updated_at
            },
            ..seen
        }
    }
}

/// The phase of a record after a look at its process.
pub open spec fn observed_phase(r: ProcessRecord, alive: bool, current: Option<String>, log: Option<u64>) -> Seq<char> {
    if r.state != ProcessState::Running {
        r.phase@
    } else if !alive || other_birth(r.birth_identity, current) {
        "FAILED"@
    } else if same_birth(r.birth_identity, current) && log is Some && log->0 > (match r.last_log_progress {
        Some(n) => n,
        None => r.log_start_offset,
    }) {
        "BUILDING"@
    } else {
        r.phase@
    }
}

/// Whether two records are the same but for the phase.
pub open spec fn same_but_phase(a: ProcessRecord, b: ProcessRecord) -> bool {
    a == (ProcessRecord { phase: a.phase, ..b })
}

/// Whether a record that was looked at waits for an answer on its readiness.
pub open spec fn waits_for_probe(r: ProcessRecord) -> bool {
    r.state == ProcessState::Running && r.identity_verified && r.readiness.state == ReadinessState::Pending
}

fn same_text(a: &Option<String>, b: &Option<String>) -> (r: bool)
    ensures
        r == same_birth(*a, *b),
{
    match (a, b) {
        (Some(x), Some(y)) => str_eq(x.as_str(), y.as_str()),
        _ => false,
    }
}

fn is_tunnel(metadata: &Json) -> (r: bool)
    ensures
        r == (metadata@.get_str("kind"@) == Some("tunnel"@)),
{
    match metadata.get_str("kind") {
        Some(k) => str_eq(k, "tunnel"),
        None => false,
    }
}

impl ProcessRecord {
    /// Takes note of a look at the process: whether it lives, by which identity, and how long its
    /// log is. The record fails where the process is gone or another one has its number. Says
    /// whether an answer on its readiness is to follow.
    pub fn observe(&mut self, alive: bool, current: &Option<String>, log: Option<u64>, now: u64) -> (r: bool)
        ensures
            same_but_phase(*final(self), observed(*old(self), alive, *current, log, now)),
            final(self).phase@ == observed_phase(*old(self), alive, *current, log),
            r == waits_for_probe(*final(self)),
    {
        self.observed_at = Some(now);
        self.identity_verified = false;
        if self.state != ProcessState::Running {
            return false;
        }
        let verified = same_text(&self.birth_identity, current);
        let mismatch = self.birth_identity.is_some() && current.is_some() && !verified;
        if !alive || mismatch {
            self.state = ProcessState::Failed;
            self.phase = "FAILED".to_owned();
            self.updated_at = now;
            return false;
        }
        if !verified {
            return false;
        }
        self.identity_verified = true;
        if is_tunnel(&self.metadata) && self.readiness_spec.is_some() && self.readiness.state
            != ReadinessState::Pending {
            self.readiness = ReadinessStatus { state: ReadinessState::Pending, attempts: self.readiness.attempts };
        }
        if let Some(length) = log {
            let progress = match self.last_log_progress {
                Some(n) => n,
                None => self.log_start_offset,
            };
            if length > progress {
                self.last_log_progress = Some(length);
                self.phase = "BUILDING".to_owned();
                self.updated_at = now;
            }
        }
        if self.readiness.state == ReadinessState::Pending {
            self.readiness = ReadinessStatus {
                state: ReadinessState::Pending,
                attempts: self.readiness.attempts.saturating_add(1),
            };
            self.updated_at = now;
            true
        } else {
            false
        }
    }
}

/// What came of asking a process whether it is ready.
#[derive(Debug, Clone, Copy, PartialEq, Eq, Structural)]
pub enum Probed {
    /// It does not say how to ask.
    Unasked,
    Ready,
    NotReady,
    /// How it says to ask makes no sense.
    Invalid,
}

/// Whether the time that a process has to become ready is over.
pub open spec fn overdue(r: ProcessRecord, now: u64) -> bool {
    r.readiness_deadline_at is Some && now >= r.readiness_deadline_at->0
}

/// The readiness of a process after it was asked.
pub open spec fn probed_state(r: ProcessRecord, probed: Probed, now: u64) -> ReadinessState {
    match probed {
        Probed::Ready => ReadinessState::Ready,
        Probed::NotReady => if overdue(r, now) {
            ReadinessState::Failed
        } else {
            r.readiness.state
        },
        Probed::Invalid => ReadinessState::Failed,
        Probed::Unasked => r.readiness.state,
    }
}

impl ProcessRecord {
    /// Takes note of whether the process is ready. It has failed to become so once its time is
    /// over.
    pub fn settle(&mut self, probed: Probed, now: u64)
        ensures
            same_but_phase(
                *final(self),
                (ProcessRecord {
                    readiness: ReadinessStatus {
                        state: probed_state(*old(self), probed, now),
                        attempts: old(self).readiness.attempts,
                    },
                    last_successful_probe_at: if probed == Probed::Ready {
                        Some(now)
                    } else {
                        old(self).last_successful_probe_at
                    },
                    updated_at: now,
                    ..*old(self)
                }),
            ),
            final(self).phase@ == (if probed == Probed::Ready {
                "READY"@
            } else {
                old(self).phase@
            }),
    {
        let attempts = self.readiness.attempts;
        match probed {
            Probed::Ready => {
                self.readiness = ReadinessStatus { state: ReadinessState::Ready, attempts };
                self.phase = "READY".to_owned();
                self.last_successful_probe_at = Some(now);
            },
            Probed::NotReady => {
                let over = match self.readiness_deadline_at {
                    Some(deadline) => now >= deadline,
                    None => false,
                };
                if over {
                    self.readiness = ReadinessStatus { state: ReadinessState::Failed, attempts };
                }
            },
            Probed::Invalid => {
                self.readiness = ReadinessStatus { state: ReadinessState::Failed, attempts };
            },
            Probed::Unasked => {},
        }
        self.updated_at = now;
    }
}

/// The error of a process, with how far it got.
pub open spec fn process_error_view(code: Seq<char>, r: ProcessRecord, retryable: bool) -> RpcErrorView {
    RpcErrorView {
        code,
        message: code + " for process "@ + r.id@,
        retryable,
        details: JsonView::obj().plus("lastLogProgress"@, u64_or_null(r.last_log_progress)).plus(
            "lastSuccessfulProbeAt"@,
            u64_or_null(r.last_successful_probe_at),
        ).plus("phase"@, JsonView::Text(r.phase@)).plus("processId"@, JsonView::Text(r.id@)),
    }
}

/// The error of a process: how far it got goes with it.
pub fn process_error(code: &str, record: &ProcessRecord, retryable: bool) -> (r: RpcError)
    ensures
        r@ == process_error_view(code@, *record, retryable),
{
    let details = Json::obj().plus("lastLogProgress", Json::opt_u64(record.last_log_progress)).plus(
        "lastSuccessfulProbeAt",
        Json::opt_u64(record.last_successful_probe_at),
    ).plus("phase", Json::text(record.phase.as_str())).plus("processId", Json::text(record.id.as_str()));
    RpcError {
        code: code.to_owned(),
        message: concat3(code, " for process ", record.id.as_str()),
        retryable,
        details,
    }
}

/// What a wait for a process comes to at one look.
#[derive(Debug)]
pub enum ReadyWait {
    Ready,
    Again,
    Failed(RpcError),
}

/// Why a wait for a process ends without success, if it does.
pub open spec fn wait_failure(r: ProcessRecord, late: bool) -> Option<RpcErrorView> {
    if r.readiness.state == ReadinessState::Ready {
        None
    } else if r.state != ProcessState::Running {
        Some(process_error_view("PROCESS_EXITED"@, r, false))
    } else if r.readiness.state == ReadinessState::Failed {
        Some(process_error_view("READINESS_MARKER_MISSING"@, r, true))
    } else if late {
        Some(
            process_error_view(
                if (match r.last_log_progress {
                    Some(n) => n,
                    None => r.log_start_offset,
                }) <= r.log_start_offset {
                    "BUILD_STALLED"@
                } else {
                    "READINESS_MARKER_MISSING"@
                },
                r,
                true,
            ),
        )
    } else {
        None
    }
}

/// Decides whether a wait for a process goes on, `late` saying whether the time to wait is over.
/// A process that wrote nothing to its log by then has stalled.
pub fn wait_ready(record: &ProcessRecord, late: bool) -> (r: ReadyWait)
    ensures
        match wait_failure(*record, late) {
            Some(e) => r matches ReadyWait::Failed(x) && x@ == e,
            None => if record.readiness.state == ReadinessState::Ready {
                r is Ready
            } else {
                r is Again
            },
        },
{
    if record.readiness.state == ReadinessState::Ready {
        return ReadyWait::Ready;
    }
    if record.state != ProcessState::Running {
        return ReadyWait::Failed(process_error("PROCESS_EXITED", record, false));
    }
    if record.readiness.state == ReadinessState::Failed {
        return ReadyWait::Failed(process_error("READINESS_MARKER_MISSING", record, true));
    }
    if late {
        let progress = match record.last_log_progress {
            Some(n) => n,
            None => record.log_start_offset,
        };
        let code = if progress <= record.log_start_offset {
            "BUILD_STALLED"
        } else {
            "READINESS_MARKER_MISSING"
        };
        return ReadyWait::Failed(process_error(code, record, true));
    }
    ReadyWait::Again
}

/// What stopping a process asks for.
#[derive(Debug, Clone, Copy, PartialEq, Eq, Structural)]
pub enum Stop {
    /// The process with this number is to be told to stop.
    Signal(u32),
    /// It does not run.
    Settled,
}

/// Decides whether a process that was just looked at is told to stop. One that runs under an
/// identity that is not known to be the recorded one is left alone.
pub fn begin_stop(record: &ProcessRecord) -> (r: Result<Stop, RpcError>)
    ensures
        if record.state != ProcessState::Running {
            r == Ok::<Stop, RpcError>(Stop::Settled)
        } else if !record.identity_verified {
            fails(r, rpc_error("PROCESS_IDENTITY_UNKNOWN"@, "cannot signal an unverified recorded PID"@))
        } else {
            r == Ok::<Stop, RpcError>(Stop::Signal(record.pid))
        },
{
    if record.state == ProcessState::Running {
        if !record.identity_verified {
            return Err(RpcError::new("PROCESS_IDENTITY_UNKNOWN", "cannot signal an unverified recorded PID"));
        }
        Ok(Stop::Signal(record.pid))
    } else {
        Ok(Stop::Settled)
    }
}

impl ProcessRecord {
    /// Takes note that the process was told to stop.
    pub fn stopped(&mut self, now: u64)
        ensures
            *final(self) == (ProcessRecord { state: ProcessState::Stopped, updated_at: now, ..*old(self) }),
    {
        self.state = ProcessState::Stopped;
        self.updated_at = now;
    }
}

/// Whether stopping a record tells a process to stop.
pub open spec fn signals(r: ProcessRecord) -> bool {
    r.state == ProcessState::Running && r.identity_verified
}

/// A process is told to stop only where it runs under the identity that was recorded when it was
/// started: one that has taken over the number of another is never signalled, nor one whose
/// identity was not recorded or cannot be read.
pub proof fn reused_number_is_never_signalled(r: ProcessRecord, alive: bool, current: Option<String>, log: Option<u64>, now: u64)
    ensures
        signals(observed(r, alive, current, log, now)) ==> alive && same_birth(r.birth_identity, current) && r.state
            == ProcessState::Running && observed(r, alive, current, log, now).pid == r.pid,
{
}

/// A record whose process is gone, or whose number another process has, ends as failed, and stays
/// so at every later look.
pub proof fn failed_process_stays_failed(
    r: ProcessRecord,
    alive: bool,
    current: Option<String>,
    log: Option<u64>,
    now: u64,
    again: ProcessRecord,
    alive_again: bool,
    current_again: Option<String>,
    log_again: Option<u64>,
    then: u64,
)
    requires
        r.state == ProcessState::Running,
        !alive || other_birth(r.birth_identity, current),
        same_but_phase(again, observed(r, alive, current, log, now)),
    ensures
        again.state == ProcessState::Failed,
        observed(again, alive_again, current_again, log_again, then).state == ProcessState::Failed,
        !signals(observed(again, alive_again, current_again, log_again, then)),
{
}

/// A tunnel that was ready is asked again at each look.
pub proof fn tunnel_is_asked_again(r: ProcessRecord, current: Option<String>, log: Option<u64>, now: u64)
    requires
        r.state == ProcessState::Running,
        probed_live(r),
        same_birth(r.birth_identity, current),
    ensures
        waits_for_probe(observed(r, true, current, log, now)),
{
}

/// Why a process may not be started, if it may not, `known` being the record of that name as a
/// look at its process left it.
pub open spec fn start_refusal(id: Seq<char>, argv: Seq<String>, known: Option<ProcessRecord>) -> Option<RpcErrorView> {
    if argv.len() == 0 {
        Some(rpc_error("INVALID_PARAMS"@, "argv must not be empty"@))
    } else {
        match known {
            Some(r) => if r.state == ProcessState::Running {
                Some(
                    rpc_error(
                        if r.identity_verified {
                            "PROCESS_ALREADY_RUNNING"@
                        } else {
                            "PROCESS_IDENTITY_UNKNOWN"@
                        },
                        "process "@ + id + " requires reconciliation before replacement"@,
                    ),
                )
            } else {
                None
            },
            None => None,
        }
    }
}

/// Decides whether a process may be started: it has a command, and none of its name runs.
pub fn check_start(id: &str, argv: &Vec<String>, known: Option<&ProcessRecord>) -> (r: Result<(), RpcError>)
    ensures
        match start_refusal(
            id@,
            argv@,
            match known {
                Some(k) => Some(*k),
                None => None,
            },
        ) {
            Some(e) => fails(r, e),
            None => r is Ok,
        },
{
    if argv.len() == 0 {
        return Err(RpcError::new("INVALID_PARAMS", "argv must not be empty"));
    }
    if let Some(record) = known {
        if record.state == ProcessState::Running {
            let code = if record.identity_verified {
                "PROCESS_ALREADY_RUNNING"
            } else {
                "PROCESS_IDENTITY_UNKNOWN"
            };
            return Err(
                RpcError::new(code, concat3("process ", id, " requires reconciliation before replacement").as_str()),
            );
        }
    }
    Ok(())
}

/// What a process is started from.
#[derive(Debug)]
pub struct ProcessStart {
    pub id: String,
    pub cwd: String,
    pub argv: Vec<String>,
    pub env: Vec<(String, String)>,
    pub log_path: String,
    pub readiness: Option<Json>,
    pub restartable: bool,
    pub metadata: Json,
}

/// How long a process may take to become ready, by what it says.
pub open spec fn ready_within(spec: JsonView) -> u64 {
    spec.u64_or("timeoutMs"@, 180_000)
}

/// The record of a process that was started as process `pid`, when its log had `log_start` bytes.
pub open spec fn started_record(
    start: ProcessStart,
    pid: u32,
    birth: Option<String>,
    log_start: u64,
    now: u64,
    phase: String,
) -> ProcessRecord {
    ProcessRecord {
        id: start.id,
        pid,
        birth_identity: birth,
        identity_verified: false,
        observed_at: None,
        cwd: start.cwd,
        argv: start.argv,
        env: start.env,
        restartable: start.restartable,
        metadata: start.metadata,
        log_path: start.log_path,
        log_start_offset: log_start,
        state: ProcessState::Running,
        readiness: ReadinessStatus {
            state: if start.readiness is Some {
                ReadinessState::Pending
            } else {
                ReadinessState::NotConfigured
            },
            attempts: 0,
        },
        phase,
        last_successful_probe_at: None,
        last_log_progress: Some(log_start),
        readiness_spec: start.readiness,
        readiness_deadline_at: match start.readiness {
            Some(spec) => Some(later(now, ready_within(spec@))),
            None => None,
        },
        started_at: now,
        updated_at: now,
    }
}

/// Records a process that was started as process `pid`, when its log had `log_start` bytes.
pub fn started(start: ProcessStart, pid: u32, birth: Option<String>, log_start: u64, now: u64) -> (r: ProcessRecord)
    ensures
        r.phase@ == "STARTING"@,
        r == started_record(start, pid, birth, log_start, now, r.phase),
{
    let deadline = match &start.readiness {
        Some(spec) => Some(end_of(now, spec.u64_or("timeoutMs", 180_000))),
        None => None,
    };
    let state = if start.readiness.is_some() {
        ReadinessState::Pending
    } else {
        ReadinessState::NotConfigured
    };
    ProcessRecord {
        id: start.id,
        pid,
        birth_identity: birth,
        identity_verified: false,
        observed_at: None,
        cwd: start.cwd,
        argv: start.argv,
        env: start.env,
        restartable: start.restartable,
        metadata: start.metadata,
        log_path: start.log_path,
        log_start_offset: log_start,
        state: ProcessState::Running,
        readiness: ReadinessStatus { state, attempts: 0 },
        phase: starting_phase(),
        last_successful_probe_at: None,
        last_log_progress: Some(log_start),
        readiness_spec: start.readiness,
        readiness_deadline_at: deadline,
        started_at: now,
        updated_at: now,
    }
}

/// What a record says a process was started from.
pub open spec fn start_of(record: ProcessRecord) -> ProcessStart {
    ProcessStart {
        id: record.id,
        cwd: record.cwd,
        argv: record.argv,
        env: record.env,
        log_path: record.log_path,
        readiness: record.readiness_spec,
        restartable: true,
        metadata: record.metadata,
    }
}

/// What a process is started from when it is started again; only one that was declared so is.
pub fn restart_of(record: ProcessRecord) -> (r: Result<ProcessStart, RpcError>)
    ensures
        if record.restartable {
            r == Ok::<ProcessStart, RpcError>(start_of(record))
        } else {
            fails(
                r,
                rpc_error("PROCESS_NOT_RESTARTABLE"@, "process was not started from a declared restart template"@),
            )
        },
{
    if !record.restartable {
        return Err(
            RpcError::new("PROCESS_NOT_RESTARTABLE", "process was not started from a declared restart template"),
        );
    }
    Ok(
        ProcessStart {
            id: record.id,
            cwd: record.cwd,
            argv: record.argv,
            env: record.env,
            log_path: record.log_path,
            readiness: record.readiness_spec,
            restartable: true,
            metadata: record.metadata,
        },
    )
}

/// A process that is started again is started from what it was started from before, however often
/// it was looked at in between.
pub proof fn restart_repeats_the_start(
    start: ProcessStart,
    pid: u32,
    birth: Option<String>,
    log_start: u64,
    now: u64,
    phase: String,
    record: ProcessRecord,
    alive: bool,
    current: Option<String>,
    log: Option<u64>,
    then: u64,
)
    requires
        start.restartable,
    ensures
        start_of(started_record(start, pid, birth, log_start, now, phase)) == start,
        start_of(observed(record, alive, current, log, then)) == start_of(record),
{
}

/// The last lines of a log.
pub open spec fn tail_view(content: Seq<char>, tail: nat) -> Seq<Seq<char>> {
    let all = lines_view(content);
    if all.len() <= tail {
        all
    } else {
        all.skip(all.len() - tail)
    }
}

/// Texts as documents.
pub open spec fn texts_view(items: Seq<Seq<char>>) -> JsonView {
    JsonView::Array(Seq::new(items.len(), |i: int| JsonView::Text(items[i])))
}

/// The last lines of a process's log, as a document.
pub fn log_tail(id: &str, path: &str, content: &str, tail: usize) -> (r: Json)
    ensures
        r@ == JsonView::obj().plus("lines"@, texts_view(tail_view(content@, tail as nat))).plus(
            "path"@,
            JsonView::Text(path@),
        ).plus("processId"@, JsonView::Text(id@)),
{
    let all = lines(content);
    let from: usize = if all.len() <= tail {
        0
    } else {
        all.len() - tail
    };
    let ghost shown = tail_view(content@, tail as nat);
    let mut out: Vec<Json> = Vec::new();
    let mut i: usize = from;
    proof {
        assert(views(all@).len() == all@.len());
    }
    while i < all.len()
        invariant
            from <= i <= all@.len(),
            views(all@) == lines_view(content@),
            shown == tail_view(content@, tail as nat),
            from == (if all@.len() <= tail {
                0int
            } else {
                all@.len() - tail
            }),
            views(all@).len() == all@.len(),
            out@.len() == i - from,
            forall|k: int| 0 <= k < out@.len() ==> (#[trigger] out@[k])@ == JsonView::Text(shown[k]),
        decreases all@.len() - i,
    {
        assert(views(all@)[i as int] == all@[i as int]@);
        assert(shown[i - from] == all@[i as int]@);
        out.push(Json::text(all[i].as_str()));
        i += 1;
    }
    assert(crate::json::json_views(out@) =~= texts_view(shown)->Array_0);
    Json::obj().plus("lines", Json::array(out)).plus("path", Json::text(path)).plus("processId", Json::text(id))
}

/// The processes of an executor, in the order of their names.
#[derive(Debug)]
pub struct ProcessTable {
    pub records: Vec<ProcessRecord>,
}

/// Whether records stand in the order of their names, each once.
pub open spec fn in_order(records: Seq<ProcessRecord>) -> bool {
    forall|i: int, k: int|
        0 <= i < k < records.len() ==> text_lt((#[trigger] records[i]).id@, (#[trigger] records[k]).id@)
}

/// Where a name belongs among records, from a position: before the first that is not smaller.
pub open spec fn place_from(records: Seq<ProcessRecord>, id: Seq<char>, from: int) -> int
    decreases records.len() - from,
{
    if from < 0 || from >= records.len() || !text_lt(records[from].id@, id) {
        from
    } else {
        place_from(records, id, from + 1)
    }
}

/// Records with one put in its place, or in the place of the one of its name.
pub open spec fn with_record(records: Seq<ProcessRecord>, r: ProcessRecord) -> Seq<ProcessRecord> {
    let i = place_from(records, r.id@, 0);
    if 0 <= i < records.len() && records[i].id@ == r.id@ {
        records.update(i, r)
    } else {
        records.insert(i, r)
    }
}

proof fn lemma_place(records: Seq<ProcessRecord>, id: Seq<char>, from: int)
    requires
        0 <= from <= records.len(),
    ensures
        from <= place_from(records, id, from) <= records.len(),
        forall|k: int| from <= k < place_from(records, id, from) ==> text_lt((#[trigger] records[k]).id@, id),
        place_from(records, id, from) < records.len() ==> !text_lt(records[place_from(records, id, from)].id@, id),
    decreases records.len() - from,
{
    if from < records.len() && text_lt(records[from].id@, id) {
        lemma_place(records, id, from + 1);
    }
}

proof fn lemma_order_is_unique(records: Seq<ProcessRecord>)
    requires
        in_order(records),
    ensures
        unique(records),
{
    assert forall|i: int, k: int| 0 <= i < k < records.len() implies (#[trigger] records[i]).key_view() != (
    #[trigger] records[k]).key_view() by {
        text_order_is_total(records[i].id@, records[k].id@);
    }
}

/// A record that is put into a table keeps it in order, is found under its name, and changes no
/// other.
pub proof fn recorded_process_is_found(records: Seq<ProcessRecord>, r: ProcessRecord, other: Seq<char>)
    requires
        in_order(records),
    ensures
        in_order(with_record(records, r)),
        find_in(with_record(records, r), r.id@) == Some(r),
        other != r.id@ ==> find_in(with_record(records, r), other) == find_in(records, other),
{
    let p = place_from(records, r.id@, 0);
    let after = with_record(records, r);
    lemma_place(records, r.id@, 0);
    let replaced = p < records.len() && records[p].id@ == r.id@;
    assert forall|i: int, k: int| 0 <= i < k < after.len() implies text_lt((#[trigger] after[i]).id@, (
    #[trigger] after[k]).id@) by {
        if !replaced && i == p {
            let b = records[k - 1];
            text_order_is_total(records[p].id@, r.id@);
            if k - 1 > p {
                text_order_is_transitive(r.id@, records[p].id@, b.id@);
            }
        }
    }
    lemma_order_is_unique(records);
    lemma_order_is_unique(after);
    assert(after[p] == r);
    lemma_position_unique(after, p);
    if other != r.id@ {
        lemma_position_from(records, other, 0);
        lemma_position_from(after, other, 0);
        match position_of(records, other) {
            Some(i) => {
                let k = if !replaced && i >= p {
                    i + 1
                } else {
                    i
                };
                assert(after[k] == records[i]);
                lemma_position_unique(after, k);
            },
            None => {
                if position_of(after, other) is Some {
                    let k = position_of(after, other)->0;
                    let i = if !replaced && k > p {
                        k - 1
                    } else {
                        k
                    };
                    assert(k != p);
                    assert(records[i] == after[k]);
                    assert(records[i].key_view() == other);
                }
            },
        }
    }
}

impl ProcessTable {
    /// Whether the records stand in the order of their names, each once.
    pub open spec fn wf(self) -> bool {
        in_order(self.records@)
    }

    /// A table without processes.
    pub fn new() -> (r: ProcessTable)
        ensures
            r.wf(),
            r.records@.len() == 0,
    {
        ProcessTable { records: Vec::new() }
    }

    /// The position of a process.
    pub fn find(&self, id: &str) -> (r: Result<usize, RpcError>)
        ensures
            match position_of(self.records@, id@) {
                Some(i) => r == Ok::<usize, RpcError>(i as usize) && 0 <= i < self.records@.len()
                    && self.records@[i].id@ == id@ && i <= usize::MAX,
                None => fails(r, unknown("PROCESS_NOT_FOUND"@, "unknown process: "@, id@)),
            },
    {
        proof {
            lemma_position_from(self.records@, id@, 0);
        }
        match crate::table::position(&self.records, id) {
            Some(i) => Ok(i),
            None => Err(unknown_error("PROCESS_NOT_FOUND", "unknown process: ", id)),
        }
    }

    /// Puts a record into the table, in the place of the one of its name where there is one.
    pub fn insert(&mut self, record: ProcessRecord)
        requires
            old(self).wf(),
        ensures
            final(self).wf(),
            final(self).records@ == with_record(old(self).records@, record),
            find_in(final(self).records@, record.id@) == Some(record),
    {
        proof {
            recorded_process_is_found(self.records@, record, record.id@);
            lemma_place(self.records@, record.id@, 0);
        }
        let ghost before = self.records@;
        let mut i: usize = 0;
        while i < self.records.len() && str_lt(self.records[i].id.as_str(), record.id.as_str())
            invariant
                i <= self.records@.len(),
                self.records@ == before,
                place_from(before, record.id@, 0) == place_from(before, record.id@, i as int),
            decreases self.records@.len() - i,
        {
            i += 1;
        }
        if i < self.records.len() && str_eq(self.records[i].id.as_str(), record.id.as_str()) {
            self.records.set(i, record);
        } else {
            self.records.insert(i, record);
        }
    }

    /// Gives a process other metadata.
    pub fn update_metadata(&mut self, id: &str, metadata: Json, now: u64) -> (r: Result<usize, RpcError>)
        requires
            old(self).wf(),
        ensures
            final(self).wf(),
            match position_of(old(self).records@, id@) {
                Some(i) => r == Ok::<usize, RpcError>(i as usize) && final(self).records@ == old(self).records@.update(i, (ProcessRecord { metadata, updated_at: now, ..old(self).records@[i] })),
                None => fails(r, unknown("PROCESS_NOT_FOUND"@, "unknown process: "@, id@)) && *final(self) == *old(self),
            },
    {
        let i = match self.find(id) {
            Ok(i) => i,
            Err(e) => return Err(e),
        };
        self.records[i].metadata = metadata;
        self.records[i].updated_at = now;
        Ok(i)
    }
}

/// Waiting for a process ends well exactly when it is ready; it ends badly when the process is gone,
/// when its readiness failed, or when the time is over, and goes on otherwise.
pub proof fn waiting_ends_with_readiness(r: ProcessRecord, late: bool)
    ensures
        r.readiness.state == ReadinessState::Ready ==> wait_failure(r, late) is None,
        r.readiness.state != ReadinessState::Ready && r.state != ProcessState::Running ==> (wait_failure(r, late) matches Some(
            e,
        ) && e.code == "PROCESS_EXITED"@ && !e.retryable),
        r.state == ProcessState::Running && r.readiness.state == ReadinessState::Failed ==> (wait_failure(r, late) matches Some(
            e,
        ) && e.code == "READINESS_MARKER_MISSING"@ && e.retryable),
        r.state == ProcessState::Running && late && (r.readiness.state == ReadinessState::Pending || r.readiness.state
            == ReadinessState::NotConfigured) ==> (wait_failure(r, late) matches Some(e) && e.retryable),
        r.state == ProcessState::Running && !late && (r.readiness.state == ReadinessState::Pending || r.readiness.state
            == ReadinessState::NotConfigured) ==> wait_failure(r, late) is None,
{
}

/// A process starts only with a command, and only where none of its name runs.
pub proof fn one_process_of_a_name_runs(id: Seq<char>, argv: Seq<String>, known: Option<ProcessRecord>)
    ensures
        start_refusal(id, argv, known) is None == (argv.len() > 0 && !(known matches Some(r) && r.state
            == ProcessState::Running)),
        argv.len() > 0 && (known matches Some(r) && r.state == ProcessState::Running && !r.identity_verified) ==> (
        start_refusal(id, argv, known) matches Some(e) && e.code == "PROCESS_IDENTITY_UNKNOWN"@),
        argv.len() > 0 && (known matches Some(r) && r.state == ProcessState::Running && r.identity_verified) ==> (
        start_refusal(id, argv, known) matches Some(e) && e.code == "PROCESS_ALREADY_RUNNING"@),
{
}

/// A process becomes ready only by a probe that says so, and fails to only by one that is invalid
/// or by its time.
pub proof fn probe_decides_readiness(r: ProcessRecord, probed: Probed, now: u64)
    ensures
        probed_state(r, probed, now) == ReadinessState::Ready && r.readiness.state != ReadinessState::Ready ==> probed
            == Probed::Ready,
        probed == Probed::Ready ==> probed_state(r, probed, now) == ReadinessState::Ready,
        probed_state(r, probed, now) == ReadinessState::Failed && r.readiness.state != ReadinessState::Failed ==> probed
            == Probed::Invalid || (probed == Probed::NotReady && (r.readiness_deadline_at matches Some(t) && t <= now)),
        probed == Probed::Invalid ==> probed_state(r, probed, now) == ReadinessState::Failed,
        probed == Probed::NotReady && (r.readiness_deadline_at matches Some(t) && t <= now) ==> probed_state(
            r,
            probed,
            now,
        ) == ReadinessState::Failed,
{
}

/// A look at a process finds it gone exactly where it ran, and either nothing of its number lives
/// or what lives was born at another time.
pub proof fn look_at_a_process_finds_what_became_of_it(
    r: ProcessRecord,
    alive: bool,
    current: Option<String>,
    log: Option<u64>,
    now: u64,
)
    ensures
        ({
            let o = observed(r, alive, current, log, now);
            &&& o.state == ProcessState::Failed && r.state != ProcessState::Failed <==> r.state == ProcessState::Running
                && (!alive || (r.birth_identity matches Some(a) && (current matches Some(b) && a@ != b@)))
            &&& r.state != ProcessState::Running ==> o.state == r.state
            &&& o.identity_verified == (r.state == ProcessState::Running && alive && (r.birth_identity matches Some(a)
                && (current matches Some(b) && a@ == b@)))
            &&& o.observed_at == Some(now)
            &&& o.id == r.id && o.pid == r.pid && o.argv == r.argv && o.birth_identity == r.birth_identity
        }),
{
}

/// The tail of a log is its last lines, as many as are asked for or as there are.
pub proof fn tail_is_the_end_of_the_log(content: Seq<char>, tail: nat, i: int)
    requires
        0 <= i < tail_view(content, tail).len(),
    ensures
        tail_view(content, tail).len() == (if lines_view(content).len() < tail {
            lines_view(content).len()
        } else {
            tail
        }),
        tail_view(content, tail)[i] == lines_view(content)[lines_view(content).len() - tail_view(content, tail).len()
            + i],
{
}

/// A process that is gone, or whose number another has, is seen to have failed; one that writes to
/// its log is seen to be building; an ended one is seen as it was.
pub proof fn phase_follows_the_process(r: ProcessRecord, alive: bool, current: Option<String>, log: Option<u64>)
    ensures
        r.state != ProcessState::Running ==> observed_phase(r, alive, current, log) == r.phase@,
        r.state == ProcessState::Running && !alive ==> observed_phase(r, alive, current, log) == "FAILED"@,
        r.state == ProcessState::Running && (r.birth_identity matches Some(a) && current matches Some(b) && a@ != b@)
            ==> observed_phase(r, alive, current, log) == "FAILED"@,
        r.state == ProcessState::Running && alive && log is None && !(r.birth_identity matches Some(a) && current matches Some(
            b,
        ) && a@ != b@) ==> observed_phase(r, alive, current, log) == r.phase@,
        r.state == ProcessState::Running && alive && (r.birth_identity matches Some(a) && current matches Some(b) && a@ == b@)
            && (r.last_log_progress matches Some(n) && log matches Some(m) && m > n) ==> observed_phase(r, alive, current, log)
            == "BUILDING"@,
        r.state == ProcessState::Running && alive && (r.birth_identity matches Some(a) && current matches Some(b) && a@ == b@)
            && (r.last_log_progress matches Some(n) && log matches Some(m) && m <= n) ==> observed_phase(r, alive, current, log)
            == r.phase@,
{
}

} // verus!
