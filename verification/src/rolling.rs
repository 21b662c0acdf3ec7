use vstd::prelude::*;
use crate::app::OnTimeout;
use crate::server::{
    Server, ServerStatus, ServerView, StatusView, StatusClass, servers_view, count_class,
    count_in_class, in_class, lemma_count_update,
};

verus! {

/// How long, in milliseconds, a rebooted server is left alone before it is
/// first verified.
pub const SETTLE_DELAY_MS: u64 = 10_000;

/// How long, in milliseconds, to wait after a failed verification before the
/// next one.
pub const RETRY_DELAY_MS: u64 = 5_000;

/// Where the work on one server stands.
#[derive(Debug, Clone, Copy, PartialEq, Eq, Structural)]
pub enum Phase {
    /// Not started.
    Waiting,
    /// The reboot command runs.
    RebootRunning,
    /// The reboot command returned; the server is given time to go down and
    /// come back.
    Settling,
    /// A verification runs; the server has until `deadline` to pass one.
    VerifyRunning { deadline: u64 },
    /// The server has until `deadline` to pass a verification, and its
    /// deadline is checked before the next one: the first, or the one after
    /// the pause that follows a failed verification.
    VerifyPaused { deadline: u64 },
    /// The server succeeded or failed.
    Finished,
}

/// What the program around the scheduler reports.
pub enum Event {
    /// The clock reads `now`: a server may be started.
    Tick { now: u64 },
    /// The reboot command of server `index` returned `result`.
    RebootFinished { index: usize, result: Result<(), String> },
    /// The settling time of server `index` is over; the clock reads `now`.
    Settled { index: usize, now: u64 },
    /// The pause before the next verification of server `index` is over; the
    /// clock reads `now`.
    VerifyDue { index: usize, now: u64 },
    /// A verification of server `index` ended, with success or not.
    VerifyFinished { index: usize, succeeded: bool },
}

/// An event as a mathematical value.
pub enum EventView {
    Tick { now: u64 },
    RebootFinished { index: usize, result: Result<(), Seq<char>> },
    Settled { index: usize, now: u64 },
    VerifyDue { index: usize, now: u64 },
    VerifyFinished { index: usize, succeeded: bool },
}

impl View for Event {
    type V = EventView;

    open spec fn view(&self) -> EventView {
        match self {
            Event::Tick { now } => EventView::Tick { now: *now },
            Event::RebootFinished { index, result } => EventView::RebootFinished {
                index: *index,
                result: match result {
                    Ok(_) => Ok(()),
                    Err(e) => Err(e@),
                },
            },
            Event::Settled { index, now } => EventView::Settled { index: *index, now: *now },
            Event::VerifyDue { index, now } => EventView::VerifyDue { index: *index, now: *now },
            Event::VerifyFinished { index, succeeded } => EventView::VerifyFinished {
                index: *index,
                succeeded: *succeeded,
            },
        }
    }
}

/// What the program around the scheduler is to do next.
#[derive(Debug, Clone, Copy, PartialEq, Eq, Structural)]
pub enum Action {
    /// Nothing for now.
    Wait,
    /// Run the reboot command of server `index`, then report
    /// `RebootFinished`.
    Reboot { index: usize },
    /// Wait `delay_ms`, then report `Settled` for server `index`.
    Settle { index: usize, delay_ms: u64 },
    /// Report `VerifyDue` for server `index` at once: its deadline is checked
    /// before its first verification.
    CheckDeadline { index: usize },
    /// Run the verification of server `index`, then report `VerifyFinished`.
    Verify { index: usize },
    /// Wait `delay_ms`, then report `VerifyDue` for server `index`.
    RetryVerify { index: usize, delay_ms: u64 },
}

/// The state of a rolling reboot as a mathematical value.
#[verifier::ext_equal]
pub struct RollingView {
    pub servers: Seq<ServerView>,
    pub phases: Seq<Phase>,
    pub concurrency: usize,
    pub on_timeout: OnTimeout,
    pub timeout_ms: u64,
    pub stopped: bool,
}

/// Whether a server's status agrees with where the work on it stands.
pub open spec fn phase_matches(st: StatusView, p: Phase) -> bool {
    match p {
        Phase::Waiting => st is Pending,
        Phase::RebootRunning | Phase::Settling => st is Rebooting,
        Phase::VerifyRunning { .. } | Phase::VerifyPaused { .. } => st is Verifying,
        Phase::Finished => st is Success || st is Failed,
    }
}

/// What holds of every state that a rolling reboot reaches: each server's
/// status agrees with its phase; a server has a start time once it has
/// started; no more servers are at work than the concurrency allows; only the
/// `Stop` policy stops, under it every failure has stopped the run, and a
/// stopped run has a failed server; and
/// the servers that have started come before those that have not.
pub open spec fn well_formed(v: RollingView) -> bool {
    &&& v.servers.len() == v.phases.len()
    &&& v.servers.len() <= usize::MAX
    &&& forall|i: int|
        0 <= i < v.servers.len() ==> phase_matches(#[trigger] v.servers[i].status, v.phases[i])
    &&& forall|i: int|
        0 <= i < v.servers.len() ==> ((#[trigger] v.servers[i]).started_at is None <==> v.servers[i].status is Pending)
    &&& count_class(v.servers, StatusClass::Active) <= v.concurrency
    &&& v.stopped ==> v.on_timeout == OnTimeout::Stop
    &&& v.on_timeout == OnTimeout::Stop ==> forall|i: int|
        0 <= i < v.servers.len() && (#[trigger] v.servers[i]).status is Failed ==> v.stopped
    &&& v.stopped ==> exists|i: int| 0 <= i < v.servers.len() && (#[trigger] v.servers[i]).status is Failed
    &&& forall|i: int, j: int|
        0 <= i < j < v.servers.len() && (#[trigger] v.servers[j]).status !is Pending ==> (
        #[trigger] v.servers[i]).status !is Pending
}

/// Whether `i` is the first server that has not started.
pub open spec fn is_first_waiting(s: Seq<ServerView>, i: int) -> bool {
    &&& 0 <= i < s.len()
    &&& s[i].status is Pending
    &&& forall|j: int| 0 <= j < i ==> (#[trigger] s[j]).status !is Pending
}

/// The server that is started next, if one has not started.
pub open spec fn first_waiting(s: Seq<ServerView>) -> Option<int> {
    if exists|i: int| is_first_waiting(s, i) {
        Some(choose|i: int| is_first_waiting(s, i))
    } else {
        None
    }
}

/// The state with server `i` given status `st` and phase `p`, and its start
/// time set to `started`.
pub open spec fn with_server(
    v: RollingView,
    i: int,
    st: StatusView,
    started: Option<u64>,
    p: Phase,
) -> RollingView {
    RollingView {
        servers: v.servers.update(
            i,
            ServerView { status: st, started_at: started, ..v.servers[i] },
        ),
        phases: v.phases.update(i, p),
        ..v
    }
}

/// The state with server `i` failed for `reason`; under the `Stop` policy the
/// run stops.
pub open spec fn with_failure(v: RollingView, i: int, reason: Seq<char>) -> RollingView {
    RollingView {
        stopped: v.stopped || v.on_timeout == OnTimeout::Stop,
        ..with_server(v, i, StatusView::Failed(reason), v.servers[i].started_at, Phase::Finished)
    }
}

/// The deadline for a server whose verification begins at `now`.
pub open spec fn verify_deadline(now: u64, timeout_ms: u64) -> u64 {
    if now + timeout_ms > u64::MAX {
        u64::MAX
    } else {
        (now + timeout_ms) as u64
    }
}

/// The reason given for a server that did not pass a verification in time.
pub open spec fn timeout_reason() -> Seq<char> {
    seq!['t', 'i', 'm', 'e', 'o', 'u', 't']
}

/// The next state and the action that an event leads to. An event that does
/// not fit the state (an index out of range, or a server in another phase)
/// changes nothing and asks for nothing.
pub open spec fn step_spec(v: RollingView, e: EventView) -> (RollingView, Action) {
    match e {
        EventView::Tick { now } => {
            if !v.stopped && count_class(v.servers, StatusClass::Active) < v.concurrency
                && first_waiting(v.servers) is Some {
                let i = first_waiting(v.servers)->0;
                (
                    with_server(v, i, StatusView::Rebooting, Some(now), Phase::RebootRunning),
                    Action::Reboot { index: i as usize },
                )
            } else {
                (v, Action::Wait)
            }
        },
        EventView::RebootFinished { index, result } => {
            if index < v.phases.len() && v.phases[index as int] == Phase::RebootRunning {
                let i = index as int;
                match result {
                    Ok(_) => (
                        with_server(v, i, StatusView::Rebooting, v.servers[i].started_at, Phase::Settling),
                        Action::Settle { index, delay_ms: SETTLE_DELAY_MS },
                    ),
                    Err(reason) => (with_failure(v, i, reason), Action::Wait),
                }
            } else {
                (v, Action::Wait)
            }
        },
        EventView::Settled { index, now } => {
            if index < v.phases.len() && v.phases[index as int] == Phase::Settling {
                let i = index as int;
                let d = verify_deadline(now, v.timeout_ms);
                (
                    with_server(
                        v,
                        i,
                        StatusView::Verifying,
                        v.servers[i].started_at,
                        Phase::VerifyPaused { deadline: d },
                    ),
                    Action::CheckDeadline { index },
                )
            } else {
                (v, Action::Wait)
            }
        },
        EventView::VerifyDue { index, now } => {
            if index < v.phases.len() && v.phases[index as int] is VerifyPaused {
                let i = index as int;
                let d = v.phases[i]->VerifyPaused_deadline;
                if now >= d {
                    (with_failure(v, i, timeout_reason()), Action::Wait)
                } else {
                    (
                        with_server(
                            v,
                            i,
                            StatusView::Verifying,
                            v.servers[i].started_at,
                            Phase::VerifyRunning { deadline: d },
                        ),
                        Action::Verify { index },
                    )
                }
            } else {
                (v, Action::Wait)
            }
        },
        EventView::VerifyFinished { index, succeeded } => {
            if index < v.phases.len() && v.phases[index as int] is VerifyRunning {
                let i = index as int;
                let d = v.phases[i]->VerifyRunning_deadline;
                if succeeded {
                    (
                        with_server(v, i, StatusView::Success, v.servers[i].started_at, Phase::Finished),
                        Action::Wait,
                    )
                } else {
                    (
                        with_server(
                            v,
                            i,
                            StatusView::Verifying,
                            v.servers[i].started_at,
                            Phase::VerifyPaused { deadline: d },
                        ),
                        Action::RetryVerify { index, delay_ms: RETRY_DELAY_MS },
                    )
                }
            } else {
                (v, Action::Wait)
            }
        },
    }
}

/// Law: a server has its whole timeout to pass a verification, counted
/// from the end of its settling pause. After `Settled` at clock `now`, its
/// deadline is `now` plus the timeout (held at the end of the clock where it
/// does not fit). A deadline check at a time before that asks for a
/// verification and keeps the server verifying; one at that time or later
/// fails the server with the reason `timeout`.
pub proof fn lemma_deadline_is_timeout_after_settling(v: RollingView, i: usize, now: u64, t: u64)
    requires
        well_formed(v),
        i < v.servers.len(),
        v.phases[i as int] == Phase::Settling,
    ensures
        ({
            let w = step_spec(v, EventView::Settled { index: i, now }).0;
            let after = step_spec(w, EventView::VerifyDue { index: i, now: t });
            &&& w.phases[i as int] == (Phase::VerifyPaused {
                deadline: if now + v.timeout_ms > u64::MAX {
                    u64::MAX
                } else {
                    (now + v.timeout_ms) as u64
                },
            })
            &&& w.servers[i as int].status is Verifying
            &&& (t < now + v.timeout_ms && t < u64::MAX) ==> after.1 == (Action::Verify { index: i })
                && after.0.servers[i as int].status is Verifying
            &&& t >= now + v.timeout_ms ==> after.1 == Action::Wait && after.0.servers[i as int].status
                == StatusView::Failed("timeout"@)
        }),
{
    reveal_strlit("timeout");
    assert(timeout_reason() =~= "timeout"@);
}

/// Law: a server whose reboot command fails is failed for the reason that
/// the command gave, and its reboot is over.
pub proof fn lemma_reboot_failure_keeps_reason(v: RollingView, i: usize, reason: Seq<char>)
    requires
        well_formed(v),
        i < v.servers.len(),
        v.phases[i as int] == Phase::RebootRunning,
    ensures
        ({
            let (w, a) = step_spec(v, EventView::RebootFinished { index: i, result: Err(reason) });
            &&& w.servers[i as int].status == StatusView::Failed(reason)
            &&& w.phases[i as int] == Phase::Finished
            &&& a == Action::Wait
            &&& w.stopped == (v.stopped || v.on_timeout == OnTimeout::Stop)
        }),
{
}

/// Whether the rolling reboot is over: every server has succeeded or failed,
/// except, once the run has stopped, those that never started.
pub open spec fn is_done(v: RollingView) -> bool {
    forall|i: int|
        0 <= i < v.phases.len() ==> (#[trigger] v.phases[i] == Phase::Finished || (v.stopped
            && v.phases[i] == Phase::Waiting))
}

/// What `first_waiting` picks is the first server that has not started.
pub proof fn lemma_first_waiting(s: Seq<ServerView>)
    ensures
        first_waiting(s) is Some <==> exists|i: int| 0 <= i < s.len() && s[i].status is Pending,
        first_waiting(s) matches Some(i) ==> is_first_waiting(s, i),
{
    if exists|i: int| 0 <= i < s.len() && s[i].status is Pending {
        let k = choose|i: int| 0 <= i < s.len() && s[i].status is Pending;
        lemma_exists_first_waiting(s, k);
    }
}

proof fn lemma_exists_first_waiting(s: Seq<ServerView>, k: int)
    requires
        0 <= k < s.len(),
        s[k].status is Pending,
    ensures
        exists|i: int| is_first_waiting(s, i),
    decreases k,
{
    if forall|j: int| 0 <= j < k ==> (#[trigger] s[j]).status !is Pending {
        assert(is_first_waiting(s, k));
    } else {
        let j = choose|j: int| 0 <= j < k && (#[trigger] s[j]).status is Pending;
        lemma_exists_first_waiting(s, j);
    }
}

/// A server that changes only in status and start time leaves the rest of
/// the state well formed as far as the fields that do not mention statuses go.
proof fn lemma_with_server_counts(
    v: RollingView,
    i: int,
    st: StatusView,
    started: Option<u64>,
    p: Phase,
)
    requires
        0 <= i < v.servers.len(),
    ensures
        ({
            let w = with_server(v, i, st, started, p);
            &&& count_class(w.servers, StatusClass::Active) + (if in_class(
                v.servers[i].status,
                StatusClass::Active,
            ) { 1int } else { 0int }) == count_class(v.servers, StatusClass::Active) + (if in_class(
                st,
                StatusClass::Active,
            ) { 1int } else { 0int })
        }),
{
    lemma_count_update(
        v.servers,
        i,
        ServerView { status: st, started_at: started, ..v.servers[i] },
        StatusClass::Active,
    );
}

/// Law: every step keeps a rolling reboot well formed. In particular no step
/// puts more servers to work than the concurrency allows, a server starts
/// only after every server before it has started, and under the `Stop`
/// policy a failure stops the run.
pub proof fn lemma_step_preserves_well_formed(v: RollingView, e: EventView)
    requires
        well_formed(v),
    ensures
        well_formed(step_spec(v, e).0),
{
    let w = step_spec(v, e).0;
    if v.stopped {
        let k = choose|k: int| 0 <= k < v.servers.len() && (#[trigger] v.servers[k]).status is Failed;
        lemma_step_moves_forward(v, e, k);
        assert(w.servers[k].status is Failed);
    }
    match e {
        EventView::Tick { now } => {
            lemma_first_waiting(v.servers);
            if !v.stopped && count_class(v.servers, StatusClass::Active) < v.concurrency
                && first_waiting(v.servers) is Some {
                let i = first_waiting(v.servers)->0;
                lemma_with_server_counts(v, i, StatusView::Rebooting, Some(now), Phase::RebootRunning);
                assert forall|a: int, b: int|
                    0 <= a < b < w.servers.len() && (#[trigger] w.servers[b]).status !is Pending
                    implies (#[trigger] w.servers[a]).status !is Pending by {
                    if b != i && a != i {
                        assert(v.servers[b] == w.servers[b]);
                        assert(v.servers[a] == w.servers[a]);
                    } else if b == i {
                        assert(v.servers[a] == w.servers[a]);
                    }
                }
                assert forall|k: int| 0 <= k < w.servers.len() implies phase_matches(
                    #[trigger] w.servers[k].status,
                    w.phases[k],
                ) by {
                    if k != i {
                        assert(v.servers[k] == w.servers[k]);
                    }
                }
                assert forall|k: int| 0 <= k < w.servers.len() implies ((#[trigger] w.servers[k]).started_at is None <==> w.servers[k].status is Pending) && (w.servers[k].status is Failed ==> v.servers[k].status is Failed) by {
                    if k != i {
                        assert(v.servers[k] == w.servers[k]);
                    }
                }
            }
        },
        EventView::RebootFinished { index, result } => {
            if index < v.phases.len() && v.phases[index as int] == Phase::RebootRunning {
                let i = index as int;
                assert(phase_matches(v.servers[i].status, v.phases[i]));
                match result {
                    Ok(_) => {
                        lemma_with_server_counts(v, i, StatusView::Rebooting, v.servers[i].started_at, Phase::Settling);
                    },
                    Err(reason) => {
                        lemma_with_server_counts(v, i, StatusView::Failed(reason), v.servers[i].started_at, Phase::Finished);
                    assert(w.servers[i].status is Failed);
                    },
                }
                assert forall|k: int| 0 <= k < w.servers.len() implies phase_matches(
                    #[trigger] w.servers[k].status,
                    w.phases[k],
                ) by {
                    if k != i {
                        assert(v.servers[k] == w.servers[k]);
                    }
                }
            }
        },
        EventView::Settled { index, now } => {
            if index < v.phases.len() && v.phases[index as int] == Phase::Settling {
                let i = index as int;
                assert(phase_matches(v.servers[i].status, v.phases[i]));
                let d = verify_deadline(now, v.timeout_ms);
                lemma_with_server_counts(v, i, StatusView::Verifying, v.servers[i].started_at, Phase::VerifyPaused { deadline: d });
                assert forall|k: int| 0 <= k < w.servers.len() implies phase_matches(
                    #[trigger] w.servers[k].status,
                    w.phases[k],
                ) by {
                    if k != i {
                        assert(v.servers[k] == w.servers[k]);
                    }
                }
            }
        },
        EventView::VerifyDue { index, now } => {
            if index < v.phases.len() && v.phases[index as int] is VerifyPaused {
                let i = index as int;
                assert(phase_matches(v.servers[i].status, v.phases[i]));
                let d = v.phases[i]->VerifyPaused_deadline;
                if now >= d {
                    lemma_with_server_counts(v, i, StatusView::Failed(timeout_reason()), v.servers[i].started_at, Phase::Finished);
                    assert(w.servers[i].status is Failed);
                } else {
                    lemma_with_server_counts(v, i, StatusView::Verifying, v.servers[i].started_at, Phase::VerifyRunning { deadline: d });
                }
                assert forall|k: int| 0 <= k < w.servers.len() implies phase_matches(
                    #[trigger] w.servers[k].status,
                    w.phases[k],
                ) by {
                    if k != i {
                        assert(v.servers[k] == w.servers[k]);
                    }
                }
            }
        },
        EventView::VerifyFinished { index, succeeded } => {
            if index < v.phases.len() && v.phases[index as int] is VerifyRunning {
                let i = index as int;
                assert(phase_matches(v.servers[i].status, v.phases[i]));
                let d = v.phases[i]->VerifyRunning_deadline;
                if succeeded {
                    lemma_with_server_counts(v, i, StatusView::Success, v.servers[i].started_at, Phase::Finished);
                } else {
                    lemma_with_server_counts(v, i, StatusView::Verifying, v.servers[i].started_at, Phase::VerifyPaused { deadline: d });
                }
                assert forall|k: int| 0 <= k < w.servers.len() implies phase_matches(
                    #[trigger] w.servers[k].status,
                    w.phases[k],
                ) by {
                    if k != i {
                        assert(v.servers[k] == w.servers[k]);
                    }
                }
            }
        },
    }
}

/// How far a server has come: waiting, rebooting, verifying, finished.
pub open spec fn progress(st: StatusView) -> nat {
    match st {
        StatusView::Pending => 0,
        StatusView::Rebooting => 1,
        StatusView::Verifying => 2,
        StatusView::Success => 3,
        StatusView::Failed(_) => 3,
    }
}

/// The server that an event is about, where it fits the state: the server
/// that a tick starts, or the one that the event names.
pub open spec fn touched(v: RollingView, e: EventView) -> int {
    match e {
        EventView::Tick { .. } => match first_waiting(v.servers) {
            Some(i) => i,
            None => -1,
        },
        EventView::RebootFinished { index, .. } => index as int,
        EventView::Settled { index, .. } => index as int,
        EventView::VerifyDue { index, .. } => index as int,
        EventView::VerifyFinished { index, .. } => index as int,
    }
}

/// Law: a step changes one server at most, the one the event is about; it
/// keeps every server's name and port and the rules of the run; it moves no
/// status backwards (waiting, rebooting, verifying, finished); and a server
/// that has succeeded or failed stays as it is.
pub proof fn lemma_step_moves_forward(v: RollingView, e: EventView, k: int)
    requires
        well_formed(v),
        0 <= k < v.servers.len(),
    ensures
        ({
            let w = step_spec(v, e).0;
            &&& w.servers.len() == v.servers.len()
            &&& w.servers[k].name == v.servers[k].name
            &&& w.servers[k].port == v.servers[k].port
            &&& progress(w.servers[k].status) >= progress(v.servers[k].status)
            &&& (v.servers[k].status is Success || v.servers[k].status is Failed) ==> w.servers[k]
                == v.servers[k]
            &&& k != touched(v, e) ==> w.servers[k] == v.servers[k] && w.phases[k] == v.phases[k]
            &&& w.concurrency == v.concurrency
            &&& w.on_timeout == v.on_timeout
            &&& w.timeout_ms == v.timeout_ms
        }),
{
    lemma_first_waiting(v.servers);
    assert(phase_matches(v.servers[k].status, v.phases[k]));
    let t = touched(v, e);
    if 0 <= t < v.servers.len() {
        assert(phase_matches(v.servers[t].status, v.phases[t]));
    }
}

/// Law: once the run has stopped it stays stopped, and no server that has
/// not started starts any more. A run stops only under the `Stop` policy, and
/// only in the step that fails a server.
pub proof fn lemma_stop_is_final(v: RollingView, e: EventView)
    requires
        well_formed(v),
    ensures
        ({
            let w = step_spec(v, e).0;
            &&& v.stopped ==> w.stopped
            &&& v.stopped ==> forall|k: int|
                0 <= k < v.servers.len() && (#[trigger] v.servers[k]).status is Pending
                    ==> w.servers[k] == v.servers[k]
            &&& (w.stopped && !v.stopped) ==> v.on_timeout == OnTimeout::Stop && w.servers[touched(
                v,
                e,
            )].status is Failed && v.servers[touched(v, e)].status !is Failed
        }),
{
    lemma_first_waiting(v.servers);
    let t = touched(v, e);
    if 0 <= t < v.servers.len() {
        assert(phase_matches(v.servers[t].status, v.phases[t]));
    }
}

/// Law: a rolling reboot that is over stays as it is, whatever is reported,
/// and asks for nothing more.
pub proof fn lemma_done_is_final(v: RollingView, e: EventView)
    requires
        well_formed(v),
        is_done(v),
    ensures
        step_spec(v, e) == (v, Action::Wait),
{
    lemma_first_waiting(v.servers);
    match e {
        EventView::Tick { .. } => {
            if !v.stopped && first_waiting(v.servers) is Some {
                let i = first_waiting(v.servers)->0;
                assert(v.phases[i] == Phase::Finished || v.phases[i] == Phase::Waiting);
                assert(phase_matches(v.servers[i].status, v.phases[i]));
            }
        },
        EventView::RebootFinished { index, .. } => {
            if index < v.phases.len() {
                assert(v.phases[index as int] == Phase::Finished || v.phases[index as int] == Phase::Waiting);
            }
        },
        EventView::Settled { index, .. } => {
            if index < v.phases.len() {
                assert(v.phases[index as int] == Phase::Finished || v.phases[index as int] == Phase::Waiting);
            }
        },
        EventView::VerifyDue { index, .. } => {
            if index < v.phases.len() {
                assert(v.phases[index as int] == Phase::Finished || v.phases[index as int] == Phase::Waiting);
            }
        },
        EventView::VerifyFinished { index, .. } => {
            if index < v.phases.len() {
                assert(v.phases[index as int] == Phase::Finished || v.phases[index as int] == Phase::Waiting);
            }
        },
    }
}

/// Law: a tick fills a free slot. Where the run has not stopped, fewer
/// servers are at work than the concurrency allows and some server has not
/// started, a tick starts the first such server: it is rebooting from `now`
/// on, and its reboot command is to run.
pub proof fn lemma_tick_fills_free_slot(v: RollingView, now: u64, i: int)
    requires
        well_formed(v),
        !v.stopped,
        count_class(v.servers, StatusClass::Active) < v.concurrency,
        0 <= i < v.servers.len(),
        v.servers[i].status is Pending,
        forall|j: int| 0 <= j < i ==> (#[trigger] v.servers[j]).status !is Pending,
    ensures
        step_spec(v, EventView::Tick { now }).1 == (Action::Reboot { index: i as usize }),
        step_spec(v, EventView::Tick { now }).0.servers[i].status == StatusView::Rebooting,
        step_spec(v, EventView::Tick { now }).0.servers[i].started_at == Some(now),
{
    lemma_first_waiting(v.servers);
    let f = first_waiting(v.servers)->0;
    assert(is_first_waiting(v.servers, i));
    if f < i {
        assert(v.servers[f].status !is Pending);
    } else if f > i {
        assert(v.servers[i].status !is Pending);
    }
}

/// The changes of status that one step may make: none; from waiting to
/// rebooting; from rebooting to verifying or to failed; from verifying to
/// succeeded, or to failed for want of time.
pub open spec fn allowed_change(a: StatusView, b: StatusView) -> bool {
    ||| a == b
    ||| a is Pending && b is Rebooting
    ||| a is Rebooting && b is Verifying
    ||| a is Rebooting && b is Failed
    ||| a is Verifying && b is Success
    ||| a is Verifying && b == StatusView::Failed(timeout_reason())
}

/// Law: each step changes a server's status only along the paths waiting,
/// rebooting, then failed; or waiting, rebooting, verifying, then succeeded
/// or failed for want of time.
pub proof fn lemma_step_status_path(v: RollingView, e: EventView, k: int)
    requires
        well_formed(v),
        0 <= k < v.servers.len(),
    ensures
        allowed_change(v.servers[k].status, step_spec(v, e).0.servers[k].status),
{
    lemma_step_moves_forward(v, e, k);
    assert(phase_matches(v.servers[k].status, v.phases[k]));
}

/// Whether `e` reports that the reboot command of server `i` succeeded.
pub open spec fn reports_reboot_ok(e: EventView, i: usize) -> bool {
    e matches EventView::RebootFinished { index, result } && index == i && result is Ok
}

/// Law: what each action asks for fits the step that asks for it. A reboot
/// is asked for only for a server that had not started and now reboots. The
/// pause before the first verification is `SETTLE_DELAY_MS` and follows only
/// the report that the reboot command of that server succeeded; when it is
/// over, the server is verifying and its deadline is checked. A verification
/// is asked for only for a server that is verifying and whose deadline was
/// checked just before, right after that pause or after the pause that
/// follows a failed verification, which is `RETRY_DELAY_MS`.
pub proof fn lemma_step_actions(v: RollingView, e: EventView)
    requires
        well_formed(v),
    ensures
        ({
            let (w, a) = step_spec(v, e);
            match a {
                Action::Wait => true,
                Action::Reboot { index } => {
                    &&& e is Tick
                    &&& index < v.servers.len()
                    &&& v.servers[index as int].status is Pending
                    &&& w.servers[index as int].status is Rebooting
                    &&& w.phases[index as int] == Phase::RebootRunning
                },
                Action::Settle { index, delay_ms } => {
                    &&& delay_ms == 10_000
                    &&& reports_reboot_ok(e, index)
                    &&& index < v.servers.len()
                    &&& v.phases[index as int] == Phase::RebootRunning
                    &&& w.phases[index as int] == Phase::Settling
                },
                Action::Verify { index } => {
                    &&& index < v.servers.len()
                    &&& w.servers[index as int].status is Verifying
                    &&& w.phases[index as int] is VerifyRunning
                    &&& e is VerifyDue
                    &&& e->VerifyDue_index == index
                    &&& v.phases[index as int] is VerifyPaused
                },
                Action::CheckDeadline { index } => {
                    &&& e is Settled
                    &&& e->Settled_index == index
                    &&& index < v.servers.len()
                    &&& v.phases[index as int] == Phase::Settling
                    &&& w.servers[index as int].status is Verifying
                    &&& w.phases[index as int] is VerifyPaused
                },
                Action::RetryVerify { index, delay_ms } => {
                    &&& delay_ms == 5_000
                    &&& e == EventView::VerifyFinished { index, succeeded: false }
                    &&& index < v.servers.len()
                    &&& v.phases[index as int] is VerifyRunning
                    &&& w.phases[index as int] is VerifyPaused
                },
            }
        }),
{
    lemma_first_waiting(v.servers);
    match e {
        EventView::Tick { now } => {
            if !v.stopped && count_class(v.servers, StatusClass::Active) < v.concurrency
                && first_waiting(v.servers) is Some {
                let i = first_waiting(v.servers)->0;
                assert(is_first_waiting(v.servers, i));
                assert((i as usize) as int == i);
                let w = step_spec(v, e).0;
                assert(w.servers[i].status is Rebooting);
                assert(w.phases[i] == Phase::RebootRunning);
            }
        },
        EventView::RebootFinished { index, result } => {
            if index < v.phases.len() {
                assert(phase_matches(v.servers[index as int].status, v.phases[index as int]));
            }
        },
        EventView::Settled { index, .. } => {
            if index < v.phases.len() {
                assert(phase_matches(v.servers[index as int].status, v.phases[index as int]));
            }
        },
        EventView::VerifyDue { index, .. } => {
            if index < v.phases.len() {
                assert(phase_matches(v.servers[index as int].status, v.phases[index as int]));
            }
        },
        EventView::VerifyFinished { index, .. } => {
            if index < v.phases.len() {
                assert(phase_matches(v.servers[index as int].status, v.phases[index as int]));
            }
        },
    }
}

/// The state after the events `events`, taken in order, and the actions
/// that they ask for.
pub open spec fn run(v: RollingView, events: Seq<EventView>) -> (RollingView, Seq<Action>)
    decreases events.len(),
{
    if events.len() == 0 {
        (v, Seq::empty())
    } else {
        let prev = run(v, events.drop_last());
        let next = step_spec(prev.0, events.last());
        (next.0, prev.1.push(next.1))
    }
}

/// Law: a whole run keeps a rolling reboot well formed, whatever is
/// reported in whatever order. So at every moment at most `concurrency`
/// servers are being rebooted or verified, and the servers, their names and
/// ports, and the rules of the run stay the same.
pub proof fn lemma_run_well_formed(v: RollingView, events: Seq<EventView>)
    requires
        well_formed(v),
    ensures
        well_formed(run(v, events).0),
        count_class(run(v, events).0.servers, StatusClass::Active) <= v.concurrency,
        run(v, events).1.len() == events.len(),
        run(v, events).0.servers.len() == v.servers.len(),
        run(v, events).0.concurrency == v.concurrency,
        run(v, events).0.on_timeout == v.on_timeout,
        run(v, events).0.timeout_ms == v.timeout_ms,
        forall|k: int|
            0 <= k < v.servers.len() ==> (#[trigger] run(v, events).0.servers[k]).name
                == v.servers[k].name && run(v, events).0.servers[k].port == v.servers[k].port,
    decreases events.len(),
{
    if events.len() > 0 {
        let prev = run(v, events.drop_last());
        lemma_run_well_formed(v, events.drop_last());
        lemma_step_preserves_well_formed(prev.0, events.last());
        assert forall|k: int| 0 <= k < v.servers.len() implies (#[trigger] run(
            v,
            events,
        ).0.servers[k]).name == v.servers[k].name && run(v, events).0.servers[k].port
            == v.servers[k].port by {
            lemma_step_moves_forward(prev.0, events.last(), k);
        }
    }
}

/// Law: over a whole run, no status moves backwards, and a server that had
/// succeeded or failed stays as it was.
pub proof fn lemma_run_moves_forward(v: RollingView, events: Seq<EventView>, k: int)
    requires
        well_formed(v),
        0 <= k < v.servers.len(),
    ensures
        progress(run(v, events).0.servers[k].status) >= progress(v.servers[k].status),
        (v.servers[k].status is Success || v.servers[k].status is Failed) ==> run(
            v,
            events,
        ).0.servers[k] == v.servers[k],
    decreases events.len(),
{
    if events.len() > 0 {
        let prev = run(v, events.drop_last());
        lemma_run_moves_forward(v, events.drop_last(), k);
        lemma_run_well_formed(v, events.drop_last());
        lemma_step_moves_forward(prev.0, events.last(), k);
    }
}

/// How many times the actions `acts` ask to reboot server `i`.
pub open spec fn reboots(acts: Seq<Action>, i: usize) -> nat
    decreases acts.len(),
{
    if acts.len() == 0 {
        0
    } else {
        reboots(acts.drop_last(), i) + if acts.last() == (Action::Reboot { index: i }) {
            1nat
        } else {
            0nat
        }
    }
}

/// Law: over a whole run each server is rebooted once at most, and a server
/// that had already started is not rebooted again. A server that still waits
/// at the end has not been rebooted.
pub proof fn lemma_run_reboots_once(v: RollingView, events: Seq<EventView>, i: usize)
    requires
        well_formed(v),
        i < v.servers.len(),
    ensures
        reboots(run(v, events).1, i) <= 1,
        v.servers[i as int].status !is Pending ==> reboots(run(v, events).1, i) == 0,
        run(v, events).0.servers[i as int].status is Pending ==> reboots(run(v, events).1, i) == 0,
    decreases events.len(),
{
    if events.len() > 0 {
        let prev = run(v, events.drop_last());
        let e = events.last();
        lemma_run_reboots_once(v, events.drop_last(), i);
        lemma_run_well_formed(v, events.drop_last());
        lemma_step_moves_forward(prev.0, e, i as int);
        lemma_step_actions(prev.0, e);
        lemma_run_moves_forward(v, events.drop_last(), i as int);
        assert(run(v, events).1.drop_last() =~= prev.1);
        if step_spec(prev.0, e).1 == (Action::Reboot { index: i }) {
            assert(prev.0.servers[i as int].status is Pending);
        }
    }
}

/// Law: once a run has stopped, it stays stopped, every server that had not
/// started never starts, and no reboot is asked for. Under the `Stop` policy
/// a run has stopped as soon as a server has failed (see `well_formed`).
pub proof fn lemma_run_after_stop(v: RollingView, events: Seq<EventView>)
    requires
        well_formed(v),
        v.stopped,
    ensures
        run(v, events).0.stopped,
        forall|k: int|
            0 <= k < v.servers.len() && (#[trigger] v.servers[k]).status is Pending ==> run(
                v,
                events,
            ).0.servers[k] == v.servers[k],
        forall|j: int| 0 <= j < events.len() ==> !(#[trigger] run(v, events).1[j] is Reboot),
    decreases events.len(),
{
    if events.len() > 0 {
        let prev = run(v, events.drop_last());
        let e = events.last();
        lemma_run_after_stop(v, events.drop_last());
        lemma_run_well_formed(v, events.drop_last());
        lemma_stop_is_final(prev.0, e);
        lemma_step_actions(prev.0, e);
        lemma_first_waiting(prev.0.servers);
        assert forall|j: int| 0 <= j < events.len() implies !(#[trigger] run(v, events).1[j] is Reboot) by {
            if j < events.len() - 1 {
                assert(run(v, events).1[j] == prev.1[j]);
            }
        }
    }
}

/// Whether the phase of a server lies between a successful reboot command
/// and the end of its verifications.
pub open spec fn after_reboot(p: Phase) -> bool {
    p == Phase::Settling || p is VerifyRunning || p is VerifyPaused
}

/// Whether, within the first `n` events of a run, the reboot command of
/// server `i` was reported to succeed and the pause before its first
/// verification was asked for.
pub open spec fn reboot_reported_ok(events: Seq<EventView>, acts: Seq<Action>, i: usize, n: int) -> bool {
    exists|j: int|
        0 <= j < n && reports_reboot_ok(#[trigger] events[j], i) && acts[j] == (Action::Settle {
            index: i,
            delay_ms: SETTLE_DELAY_MS,
        })
}

proof fn lemma_run_after_reboot_history(v: RollingView, events: Seq<EventView>, i: usize)
    requires
        well_formed(v),
        i < v.servers.len(),
        !after_reboot(v.phases[i as int]),
    ensures
        after_reboot(run(v, events).0.phases[i as int]) ==> reboot_reported_ok(
            events,
            run(v, events).1,
            i,
            events.len() as int,
        ),
    decreases events.len(),
{
    if events.len() > 0 {
        let n = events.len() - 1;
        let prev = run(v, events.drop_last());
        let e = events.last();
        lemma_run_after_reboot_history(v, events.drop_last(), i);
        lemma_run_well_formed(v, events.drop_last());
        lemma_step_moves_forward(prev.0, e, i as int);
        lemma_step_actions(prev.0, e);
        let acts = run(v, events).1;
        assert(acts.drop_last() =~= prev.1);
        if after_reboot(run(v, events).0.phases[i as int]) {
            if after_reboot(prev.0.phases[i as int]) {
                let j = choose|j: int|
                    0 <= j < n && reports_reboot_ok(#[trigger] events.drop_last()[j], i) && prev.1[j]
                        == (Action::Settle { index: i, delay_ms: SETTLE_DELAY_MS });
                assert(events[j] == events.drop_last()[j]);
                assert(acts[j] == prev.1[j]);
            } else {
                assert(reports_reboot_ok(e, i));
                assert(events[n] == e);
                assert(acts[n] == (Action::Settle { index: i, delay_ms: SETTLE_DELAY_MS }));
            }
        }
    }
}

/// Law: a server is verified only after its reboot command was reported to
/// succeed and the pause of `SETTLE_DELAY_MS` after it was asked for. Where
/// a run from servers that have not started ends by asking to verify server
/// `i`, an earlier event of the run reported the reboot of `i` a success and
/// its action asked for that pause.
pub proof fn lemma_run_verify_after_reboot(v: RollingView, events: Seq<EventView>, i: usize)
    requires
        well_formed(v),
        i < v.servers.len(),
        forall|k: int| 0 <= k < v.phases.len() ==> #[trigger] v.phases[k] == Phase::Waiting,
        events.len() > 0,
        run(v, events).1.last() == (Action::Verify { index: i }),
    ensures
        reboot_reported_ok(events, run(v, events).1, i, events.len() - 1),
{
    let n = events.len() - 1;
    let prev = run(v, events.drop_last());
    let e = events.last();
    lemma_run_well_formed(v, events.drop_last());
    lemma_step_actions(prev.0, e);
    assert(after_reboot(prev.0.phases[i as int]));
    lemma_run_after_reboot_history(v, events.drop_last(), i);
    let acts = run(v, events).1;
    assert(acts.drop_last() =~= prev.1);
    let j = choose|j: int|
        0 <= j < n && reports_reboot_ok(#[trigger] events.drop_last()[j], i) && prev.1[j] == (
        Action::Settle { index: i, delay_ms: SETTLE_DELAY_MS });
    assert(events[j] == events.drop_last()[j]);
    assert(acts[j] == prev.1[j]);
}

/// Law: when a rolling reboot is over and some server never started, the
/// run stopped under the `Stop` policy and some server failed.
pub proof fn lemma_done_with_waiting_has_failure(v: RollingView, k: int)
    requires
        well_formed(v),
        is_done(v),
        0 <= k < v.servers.len(),
        v.servers[k].status is Pending,
    ensures
        v.stopped,
        v.on_timeout == OnTimeout::Stop,
        exists|i: int| 0 <= i < v.servers.len() && (#[trigger] v.servers[i]).status is Failed,
{
    assert(phase_matches(v.servers[k].status, v.phases[k]));
    assert(v.phases[k] == Phase::Finished || (v.stopped && v.phases[k] == Phase::Waiting));
}

/// Whether the work on a server awaits a report: its reboot command, the
/// pause after it, a verification, or the pause before the next one.
pub open spec fn at_work(p: Phase) -> bool {
    ||| p == Phase::RebootRunning
    ||| p == Phase::Settling
    ||| p is VerifyRunning
    ||| p is VerifyPaused
}

/// Law: a rolling reboot that is not over never stalls. Where at least one
/// server may be at work, either some server awaits a report, or a tick
/// starts the next server.
pub proof fn lemma_not_done_has_work(v: RollingView, now: u64)
    requires
        well_formed(v),
        v.concurrency >= 1,
        !is_done(v),
    ensures
        (exists|i: int| 0 <= i < v.phases.len() && at_work(#[trigger] v.phases[i]))
            || step_spec(v, EventView::Tick { now }).1 is Reboot,
{
    if !exists|i: int| 0 <= i < v.phases.len() && at_work(#[trigger] v.phases[i]) {
        let k = choose|k: int|
            0 <= k < v.phases.len() && !(#[trigger] v.phases[k] == Phase::Finished || (v.stopped
                && v.phases[k] == Phase::Waiting));
        assert(!at_work(v.phases[k]));
        assert(v.phases[k] == Phase::Waiting);
        assert(phase_matches(v.servers[k].status, v.phases[k]));
        assert forall|j: int| 0 <= j < v.servers.len() implies !in_class(
            #[trigger] v.servers[j].status,
            StatusClass::Active,
        ) by {
            assert(phase_matches(v.servers[j].status, v.phases[j]));
            assert(!at_work(v.phases[j]));
        }
        lemma_count_none(v.servers, StatusClass::Active);
        lemma_first_waiting(v.servers);
    }
}

/// One more event at the end of a run.
pub proof fn lemma_run_push(v: RollingView, events: Seq<EventView>, e: EventView)
    ensures
        run(v, events.push(e)).0 == step_spec(run(v, events).0, e).0,
        run(v, events.push(e)).1 == run(v, events).1.push(step_spec(run(v, events).0, e).1),
{
    assert(events.push(e).drop_last() =~= events);
}

/// A run of two runs one after the other.
pub proof fn lemma_run_append(v: RollingView, a: Seq<EventView>, b: Seq<EventView>)
    ensures
        run(v, a + b).0 == run(run(v, a).0, b).0,
        run(v, a + b).1 == run(v, a).1 + run(run(v, a).0, b).1,
    decreases b.len(),
{
    if b.len() == 0 {
        assert(a + b =~= a);
        assert(run(v, a).1 + Seq::<Action>::empty() =~= run(v, a).1);
    } else {
        lemma_run_append(v, a, b.drop_last());
        assert((a + b).drop_last() =~= a + b.drop_last());
        assert(run(v, a).1 + run(run(v, a).0, b).1 =~= (run(v, a).1 + run(run(v, a).0, b.drop_last()).1).push(
            run(v, a + b).1.last(),
        ));
    }
}

/// The reports that answer the work on server `i` in phase `p`, each
/// saying that the work succeeded, with the clock reading `now`: the reboot
/// command succeeded, the pause after it is over, the deadline is checked,
/// and a verification passed.
pub open spec fn success_reports(p: Phase, i: usize, now: u64) -> Seq<EventView> {
    let finish = seq![EventView::VerifyFinished { index: i, succeeded: true }];
    let due = seq![EventView::VerifyDue { index: i, now }] + finish;
    let settled = seq![EventView::Settled { index: i, now }] + due;
    match p {
        Phase::RebootRunning => seq![EventView::RebootFinished { index: i, result: Ok(()) }] + settled,
        Phase::Settling => settled,
        Phase::VerifyPaused { .. } => due,
        Phase::VerifyRunning { .. } => finish,
        _ => Seq::empty(),
    }
}

/// Whether the reports of `success_reports` come in time: the deadline
/// that they meet lies after `now`.
pub open spec fn reports_in_time(v: RollingView, p: Phase, now: u64) -> bool {
    match p {
        Phase::RebootRunning | Phase::Settling => now < verify_deadline(now, v.timeout_ms),
        Phase::VerifyPaused { deadline } => now < deadline,
        _ => true,
    }
}

/// Law: answering the work on a server finishes it. After the reports of
/// `success_reports`, the server has succeeded, or failed for want of time;
/// it has succeeded where the reports came in time. No other server
/// changes, and a stopped run stays stopped.
pub proof fn lemma_success_reports_finish(v: RollingView, i: usize, now: u64)
    requires
        well_formed(v),
        i < v.servers.len(),
        at_work(v.phases[i as int]),
    ensures
        ({
            let w = run(v, success_reports(v.phases[i as int], i, now)).0;
            &&& well_formed(w)
            &&& w.phases[i as int] == Phase::Finished
            &&& reports_in_time(v, v.phases[i as int], now) ==> w.servers[i as int].status is Success
            &&& forall|k: int|
                0 <= k < v.servers.len() && k != i ==> #[trigger] w.servers[k] == v.servers[k]
                    && w.phases[k] == v.phases[k]
            &&& v.stopped ==> w.stopped
            &&& (reports_in_time(v, v.phases[i as int], now) && !v.stopped) ==> !w.stopped
            &&& w.phases.len() == v.phases.len()
            &&& w.concurrency == v.concurrency
            &&& w.timeout_ms == v.timeout_ms
        }),
{
    let ii = i as int;
    let p = v.phases[ii];
    let evs = success_reports(p, i, now);
    lemma_run_well_formed(v, evs);
    let finish = seq![EventView::VerifyFinished { index: i, succeeded: true }];
    let due = seq![EventView::VerifyDue { index: i, now }] + finish;
    let settled = seq![EventView::Settled { index: i, now }] + due;
    let e_reboot = EventView::RebootFinished { index: i, result: Ok(()) };
    let e_settled = EventView::Settled { index: i, now };
    let e_due = EventView::VerifyDue { index: i, now };
    let e_fin = EventView::VerifyFinished { index: i, succeeded: true };
    // Walks the reports one by one from the state `s`, whose server `i` is
    // in the phase that the first of them answers.
    if p == Phase::RebootRunning {
        let s1 = step_spec(v, e_reboot).0;
        let s2 = step_spec(s1, e_settled).0;
        let s3 = step_spec(s2, e_due).0;
        let s4 = step_spec(s3, e_fin).0;
        assert(evs =~= seq![e_reboot, e_settled, e_due, e_fin]);
        lemma_run_push(v, Seq::empty(), e_reboot);
        assert(Seq::<EventView>::empty().push(e_reboot) =~= seq![e_reboot]);
        lemma_run_push(v, seq![e_reboot], e_settled);
        assert(seq![e_reboot].push(e_settled) =~= seq![e_reboot, e_settled]);
        lemma_run_push(v, seq![e_reboot, e_settled], e_due);
        assert(seq![e_reboot, e_settled].push(e_due) =~= seq![e_reboot, e_settled, e_due]);
        lemma_run_push(v, seq![e_reboot, e_settled, e_due], e_fin);
        assert(seq![e_reboot, e_settled, e_due].push(e_fin) =~= evs);
        assert(run(v, evs).0 == s4);
    } else if p == Phase::Settling {
        let s2 = step_spec(v, e_settled).0;
        let s3 = step_spec(s2, e_due).0;
        let s4 = step_spec(s3, e_fin).0;
        assert(evs =~= seq![e_settled, e_due, e_fin]);
        lemma_run_push(v, Seq::empty(), e_settled);
        assert(Seq::<EventView>::empty().push(e_settled) =~= seq![e_settled]);
        lemma_run_push(v, seq![e_settled], e_due);
        assert(seq![e_settled].push(e_due) =~= seq![e_settled, e_due]);
        lemma_run_push(v, seq![e_settled, e_due], e_fin);
        assert(seq![e_settled, e_due].push(e_fin) =~= evs);
        assert(run(v, evs).0 == s4);
    } else if p is VerifyPaused {
        let s3 = step_spec(v, e_due).0;
        let s4 = step_spec(s3, e_fin).0;
        assert(evs =~= seq![e_due, e_fin]);
        lemma_run_push(v, Seq::empty(), e_due);
        assert(Seq::<EventView>::empty().push(e_due) =~= seq![e_due]);
        lemma_run_push(v, seq![e_due], e_fin);
        assert(seq![e_due].push(e_fin) =~= evs);
        assert(run(v, evs).0 == s4);
    } else {
        assert(evs =~= seq![e_fin]);
        lemma_run_push(v, Seq::empty(), e_fin);
        assert(Seq::<EventView>::empty().push(e_fin) =~= evs);
    }
}

/// How much work is left on server `k`: none once it has finished or once
/// the run has stopped before it started; one answer for a server at work;
/// a start and an answer for a server still to start.
pub open spec fn work_left(v: RollingView, k: int) -> nat {
    if v.phases[k] == Phase::Finished || (v.phases[k] == Phase::Waiting && v.stopped) {
        0
    } else if v.phases[k] == Phase::Waiting {
        2
    } else {
        1
    }
}

/// The work left on the first `n` servers.
pub open spec fn work_upto(v: RollingView, n: nat) -> nat
    decreases n,
{
    if n == 0 {
        0
    } else {
        work_upto(v, (n - 1) as nat) + work_left(v, n - 1)
    }
}

proof fn lemma_work_le(v: RollingView, w: RollingView, n: nat)
    requires
        v.phases.len() >= n,
        w.phases.len() >= n,
        forall|k: int| 0 <= k < n ==> #[trigger] work_left(w, k) <= work_left(v, k),
    ensures
        work_upto(w, n) <= work_upto(v, n),
    decreases n,
{
    if n > 0 {
        lemma_work_le(v, w, (n - 1) as nat);
    }
}

proof fn lemma_work_less(v: RollingView, w: RollingView, n: nat, j: int)
    requires
        v.phases.len() >= n,
        w.phases.len() >= n,
        forall|k: int| 0 <= k < n ==> #[trigger] work_left(w, k) <= work_left(v, k),
        0 <= j < n,
        work_left(w, j) < work_left(v, j),
    ensures
        work_upto(w, n) < work_upto(v, n),
    decreases n,
{
    if j == n - 1 {
        lemma_work_le(v, w, (n - 1) as nat);
    } else {
        lemma_work_less(v, w, (n - 1) as nat, j);
    }
}

/// Whether `e` is an event that a driver sends when every command succeeds
/// and the clock reads `now`.
pub open spec fn success_event(e: EventView, now: u64) -> bool {
    ||| e == EventView::Tick { now }
    ||| e matches EventView::RebootFinished { result, .. } && result is Ok
    ||| e matches EventView::Settled { now: t, .. } && t == now
    ||| e matches EventView::VerifyDue { now: t, .. } && t == now
    ||| e matches EventView::VerifyFinished { succeeded, .. } && succeeded
}

/// Whether no server has failed nor is past its reboot command yet: each
/// waits, runs its reboot command, or has succeeded, and the run has not
/// stopped. A new rolling reboot is so.
pub open spec fn clean_start(v: RollingView) -> bool {
    &&& !v.stopped
    &&& forall|k: int|
        0 <= k < v.phases.len() ==> (#[trigger] v.phases[k] == Phase::Waiting || v.phases[k]
            == Phase::RebootRunning || (v.phases[k] == Phase::Finished && v.servers[k].status
            is Success))
}

/// Law: a rolling reboot that may keep a server at work comes to its end
/// when its actions are answered. From any well-formed state with a
/// concurrency of at least one, ticks and the success reports that answer
/// each server at work (see `success_reports`), all at clock time `now`,
/// make the run over. Where no server has failed nor is past its reboot
/// command, and the deadlines lie after `now` (a timeout above zero, and a
/// clock short of its end), every server ends up succeeded.
pub proof fn lemma_success_reports_reach_done(v: RollingView, now: u64) -> (events: Seq<EventView>)
    requires
        well_formed(v),
        v.concurrency >= 1,
    ensures
        is_done(run(v, events).0),
        forall|j: int| 0 <= j < events.len() ==> success_event(#[trigger] events[j], now),
        (clean_start(v) && v.timeout_ms > 0 && now < u64::MAX) ==> forall|k: int|
            0 <= k < v.servers.len() ==> (#[trigger] run(v, events).0.servers[k]).status is Success,
    decreases work_upto(v, v.phases.len() as nat),
{
    let n = v.phases.len();
    let timely = clean_start(v) && v.timeout_ms > 0 && now < u64::MAX;
    if is_done(v) {
        let events = Seq::<EventView>::empty();
        assert(run(v, events).0 == v);
        if timely {
            assert forall|k: int| 0 <= k < v.servers.len() implies (#[trigger] run(v, events).0.servers[k]).status is Success by {
                assert(v.phases[k] == Phase::Finished || (v.stopped && v.phases[k] == Phase::Waiting));
            }
        }
        events
    } else if exists|i: int| 0 <= i < n && at_work(#[trigger] v.phases[i]) {
        let i = choose|i: int| 0 <= i < n && at_work(#[trigger] v.phases[i]);
        let iu = i as usize;
        let a = success_reports(v.phases[i], iu, now);
        lemma_success_reports_finish(v, iu, now);
        let w = run(v, a).0;
        assert forall|k: int| 0 <= k < n implies #[trigger] work_left(w, k) <= work_left(v, k) by {
            if k != i {
                assert(w.servers[k] == v.servers[k]);
                assert(w.phases[k] == v.phases[k]);
            }
        }
        lemma_work_less(v, w, n as nat, i);
        if timely {
            assert(v.phases[i] == Phase::RebootRunning);
            assert(reports_in_time(v, v.phases[i], now));
            assert forall|k: int| 0 <= k < w.phases.len() implies (#[trigger] w.phases[k] == Phase::Waiting || w.phases[k]
                == Phase::RebootRunning || (w.phases[k] == Phase::Finished && w.servers[k].status
                is Success)) by {
                if k != i {
                    assert(w.servers[k] == v.servers[k]);
                    assert(w.phases[k] == v.phases[k]);
                }
            }
            assert(clean_start(w));
        }
        let rest = lemma_success_reports_reach_done(w, now);
        lemma_run_append(v, a, rest);
        let events = a + rest;
        if timely {
            assert forall|k: int| 0 <= k < v.servers.len() implies (#[trigger] run(v, events).0.servers[k]).status is Success by {
                assert(run(v, events).0.servers[k] == run(w, rest).0.servers[k]);
            }
        }
        assert forall|j: int| 0 <= j < events.len() implies success_event(#[trigger] events[j], now) by {
            if j < a.len() {
                assert(events[j] == a[j]);
            } else {
                assert(events[j] == rest[j - a.len()]);
            }
        }
        events
    } else {
        let e = EventView::Tick { now };
        lemma_not_done_has_work(v, now);
        lemma_step_actions(v, e);
        lemma_step_preserves_well_formed(v, e);
        lemma_first_waiting(v.servers);
        let w = step_spec(v, e).0;
        let idx = step_spec(v, e).1->Reboot_index as int;
        assert(touched(v, e) == idx);
        assert forall|k: int| 0 <= k < n implies #[trigger] work_left(w, k) <= work_left(v, k) by {
            lemma_step_moves_forward(v, e, k);
        }
        assert(work_left(w, idx) < work_left(v, idx));
        lemma_work_less(v, w, n as nat, idx);
        if timely {
            assert forall|k: int| 0 <= k < w.phases.len() implies (#[trigger] w.phases[k] == Phase::Waiting || w.phases[k]
                == Phase::RebootRunning || (w.phases[k] == Phase::Finished && w.servers[k].status
                is Success)) by {
                lemma_step_moves_forward(v, e, k);
            }
            assert(clean_start(w));
        }
        let rest = lemma_success_reports_reach_done(w, now);
        let first = seq![e];
        lemma_run_push(v, Seq::empty(), e);
        assert(Seq::<EventView>::empty().push(e) =~= first);
        lemma_run_append(v, first, rest);
        let events = first + rest;
        if timely {
            assert forall|k: int| 0 <= k < v.servers.len() implies (#[trigger] run(v, events).0.servers[k]).status is Success by {
                assert(run(v, events).0.servers[k] == run(w, rest).0.servers[k]);
            }
        }
        assert forall|j: int| 0 <= j < events.len() implies success_event(#[trigger] events[j], now) by {
            if j == 0 {
                assert(events[j] == e);
            } else {
                assert(events[j] == rest[j - 1]);
            }
        }
        events
    }
}

/// A rolling reboot: the servers, where the work on each stands, and the
/// rules it runs by.
pub struct RollingReboot {
    servers: Vec<Server>,
    phases: Vec<Phase>,
    concurrency: usize,
    on_timeout: OnTimeout,
    timeout_ms: u64,
    stopped: bool,
}

impl View for RollingReboot {
    type V = RollingView;

    closed spec fn view(&self) -> RollingView {
        RollingView {
            servers: servers_view(self.servers@),
            phases: self.phases@,
            concurrency: self.concurrency,
            on_timeout: self.on_timeout,
            timeout_ms: self.timeout_ms,
            stopped: self.stopped,
        }
    }
}


/// Counting a class in servers none of which is of that class gives zero.
proof fn lemma_count_none(s: Seq<ServerView>, c: StatusClass)
    requires
        forall|i: int| 0 <= i < s.len() ==> !in_class(#[trigger] s[i].status, c),
    ensures
        count_class(s, c) == 0,
    decreases s.len(),
{
    if s.len() > 0 {
        assert(!in_class(s[s.len() - 1].status, c));
        lemma_count_none(s.drop_last(), c);
    }
}

impl RollingReboot {
    /// A rolling reboot of `servers`, none of which has started, that keeps
    /// at most `concurrency` of them at work and gives each `timeout_ms`
    /// milliseconds to pass a verification.
    pub fn new(servers: Vec<Server>, concurrency: usize, on_timeout: OnTimeout, timeout_ms: u64) -> (r: Self)
        ensures
            well_formed(r@),
            r@.servers.len() == servers.len(),
            forall|i: int|
                0 <= i < servers.len() ==> (#[trigger] r@.servers[i]) == (ServerView {
                    name: servers@[i]@.name,
                    port: servers@[i]@.port,
                    status: StatusView::Pending,
                    started_at: None,
                }),
            forall|i: int| 0 <= i < servers.len() ==> #[trigger] r@.phases[i] == Phase::Waiting,
            r@.concurrency == concurrency,
            r@.on_timeout == on_timeout,
            r@.timeout_ms == timeout_ms,
            !r@.stopped,
            clean_start(r@),
    {
        let mut fresh: Vec<Server> = Vec::new();
        let mut phases: Vec<Phase> = Vec::new();
        let mut i: usize = 0;
        while i < servers.len()
            invariant
                i <= servers.len(),
                fresh.len() == i,
                phases.len() == i,
                forall|k: int|
                    0 <= k < i ==> (#[trigger] fresh@[k])@ == (ServerView {
                        name: servers@[k]@.name,
                        port: servers@[k]@.port,
                        status: StatusView::Pending,
                        started_at: None,
                    }),
                forall|k: int| 0 <= k < i ==> #[trigger] phases@[k] == Phase::Waiting,
            decreases servers.len() - i,
        {
            let name = servers[i].name.clone();
            fresh.push(Server::new(name, servers[i].port));
            phases.push(Phase::Waiting);
            i = i + 1;
        }
        let r = RollingReboot {
            servers: fresh,
            phases,
            concurrency,
            on_timeout,
            timeout_ms,
            stopped: false,
        };
        proof {
            lemma_count_none(r@.servers, StatusClass::Active);
        }
        r
    }

    /// The servers and their statuses.
    pub fn servers(&self) -> (r: &Vec<Server>)
        ensures
            servers_view(r@) == self@.servers,
    {
        &self.servers
    }

    /// How many servers may be at work at once.
    pub fn concurrency(&self) -> (r: usize)
        ensures
            r == self@.concurrency,
    {
        self.concurrency
    }

    /// Whether the run has stopped on a failure.
    pub fn stopped(&self) -> (r: bool)
        ensures
            r == self@.stopped,
    {
        self.stopped
    }

    /// Whether the rolling reboot is over (see `is_done`).
    pub fn is_done(&self) -> (r: bool)
        requires
            well_formed(self@),
        ensures
            r == is_done(self@),
    {
        let mut i: usize = 0;
        while i < self.phases.len()
            invariant
                i <= self.phases.len(),
                self.phases@ == self@.phases,
                self.stopped == self@.stopped,
                forall|k: int|
                    0 <= k < i ==> (#[trigger] self.phases@[k] == Phase::Finished || (self.stopped
                        && self.phases@[k] == Phase::Waiting)),
            decreases self.phases.len() - i,
        {
            let p = self.phases[i];
            if !(p == Phase::Finished || (self.stopped && p == Phase::Waiting)) {
                return false;
            }
            i = i + 1;
        }
        true
    }

    /// Gives server `i` status `status`, start time `started_at` and phase `p`.
    fn set_server(&mut self, i: usize, status: ServerStatus, started_at: Option<u64>, p: Phase)
        requires
            i < old(self).servers.len(),
            old(self).servers.len() == old(self).phases.len(),
        ensures
            final(self)@ == with_server(old(self)@, i as int, status@, started_at, p),
            final(self).servers.len() == final(self).phases.len(),
    {
        let name = self.servers[i].name.clone();
        let port = self.servers[i].port;
        let server = Server { name, port, status, started_at };
        self.servers.set(i, server);
        self.phases.set(i, p);
        proof {
            assert(servers_view(self.servers@) =~= servers_view(old(self).servers@).update(
                i as int,
                server@,
            ));
        }
    }

    /// Fails server `i` for `reason`; under the `Stop` policy the run stops.
    fn fail_server(&mut self, i: usize, reason: String)
        requires
            i < old(self).servers.len(),
            old(self).servers.len() == old(self).phases.len(),
        ensures
            final(self)@ == with_failure(old(self)@, i as int, reason@),
            final(self).servers.len() == final(self).phases.len(),
    {
        let started = self.servers[i].started_at;
        self.set_server(i, ServerStatus::Failed(reason), started, Phase::Finished);
        if self.on_timeout == OnTimeout::Stop {
            self.stopped = true;
        }
    }

    /// The index of the first server that has not started, if any.
    fn first_waiting_index(&self) -> (r: Option<usize>)
        requires
            well_formed(self@),
        ensures
            r matches Some(i) ==> first_waiting(self@.servers) == Some(i as int),
            r is None ==> first_waiting(self@.servers) is None,
    {
        proof {
            lemma_first_waiting(self@.servers);
        }
        let mut i: usize = 0;
        while i < self.servers.len()
            invariant
                i <= self.servers.len(),
                servers_view(self.servers@) == self@.servers,
                forall|j: int| 0 <= j < i ==> (#[trigger] self@.servers[j]).status !is Pending,
            decreases self.servers.len() - i,
        {
            if matches!(self.servers[i].status, ServerStatus::Pending) {
                assert(is_first_waiting(self@.servers, i as int));
                return Some(i);
            }
            i = i + 1;
        }
        None
    }

    /// The reason recorded for a server that did not pass in time.
    fn timeout_reason_string() -> (r: String)
        ensures
            r@ == timeout_reason(),
    {
        let r = String::from_str("timeout");
        proof {
            reveal_strlit("timeout");
            assert(r@ =~= timeout_reason());
        }
        r
    }

    /// Takes in one event and gives the action that follows from it (see
    /// `step_spec`).
    pub fn step(&mut self, event: Event) -> (action: Action)
        requires
            well_formed(old(self)@),
        ensures
            well_formed(final(self)@),
            (final(self)@, action) == step_spec(old(self)@, event@),
    {
        proof {
            lemma_step_preserves_well_formed(self@, event@);
        }
        let n = self.servers.len();
        match event {
            Event::Tick { now } => {
                if self.stopped {
                    return Action::Wait;
                }
                let active = count_in_class(&self.servers, StatusClass::Active);
                if active >= self.concurrency {
                    return Action::Wait;
                }
                match self.first_waiting_index() {
                    Some(i) => {
                        self.set_server(i, ServerStatus::Rebooting, Some(now), Phase::RebootRunning);
                        Action::Reboot { index: i }
                    },
                    None => Action::Wait,
                }
            },
            Event::RebootFinished { index, result } => {
                if index >= n || self.phases[index] != Phase::RebootRunning {
                    return Action::Wait;
                }
                match result {
                    Ok(()) => {
                        let started = self.servers[index].started_at;
                        self.set_server(index, ServerStatus::Rebooting, started, Phase::Settling);
                        Action::Settle { index, delay_ms: SETTLE_DELAY_MS }
                    },
                    Err(reason) => {
                        self.fail_server(index, reason);
                        Action::Wait
                    },
                }
            },
            Event::Settled { index, now } => {
                if index >= n || self.phases[index] != Phase::Settling {
                    return Action::Wait;
                }
                let deadline = now.saturating_add(self.timeout_ms);
                let started = self.servers[index].started_at;
                self.set_server(index, ServerStatus::Verifying, started, Phase::VerifyPaused { deadline });
                Action::CheckDeadline { index }
            },
            Event::VerifyDue { index, now } => {
                if index >= n {
                    return Action::Wait;
                }
                match self.phases[index] {
                    Phase::VerifyPaused { deadline } => {
                        if now >= deadline {
                            self.fail_server(index, Self::timeout_reason_string());
                            Action::Wait
                        } else {
                            let started = self.servers[index].started_at;
                            self.set_server(index, ServerStatus::Verifying, started, Phase::VerifyRunning { deadline });
                            Action::Verify { index }
                        }
                    },
                    _ => Action::Wait,
                }
            },
            Event::VerifyFinished { index, succeeded } => {
                if index >= n {
                    return Action::Wait;
                }
                match self.phases[index] {
                    Phase::VerifyRunning { deadline } => {
                        let started = self.servers[index].started_at;
                        if succeeded {
                            self.set_server(index, ServerStatus::Success, started, Phase::Finished);
                            Action::Wait
                        } else {
                            self.set_server(index, ServerStatus::Verifying, started, Phase::VerifyPaused { deadline });
                            Action::RetryVerify { index, delay_ms: RETRY_DELAY_MS }
                        }
                    },
                    _ => Action::Wait,
                }
            },
        }
    }
}

} // verus!
