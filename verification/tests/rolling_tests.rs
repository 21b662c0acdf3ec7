use rolling_reboot::app::{App, OnTimeout};
use rolling_reboot::rolling::{Action, Event, RollingReboot, RETRY_DELAY_MS, SETTLE_DELAY_MS};
use rolling_reboot::server::{Server, ServerStatus};

fn fleet(names: &[&str]) -> Vec<Server> {
    names.iter().map(|n| Server::new(n.to_string(), 22)).collect()
}

fn statuses(r: &RollingReboot) -> Vec<ServerStatus> {
    r.servers().iter().map(|s| s.status.clone()).collect()
}

fn count_active(r: &RollingReboot) -> usize {
    r.servers()
        .iter()
        .filter(|s| matches!(s.status, ServerStatus::Rebooting | ServerStatus::Verifying))
        .count()
}

#[test]
fn new_resets_every_server() {
    let mut servers = fleet(&["a", "b"]);
    servers[1].status = ServerStatus::Success;
    servers[1].started_at = Some(5);
    let r = RollingReboot::new(servers, 1, OnTimeout::Stop, 1000);
    assert_eq!(statuses(&r), vec![ServerStatus::Pending, ServerStatus::Pending]);
    assert!(r.servers().iter().all(|s| s.started_at.is_none()));
    assert_eq!(r.concurrency(), 1);
    assert!(!r.stopped());
    assert!(!r.is_done());
}

#[test]
fn one_server_full_cycle() {
    let mut r = RollingReboot::new(fleet(&["a"]), 1, OnTimeout::Stop, 60_000);
    assert_eq!(r.step(Event::Tick { now: 100 }), Action::Reboot { index: 0 });
    assert_eq!(r.servers()[0].status, ServerStatus::Rebooting);
    assert_eq!(r.servers()[0].started_at, Some(100));
    assert_eq!(
        r.step(Event::RebootFinished { index: 0, result: Ok(()) }),
        Action::Settle { index: 0, delay_ms: SETTLE_DELAY_MS }
    );
    assert_eq!(r.servers()[0].status, ServerStatus::Rebooting);
    assert_eq!(r.step(Event::Settled { index: 0, now: 10_100 }), Action::CheckDeadline { index: 0 });
    assert_eq!(r.servers()[0].status, ServerStatus::Verifying);
    assert_eq!(r.step(Event::VerifyDue { index: 0, now: 10_100 }), Action::Verify { index: 0 });
    assert_eq!(r.servers()[0].status, ServerStatus::Verifying);
    assert_eq!(
        r.step(Event::VerifyFinished { index: 0, succeeded: false }),
        Action::RetryVerify { index: 0, delay_ms: RETRY_DELAY_MS }
    );
    assert_eq!(r.step(Event::VerifyDue { index: 0, now: 15_100 }), Action::Verify { index: 0 });
    assert_eq!(r.step(Event::VerifyFinished { index: 0, succeeded: true }), Action::Wait);
    assert_eq!(r.servers()[0].status, ServerStatus::Success);
    assert_eq!(r.servers()[0].started_at, Some(100));
    assert!(r.is_done());
    assert_eq!(r.step(Event::Tick { now: 20_000 }), Action::Wait);
}

#[test]
fn concurrency_limits_active_servers() {
    let mut r = RollingReboot::new(fleet(&["a", "b", "c"]), 2, OnTimeout::Continue, 60_000);
    assert_eq!(r.step(Event::Tick { now: 0 }), Action::Reboot { index: 0 });
    assert_eq!(r.step(Event::Tick { now: 0 }), Action::Reboot { index: 1 });
    assert_eq!(r.step(Event::Tick { now: 0 }), Action::Wait);
    assert_eq!(count_active(&r), 2);
    r.step(Event::RebootFinished { index: 1, result: Err("boom".to_string()) });
    assert_eq!(r.servers()[1].status, ServerStatus::Failed("boom".to_string()));
    assert!(!r.stopped());
    assert_eq!(r.step(Event::Tick { now: 1 }), Action::Reboot { index: 2 });
    assert_eq!(count_active(&r), 2);
}

#[test]
fn zero_concurrency_never_starts() {
    let mut r = RollingReboot::new(fleet(&["a"]), 0, OnTimeout::Stop, 60_000);
    assert_eq!(r.step(Event::Tick { now: 0 }), Action::Wait);
    assert!(!r.is_done());
}

#[test]
fn stop_policy_stops_after_failure() {
    let mut r = RollingReboot::new(fleet(&["a", "b"]), 1, OnTimeout::Stop, 60_000);
    r.step(Event::Tick { now: 0 });
    assert_eq!(
        r.step(Event::RebootFinished { index: 0, result: Err("reboot command failed: denied".to_string()) }),
        Action::Wait
    );
    assert!(r.stopped());
    assert_eq!(r.step(Event::Tick { now: 5 }), Action::Wait);
    assert_eq!(
        statuses(&r),
        vec![ServerStatus::Failed("reboot command failed: denied".to_string()), ServerStatus::Pending]
    );
    assert!(r.is_done());
}

#[test]
fn continue_policy_goes_on_after_timeout() {
    let mut r = RollingReboot::new(fleet(&["a", "b"]), 1, OnTimeout::Continue, 1_000);
    r.step(Event::Tick { now: 0 });
    r.step(Event::RebootFinished { index: 0, result: Ok(()) });
    r.step(Event::Settled { index: 0, now: 10_000 });
    r.step(Event::VerifyDue { index: 0, now: 10_000 });
    r.step(Event::VerifyFinished { index: 0, succeeded: false });
    assert_eq!(r.step(Event::VerifyDue { index: 0, now: 11_000 }), Action::Wait);
    assert_eq!(r.servers()[0].status, ServerStatus::Failed("timeout".to_string()));
    assert!(!r.stopped());
    assert_eq!(r.step(Event::Tick { now: 11_000 }), Action::Reboot { index: 1 });
}

#[test]
fn verify_due_before_deadline_verifies_again() {
    let mut r = RollingReboot::new(fleet(&["a"]), 1, OnTimeout::Stop, 1_000);
    r.step(Event::Tick { now: 0 });
    r.step(Event::RebootFinished { index: 0, result: Ok(()) });
    r.step(Event::Settled { index: 0, now: 10_000 });
    r.step(Event::VerifyDue { index: 0, now: 10_000 });
    r.step(Event::VerifyFinished { index: 0, succeeded: false });
    assert_eq!(r.step(Event::VerifyDue { index: 0, now: 10_999 }), Action::Verify { index: 0 });
}

#[test]
fn zero_timeout_fails_at_once() {
    let mut r = RollingReboot::new(fleet(&["a", "b"]), 1, OnTimeout::Stop, 0);
    r.step(Event::Tick { now: 0 });
    r.step(Event::RebootFinished { index: 0, result: Ok(()) });
    assert_eq!(r.step(Event::Settled { index: 0, now: 10_000 }), Action::CheckDeadline { index: 0 });
    assert_eq!(r.servers()[0].status, ServerStatus::Verifying);
    assert_eq!(r.step(Event::VerifyDue { index: 0, now: 10_000 }), Action::Wait);
    assert_eq!(r.servers()[0].status, ServerStatus::Failed("timeout".to_string()));
    assert!(r.stopped());
}

#[test]
fn events_out_of_place_change_nothing() {
    let mut r = RollingReboot::new(fleet(&["a"]), 1, OnTimeout::Stop, 1_000);
    assert_eq!(r.step(Event::RebootFinished { index: 0, result: Ok(()) }), Action::Wait);
    assert_eq!(r.step(Event::Settled { index: 5, now: 0 }), Action::Wait);
    assert_eq!(r.step(Event::VerifyFinished { index: 0, succeeded: true }), Action::Wait);
    assert_eq!(statuses(&r), vec![ServerStatus::Pending]);
}

#[test]
fn finished_run_stays_finished() {
    let mut r = RollingReboot::new(fleet(&["a"]), 1, OnTimeout::Stop, 1_000);
    r.step(Event::Tick { now: 0 });
    r.step(Event::RebootFinished { index: 0, result: Err("x".to_string()) });
    assert!(r.is_done());
    for e in [
        Event::Tick { now: 9 },
        Event::RebootFinished { index: 0, result: Ok(()) },
        Event::VerifyDue { index: 0, now: 9 },
    ] {
        assert_eq!(r.step(e), Action::Wait);
    }
    assert_eq!(statuses(&r), vec![ServerStatus::Failed("x".to_string())]);
}

#[test]
fn on_timeout_from_name() {
    assert_eq!(OnTimeout::from_name("stop"), Some(OnTimeout::Stop));
    assert_eq!(OnTimeout::from_name("continue"), Some(OnTimeout::Continue));
    assert_eq!(OnTimeout::from_name("Stop"), None);
    assert_eq!(OnTimeout::from_name(""), None);
}

fn with_status(name: &str, status: ServerStatus) -> Server {
    let mut s = Server::new(name.to_string(), 22);
    s.status = status;
    s
}

#[test]
fn snapshot_all_succeeded_is_finished() {
    let app = App::from_snapshot(vec![with_status("a", ServerStatus::Success)], 3, false);
    assert!(app.finished);
    assert!(!app.stopped);
    assert_eq!(app.concurrency, 3);
}

#[test]
fn snapshot_in_progress() {
    let app = App::from_snapshot(
        vec![with_status("a", ServerStatus::Success), with_status("b", ServerStatus::Rebooting)],
        1,
        false,
    );
    assert!(!app.finished);
    assert!(!app.stopped);
}

#[test]
fn snapshot_stopped_on_failure() {
    let servers = vec![with_status("a", ServerStatus::Failed("x".to_string())), with_status("b", ServerStatus::Pending)];
    let app = App::from_snapshot(servers.clone(), 1, true);
    assert!(app.stopped);
    assert!(!app.finished);
    let app = App::from_snapshot(servers, 1, false);
    assert!(!app.stopped);
    assert!(!app.finished);
}

#[test]
fn snapshot_finished_with_failure_and_no_pending() {
    let app = App::from_snapshot(
        vec![with_status("a", ServerStatus::Failed("x".to_string())), with_status("b", ServerStatus::Success)],
        1,
        true,
    );
    assert!(app.finished);
    assert!(!app.stopped);
}

#[test]
fn verify_only_after_reboot_reported_ok() {
    let mut r = RollingReboot::new(fleet(&["a"]), 1, OnTimeout::Stop, 60_000);
    r.step(Event::Tick { now: 0 });
    // Neither the pause nor a verification can come before the reboot command returns.
    assert_eq!(r.step(Event::Settled { index: 0, now: 10_000 }), Action::Wait);
    assert_eq!(r.step(Event::VerifyDue { index: 0, now: 10_000 }), Action::Wait);
    assert_eq!(r.servers()[0].status, ServerStatus::Rebooting);
    assert_eq!(
        r.step(Event::RebootFinished { index: 0, result: Ok(()) }),
        Action::Settle { index: 0, delay_ms: 10_000 }
    );
    assert_eq!(r.step(Event::Settled { index: 0, now: 10_000 }), Action::CheckDeadline { index: 0 });
    assert_eq!(r.step(Event::VerifyDue { index: 0, now: 10_000 }), Action::Verify { index: 0 });
}

#[test]
fn each_server_rebooted_once() {
    let mut r = RollingReboot::new(fleet(&["a", "b"]), 2, OnTimeout::Continue, 60_000);
    let mut reboots = vec![0, 0];
    for now in 0..5 {
        if let Action::Reboot { index } = r.step(Event::Tick { now }) {
            reboots[index] += 1;
        }
    }
    r.step(Event::RebootFinished { index: 0, result: Err("x".to_string()) });
    for now in 5..10 {
        if let Action::Reboot { index } = r.step(Event::Tick { now }) {
            reboots[index] += 1;
        }
    }
    assert_eq!(reboots, vec![1, 1]);
}

#[test]
fn answering_every_action_ends_the_run() {
    let mut r = RollingReboot::new(fleet(&["a", "b", "c"]), 2, OnTimeout::Stop, 60_000);
    let now = 1_000;
    let mut queue: Vec<Event> = Vec::new();
    let mut steps = 0;
    while !r.is_done() {
        steps += 1;
        assert!(steps < 100);
        let event = queue.pop().unwrap_or(Event::Tick { now });
        let reply = match r.step(event) {
            Action::Wait => None,
            Action::Reboot { index } => Some(Event::RebootFinished { index, result: Ok(()) }),
            Action::Settle { index, .. } => Some(Event::Settled { index, now }),
            Action::CheckDeadline { index } => Some(Event::VerifyDue { index, now }),
            Action::Verify { index } => Some(Event::VerifyFinished { index, succeeded: true }),
            Action::RetryVerify { index, .. } => Some(Event::VerifyDue { index, now }),
        };
        queue.extend(reply);
    }
    assert_eq!(statuses(&r), vec![ServerStatus::Success, ServerStatus::Success, ServerStatus::Success]);
}
