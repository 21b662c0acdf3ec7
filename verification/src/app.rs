use vstd::prelude::*;
use crate::server::{Server, ServerView, servers_view, StatusClass, count_class, count_in_class};

verus! {

/// What the rolling reboot does when a server fails or does not come back in
/// time: stop starting further servers, or go on with the rest.
#[derive(Debug, Clone, Copy, PartialEq, Eq, Structural)]
pub enum OnTimeout {
    Stop,
    Continue,
}

/// The policy that a name on the command line picks: `stop` or `continue`.
pub open spec fn on_timeout_named(name: Seq<char>) -> Option<OnTimeout> {
    if name == "stop"@ {
        Some(OnTimeout::Stop)
    } else if name == "continue"@ {
        Some(OnTimeout::Continue)
    } else {
        None
    }
}

impl OnTimeout {
    /// The policy that `name` picks, if it names one.
    pub fn from_name(name: &str) -> (r: Option<OnTimeout>)
        ensures
            r == on_timeout_named(name@),
    {
        let given = name.to_owned();
        if given == String::from_str("stop") {
            Some(OnTimeout::Stop)
        } else if given == String::from_str("continue") {
            Some(OnTimeout::Continue)
        } else {
            None
        }
    }
}

/// What the terminal shows: the servers, the concurrency, and whether the
/// rolling reboot has finished or has stopped on a failure.
pub struct App {
    pub servers: Vec<Server>,
    pub concurrency: usize,
    pub finished: bool,
    pub stopped: bool,
}


/// Whether the run stopped on a failure, as the terminal tells it: a server
/// failed, another never started, and the rolling reboot is over.
pub open spec fn stopped_on_failure(s: Seq<ServerView>, reboot_finished: bool) -> bool {
    count_class(s, StatusClass::Failed) > 0 && count_class(s, StatusClass::Waiting) > 0
        && reboot_finished
}

/// Whether the terminal reports the run as finished: every server succeeded
/// or failed, or the rolling reboot is over, and it did not stop on a
/// failure.
pub open spec fn finished_cleanly(s: Seq<ServerView>, reboot_finished: bool) -> bool {
    (count_class(s, StatusClass::Finished) == s.len() || reboot_finished) && !stopped_on_failure(
        s,
        reboot_finished,
    )
}

impl App {
    /// What the terminal shows of a snapshot of the servers, where
    /// `reboot_finished` tells whether the rolling reboot is over.
    pub fn from_snapshot(servers: Vec<Server>, concurrency: usize, reboot_finished: bool) -> (r: App)
        ensures
            r.servers@ == servers@,
            r.concurrency == concurrency,
            r.stopped == stopped_on_failure(servers_view(servers@), reboot_finished),
            r.finished == finished_cleanly(servers_view(servers@), reboot_finished),
            !(r.finished && r.stopped),
    {
        let all_done = count_in_class(&servers, StatusClass::Finished) == servers.len();
        let any_stopped = count_in_class(&servers, StatusClass::Failed) > 0 && count_in_class(
            &servers,
            StatusClass::Waiting,
        ) > 0 && reboot_finished;
        let finished = all_done || reboot_finished;
        App { servers, concurrency, finished: finished && !any_stopped, stopped: any_stopped }
    }
}

} // verus!
