use vstd::prelude::*;
use crate::text::{
    chars_between, chars_of, last_index, last_index_of, parse_u16, parse_u16_spec, string_from_chars,
    trim, trim_range, lemma_trim_idempotent,
};

verus! {

/// Where a server stands in a rolling reboot.
#[derive(Debug, Clone, PartialEq, Eq)]
pub enum ServerStatus {
    Pending,
    Rebooting,
    Verifying,
    Success,
    Failed(String),
}

/// The status as a mathematical value: a failure reason is its characters.
pub enum StatusView {
    Pending,
    Rebooting,
    Verifying,
    Success,
    Failed(Seq<char>),
}

impl View for ServerStatus {
    type V = StatusView;

    open spec fn view(&self) -> StatusView {
        match self {
            ServerStatus::Pending => StatusView::Pending,
            ServerStatus::Rebooting => StatusView::Rebooting,
            ServerStatus::Verifying => StatusView::Verifying,
            ServerStatus::Success => StatusView::Success,
            ServerStatus::Failed(reason) => StatusView::Failed(reason@),
        }
    }
}

/// Rank of a status in the server table: failures first, then servers being
/// rebooted, then servers being verified, then finished ones, then those
/// still waiting.
pub open spec fn status_rank(s: StatusView) -> u8 {
    match s {
        StatusView::Failed(_) => 0,
        StatusView::Rebooting => 1,
        StatusView::Verifying => 2,
        StatusView::Success => 3,
        StatusView::Pending => 4,
    }
}

/// Law: the table lists failed servers first, then those rebooting, then
/// those verifying, then those that succeeded, and those still waiting last.
pub proof fn lemma_status_rank_order(reason: Seq<char>)
    ensures
        status_rank(StatusView::Failed(reason)) < status_rank(StatusView::Rebooting),
        status_rank(StatusView::Rebooting) < status_rank(StatusView::Verifying),
        status_rank(StatusView::Verifying) < status_rank(StatusView::Success),
        status_rank(StatusView::Success) < status_rank(StatusView::Pending),
        status_rank(StatusView::Failed(reason)) == status_rank(StatusView::Failed(Seq::empty())),
{
}

impl ServerStatus {
    /// Position of this status in the order in which the table lists servers.
    pub fn sort_order(&self) -> (r: u8)
        ensures
            r == status_rank(self@),
    {
        match self {
            ServerStatus::Failed(_) => 0,
            ServerStatus::Rebooting => 1,
            ServerStatus::Verifying => 2,
            ServerStatus::Success => 3,
            ServerStatus::Pending => 4,
        }
    }
}


/// A server of the fleet and how far its reboot has come.
///
/// `started_at` is the time, in milliseconds on the clock that the caller
/// keeps, at which the reboot of this server began.
#[derive(Debug, Clone)]
pub struct Server {
    pub name: String,
    pub port: u16,
    pub status: ServerStatus,
    pub started_at: Option<u64>,
}

/// A server as a mathematical value.
pub struct ServerView {
    pub name: Seq<char>,
    pub port: u16,
    pub status: StatusView,
    pub started_at: Option<u64>,
}

impl View for Server {
    type V = ServerView;

    open spec fn view(&self) -> ServerView {
        ServerView {
            name: self.name@,
            port: self.port,
            status: self.status@,
            started_at: self.started_at,
        }
    }
}

/// The host and port that a server entry `input` names, where
/// `default_port` stands for a port that the entry leaves out.
///
/// The entry is trimmed of white space. Where it holds a `:` and what follows
/// the last `:` reads as a port number, the host is what comes before that
/// `:`; otherwise the whole trimmed entry is the host.
pub open spec fn parse_server_spec(input: Seq<char>, default_port: u16) -> (Seq<char>, u16) {
    let t = trim(input);
    let k = last_index_of(t, ':');
    if k >= 0 && parse_u16_spec(t.subrange(k + 1, t.len() as int)) is Some {
        (t.subrange(0, k), parse_u16_spec(t.subrange(k + 1, t.len() as int))->0)
    } else {
        (t, default_port)
    }
}

/// Law: white space around a server entry makes no difference to what it
/// names.
pub proof fn lemma_parse_ignores_surrounding_space(input: Seq<char>, default_port: u16)
    ensures
        parse_server_spec(trim(input), default_port) == parse_server_spec(input, default_port),
{
    lemma_trim_idempotent(input);
}

impl Server {
    /// A server that waits for its reboot.
    pub fn new(name: String, port: u16) -> (r: Self)
        ensures
            r@ == (ServerView { name: name@, port, status: StatusView::Pending, started_at: None }),
    {
        Server { name, port, status: ServerStatus::Pending, started_at: None }
    }

    /// The server that the entry `input` (`host` or `host:port`) names.
    pub fn parse(input: &str, default_port: u16) -> (r: Self)
        ensures
            (r@.name, r@.port) == parse_server_spec(input@, default_port),
            r@.status == StatusView::Pending,
            r@.started_at == None::<u64>,
    {
        let v = chars_of(input);
        assert(v@.subrange(0, v.len() as int) =~= v@);
        Self::parse_range(&v, 0, v.len(), default_port)
    }

    /// The server that the entry `v[from..to]` names.
    pub fn parse_range(v: &Vec<char>, from: usize, to: usize, default_port: u16) -> (r: Self)
        requires
            from <= to <= v.len(),
        ensures
            (r@.name, r@.port) == parse_server_spec(v@.subrange(from as int, to as int), default_port),
            r@.status == StatusView::Pending,
            r@.started_at == None::<u64>,
    {
        let (a, b) = trim_range(v, from, to);
        let ghost t = v@.subrange(a as int, b as int);
        if let Some(k) = last_index(v, a, b, ':') {
            assert(v@.subrange(k + 1, b as int) =~= t.subrange(k - a + 1, t.len() as int));
            if let Some(port) = parse_u16(v, k + 1, b) {
                let host = chars_between(v, a, k);
                assert(host@ =~= t.subrange(0, k - a));
                return Self::new(string_from_chars(host.as_slice()), port);
            }
        }
        let host = chars_between(v, a, b);
        Self::new(string_from_chars(host.as_slice()), default_port)
    }
}

/// The views of a sequence of servers.
pub open spec fn servers_view(v: Seq<Server>) -> Seq<ServerView> {
    v.map_values(|s: Server| s@)
}

/// Kinds of status that are counted together.
#[derive(Clone, Copy, PartialEq, Eq, Structural)]
pub enum StatusClass {
    /// Waiting for its reboot.
    Waiting,
    /// Being rebooted or verified.
    Active,
    /// Rebooted and verified.
    Succeeded,
    /// Failed.
    Failed,
    /// Succeeded or failed.
    Finished,
}

/// Whether a status is of the kind `c`.
pub open spec fn in_class(st: StatusView, c: StatusClass) -> bool {
    match c {
        StatusClass::Waiting => st is Pending,
        StatusClass::Active => st is Rebooting || st is Verifying,
        StatusClass::Succeeded => st is Success,
        StatusClass::Failed => st is Failed,
        StatusClass::Finished => st is Success || st is Failed,
    }
}

/// How many of the servers `s` have a status of the kind `c`.
pub open spec fn count_class(s: Seq<ServerView>, c: StatusClass) -> nat
    decreases s.len(),
{
    if s.len() == 0 {
        0
    } else {
        count_class(s.drop_last(), c) + if in_class(s.last().status, c) {
            1nat
        } else {
            0nat
        }
    }
}

/// Law: some server has a status of a kind exactly when the count of that
/// kind is above zero, and the count is at most the number of servers.
pub proof fn lemma_count_positive_iff_exists(s: Seq<ServerView>, c: StatusClass)
    ensures
        count_class(s, c) > 0 <==> exists|i: int| 0 <= i < s.len() && in_class(#[trigger] s[i].status, c),
        count_class(s, c) <= s.len(),
    decreases s.len(),
{
    if s.len() > 0 {
        lemma_count_positive_iff_exists(s.drop_last(), c);
        let p = s.drop_last();
        if exists|i: int| 0 <= i < s.len() && in_class(#[trigger] s[i].status, c) {
            let i = choose|i: int| 0 <= i < s.len() && in_class(#[trigger] s[i].status, c);
            if i < s.len() - 1 {
                assert(p[i] == s[i]);
            }
        }
        if exists|i: int| 0 <= i < p.len() && in_class(#[trigger] p[i].status, c) {
            let i = choose|i: int| 0 <= i < p.len() && in_class(#[trigger] p[i].status, c);
            assert(s[i] == p[i]);
        }
    }
}

/// Replacing one server changes a count by what the two statuses add.
pub proof fn lemma_count_update(s: Seq<ServerView>, i: int, x: ServerView, c: StatusClass)
    requires
        0 <= i < s.len(),
    ensures
        count_class(s.update(i, x), c) + (if in_class(s[i].status, c) { 1int } else { 0int })
            == count_class(s, c) + (if in_class(x.status, c) { 1int } else { 0int }),
    decreases s.len(),
{
    let u = s.update(i, x);
    if i == s.len() - 1 {
        assert(u.drop_last() =~= s.drop_last());
    } else {
        assert(u.drop_last() =~= s.drop_last().update(i, x));
        lemma_count_update(s.drop_last(), i, x, c);
    }
}

/// Whether a status is of the kind `c`.
pub fn status_in_class(st: &ServerStatus, c: StatusClass) -> (r: bool)
    ensures
        r == in_class(st@, c),
{
    match c {
        StatusClass::Waiting => matches!(st, ServerStatus::Pending),
        StatusClass::Active => matches!(st, ServerStatus::Rebooting | ServerStatus::Verifying),
        StatusClass::Succeeded => matches!(st, ServerStatus::Success),
        StatusClass::Failed => matches!(st, ServerStatus::Failed(_)),
        StatusClass::Finished => matches!(st, ServerStatus::Success | ServerStatus::Failed(_)),
    }
}

/// How many of `servers` have a status of the kind `c`.
pub fn count_in_class(servers: &Vec<Server>, c: StatusClass) -> (r: usize)
    ensures
        r == count_class(servers_view(servers@), c),
{
    let mut n: usize = 0;
    let mut i: usize = 0;
    while i < servers.len()
        invariant
            i <= servers.len(),
            n == count_class(servers_view(servers@).take(i as int), c),
            n <= i,
        decreases servers.len() - i,
    {
        let ghost sv = servers_view(servers@);
        assert(sv.take(i + 1).drop_last() =~= sv.take(i as int));
        if status_in_class(&servers[i].status, c) {
            n = n + 1;
        }
        i = i + 1;
    }
    assert(servers_view(servers@).take(i as int) =~= servers_view(servers@));
    n
}

} // verus!
