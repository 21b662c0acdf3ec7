use vstd::prelude::*;
use crate::app::App;
use crate::order::{is_table_order, table_order};
use crate::server::{
    Server, ServerStatus, ServerView, StatusView, StatusClass, servers_view, count_class,
    count_in_class,
};
use crate::server::parse_server_spec;
use crate::text::{
    decimal_digits, decimal_string, is_white_space, last_index_of, parse_u16_spec,
    lemma_decimal_digits, lemma_last_index_after, lemma_trim_unchanged, all_digits, decimal_value,
};

verus! {

broadcast use vstd::string::group_string_axioms;

/// The port that the table leaves out of a server's name.
pub const USUAL_SSH_PORT: u16 = 22;

/// Whole seconds from `started` to `now` (in milliseconds), or zero where
/// `now` comes first.
pub open spec fn elapsed_secs(started: u64, now: u64) -> nat {
    if now >= started {
        ((now - started) / 1000) as nat
    } else {
        0
    }
}

/// ` (Ns)`, the seconds since a server started, where it has a start time.
pub open spec fn elapsed_suffix(started_at: Option<u64>, now: u64) -> Seq<char> {
    match started_at {
        Some(t) => " ("@ + decimal_digits(elapsed_secs(t, now)) + "s)"@,
        None => Seq::empty(),
    }
}

/// Law: a server at work shows how many whole seconds have passed since it
/// started: its status word, ` (`, that number in decimal, and `s)`.
pub proof fn lemma_status_text_shows_elapsed(rebooting: bool, started: u64, now: u64)
    requires
        started <= now,
    ensures
        exists|d: Seq<char>|
            #![trigger reads_as(d, ((now - started) / 1000) as nat)]
            reads_as(d, ((now - started) / 1000) as nat) && status_text_spec(
                if rebooting { StatusView::Rebooting } else { StatusView::Verifying },
                Some(started),
                now,
            ) == (if rebooting { "Rebooting"@ } else { "Verifying"@ }) + " ("@ + d + "s)"@,
{
    let n = ((now - started) / 1000) as nat;
    lemma_decimal_digits(n);
    assert(reads_as(decimal_digits(n), n));
    let st = if rebooting { StatusView::Rebooting } else { StatusView::Verifying };
    let word = if rebooting { "Rebooting"@ } else { "Verifying"@ };
    assert(status_text_spec(st, Some(started), now) =~= word + " ("@ + decimal_digits(n) + "s)"@);
}

/// The status column of a server's row.
pub open spec fn status_text_spec(st: StatusView, started_at: Option<u64>, now: u64) -> Seq<char> {
    match st {
        StatusView::Pending => "Pending"@,
        StatusView::Rebooting => "Rebooting"@ + elapsed_suffix(started_at, now),
        StatusView::Verifying => "Verifying"@ + elapsed_suffix(started_at, now),
        StatusView::Success => "Success"@,
        StatusView::Failed(reason) => "FAILED: "@ + reason,
    }
}

/// A status in words, as `Display` writes it.
pub open spec fn display_text_spec(st: StatusView) -> Seq<char> {
    match st {
        StatusView::Pending => "Pending"@,
        StatusView::Rebooting => "Rebooting"@,
        StatusView::Verifying => "Verifying"@,
        StatusView::Success => "Success"@,
        StatusView::Failed(reason) => "Failed: "@ + reason,
    }
}

/// The server column of a row: the name, followed by `:port` unless the port
/// is the usual SSH port.
pub open spec fn server_label_spec(name: Seq<char>, port: u16) -> Seq<char> {
    if port != USUAL_SSH_PORT {
        name + ":"@ + decimal_digits(port as nat)
    } else {
        name
    }
}

/// `prefix` followed by `rest`.
fn joined(prefix: &str, rest: &str) -> (r: String)
    ensures
        r@ == prefix@ + rest@,
{
    let mut s = String::from_str(prefix);
    s.append(rest);
    s
}

impl ServerStatus {
    /// The status in words, as `Display` writes it.
    pub fn display_text(&self) -> (r: String)
        ensures
            r@ == display_text_spec(self@),
    {
        match self {
            ServerStatus::Pending => String::from_str("Pending"),
            ServerStatus::Rebooting => String::from_str("Rebooting"),
            ServerStatus::Verifying => String::from_str("Verifying"),
            ServerStatus::Success => String::from_str("Success"),
            ServerStatus::Failed(reason) => joined("Failed: ", reason.as_str()),
        }
    }
}

/// The status column of a server's row, where the clock reads `now_ms`.
pub fn status_text(status: &ServerStatus, started_at: Option<u64>, now_ms: u64) -> (r: String)
    ensures
        r@ == status_text_spec(status@, started_at, now_ms),
{
    match status {
        ServerStatus::Pending => String::from_str("Pending"),
        ServerStatus::Rebooting => {
            let mut s = String::from_str("Rebooting");
            append_elapsed(&mut s, started_at, now_ms);
            s
        },
        ServerStatus::Verifying => {
            let mut s = String::from_str("Verifying");
            append_elapsed(&mut s, started_at, now_ms);
            s
        },
        ServerStatus::Success => String::from_str("Success"),
        ServerStatus::Failed(reason) => joined("FAILED: ", reason.as_str()),
    }
}

/// Appends the seconds since `started_at` to `s`.
fn append_elapsed(s: &mut String, started_at: Option<u64>, now_ms: u64)
    ensures
        final(s)@ == old(s)@ + elapsed_suffix(started_at, now_ms),
{
    match started_at {
        Some(t) => {
            let secs = if now_ms >= t { (now_ms - t) / 1000 } else { 0 };
            s.append(" (");
            s.append(decimal_string(secs).as_str());
            s.append("s)");
        },
        None => {
            assert(old(s)@ + Seq::<char>::empty() =~= old(s)@);
        },
    }
}

/// The server column of a server's row.
pub fn server_label(server: &Server) -> (r: String)
    ensures
        r@ == server_label_spec(server.name@, server.port),
{
    let mut s = server.name.clone();
    if server.port != USUAL_SSH_PORT {
        s.append(":");
        s.append(decimal_string(server.port as u64).as_str());
    }
    s
}

/// A row of the server table: the position of the server in the list, its
/// name and its status.
pub struct TableRow {
    pub index: usize,
    pub label: String,
    pub status: String,
}

/// The positions that the rows show.
pub open spec fn row_indices(rows: Seq<TableRow>) -> Seq<usize> {
    rows.map_values(|r: TableRow| r.index)
}

/// The rows of the server table, where the clock reads `now_ms`: one per
/// server, by status rank and then by name (see `is_table_order`).
pub fn table_rows(servers: &Vec<Server>, now_ms: u64) -> (rows: Vec<TableRow>)
    ensures
        is_table_order(servers_view(servers@), row_indices(rows@)),
        forall|r: int|
            0 <= r < rows.len() ==> {
                let s = servers_view(servers@)[#[trigger] rows@[r].index as int];
                &&& rows@[r].label@ == server_label_spec(s.name, s.port)
                &&& rows@[r].status@ == status_text_spec(s.status, s.started_at, now_ms)
            },
{
    let ord = table_order(servers);
    let mut rows: Vec<TableRow> = Vec::new();
    let mut k: usize = 0;
    while k < ord.len()
        invariant
            k <= ord.len() == servers.len(),
            is_table_order(servers_view(servers@), ord@),
            rows.len() == k,
            forall|r: int| 0 <= r < k ==> #[trigger] rows@[r].index == ord@[r],
            forall|r: int|
                0 <= r < k ==> {
                    let s = servers_view(servers@)[#[trigger] rows@[r].index as int];
                    &&& rows@[r].label@ == server_label_spec(s.name, s.port)
                    &&& rows@[r].status@ == status_text_spec(s.status, s.started_at, now_ms)
                },
        decreases ord.len() - k,
    {
        let i = ord[k];
        assert(i < servers.len());
        let server = &servers[i];
        rows.push(
            TableRow {
                index: i,
                label: server_label(server),
                status: status_text(&server.status, server.started_at, now_ms),
            },
        );
        k = k + 1;
    }
    assert(row_indices(rows@) =~= ord@);
    rows
}

/// The counts that the header shows.
pub struct HeaderSummary {
    pub total: usize,
    pub done: usize,
    pub failed: usize,
    pub active: usize,
    pub concurrency: usize,
}

/// Succeeded and failed servers together are no more than all servers.
proof fn lemma_finished_split(s: Seq<ServerView>)
    ensures
        count_class(s, StatusClass::Succeeded) + count_class(s, StatusClass::Failed) == count_class(
            s,
            StatusClass::Finished,
        ),
        count_class(s, StatusClass::Finished) <= s.len(),
    decreases s.len(),
{
    if s.len() > 0 {
        lemma_finished_split(s.drop_last());
    }
}

/// The header's counts: all servers, those that succeeded, those that
/// failed, and those being rebooted or verified.
pub fn header_summary(app: &App) -> (r: HeaderSummary)
    ensures
        r.total == app.servers.len(),
        r.done == count_class(servers_view(app.servers@), StatusClass::Succeeded),
        r.failed == count_class(servers_view(app.servers@), StatusClass::Failed),
        r.active == count_class(servers_view(app.servers@), StatusClass::Active),
        r.concurrency == app.concurrency,
        r.done + r.failed <= r.total,
{
    proof {
        lemma_finished_split(servers_view(app.servers@));
    }
    HeaderSummary {
        total: app.servers.len(),
        done: count_in_class(&app.servers, StatusClass::Succeeded),
        failed: count_in_class(&app.servers, StatusClass::Failed),
        active: count_in_class(&app.servers, StatusClass::Active),
        concurrency: app.concurrency,
    }
}

/// The header's text.
pub open spec fn header_label_spec(h: HeaderSummary) -> Seq<char> {
    decimal_digits(h.done as nat) + "/"@ + decimal_digits(h.total as nat) + " complete | "@
        + decimal_digits(h.active as nat) + " active | "@ + decimal_digits(h.failed as nat)
        + " failed | concurrency: "@ + decimal_digits(h.concurrency as nat)
}

/// Whether `d` is a number written in decimal digits, reading as `n`.
pub open spec fn reads_as(d: Seq<char>, n: nat) -> bool {
    d.len() > 0 && all_digits(d) && decimal_value(d) == n
}

/// Law: the header's text reads back as its counts. It is five numbers in
/// decimal, split by fixed words: the servers done, `/`, all servers,
/// ` complete | `, the active ones, ` active | `, the failed ones,
/// ` failed | concurrency: `, and the concurrency.
pub proof fn lemma_header_label_reads_back(h: HeaderSummary)
    ensures
        exists|d1: Seq<char>, d2: Seq<char>, d3: Seq<char>, d4: Seq<char>, d5: Seq<char>|
            #![trigger reads_as(d1, h.done as nat), reads_as(d2, h.total as nat), reads_as(d3, h.active as nat), reads_as(d4, h.failed as nat), reads_as(d5, h.concurrency as nat)]
            reads_as(d1, h.done as nat) && reads_as(d2, h.total as nat) && reads_as(
                d3,
                h.active as nat,
            ) && reads_as(d4, h.failed as nat) && reads_as(d5, h.concurrency as nat)
                && header_label_spec(h) == d1 + "/"@ + d2 + " complete | "@ + d3 + " active | "@
                + d4 + " failed | concurrency: "@ + d5,
{
    lemma_decimal_digits(h.done as nat);
    lemma_decimal_digits(h.total as nat);
    lemma_decimal_digits(h.active as nat);
    lemma_decimal_digits(h.failed as nat);
    lemma_decimal_digits(h.concurrency as nat);
    assert(reads_as(decimal_digits(h.done as nat), h.done as nat));
    assert(reads_as(decimal_digits(h.total as nat), h.total as nat));
    assert(reads_as(decimal_digits(h.active as nat), h.active as nat));
    assert(reads_as(decimal_digits(h.failed as nat), h.failed as nat));
    assert(reads_as(decimal_digits(h.concurrency as nat), h.concurrency as nat));
}

impl HeaderSummary {
    /// The header's text: done out of total, active, failed, and the
    /// concurrency.
    pub fn label(&self) -> (r: String)
        ensures
            r@ == header_label_spec(*self),
    {
        let mut s = decimal_string(self.done as u64);
        s.append("/");
        s.append(decimal_string(self.total as u64).as_str());
        s.append(" complete | ");
        s.append(decimal_string(self.active as u64).as_str());
        s.append(" active | ");
        s.append(decimal_string(self.failed as u64).as_str());
        s.append(" failed | concurrency: ");
        s.append(decimal_string(self.concurrency as u64).as_str());
        s
    }

    /// How many servers have finished, one way or the other.
    pub fn completed(&self) -> (r: usize)
        requires
            self.done + self.failed <= self.total,
        ensures
            r == self.done + self.failed,
    {
        self.done + self.failed
    }
}

/// What the status bar tells.
#[derive(Debug, Clone, Copy, PartialEq, Eq, Structural)]
pub enum FooterKind {
    /// The run finished, and some servers failed.
    FinishedWithFailures,
    /// The run finished, and every server succeeded.
    AllSucceeded,
    /// The run stopped on a failure.
    Stopped,
    /// The run goes on.
    InProgress,
}

/// The status bar: what it tells, and its text.
pub struct FooterMessage {
    pub kind: FooterKind,
    pub text: String,
}

/// What the status bar tells, and its text, for the number of failed
/// servers `failed`.
pub open spec fn footer_spec(finished: bool, stopped: bool, failed: nat) -> (FooterKind, Seq<char>) {
    if finished {
        if failed > 0 {
            (
                FooterKind::FinishedWithFailures,
                " Finished with "@ + decimal_digits(failed) + " failure(s). Press 'q' to exit. "@,
            )
        } else {
            (FooterKind::AllSucceeded, " All servers rebooted successfully. Press 'q' to exit. "@)
        }
    } else if stopped {
        (FooterKind::Stopped, " Stopped due to failure. Press 'q' to exit. "@)
    } else {
        (FooterKind::InProgress, " Press 'q' to abort | Rolling reboot in progress... "@)
    }
}

/// Law: the status bar tells a finished run with failures, with their
/// number in decimal; a finished run without failures; a run stopped on a
/// failure; or a run in progress; in that order of precedence.
pub proof fn lemma_footer_tells_state(finished: bool, stopped: bool, failed: nat)
    ensures
        ({
            let (kind, text) = footer_spec(finished, stopped, failed);
            &&& (finished && failed > 0) ==> kind == FooterKind::FinishedWithFailures && exists|d: Seq<char>|
                #![trigger reads_as(d, failed)]
                reads_as(d, failed) && text == " Finished with "@ + d + " failure(s). Press 'q' to exit. "@
            &&& (finished && failed == 0) ==> kind == FooterKind::AllSucceeded
            &&& (!finished && stopped) ==> kind == FooterKind::Stopped
            &&& (!finished && !stopped) ==> kind == FooterKind::InProgress
        }),
{
    lemma_decimal_digits(failed);
    assert(reads_as(decimal_digits(failed), failed));
}

/// The status bar for what the terminal shows.
pub fn footer_message(app: &App) -> (r: FooterMessage)
    ensures
        (r.kind, r.text@) == footer_spec(
            app.finished,
            app.stopped,
            count_class(servers_view(app.servers@), StatusClass::Failed),
        ),
{
    if app.finished {
        let failed = count_in_class(&app.servers, StatusClass::Failed);
        if failed > 0 {
            let mut s = String::from_str(" Finished with ");
            s.append(decimal_string(failed as u64).as_str());
            s.append(" failure(s). Press 'q' to exit. ");
            FooterMessage { kind: FooterKind::FinishedWithFailures, text: s }
        } else {
            FooterMessage {
                kind: FooterKind::AllSucceeded,
                text: String::from_str(" All servers rebooted successfully. Press 'q' to exit. "),
            }
        }
    } else if app.stopped {
        FooterMessage {
            kind: FooterKind::Stopped,
            text: String::from_str(" Stopped due to failure. Press 'q' to exit. "),
        }
    } else {
        FooterMessage {
            kind: FooterKind::InProgress,
            text: String::from_str(" Press 'q' to abort | Rolling reboot in progress... "),
        }
    }
}


/// Law: the server column reads back as the server it shows. Parsed as a
/// server entry with the usual SSH port as default, the label of a server
/// gives its host and port again, where the host does not begin with white
/// space and, for a server on the usual port (whose label is the bare host),
/// the host does not end with white space nor with `:` and a port number.
pub proof fn lemma_label_parses_back(name: Seq<char>, port: u16)
    requires
        name.len() == 0 || !is_white_space(name[0]),
        port == USUAL_SSH_PORT ==> {
            &&& name.len() == 0 || !is_white_space(name.last())
            &&& last_index_of(name, ':') < 0 || parse_u16_spec(
                name.subrange(last_index_of(name, ':') + 1, name.len() as int),
            ) is None
        },
    ensures
        parse_server_spec(server_label_spec(name, port), USUAL_SSH_PORT) == (name, port),
{
    if port == USUAL_SSH_PORT {
        lemma_trim_unchanged(name);
    } else {
        let d = decimal_digits(port as nat);
        lemma_decimal_digits(port as nat);
        reveal_strlit(":");
        let l = server_label_spec(name, port);
        assert(l == name + seq![':'] + d);
        assert(l.last() == d.last());
        assert(crate::text::is_digit(d[d.len() - 1]));
        if name.len() == 0 {
            assert(l[0] == ':');
        } else {
            assert(l[0] == name[0]);
        }
        lemma_trim_unchanged(l);
        assert forall|i: int| 0 <= i < d.len() implies d[i] != ':' by {
            assert(crate::text::is_digit(d[i]));
        }
        lemma_last_index_after(name, ':', d);
        assert(l.subrange(name.len() as int + 1, l.len() as int) =~= d);
        assert(l.subrange(0, name.len() as int) =~= name);
        assert(d[0] != '+') by {
            assert(crate::text::is_digit(d[0]));
        }
    }
}

} // verus!
