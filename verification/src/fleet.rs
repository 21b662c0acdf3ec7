use vstd::prelude::*;
use crate::server::{Server, ServerView, StatusView, servers_view, parse_server_spec};
use crate::text::{chars_of, last_index_of, lemma_trim_idempotent, trim, trim_range, split_on};

verus! {

/// Why no list of servers came out.
#[derive(Debug, Clone, Copy, PartialEq, Eq, Structural)]
pub enum ServerListError {
    /// Neither the list given inline nor the file named a server.
    NoServers,
}

/// The host and port of each server.
pub open spec fn entries_of(v: Seq<ServerView>) -> Seq<(Seq<char>, u16)> {
    v.map_values(|s: ServerView| (s.name, s.port))
}

/// The characters of each string.
pub open spec fn strings_view(v: Seq<String>) -> Seq<Seq<char>> {
    v.map_values(|s: String| s@)
}

/// The servers that a list given inline names: each item that is not blank
/// once trimmed names one server.
pub open spec fn inline_entries(items: Seq<Seq<char>>, default_port: u16) -> Seq<(Seq<char>, u16)>
    decreases items.len(),
{
    if items.len() == 0 {
        Seq::empty()
    } else {
        let prev = inline_entries(items.drop_last(), default_port);
        let t = trim(items.last());
        if t.len() > 0 {
            prev.push(parse_server_spec(t, default_port))
        } else {
            prev
        }
    }
}

/// Whether a trimmed line of a server file names a server: it is not blank
/// and is not a comment, which starts with `#`.
pub open spec fn names_server(t: Seq<char>) -> bool {
    t.len() > 0 && t[0] != '#'
}

/// The servers that the lines of a server file name.
pub open spec fn file_entries(lines: Seq<Seq<char>>, default_port: u16) -> Seq<(Seq<char>, u16)>
    decreases lines.len(),
{
    if lines.len() == 0 {
        Seq::empty()
    } else {
        let prev = file_entries(lines.drop_last(), default_port);
        let t = trim(lines.last());
        if names_server(t) {
            prev.push(parse_server_spec(t, default_port))
        } else {
            prev
        }
    }
}

/// The servers named inline, then those named by the file's lines. Lines end
/// at `\n`; a `\r` before it is white space, which trimming removes.
pub open spec fn server_list(
    items: Seq<Seq<char>>,
    file_content: Option<Seq<char>>,
    default_port: u16,
) -> Seq<(Seq<char>, u16)> {
    inline_entries(items, default_port) + match file_content {
        Some(c) => file_entries(split_on(c, '\n'), default_port),
        None => Seq::empty(),
    }
}

/// A sequence with no `c` in it has no last `c`.
proof fn lemma_no_colon(t: Seq<char>)
    requires
        forall|j: int| 0 <= j < t.len() ==> t[j] != ':',
    ensures
        last_index_of(t, ':') == -1,
    decreases t.len(),
{
    if t.len() > 0 {
        lemma_no_colon(t.drop_last());
    }
}

/// Law: servers given inline without a port take the default port. Where
/// no inline item is blank and none names a port (no `:` once trimmed), and
/// no file is given, the servers are the trimmed items, in order, each on
/// `default_port`, whatever that port is.
pub proof fn lemma_inline_hosts_take_default_port(items: Seq<Seq<char>>, default_port: u16)
    requires
        forall|k: int| 0 <= k < items.len() ==> trim(#[trigger] items[k]).len() > 0,
        forall|k: int, j: int|
            0 <= k < items.len() && 0 <= j < trim(items[k]).len() ==> #[trigger] trim(
                #[trigger] items[k],
            )[j] != ':',
    ensures
        server_list(items, None, default_port).len() == items.len(),
        forall|k: int|
            0 <= k < items.len() ==> #[trigger] server_list(items, None, default_port)[k] == (
            trim(items[k]),
            default_port,
        ),
    decreases items.len(),
{
    assert(server_list(items, None, default_port) =~= inline_entries(items, default_port));
    if items.len() > 0 {
        let prev = items.drop_last();
        lemma_inline_hosts_take_default_port(prev, default_port);
        let t = trim(items.last());
        assert(items.last() == items[items.len() - 1]);
        assert forall|j: int| 0 <= j < t.len() implies t[j] != ':' by {
            assert(trim(items[items.len() - 1])[j] != ':');
        }
        lemma_no_colon(t);
        lemma_trim_idempotent(items.last());
        assert(parse_server_spec(t, default_port) == (t, default_port));
        assert(server_list(prev, None, default_port) =~= inline_entries(prev, default_port));
        assert forall|k: int| 0 <= k < items.len() implies #[trigger] server_list(
            items,
            None,
            default_port,
        )[k] == (trim(items[k]), default_port) by {
            if k < items.len() - 1 {
                assert(items[k] == prev[k]);
                assert(server_list(prev, None, default_port)[k] == (trim(prev[k]), default_port));
            }
        }
    }
}

/// Law: a server file whose lines are all blank or comments (starting with
/// `#` once trimmed) names no server.
pub proof fn lemma_comment_lines_name_nothing(lines: Seq<Seq<char>>, default_port: u16)
    requires
        forall|k: int|
            0 <= k < lines.len() ==> trim(#[trigger] lines[k]).len() == 0 || trim(lines[k])[0]
                == '#',
    ensures
        file_entries(lines, default_port).len() == 0,
    decreases lines.len(),
{
    if lines.len() > 0 {
        assert(lines.last() == lines[lines.len() - 1]);
        lemma_comment_lines_name_nothing(lines.drop_last(), default_port);
    }
}

/// Whether every server waits for its reboot.
pub open spec fn all_waiting(v: Seq<ServerView>) -> bool {
    forall|k: int|
        0 <= k < v.len() ==> (#[trigger] v[k]).status == StatusView::Pending && v[k].started_at
            is None
}

/// Adds the server that `v[from..to]` names to `out`, where the trimmed
/// entry is not blank and, for a file line, not a comment.
fn add_entry(
    out: &mut Vec<Server>,
    v: &Vec<char>,
    from: usize,
    to: usize,
    default_port: u16,
    comments: bool,
)
    requires
        from <= to <= v.len(),
    ensures
        ({
            let t = trim(v@.subrange(from as int, to as int));
            let keep = if comments { names_server(t) } else { t.len() > 0 };
            &&& keep ==> servers_view(final(out)@) == servers_view(old(out)@).push(
                ServerView {
                    name: parse_server_spec(t, default_port).0,
                    port: parse_server_spec(t, default_port).1,
                    status: StatusView::Pending,
                    started_at: None,
                },
            )
            &&& !keep ==> final(out)@ == old(out)@
        }),
{
    let (a, b) = trim_range(v, from, to);
    if a < b && (!comments || v[a] != '#') {
        let s = Server::parse_range(v, a, b, default_port);
        out.push(s);
        proof {
            assert(servers_view(out@) =~= servers_view(old(out)@).push(s@));
        }
    }
}

/// The servers that a list given inline and the contents of a server file
/// name, each with `default_port` where it names no port; an error where
/// they name none.
pub fn parse_servers(items: &Vec<String>, file_content: Option<&str>, default_port: u16) -> (r: Result<
    Vec<Server>,
    ServerListError,
>)
    ensures
        match r {
            Ok(v) => {
                &&& entries_of(servers_view(v@)) == server_list(
                    strings_view(items@),
                    match file_content {
                        Some(c) => Some(c@),
                        None => None,
                    },
                    default_port,
                )
                &&& v.len() > 0
                &&& all_waiting(servers_view(v@))
            },
            Err(e) => e == ServerListError::NoServers && server_list(
                strings_view(items@),
                match file_content {
                    Some(c) => Some(c@),
                    None => None,
                },
                default_port,
            ).len() == 0,
        },
{
    let ghost items_v = strings_view(items@);
    let mut out: Vec<Server> = Vec::new();
    let mut i: usize = 0;
    while i < items.len()
        invariant
            i <= items.len(),
            items_v == strings_view(items@),
            entries_of(servers_view(out@)) == inline_entries(items_v.take(i as int), default_port),
            all_waiting(servers_view(out@)),
        decreases items.len() - i,
    {
        let v = chars_of(items[i].as_str());
        assert(v@.subrange(0, v.len() as int) =~= v@);
        assert(items_v.take(i + 1).drop_last() =~= items_v.take(i as int));
        add_entry(&mut out, &v, 0, v.len(), default_port, false);
        proof {
            assert(entries_of(servers_view(out@)) =~= inline_entries(items_v.take(i + 1), default_port));
        }
        i = i + 1;
    }
    assert(items_v.take(i as int) =~= items_v);
    let ghost inline_part = entries_of(servers_view(out@));
    match file_content {
        Some(content) => {
            let c = chars_of(content);
            let mut start: usize = 0;
            let mut j: usize = 0;
            let ghost mut done: Seq<Seq<char>> = Seq::empty();
            let ghost before = out@;
            assert(c@.take(0) =~= Seq::<char>::empty());
            assert(split_on(c@.take(0), '\n') =~= done.push(c@.subrange(0, 0)));
            assert(entries_of(servers_view(out@)) =~= inline_part + file_entries(done, default_port));
            while j < c.len()
                invariant
                    start <= j <= c.len(),
                    split_on(c@.take(j as int), '\n') == done.push(c@.subrange(start as int, j as int)),
                    entries_of(servers_view(out@)) == inline_part + file_entries(done, default_port),
                    all_waiting(servers_view(out@)),
                decreases c.len() - j,
            {
                let ghost cur = c@.subrange(start as int, j as int);
                assert(c@.take(j + 1).drop_last() =~= c@.take(j as int));
                if c[j] == '\n' {
                    let ghost old_sv = servers_view(out@);
                    add_entry(&mut out, &c, start, j, default_port, true);
                    proof {
                        let t = trim(cur);
                        if names_server(t) {
                            assert(entries_of(servers_view(out@)) =~= entries_of(old_sv).push(parse_server_spec(t, default_port)));
                        } else {
                            assert(servers_view(out@) == old_sv);
                        }
                        let nd = done.push(cur);
                        assert(nd.drop_last() =~= done);
                        assert(nd.last() == cur);
                        assert(file_entries(nd, default_port) == (if names_server(trim(cur)) {
                            file_entries(done, default_port).push(parse_server_spec(trim(cur), default_port))
                        } else {
                            file_entries(done, default_port)
                        }));
                        assert(entries_of(servers_view(out@)) =~= inline_part + file_entries(nd, default_port));
                        done = nd;
                        assert(c@.subrange(j + 1, j + 1) =~= Seq::<char>::empty());
                    }
                    start = j + 1;
                } else {
                    proof {
                        assert(c@.subrange(start as int, j + 1) =~= cur.push(c@[j as int]));
                        assert(split_on(c@.take(j + 1), '\n') =~= done.push(c@.subrange(start as int, j + 1)));
                    }
                }
                j = j + 1;
            }
            assert(c@.take(j as int) =~= c@);
            let ghost old_sv = servers_view(out@);
            add_entry(&mut out, &c, start, j, default_port, true);
            proof {
                let t = trim(c@.subrange(start as int, j as int));
                if names_server(t) {
                    assert(entries_of(servers_view(out@)) =~= entries_of(old_sv).push(parse_server_spec(t, default_port)));
                } else {
                    assert(servers_view(out@) == old_sv);
                }
                let last = c@.subrange(start as int, j as int);
                let nd = done.push(last);
                assert(nd.drop_last() =~= done);
                assert(nd.last() == last);
                assert(file_entries(nd, default_port) == (if names_server(trim(last)) {
                    file_entries(done, default_port).push(parse_server_spec(trim(last), default_port))
                } else {
                    file_entries(done, default_port)
                }));
                assert(entries_of(servers_view(out@)) =~= inline_part + file_entries(nd, default_port));
            }
        },
        None => {
            assert(entries_of(servers_view(out@)) =~= inline_part + Seq::<(Seq<char>, u16)>::empty());
        },
    }
    if out.len() == 0 {
        Err(ServerListError::NoServers)
    } else {
        Ok(out)
    }
}

} // verus!
