use vstd::prelude::*;
use crate::server::{Server, ServerView, servers_view, status_rank};
use crate::text::chars_of;

verus! {

/// Whether `a` comes no later than `b` in the order of strings: character
/// by character, a string before any longer string that it begins. On
/// Rust strings this is the order of `String::cmp`, which compares UTF-8
/// bytes, since UTF-8 keeps the order of code points.
pub open spec fn name_le(a: Seq<char>, b: Seq<char>) -> bool
    decreases a.len(),
{
    if a.len() == 0 {
        true
    } else if b.len() == 0 {
        false
    } else if a[0] != b[0] {
        a[0] < b[0]
    } else {
        name_le(a.drop_first(), b.drop_first())
    }
}

/// Law: a string comes no later than itself.
pub proof fn lemma_name_le_reflexive(a: Seq<char>)
    ensures
        name_le(a, a),
    decreases a.len(),
{
    if a.len() > 0 {
        lemma_name_le_reflexive(a.drop_first());
    }
}

/// Law: a string comes strictly before every longer string that it begins,
/// as `String::cmp` orders them.
pub proof fn lemma_name_le_prefix_first(a: Seq<char>, s: Seq<char>)
    requires
        s.len() > 0,
    ensures
        name_le(a, a + s),
        !name_le(a + s, a),
    decreases a.len(),
{
    if a.len() > 0 {
        assert((a + s).drop_first() =~= a.drop_first() + s);
        assert((a + s)[0] == a[0]);
        lemma_name_le_prefix_first(a.drop_first(), s);
    } else {
        assert(a + s =~= s);
    }
}

/// Law: two strings that agree up to some position are ordered by their
/// first differing characters, whatever follows, as `String::cmp` orders
/// them.
pub proof fn lemma_name_le_first_difference(
    p: Seq<char>,
    c: char,
    d: char,
    x: Seq<char>,
    y: Seq<char>,
)
    requires
        c < d,
    ensures
        name_le(p + seq![c] + x, p + seq![d] + y),
        !name_le(p + seq![d] + y, p + seq![c] + x),
    decreases p.len(),
{
    let a = p + seq![c] + x;
    let b = p + seq![d] + y;
    if p.len() > 0 {
        assert(a.drop_first() =~= p.drop_first() + seq![c] + x);
        assert(b.drop_first() =~= p.drop_first() + seq![d] + y);
        assert(a[0] == p[0] && b[0] == p[0]);
        lemma_name_le_first_difference(p.drop_first(), c, d, x, y);
    } else {
        assert(a[0] == c && b[0] == d);
    }
}

/// Any two strings are in order one way or the other.
pub proof fn lemma_name_le_total(a: Seq<char>, b: Seq<char>)
    ensures
        name_le(a, b) || name_le(b, a),
    decreases a.len(),
{
    if a.len() > 0 && b.len() > 0 && a[0] == b[0] {
        lemma_name_le_total(a.drop_first(), b.drop_first());
    }
}

/// The order of strings is transitive.
pub proof fn lemma_name_le_transitive(a: Seq<char>, b: Seq<char>, c: Seq<char>)
    requires
        name_le(a, b),
        name_le(b, c),
    ensures
        name_le(a, c),
    decreases a.len(),
{
    if a.len() > 0 && b.len() > 0 && c.len() > 0 && a[0] == b[0] && b[0] == c[0] {
        lemma_name_le_transitive(a.drop_first(), b.drop_first(), c.drop_first());
    }
}

/// Whether `a` comes no later than `b` in the order of strings.
pub fn names_in_order(a: &Vec<char>, b: &Vec<char>) -> (r: bool)
    ensures
        r == name_le(a@, b@),
{
    let mut i: usize = 0;
    assert(a@.skip(0) =~= a@);
    assert(b@.skip(0) =~= b@);
    while i < a.len() && i < b.len()
        invariant
            i <= a.len(),
            i <= b.len(),
            name_le(a@, b@) == name_le(a@.skip(i as int), b@.skip(i as int)),
        decreases a.len() - i,
    {
        assert(a@.skip(i as int).drop_first() =~= a@.skip(i + 1));
        assert(b@.skip(i as int).drop_first() =~= b@.skip(i + 1));
        if a[i] != b[i] {
            return a[i] < b[i];
        }
        i = i + 1;
    }
    i == a.len()
}

/// Whether server `i` is listed no later than server `j` in the table: by
/// the rank of their statuses, then by name.
pub open spec fn row_le(s: Seq<ServerView>, i: int, j: int) -> bool {
    status_rank(s[i].status) < status_rank(s[j].status) || (status_rank(s[i].status)
        == status_rank(s[j].status) && name_le(s[i].name, s[j].name))
}

/// Whether `ord` lists each of the servers `s` once, by status rank and
/// then by name, and servers that agree in both in the order in which they
/// were given (a stable sort).
pub open spec fn is_table_order(s: Seq<ServerView>, ord: Seq<usize>) -> bool {
    &&& ord.len() == s.len()
    &&& forall|a: int| 0 <= a < ord.len() ==> #[trigger] ord[a] < s.len()
    &&& forall|a: int, b: int| 0 <= a < b < ord.len() ==> #[trigger] ord[a] != #[trigger] ord[b]
    &&& forall|a: int, b: int|
        0 <= a < b < ord.len() ==> row_le(s, #[trigger] ord[a] as int, #[trigger] ord[b] as int)
    &&& forall|a: int, b: int|
        0 <= a < b < ord.len() && row_le(s, #[trigger] ord[b] as int, #[trigger] ord[a] as int)
            ==> ord[a] < ord[b]
}

proof fn lemma_row_le_total(s: Seq<ServerView>, i: int, j: int)
    ensures
        row_le(s, i, j) || row_le(s, j, i),
{
    lemma_name_le_total(s[i].name, s[j].name);
}

proof fn lemma_row_le_transitive(s: Seq<ServerView>, i: int, j: int, k: int)
    requires
        row_le(s, i, j),
        row_le(s, j, k),
    ensures
        row_le(s, i, k),
{
    if status_rank(s[i].status) == status_rank(s[j].status) && status_rank(s[j].status)
        == status_rank(s[k].status) {
        lemma_name_le_transitive(s[i].name, s[j].name, s[k].name);
    }
}

/// Whether server `i` is listed no later than server `j`.
fn rows_in_order(ranks: &Vec<u8>, names: &Vec<Vec<char>>, i: usize, j: usize, s: Ghost<Seq<ServerView>>) -> (r: bool)
    requires
        i < ranks.len(),
        j < ranks.len(),
        ranks.len() == names.len(),
        ranks.len() == s@.len(),
        forall|k: int| 0 <= k < ranks.len() ==> #[trigger] ranks@[k] == status_rank(s@[k].status),
        forall|k: int| 0 <= k < names.len() ==> #[trigger] names@[k]@ == s@[k].name,
    ensures
        r == row_le(s@, i as int, j as int),
{
    if ranks[i] != ranks[j] {
        ranks[i] < ranks[j]
    } else {
        names_in_order(&names[i], &names[j])
    }
}

/// The order in which the table lists the servers (see `is_table_order`).
pub fn table_order(servers: &Vec<Server>) -> (ord: Vec<usize>)
    ensures
        is_table_order(servers_view(servers@), ord@),
{
    let ghost s = servers_view(servers@);
    let n = servers.len();
    let mut ranks: Vec<u8> = Vec::new();
    let mut names: Vec<Vec<char>> = Vec::new();
    let mut k: usize = 0;
    while k < n
        invariant
            k <= n == servers.len(),
            s == servers_view(servers@),
            ranks.len() == k,
            names.len() == k,
            forall|m: int| 0 <= m < k ==> #[trigger] ranks@[m] == status_rank(s[m].status),
            forall|m: int| 0 <= m < k ==> #[trigger] names@[m]@ == s[m].name,
        decreases n - k,
    {
        ranks.push(servers[k].status.sort_order());
        names.push(chars_of(servers[k].name.as_str()));
        k = k + 1;
    }
    let mut ord: Vec<usize> = Vec::new();
    let mut k: usize = 0;
    while k < n
        invariant
            k <= n == servers.len() == ranks.len() == names.len(),
            s == servers_view(servers@),
            forall|m: int| 0 <= m < n ==> #[trigger] ranks@[m] == status_rank(s[m].status),
            forall|m: int| 0 <= m < n ==> #[trigger] names@[m]@ == s[m].name,
            ord.len() == k,
            forall|a: int| 0 <= a < ord.len() ==> #[trigger] ord@[a] < k,
            forall|a: int, b: int| 0 <= a < b < ord.len() ==> #[trigger] ord@[a] != #[trigger] ord@[b],
            forall|a: int, b: int|
                0 <= a < b < ord.len() ==> row_le(s, #[trigger] ord@[a] as int, #[trigger] ord@[b] as int),
            forall|a: int, b: int|
                0 <= a < b < ord.len() && row_le(s, #[trigger] ord@[b] as int, #[trigger] ord@[a] as int)
                    ==> ord@[a] < ord@[b],
        decreases n - k,
    {
        // The rows that come no later than `k` form a prefix of `ord`.
        let mut p: usize = 0;
        while p < ord.len() && rows_in_order(&ranks, &names, ord[p], k, Ghost(s))
            invariant
                p <= ord.len() == k < n == ranks.len() == names.len() == s.len(),
                forall|m: int| 0 <= m < n ==> #[trigger] ranks@[m] == status_rank(s[m].status),
                forall|m: int| 0 <= m < n ==> #[trigger] names@[m]@ == s[m].name,
                forall|a: int| 0 <= a < ord.len() ==> #[trigger] ord@[a] < k,
                forall|a: int| 0 <= a < p ==> row_le(s, #[trigger] ord@[a] as int, k as int),
            decreases ord.len() - p,
        {
            p = p + 1;
        }
        let ghost old_ord = ord@;
        proof {
            if p < old_ord.len() {
                assert(!row_le(s, old_ord[p as int] as int, k as int));
                assert forall|b: int| p <= b < old_ord.len() implies !row_le(
                    s,
                    #[trigger] old_ord[b] as int,
                    k as int,
                ) by {
                    if b > p && row_le(s, old_ord[b] as int, k as int) {
                        assert(row_le(s, old_ord[p as int] as int, old_ord[b] as int));
                        lemma_row_le_transitive(s, old_ord[p as int] as int, old_ord[b] as int, k as int);
                    }
                }
            }
            assert forall|b: int| p <= b < old_ord.len() implies row_le(
                s,
                k as int,
                #[trigger] old_ord[b] as int,
            ) by {
                lemma_row_le_total(s, k as int, old_ord[b] as int);
            }
        }
        ord.insert(p, k);
        proof {
            let o = ord@;
            assert(o == old_ord.insert(p as int, k));
            assert forall|a: int| 0 <= a < o.len() implies #[trigger] o[a] < k + 1 by {
                if a > p {
                    assert(o[a] == old_ord[a - 1]);
                }
            }
            assert forall|a: int, b: int| 0 <= a < b < o.len() implies #[trigger] o[a] != #[trigger] o[b] by {
                if a < p && b > p {
                    assert(o[b] == old_ord[b - 1]);
                } else if a > p {
                    assert(o[a] == old_ord[a - 1] && o[b] == old_ord[b - 1]);
                } else if a == p {
                    assert(o[b] == old_ord[b - 1]);
                }
            }
            assert forall|a: int, b: int| 0 <= a < b < o.len() implies row_le(
                s,
                #[trigger] o[a] as int,
                #[trigger] o[b] as int,
            ) by {
                if a < p && b > p {
                    assert(o[b] == old_ord[b - 1]);
                    lemma_row_le_total(s, k as int, old_ord[b - 1] as int);
                    lemma_row_le_transitive(s, o[a] as int, k as int, o[b] as int);
                } else if a > p {
                    assert(o[a] == old_ord[a - 1] && o[b] == old_ord[b - 1]);
                } else if a == p {
                    assert(o[b] == old_ord[b - 1]);
                }
            }
            assert forall|a: int, b: int|
                0 <= a < b < o.len() && row_le(s, #[trigger] o[b] as int, #[trigger] o[a] as int)
                implies o[a] < o[b] by {
                if a < p && b > p {
                    assert(o[b] == old_ord[b - 1]);
                    // o[a] <= k <= o[b], and o[b] <= o[a], so o[b] <= k: excluded.
                    lemma_row_le_transitive(s, o[b] as int, o[a] as int, k as int);
                } else if a > p {
                    assert(o[a] == old_ord[a - 1] && o[b] == old_ord[b - 1]);
                } else if a == p {
                    assert(o[b] == old_ord[b - 1]);
                } else if b == p {
                    assert(o[a] == old_ord[a]);
                }
            }
        }
        k = k + 1;
    }
    ord
}

} // verus!
