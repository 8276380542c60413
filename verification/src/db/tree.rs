//! The walk over everything that hangs under a session, and what it finds.

use vstd::prelude::*;

use super::queries::placeholders;
use super::rows::{all_of, text_column, Read};
use super::{Exchange, ReplyV, SqlV, StatementV};

verus! {

/// The texts of a list, as SQL values.
pub open spec fn texts(ids: Seq<Seq<char>>) -> Seq<SqlV> {
    ids.map_values(|id: Seq<char>| SqlV::Text(id))
}

pub const CHILDREN_HEAD: &'static str = "SELECT DISTINCT src FROM edges
             WHERE dst IN (";

pub const CHILDREN_TAIL: &'static str = ") AND kind IN ('part_of', 'derives_from')";

/// The query for the nodes that hang directly under one of `parents`.
pub open spec fn children_query(parents: Seq<Seq<char>>) -> StatementV {
    StatementV { sql: CHILDREN_HEAD@ + placeholders(parents.len()) + CHILDREN_TAIL@, params: texts(parents) }
}

/// The IDs that answer a query for children.
pub open spec fn children_of(reply: ReplyV) -> Read<Seq<Seq<char>>> {
    all_of(reply, |row: Seq<SqlV>| text_column(row, 0, "src"@))
}

/// Those of `found` that are not in `visited`, each once, in the order in which
/// they come first.
pub open spec fn fresh(visited: Seq<Seq<char>>, found: Seq<Seq<char>>) -> Seq<Seq<char>>
    decreases found.len(),
{
    if found.len() == 0 {
        Seq::empty()
    } else {
        let before = fresh(visited, found.drop_last());
        if visited.contains(found.last()) || before.contains(found.last()) {
            before
        } else {
            before.push(found.last())
        }
    }
}

/// The walk from `visited`, of which `frontier` has not been asked about yet:
/// each exchange of `log` asks for what hangs under the frontier, and what is
/// fresh in the answer becomes the next frontier. The walk ends with a fault, or
/// with all that was visited when nothing fresh is left.
pub open spec fn walks(
    visited: Seq<Seq<char>>,
    frontier: Seq<Seq<char>>,
    log: Seq<Exchange>,
    r: Read<Seq<Seq<char>>>,
) -> bool
    decreases log.len(),
{
    if frontier.len() == 0 {
        log.len() == 0 && r == Read::Ok(visited)
    } else {
        &&& log.len() > 0
        &&& log.first().statement == children_query(frontier)
        &&& log.first().reply is Rows
        &&& match children_of(log.first().reply) {
            Err(f) => log.len() == 1 && r == Read::<Seq<Seq<char>>>::Err(f),
            Ok(found) => walks(
                visited + fresh(visited, found),
                fresh(visited, found),
                log.drop_first(),
                r,
            ),
        }
    }
}

/// `to` hangs under `from`, `steps` edges away. `under` holds of a node and the
/// one that it hangs under directly.
pub open spec fn hangs(
    under: spec_fn(Seq<char>, Seq<char>) -> bool,
    from: Seq<char>,
    to: Seq<char>,
    steps: nat,
) -> bool
    decreases steps,
{
    if steps == 0 {
        from == to
    } else {
        exists|mid: Seq<char>| hangs(under, from, mid, (steps - 1) as nat) && #[trigger] under(to, mid)
    }
}

/// The log was answered by a graph in which the edges `under` are the ones that
/// the walk follows: each answer lists what hangs directly under the nodes that
/// were asked about.
pub open spec fn answered_by(under: spec_fn(Seq<char>, Seq<char>) -> bool, log: Seq<Exchange>) -> bool {
    forall|i: int, parents: Seq<Seq<char>>|
        0 <= i < log.len() && (#[trigger] log[i]).statement == #[trigger] children_query(parents) ==> {
            &&& children_of(log[i].reply) is Ok
            &&& forall|x: Seq<char>|
                #[trigger] children_of(log[i].reply)->Ok_0.contains(x) <==> exists|p: Seq<char>|
                    parents.contains(p) && #[trigger] under(x, p)
        }
}

/// What is fresh: everything found that was not visited, without repetition.
pub proof fn lemma_fresh(visited: Seq<Seq<char>>, found: Seq<Seq<char>>)
    ensures
        fresh(visited, found).no_duplicates(),
        forall|x: Seq<char>|
            #[trigger] fresh(visited, found).contains(x) <==> found.contains(x) && !visited.contains(x),
    decreases found.len(),
{
    if found.len() > 0 {
        let rest = found.drop_last();
        let before = fresh(visited, rest);
        lemma_fresh(visited, rest);
        assert forall|x: Seq<char>| #[trigger] fresh(visited, found).contains(x) <==> found.contains(x)
            && !visited.contains(x) by {
            if found.contains(x) {
                let i = found.index_of(x);
                if i < rest.len() {
                    assert(rest[i] == x);
                } else {
                    assert(x == found.last());
                }
            }
            if rest.contains(x) {
                let i = rest.index_of(x);
                assert(found[i] == x);
            }
            assert(found[found.len() - 1] == found.last());
            if before.contains(x) {
                let i = before.index_of(x);
                assert(before.push(found.last())[i] == x);
            }
            assert(before.push(found.last())[before.len() as int] == found.last());
            if before.push(found.last()).contains(x) {
                let i = before.push(found.last()).index_of(x);
                if i < before.len() {
                    assert(before[i] == x);
                }
            }
        }
    }
}

/// `to` hangs under `from`, at most `steps` edges away.
pub open spec fn within(
    under: spec_fn(Seq<char>, Seq<char>) -> bool,
    from: Seq<char>,
    to: Seq<char>,
    steps: nat,
) -> bool {
    exists|n: nat| n <= steps && #[trigger] hangs(under, from, to, n)
}

/// The nodes come by non-decreasing distance: one that comes before another is at
/// most as far away.
pub open spec fn by_distance(
    under: spec_fn(Seq<char>, Seq<char>) -> bool,
    root: Seq<char>,
    nodes: Seq<Seq<char>>,
) -> bool {
    forall|i: int, j: int, n: nat|
        0 <= i <= j < nodes.len() && within(under, root, #[trigger] nodes[j], n) ==> #[trigger] within(
            under,
            root,
            nodes[i],
            n,
        )
}

/// What hangs under a node hangs one step further away than it.
proof fn lemma_one_step(
    under: spec_fn(Seq<char>, Seq<char>) -> bool,
    root: Seq<char>,
    p: Seq<char>,
    x: Seq<char>,
    n: nat,
)
    requires
        hangs(under, root, p, n),
        under(x, p),
    ensures
        hangs(under, root, x, n + 1),
{
    assert(hangs(under, root, p, ((n + 1) - 1) as nat));
}

/// Where no node is exactly `k` steps away, everything that hangs under `root` is
/// less than `k` steps away.
proof fn lemma_nothing_beyond(
    under: spec_fn(Seq<char>, Seq<char>) -> bool,
    root: Seq<char>,
    k: nat,
    x: Seq<char>,
    n: nat,
)
    requires
        forall|y: Seq<char>| #[trigger]
            hangs(under, root, y, k) ==> exists|m: nat| m < k && #[trigger] hangs(under, root, y, m),
        hangs(under, root, x, n),
    ensures
        within(under, root, x, k),
    decreases n,
{
    if n > k {
        let mid = choose|mid: Seq<char>| hangs(under, root, mid, (n - 1) as nat) && #[trigger] under(x, mid);
        lemma_nothing_beyond(under, root, k, mid, (n - 1) as nat);
        let m = choose|m: nat| m <= k && #[trigger] hangs(under, root, mid, m);
        let near = if m < k {
            m
        } else {
            choose|m: nat| m < k && #[trigger] hangs(under, root, mid, m)
        };
        assert(near < k && hangs(under, root, mid, near));
        lemma_one_step(under, root, mid, x, near);
    }
}

/// The walk from a state in which the nodes at most `k` steps from `root` were
/// visited, by distance, and those exactly `k` steps away are the frontier, ends with
/// exactly what hangs under `root`, by distance.
proof fn lemma_walk_reaches(
    under: spec_fn(Seq<char>, Seq<char>) -> bool,
    root: Seq<char>,
    k: nat,
    visited: Seq<Seq<char>>,
    frontier: Seq<Seq<char>>,
    log: Seq<Exchange>,
    r: Read<Seq<Seq<char>>>,
)
    requires
        walks(visited, frontier, log, r),
        answered_by(under, log),
        visited.no_duplicates(),
        visited.len() > 0,
        visited[0] == root,
        by_distance(under, root, visited),
        forall|x: Seq<char>| #[trigger] visited.contains(x) <==> within(under, root, x, k),
        forall|x: Seq<char>| #[trigger]
            frontier.contains(x) <==> hangs(under, root, x, k) && !exists|m: nat|
                m < k && #[trigger] hangs(under, root, x, m),
    ensures
        r is Ok,
        r->Ok_0.no_duplicates(),
        r->Ok_0.len() > 0,
        r->Ok_0[0] == root,
        by_distance(under, root, r->Ok_0),
        forall|x: Seq<char>| #[trigger] r->Ok_0.contains(x) <==> exists|n: nat| hangs(under, root, x, n),
    decreases log.len(),
{
    if frontier.len() == 0 {
        assert forall|y: Seq<char>| #[trigger] hangs(under, root, y, k) implies exists|m: nat|
            m < k && #[trigger] hangs(under, root, y, m) by {
            assert(!frontier.contains(y));
        }
        assert forall|x: Seq<char>| #[trigger] visited.contains(x) <==> exists|n: nat| hangs(under, root, x, n) by {
            if exists|n: nat| hangs(under, root, x, n) {
                let n = choose|n: nat| hangs(under, root, x, n);
                lemma_nothing_beyond(under, root, k, x, n);
            }
        }
    } else {
        let found = children_of(log.first().reply)->Ok_0;
        assert(log[0].statement == children_query(frontier));
        let new = fresh(visited, found);
        lemma_fresh(visited, found);
        let all = visited + new;
        assert forall|x: Seq<char>| #[trigger] all.contains(x) <==> visited.contains(x) || new.contains(x) by {
            if all.contains(x) {
                let i = all.index_of(x);
                if i < visited.len() {
                    assert(visited[i] == x);
                } else {
                    assert(new[i - visited.len()] == x);
                }
            }
            if visited.contains(x) {
                assert(all[visited.index_of(x)] == x);
            }
            if new.contains(x) {
                assert(all[visited.len() + new.index_of(x)] == x);
            }
        }
        assert(all.no_duplicates()) by {
            assert forall|i: int, j: int| 0 <= i < j < all.len() implies all[i] != all[j] by {
                if i < visited.len() && j >= visited.len() {
                    assert(visited.contains(visited[i]));
                    assert(new.contains(new[j - visited.len()]));
                } else if i >= visited.len() {
                    assert(new[i - visited.len()] != new[j - visited.len()]);
                }
            }
        }
        assert forall|x: Seq<char>| #[trigger] new.contains(x) implies hangs(under, root, x, k + 1) && !within(
            under,
            root,
            x,
            k,
        ) by {
            let p = choose|p: Seq<char>| frontier.contains(p) && #[trigger] under(x, p);
            lemma_one_step(under, root, p, x, k);
            assert(!visited.contains(x));
        }
        assert forall|x: Seq<char>| within(under, root, x, k + 1) && !visited.contains(x) implies new.contains(x) by {
            let n = choose|n: nat| n <= k + 1 && #[trigger] hangs(under, root, x, n);
            assert(n == k + 1);
            let mid = choose|mid: Seq<char>| hangs(under, root, mid, (n - 1) as nat) && #[trigger] under(x, mid);
            if !frontier.contains(mid) {
                let m = choose|m: nat| m < k && #[trigger] hangs(under, root, mid, m);
                lemma_one_step(under, root, mid, x, m);
                assert(within(under, root, x, k));
            }
            assert(found.contains(x));
        }
        assert forall|x: Seq<char>| #[trigger] all.contains(x) <==> within(under, root, x, k + 1) by {
            if visited.contains(x) {
                let n = choose|n: nat| n <= k && #[trigger] hangs(under, root, x, n);
                assert(n <= k + 1);
            }
        }
        assert forall|x: Seq<char>| #[trigger] new.contains(x) <==> hangs(under, root, x, k + 1) && !exists|m: nat|
            m < k + 1 && #[trigger] hangs(under, root, x, m) by {
            if hangs(under, root, x, k + 1) && !exists|m: nat| m < k + 1 && #[trigger] hangs(under, root, x, m) {
                assert(within(under, root, x, k + 1));
                if visited.contains(x) {
                    let n = choose|n: nat| n <= k && #[trigger] hangs(under, root, x, n);
                    assert(n < k + 1);
                }
            }
            if exists|m: nat| m < k + 1 && #[trigger] hangs(under, root, x, m) {
                let m = choose|m: nat| m < k + 1 && #[trigger] hangs(under, root, x, m);
                assert(m <= k);
                assert(within(under, root, x, k));
            }
        }
        assert(by_distance(under, root, all)) by {
            assert forall|i: int, j: int, n: nat|
                0 <= i <= j < all.len() && within(under, root, #[trigger] all[j], n) implies #[trigger] within(
                under,
                root,
                all[i],
                n,
            ) by {
                if j < visited.len() {
                    assert(all[j] == visited[j]);
                    assert(all[i] == visited[i]);
                    assert(within(under, root, visited[j], n));
                    assert(within(under, root, visited[i], n));
                } else {
                    assert(new.contains(new[j - visited.len()]));
                    let m = choose|m: nat| m <= n && #[trigger] hangs(under, root, all[j], m);
                    assert(m > k);
                    if i < visited.len() {
                        assert(visited.contains(visited[i]));
                        let h = choose|h: nat| h <= k && #[trigger] hangs(under, root, all[i], h);
                        assert(h <= n);
                    } else {
                        assert(new.contains(new[i - visited.len()]));
                        assert(hangs(under, root, all[i], k + 1));
                    }
                }
            }
        }
        let rest = log.drop_first();
        assert(answered_by(under, rest)) by {
            assert forall|i: int, parents: Seq<Seq<char>>|
                0 <= i < rest.len() && (#[trigger] rest[i]).statement == #[trigger] children_query(parents) implies {
                &&& children_of(rest[i].reply) is Ok
                &&& forall|x: Seq<char>|
                    #[trigger] children_of(rest[i].reply)->Ok_0.contains(x) <==> exists|p: Seq<char>|
                        parents.contains(p) && #[trigger] under(x, p)
            } by {
                assert(rest[i] == log[i + 1]);
            }
        }
        lemma_walk_reaches(under, root, k + 1, all, new, rest, r);
    }
}

/// The walk over a session's tree finds the session first, then exactly the
/// nodes that hang under it at any depth, each once and by non-decreasing distance,
/// as far as the database answers every query by what hangs directly under the nodes
/// asked about.
pub proof fn law_session_tree_is_what_hangs_under_the_session(
    under: spec_fn(Seq<char>, Seq<char>) -> bool,
    session: Seq<char>,
    log: Seq<Exchange>,
    r: Read<Seq<Seq<char>>>,
)
    requires
        walks(seq![session], seq![session], log, r),
        answered_by(under, log),
    ensures
        r is Ok,
        r->Ok_0.len() > 0,
        r->Ok_0[0] == session,
        r->Ok_0.no_duplicates(),
        by_distance(under, session, r->Ok_0),
        forall|x: Seq<char>| #[trigger] r->Ok_0.contains(x) <==> exists|n: nat| hangs(under, session, x, n),
{
    let one = seq![session];
    assert(one[0] == session);
    assert(hangs(under, session, session, 0));
    assert forall|x: Seq<char>| #[trigger] one.contains(x) <==> within(under, session, x, 0) by {
        if one.contains(x) {
            assert(x == session);
        }
    }
    lemma_walk_reaches(under, session, 0, one, one, log, r);
}

}
