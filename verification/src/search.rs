use vstd::prelude::*;

use crate::level::{ZoneConnection, ZoneId};

verus! {

/// The door `c` joins `a` and `b` (in either direction).
pub open spec fn conn_links(c: ZoneConnection, a: u32, b: u32) -> bool {
    (c.from_zone.0 == a && c.to_zone.0 == b) || (c.from_zone.0 == b && c.to_zone.0 == a)
}

/// Some door joins `a` and `b`.
pub open spec fn adjacent(conns: Seq<ZoneConnection>, a: u32, b: u32) -> bool {
    exists|i: int| 0 <= i < conns.len() && #[trigger] conn_links(conns[i], a, b)
}

/// A walk through the doors: consecutive zones are joined by a door.
pub open spec fn is_walk(conns: Seq<ZoneConnection>, p: Seq<u32>) -> bool {
    &&& p.len() > 0
    &&& forall|i: int| 0 <= i < p.len() - 1 ==> adjacent(conns, #[trigger] p[i], p[i + 1])
}

/// A walk from `a` to `b`.
pub open spec fn walk_between(conns: Seq<ZoneConnection>, p: Seq<u32>, a: u32, b: u32) -> bool {
    is_walk(conns, p) && p[0] == a && p[p.len() - 1] == b
}

/// `b` can be reached from `a` through doors.
pub open spec fn reachable(conns: Seq<ZoneConnection>, a: u32, b: u32) -> bool {
    exists|p: Seq<u32>| walk_between(conns, p, a, b)
}

/// `n` doors is the fewest that lead from `a` to `b`.
pub open spec fn distance_is(conns: Seq<ZoneConnection>, a: u32, b: u32, n: nat) -> bool {
    &&& exists|p: Seq<u32>| walk_between(conns, p, a, b) && p.len() == n + 1
    &&& forall|p: Seq<u32>| walk_between(conns, p, a, b) ==> n + 1 <= p.len()
}

/// `b` can be reached from `a` through at most `n` doors.
pub open spec fn within_doors(conns: Seq<ZoneConnection>, a: u32, b: u32, n: nat) -> bool {
    exists|p: Seq<u32>| walk_between(conns, p, a, b) && p.len() <= n + 1
}

/// The neighbours of `x` as the first `n` doors list them: in door order, each once.
pub open spec fn neighbors_upto(conns: Seq<ZoneConnection>, x: u32, n: nat) -> Seq<u32>
    decreases n,
{
    if n == 0 {
        seq![]
    } else {
        let prev = neighbors_upto(conns, x, (n - 1) as nat);
        let c = conns[n - 1];
        let s1 = if c.from_zone.0 == x && !prev.contains(c.to_zone.0) {
            prev.push(c.to_zone.0)
        } else {
            prev
        };
        if c.to_zone.0 == x && !s1.contains(c.from_zone.0) {
            s1.push(c.from_zone.0)
        } else {
            s1
        }
    }
}

/// The neighbours of `x`, in door order, each once.
pub open spec fn neighbors(conns: Seq<ZoneConnection>, x: u32) -> Seq<u32> {
    neighbors_upto(conns, x, conns.len())
}

proof fn lemma_neighbors_upto(conns: Seq<ZoneConnection>, x: u32, n: nat)
    requires
        n <= conns.len(),
    ensures
        neighbors_upto(conns, x, n).no_duplicates(),
        forall|y: u32|
            neighbors_upto(conns, x, n).contains(y) <==> exists|i: int|
                0 <= i < n && #[trigger] conn_links(conns[i], x, y),
    decreases n,
{
    if n > 0 {
        lemma_neighbors_upto(conns, x, (n - 1) as nat);
        let prev = neighbors_upto(conns, x, (n - 1) as nat);
        let c = conns[n - 1];
        let s1 = if c.from_zone.0 == x && !prev.contains(c.to_zone.0) {
            prev.push(c.to_zone.0)
        } else {
            prev
        };
        let s2 = neighbors_upto(conns, x, n);
        assert forall|y: u32| s1.contains(y) <==> (prev.contains(y) || (c.from_zone.0 == x
            && c.to_zone.0 == y)) by {
            if c.from_zone.0 == x && !prev.contains(c.to_zone.0) {
                assert(prev.push(c.to_zone.0)[prev.len() as int] == c.to_zone.0);
                if prev.push(c.to_zone.0).contains(y) {
                    let k = choose|k: int| 0 <= k < s1.len() && s1[k] == y;
                    if k < prev.len() {
                        assert(prev.contains(y));
                    }
                }
                if prev.contains(y) {
                    let k = choose|k: int| 0 <= k < prev.len() && prev[k] == y;
                    assert(s1[k] == y);
                }
            }
        }
        assert forall|y: u32| s2.contains(y) <==> (s1.contains(y) || (c.to_zone.0 == x
            && c.from_zone.0 == y)) by {
            if c.to_zone.0 == x && !s1.contains(c.from_zone.0) {
                assert(s1.push(c.from_zone.0)[s1.len() as int] == c.from_zone.0);
                if s2.contains(y) {
                    let k = choose|k: int| 0 <= k < s2.len() && s2[k] == y;
                    if k < s1.len() {
                        assert(s1.contains(y));
                    }
                }
                if s1.contains(y) {
                    let k = choose|k: int| 0 <= k < s1.len() && s1[k] == y;
                    assert(s2[k] == y);
                }
            }
        }
        assert(s1.no_duplicates());
        assert forall|y: u32|
            s2.contains(y) <==> exists|i: int|
                0 <= i < n && #[trigger] conn_links(conns[i], x, y) by {
            if s2.contains(y) {
                if !prev.contains(y) {
                    assert(conn_links(conns[n - 1], x, y));
                }
            }
            if exists|i: int| 0 <= i < n && #[trigger] conn_links(conns[i], x, y) {
                let i = choose|i: int| 0 <= i < n && #[trigger] conn_links(conns[i], x, y);
                if i < n - 1 {
                    assert(prev.contains(y));
                }
            }
        }
    }
}

/// Every neighbour in the list is adjacent, every adjacent zone is listed, once.
pub proof fn lemma_neighbors(conns: Seq<ZoneConnection>, x: u32)
    ensures
        neighbors(conns, x).no_duplicates(),
        forall|y: u32| neighbors(conns, x).contains(y) <==> adjacent(conns, x, y),
{
    lemma_neighbors_upto(conns, x, conns.len());
}

/// The neighbours of `x` through the doors, in door order, each once.
pub fn neighbors_of(conns: &Vec<ZoneConnection>, x: u32) -> (r: Vec<u32>)
    ensures
        r@ == neighbors(conns@, x),
{
    let mut r: Vec<u32> = Vec::new();
    let mut i: usize = 0;
    while i < conns.len()
        invariant
            i <= conns@.len(),
            r@ == neighbors_upto(conns@, x, i as nat),
        decreases conns@.len() - i,
    {
        let c = &conns[i];
        if c.from_zone.0 == x && !contains_u32(&r, c.to_zone.0) {
            r.push(c.to_zone.0);
        }
        if c.to_zone.0 == x && !contains_u32(&r, c.from_zone.0) {
            r.push(c.from_zone.0);
        }
        i = i + 1;
    }
    r
}

/// Does the list hold `x`?
pub fn contains_u32(v: &Vec<u32>, x: u32) -> (b: bool)
    ensures
        b == v@.contains(x),
{
    let mut i: usize = 0;
    while i < v.len()
        invariant
            i <= v@.len(),
            forall|k: int| 0 <= k < i ==> v@[k] != x,
        decreases v@.len() - i,
    {
        if v[i] == x {
            return true;
        }
        i = i + 1;
    }
    false
}

/// Position of `x` in the list, if it is there.
pub fn position_u32(v: &Vec<u32>, x: u32) -> (r: Option<usize>)
    ensures
        match r {
            Some(i) => i < v@.len() && v@[i as int] == x && forall|k: int| 0 <= k < i ==> v@[k] != x,
            None => !v@.contains(x),
        },
{
    let mut i: usize = 0;
    while i < v.len()
        invariant
            i <= v@.len(),
            forall|k: int| 0 <= k < i ==> v@[k] != x,
        decreases v@.len() - i,
    {
        if v[i] == x {
            return Some(i);
        }
        i = i + 1;
    }
    None
}

/// `from` and the ends of every door: the only zones a search from `from` meets.
pub open spec fn endpoints(conns: Seq<ZoneConnection>, from: u32) -> Seq<u32> {
    Seq::new(conns.len(), |i: int| conns[i].from_zone.0) + Seq::new(
        conns.len(),
        |i: int| conns[i].to_zone.0,
    ) + seq![from]
}

proof fn lemma_adjacent_is_endpoint(conns: Seq<ZoneConnection>, from: u32, a: u32, y: u32)
    requires
        adjacent(conns, a, y),
    ensures
        endpoints(conns, from).contains(y),
{
    let i = choose|i: int| 0 <= i < conns.len() && #[trigger] conn_links(conns[i], a, y);
    let n = conns.len() as int;
    let e = endpoints(conns, from);
    if conns[i].from_zone.0 == y {
        assert(e[i] == y);
    } else {
        assert(e[n + i] == y);
    }
}

proof fn lemma_distinct_subset_len(s: Seq<u32>, t: Seq<u32>)
    requires
        s.no_duplicates(),
        forall|i: int| 0 <= i < s.len() ==> t.contains(#[trigger] s[i]),
    ensures
        s.len() <= t.len(),
{
    s.unique_seq_to_set();
    t.lemma_cardinality_of_set();
    assert forall|x: u32| s.to_set().contains(x) implies t.to_set().contains(x) by {
        let k = choose|k: int| 0 <= k < s.len() && s[k] == x;
        assert(t.contains(s[k]));
    }
    vstd::set_lib::lemma_len_subset(s.to_set(), t.to_set());
}

/// A list of distinct `u32` values has at most 2^32 entries.
proof fn lemma_distinct_u32_len(s: Seq<u32>)
    requires
        s.no_duplicates(),
    ensures
        s.len() <= 0x1_0000_0000,
{
    let all = Seq::new(0x1_0000_0000, |i: int| i as u32);
    assert forall|i: int| 0 <= i < s.len() implies all.contains(#[trigger] s[i]) by {
        assert(all[s[i] as int] == s[i]);
    }
    lemma_distinct_subset_len(s, all);
}

/// The search tree a breadth-first search builds: `order` lists the zones in the
/// order they were found, `parents[i]` is the position of the zone from which
/// `order[i]` was found, `depth[i]` its number of doors from `from`.
pub open spec fn bfs_tree_ok(
    conns: Seq<ZoneConnection>,
    from: u32,
    order: Seq<u32>,
    parents: Seq<usize>,
    depth: Seq<usize>,
) -> bool {
    &&& order.len() > 0
    &&& parents.len() == order.len()
    &&& depth.len() == order.len()
    &&& order[0] == from
    &&& parents[0] == 0
    &&& depth[0] == 0
    &&& order.no_duplicates()
    &&& forall|i: int|
        0 < i < order.len() ==> #[trigger] parents[i] < i && adjacent(
            conns,
            order[parents[i] as int],
            order[i],
        ) && depth[i] == depth[parents[i] as int] + 1
    &&& forall|i: int, j: int| 0 <= i <= j < order.len() ==> depth[i] <= depth[j]
    &&& forall|i: int| 0 <= i < order.len() ==> #[trigger] depth[i] <= i
    &&& forall|i: int| 0 <= i < order.len() ==> endpoints(conns, from).contains(#[trigger] order[i])
}

/// The zones found at positions before `head` have all their neighbours found,
/// at most one door further than themselves.
pub open spec fn bfs_expanded(
    conns: Seq<ZoneConnection>,
    order: Seq<u32>,
    depth: Seq<usize>,
    head: int,
) -> bool {
    forall|i: int, y: u32|
        0 <= i < head && #[trigger] adjacent(conns, order[i], y) ==> exists|k: int|
            0 <= k < order.len() && order[k] == y && #[trigger] depth[k] <= depth[i] + 1
}

/// Breadth-first search from `from` through the doors, in the order the doors
/// list the neighbours; it stops when it takes `stop` off the queue.
pub fn bfs_tree(conns: &Vec<ZoneConnection>, from: u32, stop: Option<u32>) -> (r: (
    Vec<u32>,
    Vec<usize>,
    Vec<usize>,
    usize,
))
    ensures
        bfs_tree_ok(conns@, from, r.0@, r.1@, r.2@),
        r.3 <= r.0@.len(),
        r.0@.len() <= endpoints(conns@, from).len(),
        bfs_expanded(conns@, r.0@, r.2@, r.3 as int),
        r.3 < r.0@.len() ==> stop == Some(r.0@[r.3 as int]) && r.2@[r.0@.len() - 1] <= r.2@[r.3 as int]
            + 1,
{
    let mut order: Vec<u32> = Vec::new();
    order.push(from);
    let mut parents: Vec<usize> = Vec::new();
    parents.push(0);
    let mut depth: Vec<usize> = Vec::new();
    depth.push(0);
    let mut head: usize = 0;
    let mut found = false;
    let ghost ends = endpoints(conns@, from);
    assert(ends[ends.len() - 1] == from);
    while head < order.len() && !found
        invariant
            ends == endpoints(conns@, from),
            bfs_tree_ok(conns@, from, order@, parents@, depth@),
            order@.len() <= ends.len(),
            head <= order@.len(),
            bfs_expanded(conns@, order@, depth@, head as int),
            head < order@.len() ==> depth@[order@.len() - 1] <= depth@[head as int] + 1,
            found ==> head < order@.len() && stop == Some(order@[head as int]),
        decreases ends.len() - order@.len(), order@.len() - head, if found {
            0int
        } else {
            1int
        },
    {
        let current = order[head];
        let is_stop = match stop {
            Some(t) => t == current,
            None => false,
        };
        if is_stop {
            found = true;
        } else {
            let nb = neighbors_of(conns, current);
            proof {
                lemma_neighbors(conns@, current);
            }
            let ghost order0 = order@;
            let ghost depth0 = depth@;
            let mut j: usize = 0;
            while j < nb.len()
                invariant
                    ends == endpoints(conns@, from),
                    nb@ == neighbors(conns@, current),
                    forall|y: u32| nb@.contains(y) <==> adjacent(conns@, current, y),
                    current == order@[head as int],
                    head < order0.len(),
                    order0.len() <= order@.len(),
                    forall|k: int| 0 <= k < order0.len() ==> order@[k] == order0[k] && depth@[k] == depth0[k],
                    bfs_tree_ok(conns@, from, order@, parents@, depth@),
                    order@.len() <= ends.len(),
                    bfs_expanded(conns@, order0, depth0, head as int),
                    depth@[order@.len() - 1] <= depth@[head as int] + 1,
                    j <= nb@.len(),
                    forall|m: int|
                        0 <= m < j ==> exists|k: int|
                            0 <= k < order@.len() && order@[k] == #[trigger] nb@[m] && depth@[k]
                                <= depth@[head as int] + 1,
                decreases nb@.len() - j,
            {
                let y = nb[j];
                assert(nb@.contains(y));
                let ghost order1 = order@;
                let ghost depth1 = depth@;
                assert(depth@[head as int] <= head);
                if !contains_u32(&order, y) {
                    proof {
                        lemma_adjacent_is_endpoint(conns@, from, current, y);
                    }
                    let len = order.len();
                    assert(head < len);
                    let d0 = depth[head];
                    assert(d0 <= head);
                    let d = d0 + 1;
                    order.push(y);
                    parents.push(head);
                    depth.push(d);
                    proof {
                        let o = order@;
                        assert forall|a: int, b: int|
                            0 <= a < o.len() && 0 <= b < o.len() && a != b implies o[a] != o[b] by {
                            if a == o.len() - 1 || b == o.len() - 1 {
                                let last = o.len() - 1;
                                let other = if a == last { b } else { a };
                                assert(order0.len() <= other || o[other] != y);
                            }
                        }
                        assert forall|i: int| 0 <= i < o.len() implies ends.contains(
                            #[trigger] o[i],
                        ) by {
                            if i < o.len() - 1 {
                            }
                        }
                        lemma_distinct_subset_len(o, ends);
                        assert(o[o.len() - 1] == nb@[j as int]);
                    }
                } else {
                    proof {
                        let k = choose|k: int| 0 <= k < order@.len() && order@[k] == y;
                        assert(depth@[k] <= depth@[order@.len() - 1]);
                    }
                }
                assert forall|m: int|
                    0 <= m < j + 1 implies exists|k: int|
                        0 <= k < order@.len() && order@[k] == #[trigger] nb@[m] && depth@[k]
                            <= depth@[head as int] + 1 by {
                    if m < j {
                        let k = choose|k: int|
                            0 <= k < order1.len() && order1[k] == #[trigger] nb@[m] && depth1[k]
                                <= depth1[head as int] + 1;
                        assert(order@[k] == nb@[m]);
                    } else {
                        let k = choose|k: int| 0 <= k < order@.len() && order@[k] == y;
                        assert(depth@[k] <= depth@[order@.len() - 1]);
                    }
                }
                j = j + 1;
            }
            proof {
                assert forall|i: int, y: u32|
                    0 <= i < head + 1 && #[trigger] adjacent(conns@, order@[i], y) implies exists|k: int|
                        0 <= k < order@.len() && order@[k] == y && #[trigger] depth@[k] <= depth@[i]
                            + 1 by {
                    if i < head {
                        assert(order0[i] == order@[i]);
                        let k = choose|k: int|
                            0 <= k < order0.len() && order0[k] == y && #[trigger] depth0[k]
                                <= depth0[i] + 1;
                        assert(order@[k] == y && depth@[k] <= depth@[i] + 1);
                    } else {
                        assert(nb@.contains(y));
                        let m = choose|m: int| 0 <= m < nb@.len() && nb@[m] == y;
                        assert(exists|k: int|
                            0 <= k < order@.len() && order@[k] == #[trigger] nb@[m] && depth@[k]
                                <= depth@[head as int] + 1);
                    }
                }
            }
            head = head + 1;
        }
    }
    (order, parents, depth, head)
}

proof fn lemma_adjacent_symmetric(conns: Seq<ZoneConnection>, a: u32, b: u32)
    requires
        adjacent(conns, a, b),
    ensures
        adjacent(conns, b, a),
{
    let i = choose|i: int| 0 <= i < conns.len() && #[trigger] conn_links(conns[i], a, b);
    assert(conn_links(conns[i], b, a));
}

/// The search tree gives every found zone a walk from `from` of its depth.
proof fn lemma_tree_walk(
    conns: Seq<ZoneConnection>,
    from: u32,
    order: Seq<u32>,
    parents: Seq<usize>,
    depth: Seq<usize>,
    i: int,
) -> (p: Seq<u32>)
    requires
        bfs_tree_ok(conns, from, order, parents, depth),
        0 <= i < order.len(),
    ensures
        walk_between(conns, p, from, order[i]),
        p.len() == depth[i] + 1,
    decreases i,
{
    if i == 0 {
        seq![from]
    } else {
        assert(parents[i] < i);
        let q = lemma_tree_walk(conns, from, order, parents, depth, parents[i] as int);
        let p = q.push(order[i]);
        assert forall|j: int| 0 <= j < p.len() - 1 implies adjacent(conns, #[trigger] p[j], p[j + 1]) by {
            if j < q.len() - 1 {
                assert(p[j] == q[j] && p[j + 1] == q[j + 1]);
            }
        }
        p
    }
}

/// Along a walk from `from`, each zone reached only through expanded zones
/// is found no deeper than its position on the walk.
proof fn lemma_walk_depth(
    conns: Seq<ZoneConnection>,
    from: u32,
    order: Seq<u32>,
    parents: Seq<usize>,
    depth: Seq<usize>,
    head: int,
    w: Seq<u32>,
    j: int,
)
    requires
        bfs_tree_ok(conns, from, order, parents, depth),
        bfs_expanded(conns, order, depth, head),
        is_walk(conns, w),
        w[0] == from,
        0 <= j < w.len(),
        forall|jj: int|
            0 <= jj < j ==> exists|k: int| 0 <= k < head && k < order.len() && order[k] == #[trigger] w[jj],
    ensures
        exists|k: int| 0 <= k < order.len() && order[k] == w[j] && depth[k] <= j,
    decreases j,
{
    if j == 0 {
        assert(order[0] == w[0] && depth[0] <= 0);
    } else {
        lemma_walk_depth(conns, from, order, parents, depth, head, w, j - 1);
        let a = choose|k: int| 0 <= k < order.len() && order[k] == w[j - 1] && depth[k] <= j - 1;
        let a2 = choose|k: int| 0 <= k < head && k < order.len() && order[k] == #[trigger] w[j - 1];
        assert(a == a2);
        assert(adjacent(conns, w[j - 1], w[j]));
        assert(adjacent(conns, order[a], w[j]));
        let k = choose|k: int|
            0 <= k < order.len() && order[k] == w[j] && #[trigger] depth[k] <= depth[a] + 1;
        assert(depth[k] <= j);
    }
}

/// When every found zone was expanded, every zone reachable from `from` was
/// found, no deeper than any walk to it.
proof fn lemma_complete_search(
    conns: Seq<ZoneConnection>,
    from: u32,
    order: Seq<u32>,
    parents: Seq<usize>,
    depth: Seq<usize>,
    w: Seq<u32>,
)
    requires
        bfs_tree_ok(conns, from, order, parents, depth),
        bfs_expanded(conns, order, depth, order.len() as int),
        is_walk(conns, w),
        w[0] == from,
    ensures
        exists|k: int| 0 <= k < order.len() && order[k] == w[w.len() - 1] && depth[k] <= w.len() - 1,
{
    assert forall|j: int| 0 <= j < w.len() implies exists|k: int|
        0 <= k < order.len() && order[k] == #[trigger] w[j] && depth[k] <= j by {
        lemma_walk_prefix_found(conns, from, order, parents, depth, w, j);
    }
    assert(exists|k: int| 0 <= k < order.len() && order[k] == #[trigger] w[w.len() - 1] && depth[k] <= w.len() - 1);
}

proof fn lemma_walk_prefix_found(
    conns: Seq<ZoneConnection>,
    from: u32,
    order: Seq<u32>,
    parents: Seq<usize>,
    depth: Seq<usize>,
    w: Seq<u32>,
    j: int,
)
    requires
        bfs_tree_ok(conns, from, order, parents, depth),
        bfs_expanded(conns, order, depth, order.len() as int),
        is_walk(conns, w),
        w[0] == from,
        0 <= j < w.len(),
    ensures
        exists|k: int| 0 <= k < order.len() && order[k] == w[j] && depth[k] <= j,
    decreases j,
{
    if j > 0 {
        lemma_walk_prefix_found(conns, from, order, parents, depth, w, j - 1);
    }
    assert forall|jj: int| 0 <= jj < j implies exists|k: int|
        0 <= k < order.len() as int && k < order.len() && order[k] == #[trigger] w[jj] by {
        lemma_walk_prefix_found(conns, from, order, parents, depth, w, jj);
    }
    lemma_walk_depth(conns, from, order, parents, depth, order.len() as int, w, j);
}

/// A search stopped at `order[head]` found it no deeper than any walk to it.
proof fn lemma_stopped_search(
    conns: Seq<ZoneConnection>,
    from: u32,
    order: Seq<u32>,
    parents: Seq<usize>,
    depth: Seq<usize>,
    head: int,
    w: Seq<u32>,
)
    requires
        bfs_tree_ok(conns, from, order, parents, depth),
        bfs_expanded(conns, order, depth, head),
        0 <= head < order.len(),
        is_walk(conns, w),
        w[0] == from,
        w[w.len() - 1] == order[head],
    ensures
        depth[head] <= w.len() - 1,
{
    // the first zone of the walk that was not expanded
    let pred = |j: int| !(exists|k: int| 0 <= k < head && k < order.len() && order[k] == w[j]);
    assert(pred(w.len() - 1)) by {
        if exists|k: int| 0 <= k < head && k < order.len() && order[k] == w[w.len() - 1] {
            let k = choose|k: int| 0 <= k < head && k < order.len() && order[k] == w[w.len() - 1];
            assert(order[k] == order[head]);
        }
    }
    let j = lemma_first_such(pred, w.len() - 1);
    assert forall|jj: int| 0 <= jj < j implies exists|k: int|
        0 <= k < head && k < order.len() && order[k] == #[trigger] w[jj] by {
        assert(!pred(jj));
    }
    lemma_walk_depth(conns, from, order, parents, depth, head, w, j);
    let k = choose|k: int| 0 <= k < order.len() && order[k] == w[j] && depth[k] <= j;
    assert(k >= head);
    assert(depth[head] <= depth[k]);
}

proof fn lemma_first_such(pred: spec_fn(int) -> bool, n: int) -> (j: int)
    requires
        n >= 0,
        pred(n),
    ensures
        0 <= j <= n,
        pred(j),
        forall|jj: int| 0 <= jj < j ==> !#[trigger] pred(jj),
    decreases n,
{
    if n == 0 {
        0
    } else if exists|jj: int| 0 <= jj < n && #[trigger] pred(jj) {
        let m = choose|jj: int| 0 <= jj < n && #[trigger] pred(jj);
        lemma_first_such(pred, m)
    } else {
        n
    }
}

/// The ids of a list of zone ids.
pub open spec fn raw_ids(p: Seq<ZoneId>) -> Seq<u32> {
    p.map_values(|z: ZoneId| z.0)
}

/// A shortest walk through the doors from `from` to `to`, found by
/// breadth-first search; `None` exactly when `to` cannot be reached.
pub fn bfs_path(conns: &Vec<ZoneConnection>, from: ZoneId, to: ZoneId) -> (r: Option<Vec<ZoneId>>)
    ensures
        match r {
            Some(p) => walk_between(conns@, raw_ids(p@), from.0, to.0) && forall|w: Seq<u32>|
                walk_between(conns@, w, from.0, to.0) ==> p@.len() <= w.len(),
            None => !reachable(conns@, from.0, to.0),
        },
{
    let (order, parents, depth, head) = bfs_tree(conns, from.0, Some(to.0));
    let k = match position_u32(&order, to.0) {
        Some(k) => k,
        None => {
            proof {
                if reachable(conns@, from.0, to.0) {
                    let w = choose|w: Seq<u32>| walk_between(conns@, w, from.0, to.0);
                    lemma_complete_search(conns@, from.0, order@, parents@, depth@, w);
                }
            }
            return None;
        },
    };
    // walk back up the search tree from `to`
    let mut back: Vec<ZoneId> = Vec::new();
    back.push(ZoneId(order[k]));
    let mut idx = k;
    while idx != 0
        invariant
            bfs_tree_ok(conns@, from.0, order@, parents@, depth@),
            k < order@.len(),
            idx < order@.len(),
            depth@[idx as int] <= depth@[k as int],
            back@.len() >= 1,
            back@.len() == depth@[k as int] - depth@[idx as int] + 1,
            back@[0] == ZoneId(order@[k as int]),
            back@[back@.len() - 1] == ZoneId(order@[idx as int]),
            forall|i: int|
                0 <= i < back@.len() - 1 ==> adjacent(conns@, (#[trigger] back@[i]).0, back@[i + 1].0),
        decreases idx,
    {
        let ghost old_back = back@;
        let ghost old_idx = idx;
        idx = parents[idx];
        back.push(ZoneId(order[idx]));
        proof {
            assert(back@[0] == old_back[0]);
            assert(back@[back@.len() - 1] == ZoneId(order@[idx as int]));
            assert(adjacent(conns@, order@[idx as int], order@[old_idx as int]));
            lemma_adjacent_symmetric(conns@, order@[idx as int], order@[old_idx as int]);
            assert forall|i: int|
                0 <= i < back@.len() - 1 implies adjacent(conns@, (#[trigger] back@[i]).0, back@[i + 1].0) by {
                if i < old_back.len() - 1 {
                    assert(back@[i] == old_back[i] && back@[i + 1] == old_back[i + 1]);
                }
            }
        }
    }
    let n = back.len();
    let mut path: Vec<ZoneId> = Vec::new();
    let mut j: usize = 0;
    while j < n
        invariant
            n == back@.len(),
            j <= n,
            path@.len() == j,
            forall|i: int| 0 <= i < j ==> path@[i] == back@[n - 1 - i],
        decreases n - j,
    {
        path.push(back[n - 1 - j]);
        j = j + 1;
    }
    proof {
        let p = raw_ids(path@);
        assert forall|i: int| 0 <= i < p.len() - 1 implies adjacent(conns@, #[trigger] p[i], p[i + 1]) by {
            let bi = n - 2 - i;
            assert(adjacent(conns@, back@[bi].0, back@[bi + 1].0));
            lemma_adjacent_symmetric(conns@, back@[bi].0, back@[bi + 1].0);
        }
        assert(p[0] == from.0);
        assert(p[p.len() - 1] == to.0);
        assert forall|w: Seq<u32>| walk_between(conns@, w, from.0, to.0) implies path@.len() <= w.len() by {
            if head == order@.len() {
                lemma_complete_search(conns@, from.0, order@, parents@, depth@, w);
                let kk = choose|kk: int| 0 <= kk < order@.len() && order@[kk] == w[w.len() - 1] && depth@[kk] <= w.len() - 1;
                assert(kk == k);
            } else {
                assert(order@[head as int] == to.0);
                assert(head == k);
                lemma_stopped_search(conns@, from.0, order@, parents@, depth@, head as int, w);
            }
        }
    }
    Some(path)
}

/// Depth entries: each zone listed once.
pub open spec fn depth_keys_unique(d: Seq<(ZoneId, u32)>) -> bool {
    forall|i: int, j: int| 0 <= i < d.len() && 0 <= j < d.len() && i != j ==> d[i].0 != d[j].0
}

/// Is zone `z` listed?
pub open spec fn depth_listed(d: Seq<(ZoneId, u32)>, z: u32) -> bool {
    exists|i: int| 0 <= i < d.len() && d[i].0.0 == z
}

/// The depth listed for `z`, if any.
pub open spec fn depth_of(d: Seq<(ZoneId, u32)>, z: u32) -> Option<u32> {
    if depth_listed(d, z) {
        Some(d[choose|i: int| 0 <= i < d.len() && d[i].0.0 == z].1)
    } else {
        None
    }
}

/// The depth listed for `z`, or 0.
pub open spec fn depth_or_zero(d: Seq<(ZoneId, u32)>, z: u32) -> u32 {
    match depth_of(d, z) {
        Some(n) => n,
        None => 0,
    }
}

/// The depth map of a level: every zone reachable from `spawn` with its
/// distance in doors, and nothing else.
pub open spec fn is_depth_map(conns: Seq<ZoneConnection>, spawn: u32, d: Seq<(ZoneId, u32)>) -> bool {
    &&& depth_keys_unique(d)
    &&& forall|z: u32| depth_listed(d, z) <==> reachable(conns, spawn, z)
    &&& forall|i: int| 0 <= i < d.len() ==> distance_is(conns, spawn, (#[trigger] d[i]).0.0, d[i].1 as nat)
}

/// Number of doors from `spawn` to every zone reachable from it, by
/// breadth-first search.
pub fn zone_depths(conns: &Vec<ZoneConnection>, spawn: ZoneId) -> (d: Vec<(ZoneId, u32)>)
    ensures
        is_depth_map(conns@, spawn.0, d@),
{
    let (order, parents, depth, head) = bfs_tree(conns, spawn.0, None);
    proof {
        lemma_distinct_u32_len(order@);
    }
    let mut d: Vec<(ZoneId, u32)> = Vec::new();
    let mut i: usize = 0;
    while i < order.len()
        invariant
            bfs_tree_ok(conns@, spawn.0, order@, parents@, depth@),
            order@.len() <= 0x1_0000_0000,
            i <= order@.len(),
            d@.len() == i,
            forall|k: int| 0 <= k < i ==> d@[k] == (ZoneId(order@[k]), depth@[k] as u32) && depth@[k] < 0x1_0000_0000,
        decreases order@.len() - i,
    {
        assert(depth@[i as int] <= i);
        d.push((ZoneId(order[i]), depth[i] as u32));
        i = i + 1;
    }
    proof {
        assert(head == order@.len());
        assert forall|a: int, b: int| 0 <= a < d@.len() && 0 <= b < d@.len() && a != b implies d@[a].0 != d@[b].0 by {
            assert(order@[a] != order@[b]);
        }
        assert forall|z: u32| depth_listed(d@, z) <==> reachable(conns@, spawn.0, z) by {
            if depth_listed(d@, z) {
                let k = choose|k: int| 0 <= k < d@.len() && d@[k].0.0 == z;
                let w = lemma_tree_walk(conns@, spawn.0, order@, parents@, depth@, k);
            }
            if reachable(conns@, spawn.0, z) {
                let w = choose|w: Seq<u32>| walk_between(conns@, w, spawn.0, z);
                lemma_complete_search(conns@, spawn.0, order@, parents@, depth@, w);
                let k = choose|k: int| 0 <= k < order@.len() && order@[k] == w[w.len() - 1] && depth@[k] <= w.len() - 1;
                assert(d@[k].0.0 == z);
            }
        }
        assert forall|k: int| 0 <= k < d@.len() implies distance_is(conns@, spawn.0, (#[trigger] d@[k]).0.0, d@[k].1 as nat) by {
            let w = lemma_tree_walk(conns@, spawn.0, order@, parents@, depth@, k);
            assert(walk_between(conns@, w, spawn.0, d@[k].0.0) && w.len() == d@[k].1 + 1);
            assert forall|p: Seq<u32>| walk_between(conns@, p, spawn.0, d@[k].0.0) implies d@[k].1 + 1 <= p.len() by {
                lemma_complete_search(conns@, spawn.0, order@, parents@, depth@, p);
                let kk = choose|kk: int| 0 <= kk < order@.len() && order@[kk] == p[p.len() - 1] && depth@[kk] <= p.len() - 1;
                assert(kk == k);
            }
        }
    }
    d
}

/// Looks up the depth listed for `z`.
pub fn lookup_depth(d: &Vec<(ZoneId, u32)>, z: ZoneId) -> (r: Option<u32>)
    requires
        depth_keys_unique(d@),
    ensures
        r == depth_of(d@, z.0),
{
    let mut i: usize = 0;
    while i < d.len()
        invariant
            depth_keys_unique(d@),
            i <= d@.len(),
            forall|k: int| 0 <= k < i ==> d@[k].0.0 != z.0,
        decreases d@.len() - i,
    {
        if d[i].0.0 == z.0 {
            proof {
                let c = choose|k: int| 0 <= k < d@.len() && d@[k].0.0 == z.0;
                assert(d@[c].0.0 == d@[i as int].0.0);
                assert(d@[c].0 == d@[i as int].0);
                if c != i as int {
                    assert(d@[c].0 != d@[i as int].0);
                }
                assert(depth_listed(d@, z.0));
            }
            return Some(d[i].1);
        }
        i = i + 1;
    }
    None
}

/// Does the list hold `x`?
pub fn contains_u64(v: &Vec<u64>, x: u64) -> (b: bool)
    ensures
        b == v@.contains(x),
{
    let mut i: usize = 0;
    while i < v.len()
        invariant
            i <= v@.len(),
            forall|k: int| 0 <= k < i ==> v@[k] != x,
        decreases v@.len() - i,
    {
        if v[i] == x {
            return true;
        }
        i = i + 1;
    }
    false
}

} // verus!
