use rand::rngs::StdRng;
use vstd::prelude::*;

use crate::expedition::{
    apply_expedition_design, design_applies, design_result, fresh_layout, law_keycard_in_side_branch,
    law_keyed_doors_need_the_placed_keycard, law_keycard_locks_a_door, law_objective_entry_is_guarded, links_consistent, door_recorded,
    leaves, deepest, lemma_deepest_in, lemma_leaves_upto, critical_path_for, law_design_keeps_layout,
    lemma_same_ends_adjacent,
};
use crate::search::raw_ids;
use crate::level::{linked, links_after_connect};
use crate::search::{reachable, walk_between, conn_links, within_doors, distance_is};
use crate::level::{DoorType, LevelConfig, LevelGraph, Zone, ZoneConnection, ZoneId, ZoneType};
use crate::rng::{random_index, random_usize_inclusive, seeded_rng};

verus! {

/// The zone graph while it grows: the level so far, the frontier of zones that
/// may still branch (with their depth), and the next free zone id.
///
/// Level generation alternates integer decisions, made here, with the
/// placement of each new room in space and the draw of its kind, made by the
/// caller with the same generator between the steps.
pub struct LevelGenerator {
    pub graph: LevelGraph,
    pub frontier: Vec<(ZoneId, u32)>,
    pub next_zone_id: u32,
}

/// A branching step: the zone that branches, its depth, how many branches it
/// grows and its door limit.
#[derive(Clone, Copy, Debug)]
pub struct BranchPlan {
    pub parent: ZoneId,
    pub depth: u32,
    pub branch_count: usize,
    pub max_connections: usize,
}

/// The outcome of a branching step that picked frontier entry `fi`.
pub open spec fn step_begun(g0: LevelGenerator, g: LevelGenerator, plan: Option<BranchPlan>, fi: int) -> bool {
    let cur = g0.frontier@[fi].0;
    let depth = g0.frontier@[fi].1;
    let z = g0.graph.zones@[cur.0 as int];
    let maxc = z.zone_type.spec_max_connections();
    if depth >= g0.graph.config.max_depth || z.connections@.len() >= maxc {
        &&& plan.is_none()
        &&& g.frontier@ == g0.frontier@.remove(fi)
    } else {
        &&& g.frontier@ == g0.frontier@
        &&& plan matches Some(pl) && pl.parent == cur && pl.depth == depth && pl.max_connections
            == maxc && 1 <= pl.branch_count <= 3 && pl.branch_count <= maxc - z.connections@.len()
    }
}

/// Appending a zone id keeps what was there and adds it.
proof fn lemma_linked_keeps(s: Seq<ZoneId>, x: ZoneId)
    ensures
        forall|y: ZoneId| s.contains(y) ==> #[trigger] linked(s, x).contains(y),
        linked(s, x).contains(x),
{
    if !s.contains(x) {
        let t = s.push(x);
        assert(t[s.len() as int] == x);
        assert forall|y: ZoneId| s.contains(y) implies #[trigger] linked(s, x).contains(y) by {
            let k = choose|k: int| 0 <= k < s.len() && s[k] == y;
            assert(t[k] == y);
        }
    }
}

/// A walk through some doors is a walk through more doors.
proof fn lemma_walk_more_doors(conns: Seq<ZoneConnection>, c: ZoneConnection, w: Seq<u32>, a: u32, b: u32)
    requires
        walk_between(conns, w, a, b),
    ensures
        walk_between(conns.push(c), w, a, b),
{
    assert forall|i: int| 0 <= i < w.len() - 1 implies crate::search::adjacent(conns.push(c), #[trigger] w[i], w[i + 1]) by {
        assert(crate::search::adjacent(conns, w[i], w[i + 1]));
        let j = choose|j: int| 0 <= j < conns.len() && #[trigger] conn_links(conns[j], w[i], w[i + 1]);
        assert(conns.push(c)[j] == conns[j]);
    }
}

/// A zone hung on a reachable parent by a new door is reachable.
proof fn lemma_reach_through_new_door(conns: Seq<ZoneConnection>, c: ZoneConnection, a: u32, parent: u32, child: u32)
    requires
        reachable(conns, a, parent),
        c.from_zone.0 == parent,
        c.to_zone.0 == child,
    ensures
        reachable(conns.push(c), a, child),
{
    let w = choose|w: Seq<u32>| walk_between(conns, w, a, parent);
    lemma_walk_more_doors(conns, c, w, a, parent);
    let all = conns.push(c);
    let w2 = w.push(child);
    assert(conn_links(all[conns.len() as int], parent, child));
    assert forall|i: int| 0 <= i < w2.len() - 1 implies crate::search::adjacent(all, #[trigger] w2[i], w2[i + 1]) by {
        if i < w.len() - 1 {
            assert(w2[i] == w[i] && w2[i + 1] == w[i + 1]);
            assert(crate::search::adjacent(all, w[i], w[i + 1]));
        } else {
            assert(w2[i] == parent && w2[i + 1] == child);
        }
    }
    assert(walk_between(all, w2, a, child));
}

/// A zone within `n` doors stays within `n` doors when a door is added.
proof fn lemma_within_more_doors(conns: Seq<ZoneConnection>, c: ZoneConnection, a: u32, b: u32, n: nat)
    requires
        within_doors(conns, a, b, n),
    ensures
        within_doors(conns.push(c), a, b, n),
{
    let w = choose|w: Seq<u32>| walk_between(conns, w, a, b) && w.len() <= n + 1;
    lemma_walk_more_doors(conns, c, w, a, b);
}

/// A zone hung by a new door on a parent within `n` doors is within `n + 1` doors.
proof fn lemma_within_through_new_door(
    conns: Seq<ZoneConnection>,
    c: ZoneConnection,
    a: u32,
    parent: u32,
    child: u32,
    n: nat,
)
    requires
        within_doors(conns, a, parent, n),
        c.from_zone.0 == parent,
        c.to_zone.0 == child,
    ensures
        within_doors(conns.push(c), a, child, n + 1),
{
    let w = choose|w: Seq<u32>| walk_between(conns, w, a, parent) && w.len() <= n + 1;
    lemma_walk_more_doors(conns, c, w, a, parent);
    let all = conns.push(c);
    let w2 = w.push(child);
    assert(conn_links(all[conns.len() as int], parent, child));
    assert forall|i: int| 0 <= i < w2.len() - 1 implies crate::search::adjacent(all, #[trigger] w2[i], w2[i + 1]) by {
        if i < w.len() - 1 {
            assert(w2[i] == w[i] && w2[i + 1] == w[i + 1]);
            assert(crate::search::adjacent(all, w[i], w[i + 1]));
        } else {
            assert(w2[i] == parent && w2[i + 1] == child);
        }
    }
    assert(walk_between(all, w2, a, child));
}

/// Within `n` doors is within any larger number of doors.
proof fn lemma_within_more_steps(conns: Seq<ZoneConnection>, a: u32, b: u32, n: nat, m: nat)
    requires
        within_doors(conns, a, b, n),
        n <= m,
    ensures
        within_doors(conns, a, b, m),
{
    let w = choose|w: Seq<u32>| walk_between(conns, w, a, b) && w.len() <= n + 1;
    assert(walk_between(conns, w, a, b) && w.len() <= m + 1);
}

impl LevelGenerator {
    /// Zones are numbered 0, 1, 2, ... in the order they were added, the
    /// spawn is zone 0, each zone but the spawn has one door to an earlier
    /// zone, the frontier only names existing zones, and the layout is fresh:
    /// plain doors, no zone flagged. Doors join existing zones, are recorded
    /// at both ends, and every zone can be reached from the spawn through at
    /// most `max_depth` doors. A frontier entry's depth is at most `max_depth`
    /// and its zone lies within that many doors of the spawn. No zone has more
    /// doors than its kind allows.
    pub open spec fn wf(&self) -> bool {
        &&& self.graph.zones@.len() == self.next_zone_id
        &&& self.graph.zones@.len() >= 1
        &&& forall|i: int| 0 <= i < self.graph.zones@.len() ==> (#[trigger] self.graph.zones@[i]).id.0 == i
        &&& self.graph.spawn_zone == ZoneId(0)
        &&& self.graph.connections@.len() + 1 == self.graph.zones@.len()
        &&& forall|i: int| 0 <= i < self.frontier@.len() ==> (#[trigger] self.frontier@[i]).0.0 < self.next_zone_id
        &&& self.graph.zones@.len() <= self.graph.config.target_zone_count || self.graph.zones@.len() == 1
        &&& fresh_layout(self.graph)
        &&& forall|i: int|
            0 <= i < self.graph.connections@.len() ==> (#[trigger] self.graph.connections@[i]).from_zone.0
                < self.next_zone_id && self.graph.connections@[i].to_zone.0 < self.next_zone_id
        &&& links_consistent(self.graph)
        &&& forall|z: u32| z < self.next_zone_id ==> #[trigger] reachable(self.graph.connections@, 0, z)
        &&& forall|i: int|
            0 <= i < self.frontier@.len() ==> (#[trigger] self.frontier@[i]).1 <= self.graph.config.max_depth
                && within_doors(self.graph.connections@, 0, self.frontier@[i].0.0, self.frontier@[i].1 as nat)
        &&& forall|z: u32|
            z < self.next_zone_id ==> #[trigger] within_doors(
                self.graph.connections@,
                0,
                z,
                self.graph.config.max_depth as nat,
            )
        &&& forall|i: int|
            0 <= i < self.graph.zones@.len() ==> (#[trigger] self.graph.zones@[i]).connections@.len()
                <= self.graph.zones@[i].zone_type.spec_max_connections()
    }

    /// A generator holding only the spawn hub (zone 0, depth 0).
    pub fn new(config: LevelConfig) -> (g: Self)
        ensures
            g.wf(),
            g.graph.config == config,
            g.graph.zones@.len() == 1,
            g.graph.zones@[0].zone_type == ZoneType::Hub,
            g.graph.zones@[0].connections@.len() == 0,
            g.graph.connections@.len() == 0,
            g.frontier@ == seq![(ZoneId(0), 0u32)],
            g.next_zone_id == 1,
    {
        let mut graph = LevelGraph::new(config);
        graph.spawn_zone = ZoneId(0);
        graph.add_zone(Zone::new(ZoneId(0), ZoneType::Hub));
        let mut frontier: Vec<(ZoneId, u32)> = Vec::new();
        frontier.push((ZoneId(0), 0));
        proof {
            let w = seq![0u32];
            assert(walk_between(graph.connections@, w, 0, 0));
            assert forall|z: u32| z < 1 implies #[trigger] reachable(graph.connections@, 0, z) by {
                assert(walk_between(graph.connections@, w, 0, z));
            }
            assert forall|z: u32| z < 1 implies #[trigger] within_doors(
                graph.connections@,
                0,
                z,
                config.max_depth as nat,
            ) by {
                assert(walk_between(graph.connections@, w, 0, z));
            }
            assert(within_doors(graph.connections@, 0, 0, 0));
        }
        LevelGenerator { graph, frontier, next_zone_id: 1 }
    }

    /// Generation goes on while the level is short of its target and some zone
    /// may still branch.
    pub fn is_running(&self) -> (b: bool)
        ensures
            b == (self.graph.zones@.len() < self.graph.config.target_zone_count
                && self.frontier@.len() > 0),
    {
        self.graph.zones.len() < self.graph.config.target_zone_count as usize && self.frontier.len() > 0
    }

    /// Room for one more zone.
    pub fn wants_branch(&self) -> (b: bool)
        ensures
            b == (self.graph.zones@.len() < self.graph.config.target_zone_count),
    {
        self.graph.zones.len() < self.graph.config.target_zone_count as usize
    }

    /// Picks a frontier entry at random. An entry too deep or whose zone has
    /// all its doors leaves the frontier; otherwise the zone grows between one
    /// and three branches (at most its free doors).
    pub fn begin_step(&mut self, rng: &mut StdRng) -> (plan: Option<BranchPlan>)
        requires
            old(self).wf(),
            old(self).frontier@.len() > 0,
        ensures
            final(self).wf(),
            final(self).graph == old(self).graph,
            final(self).next_zone_id == old(self).next_zone_id,
            exists|fi: int|
                0 <= fi < old(self).frontier@.len() && #[trigger] step_begun(*old(self), *final(self), plan, fi),
    {
        let fi = random_index(rng, self.frontier.len());
        let (cur, depth) = self.frontier[fi];
        let ghost f0 = self.frontier@;
        assert(cur.0 < self.next_zone_id);
        let zi = cur.0 as usize;
        let maxc = self.graph.zones[zi].zone_type.max_connections();
        let nconn = self.graph.zones[zi].connections.len();
        if depth >= self.graph.config.max_depth || nconn >= maxc {
            self.frontier.remove(fi);
            proof {
                assert(step_begun(*old(self), *self, None, fi as int));
                assert forall|i: int| 0 <= i < self.frontier@.len() implies (#[trigger] self.frontier@[i]).0.0
                    < self.next_zone_id && self.frontier@[i].1 <= self.graph.config.max_depth && within_doors(
                    self.graph.connections@,
                    0,
                    self.frontier@[i].0.0,
                    self.frontier@[i].1 as nat,
                ) by {
                    if i < fi {
                        assert(self.frontier@[i] == f0[i]);
                    } else {
                        assert(self.frontier@[i] == f0[i + 1]);
                    }
                }
            }
            return None;
        }
        let remaining = maxc - nconn;
        let cap = if remaining < 3 {
            remaining
        } else {
            3
        };
        let branch_count = random_usize_inclusive(rng, 1, cap);
        let plan = Some(BranchPlan { parent: cur, depth, branch_count, max_connections: maxc });
        assert(step_begun(*old(self), *self, plan, fi as int));
        plan
    }

    /// Adds a new zone of the given kind as a branch of `parent`, with a normal
    /// door between them. A zone with more than one door may branch later (one
    /// level deeper); an objective room is recorded.
    pub fn add_branch(&mut self, parent: ZoneId, depth: u32, zone_type: ZoneType) -> (id: ZoneId)
        requires
            old(self).wf(),
            parent.0 < old(self).next_zone_id,
            old(self).graph.zones@.len() < old(self).graph.config.target_zone_count,
            depth < old(self).graph.config.max_depth,
            old(self).frontier@.contains((parent, depth)),
            old(self).graph.zones@[parent.0 as int].connections@.len() < old(
                self,
            ).graph.zones@[parent.0 as int].zone_type.spec_max_connections(),
        ensures
            final(self).wf(),
            id == ZoneId(old(self).next_zone_id),
            final(self).next_zone_id == old(self).next_zone_id + 1,
            final(self).graph.config == old(self).graph.config,
            final(self).graph.zones@.len() == old(self).graph.zones@.len() + 1,
            final(self).graph.zones@[id.0 as int].zone_type == zone_type,
            final(self).graph.connections@ == old(self).graph.connections@.push(
                ZoneConnection {
                    from_zone: parent,
                    to_zone: id,
                    door_type: DoorType::Normal,
                    required_keycard: None,
                    is_critical_path: false,
                },
            ),
            final(self).frontier@ == if zone_type.spec_max_connections() > 1 {
                old(self).frontier@.push((id, (depth + 1) as u32))
            } else {
                old(self).frontier@
            },
            final(self).graph.objective_zones@ == if zone_type == ZoneType::Objective {
                old(self).graph.objective_zones@.push(id)
            } else {
                old(self).graph.objective_zones@
            },
            forall|i: int|
                0 <= i < old(self).graph.zones@.len() && i != parent.0 ==> #[trigger] final(self).graph.zones@[i]
                    == old(self).graph.zones@[i],
    {
        let id = ZoneId(self.next_zone_id);
        let ghost z0 = self.graph.zones@;
        let ghost c0 = self.graph.connections@;
        proof {
            if crate::level::has_zone(z0, id.0) {
                let k = choose|k: int| 0 <= k < z0.len() && z0[k].id.0 == id.0;
                assert(z0[k].id.0 == k);
            }
            assert forall|a: int, b: int|
                0 <= a < z0.len() && 0 <= b < z0.len() && a != b implies z0[a].id.0 != z0[b].id.0 by {
                assert(z0[a].id.0 == a && z0[b].id.0 == b);
            }
        }
        self.graph.add_zone(Zone::new(id, zone_type));
        let ghost z1 = self.graph.zones@;
        self.graph.add_connection(parent, id, DoorType::Normal);
        proof {
            assert(z1[z0.len() as int].id == id);
            assert forall|i: int| 0 <= i < self.graph.zones@.len() implies (#[trigger] self.graph.zones@[i]).id.0 == i by {
                assert(crate::level::same_but_links(z1[i], self.graph.zones@[i]));
            }
            assert forall|i: int|
                0 <= i < z0.len() && i != parent.0 implies #[trigger] self.graph.zones@[i] == z0[i] by {
                assert(z1[i] == z0[i]);
                assert(z1[i].id.0 == i);
            }
            assert forall|i: int| 0 <= i < self.graph.zones@.len() implies !(#[trigger] self.graph.zones@[i]).is_objective
                && !self.graph.zones@[i].is_keycard by {
                assert(crate::level::same_but_links(z1[i], self.graph.zones@[i]));
                if i < z0.len() {
                    assert(z1[i] == z0[i]);
                }
            }
            let conns = self.graph.connections@;
            let new_door = conns[c0.len() as int];
            assert(conns == c0.push(new_door));
            assert forall|i: int, k: int|
                0 <= i < conns.len() && 0 <= k < self.graph.zones@.len() implies door_recorded(
                #[trigger] conns[i],
                #[trigger] self.graph.zones@[k],
            ) by {
                let zk = self.graph.zones@[k];
                let before = z1[k];
                assert(crate::level::same_but_links(before, zk));
                assert(zk.connections@ == links_after_connect(before, parent, id));
                let s1 = if before.id == parent {
                    linked(before.connections@, id)
                } else {
                    before.connections@
                };
                lemma_linked_keeps(before.connections@, id);
                lemma_linked_keeps(s1, parent);
                assert(forall|y: ZoneId| before.connections@.contains(y) ==> zk.connections@.contains(y));
                if i < c0.len() {
                    assert(conns[i] == c0[i]);
                    if k < z0.len() {
                        assert(before == z0[k]);
                        assert(door_recorded(c0[i], z0[k]));
                    } else {
                        assert(before.id == id);
                        assert(c0[i].from_zone.0 < old(self).next_zone_id);
                        assert(c0[i].to_zone.0 < old(self).next_zone_id);
                    }
                } else {
                    assert(conns[i] == new_door);
                    if zk.id == parent {
                        assert(s1.contains(id));
                    }
                }
            }
            assert forall|z: u32| z < old(self).next_zone_id + 1 implies #[trigger] reachable(conns, 0, z) by {
                if z < old(self).next_zone_id {
                    assert(reachable(c0, 0, z));
                    let w = choose|w: Seq<u32>| walk_between(c0, w, 0, z);
                    lemma_walk_more_doors(c0, new_door, w, 0, z);
                } else {
                    assert(reachable(c0, 0, parent.0));
                    lemma_reach_through_new_door(c0, new_door, 0, parent.0, z);
                }
            }
            let f0 = old(self).frontier@;
            let max_depth = old(self).graph.config.max_depth;
            let k = choose|k: int| 0 <= k < f0.len() && f0[k] == (parent, depth);
            assert(f0[k] == (parent, depth));
            assert(within_doors(c0, 0, parent.0, depth as nat));
            lemma_within_through_new_door(c0, new_door, 0, parent.0, id.0, depth as nat);
            assert forall|i: int| 0 <= i < f0.len() implies within_doors(conns, 0, (#[trigger] f0[i]).0.0, f0[i].1 as nat) by {
                lemma_within_more_doors(c0, new_door, 0, f0[i].0.0, f0[i].1 as nat);
            }
            assert forall|z: u32| z < old(self).next_zone_id + 1 implies #[trigger] within_doors(
                conns,
                0,
                z,
                max_depth as nat,
            ) by {
                if z < old(self).next_zone_id {
                    lemma_within_more_doors(c0, new_door, 0, z, max_depth as nat);
                } else {
                    lemma_within_more_steps(conns, 0, z, (depth + 1) as nat, max_depth as nat);
                }
            }
            assert forall|i: int| 0 <= i < self.graph.zones@.len() implies (#[trigger] self.graph.zones@[i]).connections@.len()
                <= self.graph.zones@[i].zone_type.spec_max_connections() by {
                let before = z1[i];
                assert(crate::level::same_but_links(before, self.graph.zones@[i]));
                assert(self.graph.zones@[i].connections@ == links_after_connect(before, parent, id));
                if i < z0.len() {
                    assert(before == z0[i]);
                    assert(z0[i].id.0 == i);
                    if i == parent.0 {
                        assert(before.id == parent && before.id != id);
                    } else {
                        assert(before.id != parent && before.id != id);
                    }
                } else {
                    assert(before.id == id && before.id != parent);
                    assert(before.connections@.len() == 0);
                }
            }
        }
        if zone_type.max_connections() > 1 {
            self.frontier.push((id, depth + 1));
        }
        if zone_type == ZoneType::Objective {
            self.graph.objective_zones.push(id);
        }
        self.next_zone_id = self.next_zone_id + 1;
        id
    }

    /// After the branches: a zone that still has free doors goes back on the frontier.
    pub fn end_step(&mut self, parent: ZoneId, depth: u32, max_connections: usize)
        requires
            old(self).wf(),
            parent.0 < old(self).next_zone_id,
            old(self).frontier@.contains((parent, depth)),
        ensures
            final(self).wf(),
            final(self).graph == old(self).graph,
            final(self).next_zone_id == old(self).next_zone_id,
            final(self).frontier@ == if old(self).graph.zones@[parent.0 as int].connections@.len()
                < max_connections {
                old(self).frontier@.push((parent, depth))
            } else {
                old(self).frontier@
            },
    {
        if self.graph.zones[parent.0 as usize].connections.len() < max_connections {
            self.frontier.push((parent, depth));
        }
    }

    /// The finished level: the grown graph with the expedition design laid on
    /// it, drawn from a fresh generator seeded with the level's seed.
    pub fn finish(self) -> (graph: LevelGraph)
        requires
            self.wf(),
        ensures
            graph.wf(),
            !design_applies(self.graph) ==> graph == self.graph,
            design_applies(self.graph) ==> exists|
                d: Seq<(ZoneId, u32)>,
                p: Seq<ZoneId>,
                q: Option<Seq<ZoneId>>,
            | design_result(self.graph, graph, d, p, q),
    {
        let mut graph = self.graph;
        proof {
            assert forall|a: int, b: int|
                0 <= a < graph.zones@.len() && 0 <= b < graph.zones@.len() && a != b implies graph.zones@[a].id.0
                != graph.zones@[b].id.0 by {
                assert(graph.zones@[a].id.0 == a && graph.zones@[b].id.0 == b);
            }
        }
        let mut design_rng = seeded_rng(graph.config.seed);
        apply_expedition_design(&mut graph, &mut design_rng);
        graph
    }
}

/// Every generated level is a connected tree within its target size: its
/// zones are numbered from the spawn hub 0, it has one door fewer than zones,
/// every door joins two of its zones, and every zone can be reached from the
/// spawn. This holds whether or not
/// the design pass applied.
pub proof fn law_generated_levels_are_connected_trees(
    generator: LevelGenerator,
    g: LevelGraph,
    d: Seq<(ZoneId, u32)>,
    p: Seq<ZoneId>,
    q: Option<Seq<ZoneId>>,
)
    requires
        generator.wf(),
        g == generator.graph || design_result(generator.graph, g, d, p, q),
    ensures
        g.spawn_zone == ZoneId(0),
        1 <= g.zones@.len(),
        g.zones@.len() <= g.config.target_zone_count || g.zones@.len() == 1,
        g.connections@.len() + 1 == g.zones@.len(),
        forall|i: int|
            0 <= i < g.connections@.len() ==> (#[trigger] g.connections@[i]).from_zone.0 < g.zones@.len()
                && g.connections@[i].to_zone.0 < g.zones@.len(),
        forall|i: int| 0 <= i < g.zones@.len() ==> (#[trigger] g.zones@[i]).id.0 == i,
        forall|z: u32| z < g.zones@.len() ==> #[trigger] reachable(g.connections@, 0, z),
{
    if g != generator.graph {
        law_design_keeps_layout(generator.graph, g, d, p, q);
        lemma_same_ends_adjacent(g.connections@, generator.graph.connections@);
    }
}

/// Every zone of a generated level lies at most `max_depth` doors from the
/// spawn (so its breadth-first depth is at most `max_depth`), and no zone has
/// more doors than its kind allows. This holds whether or not the design pass
/// applied.
pub proof fn law_generated_levels_keep_depth_and_door_limits(
    generator: LevelGenerator,
    g: LevelGraph,
    d: Seq<(ZoneId, u32)>,
    p: Seq<ZoneId>,
    q: Option<Seq<ZoneId>>,
)
    requires
        generator.wf(),
        g == generator.graph || design_result(generator.graph, g, d, p, q),
    ensures
        forall|z: u32| z < g.zones@.len() ==> #[trigger] within_doors(g.connections@, 0, z, g.config.max_depth as nat),
        forall|z: u32, n: nat|
            z < g.zones@.len() && #[trigger] distance_is(g.connections@, 0, z, n) ==> n <= g.config.max_depth,
        forall|i: int|
            0 <= i < g.zones@.len() ==> (#[trigger] g.zones@[i]).connections@.len()
                <= g.zones@[i].zone_type.spec_max_connections(),
{
    let g0 = generator.graph;
    if g != g0 {
        law_design_keeps_layout(g0, g, d, p, q);
        lemma_same_ends_adjacent(g.connections@, g0.connections@);
        assert(g.config == g0.config);
    }
    assert forall|z: u32| z < g.zones@.len() implies #[trigger] within_doors(
        g.connections@,
        0,
        z,
        g.config.max_depth as nat,
    ) by {
        assert(within_doors(g0.connections@, 0, z, g0.config.max_depth as nat));
        let w = choose|w: Seq<u32>| walk_between(g0.connections@, w, 0, z) && w.len() <= g0.config.max_depth + 1;
        assert(walk_between(g.connections@, w, 0, z));
    }
    assert forall|z: u32, n: nat|
        z < g.zones@.len() && #[trigger] distance_is(g.connections@, 0, z, n) implies n <= g.config.max_depth by {
        assert(within_doors(g.connections@, 0, z, g.config.max_depth as nat));
        let w = choose|w: Seq<u32>| walk_between(g.connections@, w, 0, z) && w.len() <= g.config.max_depth + 1;
        assert(n + 1 <= w.len());
    }
}

/// In a generated level every keycard door asks for the keycard the level
/// places, and that keycard lies in a dead end off the critical path: the
/// generator lays plain doors only, for the design pass to key.
pub proof fn law_generated_levels_key_their_doors(
    generator: LevelGenerator,
    g: LevelGraph,
    d: Seq<(ZoneId, u32)>,
    p: Seq<ZoneId>,
    q: Option<Seq<ZoneId>>,
)
    requires
        generator.wf(),
        design_result(generator.graph, g, d, p, q),
    ensures
        forall|i: int|
            0 <= i < g.connections@.len() && (#[trigger] g.connections@[i]).door_type == DoorType::Keycard
                ==> g.keycard_zone.is_some() && g.connections@[i].required_keycard == g.keycard_zone,
        forall|kc: ZoneId|
            g.keycard_zone == Some(kc) ==> !p.contains(kc) && exists|i: int|
                0 <= i < g.zones@.len() && (#[trigger] g.zones@[i]).id == kc && g.zones@[i].is_keycard
                    && g.zones@[i].spec_is_leaf(g.spawn_zone),
{
    law_keyed_doors_need_the_placed_keycard(generator.graph, g, d, p, q);
    assert forall|kc: ZoneId| g.keycard_zone == Some(kc) implies !p.contains(kc) && exists|i: int|
        0 <= i < g.zones@.len() && (#[trigger] g.zones@[i]).id == kc && g.zones@[i].is_keycard
            && g.zones@[i].spec_is_leaf(g.spawn_zone) by {
        law_keycard_in_side_branch(generator.graph, g, d, p, q, kc);
    }
}

/// In a generated level that gets a keycard, some door asks for it: every
/// zone of a generated level can be reached from the spawn, so the critical
/// path exists and the keycard locks a door on it.
pub proof fn law_generated_keycard_locks_a_door(
    generator: LevelGenerator,
    g: LevelGraph,
    d: Seq<(ZoneId, u32)>,
    p: Seq<ZoneId>,
    q: Option<Seq<ZoneId>>,
    kc: ZoneId,
)
    requires
        generator.wf(),
        design_result(generator.graph, g, d, p, q),
        g.keycard_zone == Some(kc),
    ensures
        exists|i: int|
            0 <= i < g.connections@.len() && (#[trigger] g.connections@[i]).door_type == DoorType::Keycard
                && g.connections@[i].required_keycard == Some(kc),
{
    let g0 = generator.graph;
    let lv = leaves(g0.zones@, g0.spawn_zone);
    let objective = deepest(lv, d);
    lemma_deepest_in(lv, d);
    lemma_leaves_upto(g0.zones@, g0.spawn_zone, g0.zones@.len());
    let ko = choose|i: int|
        0 <= i < g0.zones@.len() && g0.zones@[i].id == objective && #[trigger] g0.zones@[i].spec_is_leaf(
            g0.spawn_zone,
        );
    assert(g0.zones@[ko].id.0 == ko);
    assert(reachable(g0.connections@, 0, objective.0));
    assert(critical_path_for(g0.connections@, g0.spawn_zone, objective, p));
    assert(walk_between(g0.connections@, raw_ids(p), 0, objective.0));
    assert(p.len() > 0);
    law_keycard_locks_a_door(g0, g, d, p, q, kc);
}

/// In a generated level the design applies to, the objective's entry door
/// is a bulkhead, or the keycard door when the keycard locks that very door.
pub proof fn law_generated_objective_entry_is_guarded(
    generator: LevelGenerator,
    g: LevelGraph,
    d: Seq<(ZoneId, u32)>,
    p: Seq<ZoneId>,
    q: Option<Seq<ZoneId>>,
)
    requires
        generator.wf(),
        design_applies(generator.graph),
        design_result(generator.graph, g, d, p, q),
    ensures
        exists|i: int|
            0 <= i < g.connections@.len() && ((#[trigger] g.connections@[i]).from_zone
                == g.objective_zone.unwrap() || g.connections@[i].to_zone == g.objective_zone.unwrap())
                && (g.connections@[i].door_type == DoorType::Bulkhead || (g.connections@[i].door_type
                == DoorType::Keycard && g.connections@[i].required_keycard == g.keycard_zone
                && g.keycard_zone.is_some())),
{
    let g0 = generator.graph;
    let lv = leaves(g0.zones@, g0.spawn_zone);
    let objective = deepest(lv, d);
    lemma_deepest_in(lv, d);
    lemma_leaves_upto(g0.zones@, g0.spawn_zone, g0.zones@.len());
    let ko = choose|i: int|
        0 <= i < g0.zones@.len() && g0.zones@[i].id == objective && #[trigger] g0.zones@[i].spec_is_leaf(
            g0.spawn_zone,
        );
    assert(g0.zones@[ko].id.0 == ko);
    assert(reachable(g0.connections@, 0, objective.0));
    assert(walk_between(g0.connections@, raw_ids(p), 0, objective.0));
    assert(p.len() > 0);
    law_objective_entry_is_guarded(g0, g, d, p, q);
}

} // verus!
