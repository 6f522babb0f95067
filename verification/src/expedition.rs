use rand::rngs::StdRng;
use vstd::prelude::*;

use crate::level::{
    has_zone, unique_ids, zone_index, DoorType, IndexedItem, IndexedItemKind, KeycardColor,
    LevelGraph, TerminalNetwork, Zone, ZoneConnection, ZoneId, ZoneResources, ZoneType,
};
use crate::rng::{random_ratio, random_u8_inclusive};
use crate::search::{
    bfs_path, conn_links, depth_keys_unique, depth_listed, depth_of, depth_or_zero, distance_is, is_depth_map,
    lookup_depth, raw_ids, reachable, walk_between, zone_depths,
};
use crate::text::{append_decimal, append_str, decimal};

verus! {

// ---------------------------------------------------------------------------
// Dead ends and the deepest of them
// ---------------------------------------------------------------------------

/// The dead ends among the first `n` zones, in zone order.
pub open spec fn leaves_upto(zones: Seq<Zone>, spawn: ZoneId, n: nat) -> Seq<ZoneId>
    decreases n,
{
    if n == 0 {
        seq![]
    } else {
        let prev = leaves_upto(zones, spawn, (n - 1) as nat);
        if zones[n - 1].spec_is_leaf(spawn) {
            prev.push(zones[n - 1].id)
        } else {
            prev
        }
    }
}

/// The dead ends of the level (zones other than `spawn` with at most one door).
pub open spec fn leaves(zones: Seq<Zone>, spawn: ZoneId) -> Seq<ZoneId> {
    leaves_upto(zones, spawn, zones.len())
}

/// The dead ends among the first `n` zones are exactly the ids of those
/// zones that are dead ends.
pub proof fn lemma_leaves_upto(zones: Seq<Zone>, spawn: ZoneId, n: nat)
    requires
        n <= zones.len(),
    ensures
        forall|z: ZoneId|
            leaves_upto(zones, spawn, n).contains(z) <==> exists|i: int|
                0 <= i < n && zones[i].id == z && #[trigger] zones[i].spec_is_leaf(spawn),
    decreases n,
{
    if n > 0 {
        lemma_leaves_upto(zones, spawn, (n - 1) as nat);
        let prev = leaves_upto(zones, spawn, (n - 1) as nat);
        assert forall|z: ZoneId|
            leaves_upto(zones, spawn, n).contains(z) <==> exists|i: int|
                0 <= i < n && zones[i].id == z && #[trigger] zones[i].spec_is_leaf(spawn) by {
            if zones[n - 1].spec_is_leaf(spawn) {
                let s = prev.push(zones[n - 1].id);
                assert(s[s.len() - 1] == zones[n - 1].id);
                if s.contains(z) {
                    let k = choose|k: int| 0 <= k < s.len() && s[k] == z;
                    if k < prev.len() {
                        assert(prev[k] == z);
                    }
                }
                if prev.contains(z) {
                    let k = choose|k: int| 0 <= k < prev.len() && prev[k] == z;
                    assert(s[k] == z);
                }
            }
        }
    }
}

/// The dead ends of the level, in zone order.
pub fn leaf_zones(graph: &LevelGraph) -> (r: Vec<ZoneId>)
    ensures
        r@ == leaves(graph.zones@, graph.spawn_zone),
{
    let mut r: Vec<ZoneId> = Vec::new();
    let mut i: usize = 0;
    while i < graph.zones.len()
        invariant
            i <= graph.zones@.len(),
            r@ == leaves_upto(graph.zones@, graph.spawn_zone, i as nat),
        decreases graph.zones@.len() - i,
    {
        if graph.zones[i].is_leaf(graph.spawn_zone) {
            r.push(graph.zones[i].id);
        }
        i = i + 1;
    }
    r
}

/// The last of the zones with the greatest listed depth (depth 0 when not listed),
/// as `max_by_key` picks it.
pub open spec fn deepest(s: Seq<ZoneId>, d: Seq<(ZoneId, u32)>) -> ZoneId
    recommends
        s.len() > 0,
    decreases s.len(),
{
    if s.len() <= 1 {
        s[0]
    } else {
        let m = deepest(s.drop_last(), d);
        if depth_or_zero(d, s.last().0) >= depth_or_zero(d, m.0) {
            s.last()
        } else {
            m
        }
    }
}

/// The deepest zone of a non-empty list is one of its zones.
pub proof fn lemma_deepest_in(s: Seq<ZoneId>, d: Seq<(ZoneId, u32)>)
    requires
        s.len() > 0,
    ensures
        s.contains(deepest(s, d)),
    decreases s.len(),
{
    if s.len() > 1 {
        lemma_deepest_in(s.drop_last(), d);
        let m = deepest(s.drop_last(), d);
        let k = choose|k: int| 0 <= k < s.drop_last().len() && s.drop_last()[k] == m;
        assert(s[k] == m);
        assert(s[s.len() - 1] == s.last());
    } else {
        assert(s[0] == s[0]);
    }
}

/// The last zone of `s` among those with the greatest depth.
pub fn pick_deepest(s: &Vec<ZoneId>, d: &Vec<(ZoneId, u32)>) -> (r: ZoneId)
    requires
        s@.len() > 0,
        depth_keys_unique(d@),
    ensures
        r == deepest(s@, d@),
{
    let mut best = s[0];
    let mut best_depth = match lookup_depth(d, best) {
        Some(n) => n,
        None => 0,
    };
    let mut i: usize = 1;
    while i < s.len()
        invariant
            depth_keys_unique(d@),
            1 <= i <= s@.len(),
            best == deepest(s@.subrange(0, i as int), d@),
            best_depth == depth_or_zero(d@, best.0),
        decreases s@.len() - i,
    {
        let z = s[i];
        let dz = match lookup_depth(d, z) {
            Some(n) => n,
            None => 0,
        };
        proof {
            let t = s@.subrange(0, i + 1);
            assert(t.drop_last() =~= s@.subrange(0, i as int));
            assert(t.last() == z);
        }
        if dz >= best_depth {
            best = z;
            best_depth = dz;
        }
        i = i + 1;
    }
    proof {
        assert(s@.subrange(0, s@.len() as int) =~= s@);
    }
    best
}

// ---------------------------------------------------------------------------
// Paths: edges, positions, horde spawns and scan nodes
// ---------------------------------------------------------------------------

/// Consecutive zones `a`, `b` (either order) on the path.
pub open spec fn edge_on_path(p: Seq<ZoneId>, a: ZoneId, b: ZoneId) -> bool {
    exists|i: int|
        0 <= i < p.len() - 1 && ((p[i] == a && #[trigger] p[i + 1] == b) || (p[i] == b && p[i + 1]
            == a))
}

/// Does the path step directly between `a` and `b`?
pub fn path_has_edge(p: &Vec<ZoneId>, a: ZoneId, b: ZoneId) -> (r: bool)
    ensures
        r == edge_on_path(p@, a, b),
{
    if p.len() < 2 {
        return false;
    }
    let mut i: usize = 0;
    while i < p.len() - 1
        invariant
            p@.len() >= 2,
            i + 1 <= p@.len(),
            forall|k: int|
                0 <= k < i ==> !((p@[k] == a && #[trigger] p@[k + 1] == b) || (p@[k] == b && p@[k + 1]
                    == a)),
        decreases p@.len() - i,
    {
        if (p[i].0 == a.0 && p[i + 1].0 == b.0) || (p[i].0 == b.0 && p[i + 1].0 == a.0) {
            assert(p@[i as int + 1] == p@[i as int + 1]);
            return true;
        }
        i = i + 1;
    }
    false
}

/// First position of `z` in `s` among the first `n`.
pub open spec fn first_index_upto(s: Seq<ZoneId>, z: ZoneId, n: nat) -> Option<int>
    decreases n,
{
    if n == 0 {
        None
    } else {
        match first_index_upto(s, z, (n - 1) as nat) {
            Some(i) => Some(i),
            None => if s[n - 1] == z {
                Some(n - 1)
            } else {
                None
            },
        }
    }
}

/// First position of `z` in `s`.
pub open spec fn first_index(s: Seq<ZoneId>, z: ZoneId) -> Option<int> {
    first_index_upto(s, z, s.len())
}

/// Last position of `z` in `s` among the first `n`.
pub open spec fn last_index_upto(s: Seq<ZoneId>, z: ZoneId, n: nat) -> Option<int>
    decreases n,
{
    if n == 0 {
        None
    } else if s[n - 1] == z {
        Some(n - 1)
    } else {
        last_index_upto(s, z, (n - 1) as nat)
    }
}

/// Last position of `z` in `s`.
pub open spec fn last_index(s: Seq<ZoneId>, z: ZoneId) -> Option<int> {
    last_index_upto(s, z, s.len())
}

proof fn lemma_first_index_upto(s: Seq<ZoneId>, z: ZoneId, n: nat)
    requires
        n <= s.len(),
    ensures
        match first_index_upto(s, z, n) {
            Some(i) => 0 <= i < n && s[i] == z && forall|k: int| 0 <= k < i ==> s[k] != z,
            None => forall|k: int| 0 <= k < n ==> s[k] != z,
        },
    decreases n,
{
    if n > 0 {
        lemma_first_index_upto(s, z, (n - 1) as nat);
    }
}

proof fn lemma_last_index_upto(s: Seq<ZoneId>, z: ZoneId, n: nat)
    requires
        n <= s.len(),
    ensures
        match last_index_upto(s, z, n) {
            Some(i) => 0 <= i < n && s[i] == z && forall|k: int| i < k < n ==> s[k] != z,
            None => forall|k: int| 0 <= k < n ==> s[k] != z,
        },
    decreases n,
{
    if n > 0 {
        lemma_last_index_upto(s, z, (n - 1) as nat);
    }
}

/// First position of `z` in `s`.
pub fn position_of(s: &Vec<ZoneId>, z: ZoneId) -> (r: Option<usize>)
    ensures
        match r {
            Some(i) => first_index(s@, z) == Some(i as int),
            None => first_index(s@, z).is_none(),
        },
        r.is_some() <==> s@.contains(z),
{
    let mut i: usize = 0;
    while i < s.len()
        invariant
            i <= s@.len(),
            first_index_upto(s@, z, i as nat).is_none(),
            forall|k: int| 0 <= k < i ==> s@[k] != z,
        decreases s@.len() - i,
    {
        if s[i].0 == z.0 {
            proof {
                assert(s@[i as int] == z);
                assert(first_index_upto(s@, z, (i + 1) as nat) == Some(i as int));
                lemma_first_index_extends(s@, z, (i + 1) as nat);
            }
            return Some(i);
        }
        i = i + 1;
    }
    None
}

proof fn lemma_first_index_extends(s: Seq<ZoneId>, z: ZoneId, n: nat)
    requires
        n <= s.len(),
        first_index_upto(s, z, n).is_some(),
    ensures
        first_index(s, z) == first_index_upto(s, z, n),
    decreases s.len() - n,
{
    if n < s.len() {
        assert(first_index_upto(s, z, n + 1) == first_index_upto(s, z, n));
        lemma_first_index_extends(s, z, n + 1);
    }
}

/// Last position of `z` in `s`.
pub fn rposition_of(s: &Vec<ZoneId>, z: ZoneId) -> (r: Option<usize>)
    ensures
        match r {
            Some(i) => last_index(s@, z) == Some(i as int),
            None => last_index(s@, z).is_none(),
        },
{
    let mut i: usize = s.len();
    while i > 0
        invariant
            i <= s@.len(),
            forall|k: int| i <= k < s@.len() ==> s@[k] != z,
            last_index(s@, z) == last_index_upto(s@, z, i as nat),
        decreases i,
    {
        if s[i - 1].0 == z.0 {
            assert(s@[i - 1] == z);
            return Some(i - 1);
        }
        i = i - 1;
    }
    None
}

/// `s` with consecutive repeats removed, as `Vec::dedup` leaves it.
pub open spec fn dedup(s: Seq<ZoneId>) -> Seq<ZoneId>
    decreases s.len(),
{
    if s.len() == 0 {
        s
    } else {
        let d = dedup(s.drop_last());
        if d.len() > 0 && d.last() == s.last() {
            d
        } else {
            d.push(s.last())
        }
    }
}

/// Removes consecutive repeats.
pub fn dedup_zones(v: &Vec<ZoneId>) -> (r: Vec<ZoneId>)
    ensures
        r@ == dedup(v@),
{
    let mut r: Vec<ZoneId> = Vec::new();
    let mut i: usize = 0;
    while i < v.len()
        invariant
            i <= v@.len(),
            r@ == dedup(v@.subrange(0, i as int)),
        decreases v@.len() - i,
    {
        proof {
            let t = v@.subrange(0, i + 1);
            assert(t.drop_last() =~= v@.subrange(0, i as int));
            assert(t.last() == v@[i as int]);
        }
        if r.len() == 0 || r[r.len() - 1].0 != v[i].0 {
            r.push(v[i]);
        }
        i = i + 1;
    }
    proof {
        assert(v@.subrange(0, v@.len() as int) =~= v@);
    }
    r
}

/// Where alarm hordes spawn: three and two rooms before the objective on the
/// critical path (the last position of the objective, or the path's end).
pub open spec fn horde_spec(p: Seq<ZoneId>, objective: ZoneId) -> Seq<ZoneId> {
    if p.len() == 0 {
        seq![]
    } else {
        let oi = match last_index(p, objective) {
            Some(i) => i,
            None => p.len() - 1,
        };
        let a = if oi >= 3 {
            seq![p[oi - 3]]
        } else {
            seq![]
        };
        let b = if oi >= 2 {
            a.push(p[oi - 2])
        } else {
            a
        };
        dedup(b)
    }
}

/// Alarm hordes spawn two or three rooms upstream of the objective.
pub fn horde_spawn_zones(critical_path: &Vec<ZoneId>, objective: ZoneId) -> (r: Vec<ZoneId>)
    ensures
        r@ == horde_spec(critical_path@, objective),
{
    let mut spawns: Vec<ZoneId> = Vec::new();
    if critical_path.len() == 0 {
        return spawns;
    }
    let obj_index = match rposition_of(critical_path, objective) {
        Some(i) => i,
        None => critical_path.len() - 1,
    };
    proof {
        lemma_last_index_upto(critical_path@, objective, critical_path@.len());
    }
    if obj_index >= 3 {
        spawns.push(critical_path[obj_index - 3]);
    }
    if obj_index >= 2 {
        spawns.push(critical_path[obj_index - 2]);
    }
    proof {
        let oi = obj_index as int;
        let p = critical_path@;
        let a = if oi >= 3 {
            seq![p[oi - 3]]
        } else {
            seq![]
        };
        let b = if oi >= 2 {
            a.push(p[oi - 2])
        } else {
            a
        };
        assert(spawns@ =~= b);
    }
    dedup_zones(&spawns)
}

/// Scan nodes: the objective and, unless it is the spawn, the room before it.
pub open spec fn scan_spec(p: Seq<ZoneId>, objective: ZoneId, spawn: ZoneId) -> Seq<ZoneId> {
    match last_index(p, objective) {
        Some(idx) => {
            let a = seq![objective];
            let b = if idx >= 1 && p[idx - 1] != spawn {
                a.push(p[idx - 1])
            } else {
                a
            };
            dedup(b)
        },
        None => seq![],
    }
}

/// Scan nodes anchor the defensive hold in the objective room and just upstream.
pub fn scan_node_zones(critical_path: &Vec<ZoneId>, objective: ZoneId, spawn: ZoneId) -> (r: Vec<
    ZoneId,
>)
    ensures
        r@ == scan_spec(critical_path@, objective, spawn),
{
    let mut zones: Vec<ZoneId> = Vec::new();
    match rposition_of(critical_path, objective) {
        Some(idx) => {
            proof {
                lemma_last_index_upto(critical_path@, objective, critical_path@.len());
            }
            zones.push(objective);
            if idx >= 1 {
                let upstream = critical_path[idx - 1];
                if upstream.0 != spawn.0 {
                    zones.push(upstream);
                }
            }
            proof {
                let p = critical_path@;
                let a = seq![objective];
                let b = if idx >= 1 && p[idx - 1] != spawn {
                    a.push(p[idx - 1])
                } else {
                    a
                };
                assert(zones@ =~= b);
            }
        },
        None => {},
    }
    dedup_zones(&zones)
}

// ---------------------------------------------------------------------------
// Doors along the critical path
// ---------------------------------------------------------------------------

/// First door (by position) joining `a` and `b` among the first `n`.
pub open spec fn first_link_upto(conns: Seq<ZoneConnection>, a: u32, b: u32, n: nat) -> Option<int>
    decreases n,
{
    if n == 0 {
        None
    } else {
        match first_link_upto(conns, a, b, (n - 1) as nat) {
            Some(i) => Some(i),
            None => if conn_links(conns[n - 1], a, b) {
                Some(n - 1)
            } else {
                None
            },
        }
    }
}

/// First door joining `a` and `b`.
pub open spec fn first_link(conns: Seq<ZoneConnection>, a: u32, b: u32) -> Option<int> {
    first_link_upto(conns, a, b, conns.len())
}

proof fn lemma_first_link_upto(conns: Seq<ZoneConnection>, a: u32, b: u32, n: nat)
    requires
        n <= conns.len(),
    ensures
        match first_link_upto(conns, a, b, n) {
            Some(i) => 0 <= i < n && conn_links(conns[i], a, b),
            None => forall|k: int| 0 <= k < n ==> !conn_links(#[trigger] conns[k], a, b),
        },
    decreases n,
{
    if n > 0 {
        lemma_first_link_upto(conns, a, b, (n - 1) as nat);
    }
}

/// The two doors lists join the same zones at every position.
pub open spec fn same_ends(c1: Seq<ZoneConnection>, c2: Seq<ZoneConnection>) -> bool {
    c1.len() == c2.len() && forall|i: int|
        0 <= i < c1.len() ==> (#[trigger] c1[i]).from_zone == c2[i].from_zone && c1[i].to_zone
            == c2[i].to_zone
}

proof fn lemma_first_link_same_ends(
    c1: Seq<ZoneConnection>,
    c2: Seq<ZoneConnection>,
    a: u32,
    b: u32,
    n: nat,
)
    requires
        same_ends(c1, c2),
        n <= c1.len(),
    ensures
        first_link_upto(c1, a, b, n) == first_link_upto(c2, a, b, n),
    decreases n,
{
    if n > 0 {
        lemma_first_link_same_ends(c1, c2, a, b, (n - 1) as nat);
        assert(c1[n - 1].from_zone == c2[n - 1].from_zone);
    }
}

/// Position of the first door joining `a` and `b`.
pub fn find_connection(conns: &Vec<ZoneConnection>, a: ZoneId, b: ZoneId) -> (r: Option<usize>)
    ensures
        match r {
            Some(i) => first_link(conns@, a.0, b.0) == Some(i as int),
            None => first_link(conns@, a.0, b.0).is_none(),
        },
{
    let mut i: usize = 0;
    while i < conns.len()
        invariant
            i <= conns@.len(),
            first_link_upto(conns@, a.0, b.0, i as nat).is_none(),
        decreases conns@.len() - i,
    {
        let f = conns[i].from_zone.0;
        let t = conns[i].to_zone.0;
        if (f == a.0 && t == b.0) || (f == b.0 && t == a.0) {
            proof {
                assert(first_link_upto(conns@, a.0, b.0, (i + 1) as nat) == Some(i as int));
                lemma_first_link_extends(conns@, a.0, b.0, (i + 1) as nat);
            }
            return Some(i);
        }
        i = i + 1;
    }
    None
}

proof fn lemma_first_link_extends(conns: Seq<ZoneConnection>, a: u32, b: u32, n: nat)
    requires
        n <= conns.len(),
        first_link_upto(conns, a, b, n).is_some(),
    ensures
        first_link(conns, a, b) == first_link_upto(conns, a, b, n),
    decreases conns.len() - n,
{
    if n < conns.len() {
        assert(first_link_upto(conns, a, b, n + 1) == first_link_upto(conns, a, b, n));
        lemma_first_link_extends(conns, a, b, n + 1);
    }
}

/// The door that enters `target` from the zone before it on the path (its first
/// position on the path), if there is one.
pub open spec fn entry_door(conns: Seq<ZoneConnection>, p: Seq<ZoneId>, target: ZoneId) -> Option<
    int,
> {
    match first_index(p, target) {
        Some(idx) => if idx >= 1 {
            first_link(conns, p[idx - 1].0, target.0)
        } else {
            None
        },
        None => None,
    }
}

/// Replaces the door at position `i` (keeping its ends).
fn set_door(conns: &mut Vec<ZoneConnection>, i: usize, door_type: DoorType, required: Option<ZoneId>)
    requires
        i < old(conns)@.len(),
    ensures
        final(conns)@.len() == old(conns)@.len(),
        forall|k: int| 0 <= k < old(conns)@.len() && k != i ==> final(conns)@[k] == old(conns)@[k],
        final(conns)@[i as int].from_zone == old(conns)@[i as int].from_zone,
        final(conns)@[i as int].to_zone == old(conns)@[i as int].to_zone,
        final(conns)@[i as int].is_critical_path == old(conns)@[i as int].is_critical_path,
        final(conns)@[i as int].door_type == door_type,
        final(conns)@[i as int].required_keycard == required,
{
    let c = ZoneConnection {
        from_zone: conns[i].from_zone,
        to_zone: conns[i].to_zone,
        door_type,
        required_keycard: required,
        is_critical_path: conns[i].is_critical_path,
    };
    conns.set(i, c);
}

/// Gives the door that enters `target` along the path the given type, unless it
/// is a keycard door.
pub fn set_path_edge_door(
    conns: &mut Vec<ZoneConnection>,
    critical_path: &Vec<ZoneId>,
    target: ZoneId,
    door_type: DoorType,
)
    ensures
        final(conns)@.len() == old(conns)@.len(),
        match entry_door(old(conns)@, critical_path@, target) {
            Some(i) => forall|k: int|
                0 <= k < old(conns)@.len() ==> if k == i && old(conns)@[k].door_type
                    != DoorType::Keycard {
                    #[trigger] final(conns)@[k] == (ZoneConnection {
                        door_type: door_type,
                        ..old(conns)@[k]
                    })
                } else {
                    final(conns)@[k] == old(conns)@[k]
                },
            None => final(conns)@ == old(conns)@,
        },
{
    let idx = match position_of(critical_path, target) {
        Some(idx) => idx,
        None => {
            return ;
        },
    };
    proof {
        lemma_first_index_upto(critical_path@, target, critical_path@.len());
    }
    if idx == 0 {
        return ;
    }
    let prev = critical_path[idx - 1];
    if let Some(i) = find_connection(conns, prev, target) {
        proof {
            lemma_first_link_upto(old(conns)@, prev.0, target.0, old(conns)@.len());
        }
        if conns[i].door_type != DoorType::Keycard {
            let req = conns[i].required_keycard;
            set_door(conns, i, door_type, req);
            assert(conns@[i as int] =~= (ZoneConnection { door_type: door_type, ..old(conns)@[i as int] }));
        }
    }
}

// ---------------------------------------------------------------------------
// Resources and the terminal network
// ---------------------------------------------------------------------------

/// The resource budget of an ordinary zone, given the number of ammo packs
/// `roll` drawn for a dead end. "Dead end" is taken relative to the objective,
/// not the spawn: any zone but the objective with at most one door counts,
/// the spawn hub too when it has a single door.
pub open spec fn ordinary_resources(zone: Zone, objective: ZoneId, roll: u8) -> ZoneResources {
    let ammo0: u8 = if zone.spec_is_leaf(objective) {
        roll
    } else {
        0
    };
    let ammo1: u8 = if zone.hazard_level >= 3 {
        ammo0.saturating_add(1)
    } else {
        ammo0
    };
    if zone.zone_type == ZoneType::Storage {
        ZoneResources { ammo_packs: ammo1.saturating_add(2), tool_packs: 1, med_packs: 0 }
    } else {
        ZoneResources { ammo_packs: ammo1, tool_packs: 0, med_packs: 0 }
    }
}

/// What the resource pass may give a zone: the objective a full cache, the
/// keycard zone medical supplies and at most one ammo pack, dead ends one or two
/// ammo packs, hazardous zones one more, storage rooms two more and a tool pack.
pub open spec fn resources_ok(
    zone: Zone,
    objective: ZoneId,
    keycard: Option<ZoneId>,
    r: ZoneResources,
) -> bool {
    if zone.id == objective {
        r == ZoneResources { ammo_packs: 1, tool_packs: 1, med_packs: 1 }
    } else if keycard == Some(zone.id) {
        r.med_packs == 1 && r.tool_packs == 0 && r.ammo_packs <= 1
    } else {
        exists|roll: u8|
            (zone.spec_is_leaf(objective) ==> 1 <= roll <= 2) && r == #[trigger] ordinary_resources(
                zone,
                objective,
                roll,
            )
    }
}

/// Resource budget of a zone; dead ends are rewarded with ammunition.
pub fn assign_zone_resources(
    zone: &Zone,
    objective: ZoneId,
    keycard: Option<ZoneId>,
    rng: &mut StdRng,
) -> (r: ZoneResources)
    ensures
        resources_ok(*zone, objective, keycard, r),
{
    let mut resources = ZoneResources::none();
    if zone.id.0 == objective.0 {
        resources.med_packs = 1;
        resources.tool_packs = 1;
        resources.ammo_packs = 1;
        return resources;
    }
    let is_keycard = match keycard {
        Some(k) => k.0 == zone.id.0,
        None => false,
    };
    if is_keycard {
        resources.med_packs = 1;
        resources.tool_packs = 0;
        resources.ammo_packs = random_u8_inclusive(rng, 0, 1);
        return resources;
    }
    let mut roll: u8 = 0;
    if zone.is_leaf(objective) && zone.id.0 != objective.0 {
        roll = random_u8_inclusive(rng, 1, 2);
        resources.ammo_packs = if roll < 3 {
            roll
        } else {
            3
        };
    }
    if zone.hazard_level >= 3 {
        resources.ammo_packs = resources.ammo_packs.saturating_add(1);
    }
    if zone.zone_type == ZoneType::Storage {
        resources.ammo_packs = resources.ammo_packs.saturating_add(2);
        resources.tool_packs = 1;
    }
    assert(resources == ordinary_resources(*zone, objective, roll));
    resources
}

/// The view of a terminal entry: id, kind, zone and label.
pub open spec fn item_view(it: IndexedItem) -> (Seq<char>, IndexedItemKind, ZoneId, Seq<char>) {
    (it.id@, it.kind, it.zone, it.label@)
}

/// The name of a keycard colour.
pub open spec fn color_text(c: KeycardColor) -> Seq<char> {
    match c {
        KeycardColor::Red => "RED"@,
        KeycardColor::Blue => "BLUE"@,
    }
}

/// The entries of the resources of the first `n` zones.
pub open spec fn zone_items_upto(zones: Seq<Zone>, n: nat) -> Seq<
    (Seq<char>, IndexedItemKind, ZoneId, Seq<char>),
>
    decreases n,
{
    if n == 0 {
        seq![]
    } else {
        let prev = zone_items_upto(zones, (n - 1) as nat);
        let z = zones[n - 1];
        let base = decimal(z.id.0 as nat);
        let a = if z.resources.ammo_packs > 0 {
            prev.push(
                (
                    "AMMO_"@ + base,
                    IndexedItemKind::Ammo,
                    z.id,
                    "AMMO CACHE "@ + decimal(z.resources.ammo_packs as nat) + " IS IN ZONE "@ + base,
                ),
            )
        } else {
            prev
        };
        let b = if z.resources.med_packs > 0 {
            a.push(
                (
                    "MED_"@ + base,
                    IndexedItemKind::Medical,
                    z.id,
                    "MEDICAL SUPPLIES ARE IN ZONE "@ + base,
                ),
            )
        } else {
            a
        };
        if z.resources.tool_packs > 0 {
            b.push(("TOOL_"@ + base, IndexedItemKind::Tool, z.id, "TOOL CACHE IS IN ZONE "@ + base))
        } else {
            b
        }
    }
}

/// The terminal network of a level: the keycard, the objective, then every
/// zone's ammunition, medical supplies and tools, in zone order.
pub open spec fn terminal_items(g: LevelGraph) -> Seq<(Seq<char>, IndexedItemKind, ZoneId, Seq<char>)> {
    let a = match g.keycard_zone {
        Some(kc) => seq![
            (
                "KC_"@ + color_text(g.keycard_color) + "_"@ + decimal(kc.0 as nat),
                IndexedItemKind::Keycard,
                kc,
                "KEYCARD "@ + color_text(g.keycard_color) + " IS IN ZONE "@ + decimal(kc.0 as nat),
            ),
        ],
        None => seq![],
    };
    let b = match g.objective_zone {
        Some(obj) => a.push(
            (
                "OBJ_"@ + decimal(obj.0 as nat),
                IndexedItemKind::Objective,
                obj,
                "OBJECTIVE IS IN ZONE "@ + decimal(obj.0 as nat),
            ),
        ),
        None => a,
    };
    b + zone_items_upto(g.zones@, g.zones@.len())
}

/// The name of a keycard colour.
pub fn color_name(color: KeycardColor) -> (s: &'static str)
    ensures
        s@ == color_text(color),
{
    match color {
        KeycardColor::Red => "RED",
        KeycardColor::Blue => "BLUE",
    }
}

/// `prefix` followed by the decimal form of `n`.
fn prefixed_number(prefix: &str, n: u32) -> (s: String)
    ensures
        s@ == prefix@ + decimal(n as nat),
{
    let mut s = String::new();
    append_str(&mut s, prefix);
    append_decimal(&mut s, n as u64);
    proof {
        assert(Seq::<char>::empty() + prefix@ =~= prefix@);
    }
    s
}

/// Appends the terminal entries of one zone's resources.
fn push_zone_items(items: &mut Vec<IndexedItem>, z: &Zone)
    ensures
        final(items)@.map_values(|it: IndexedItem| item_view(it)) == {
            let prev = old(items)@.map_values(|it: IndexedItem| item_view(it));
            let base = decimal(z.id.0 as nat);
            let a = if z.resources.ammo_packs > 0 {
                prev.push(
                    (
                        "AMMO_"@ + base,
                        IndexedItemKind::Ammo,
                        z.id,
                        "AMMO CACHE "@ + decimal(z.resources.ammo_packs as nat) + " IS IN ZONE "@
                            + base,
                    ),
                )
            } else {
                prev
            };
            let b = if z.resources.med_packs > 0 {
                a.push(
                    (
                        "MED_"@ + base,
                        IndexedItemKind::Medical,
                        z.id,
                        "MEDICAL SUPPLIES ARE IN ZONE "@ + base,
                    ),
                )
            } else {
                a
            };
            if z.resources.tool_packs > 0 {
                b.push(("TOOL_"@ + base, IndexedItemKind::Tool, z.id, "TOOL CACHE IS IN ZONE "@ + base))
            } else {
                b
            }
        },
{
    let base = z.id.0;
    let ghost prev = old(items)@.map_values(|it: IndexedItem| item_view(it));
    let ghost b = decimal(base as nat);
    if z.resources.ammo_packs > 0 {
        let mut label = prefixed_number("AMMO CACHE ", z.resources.ammo_packs as u32);
        append_str(&mut label, " IS IN ZONE ");
        append_decimal(&mut label, base as u64);
        items.push(
            IndexedItem {
                id: prefixed_number("AMMO_", base),
                kind: IndexedItemKind::Ammo,
                zone: z.id,
                label,
            },
        );
    }
    let ghost a = items@.map_values(|it: IndexedItem| item_view(it));
    if z.resources.med_packs > 0 {
        items.push(
            IndexedItem {
                id: prefixed_number("MED_", base),
                kind: IndexedItemKind::Medical,
                zone: z.id,
                label: prefixed_number("MEDICAL SUPPLIES ARE IN ZONE ", base),
            },
        );
    }
    let ghost bb = items@.map_values(|it: IndexedItem| item_view(it));
    if z.resources.tool_packs > 0 {
        items.push(
            IndexedItem {
                id: prefixed_number("TOOL_", base),
                kind: IndexedItemKind::Tool,
                zone: z.id,
                label: prefixed_number("TOOL CACHE IS IN ZONE ", base),
            },
        );
    }
    proof {
        let a_spec = if z.resources.ammo_packs > 0 {
            prev.push(
                (
                    "AMMO_"@ + b,
                    IndexedItemKind::Ammo,
                    z.id,
                    "AMMO CACHE "@ + decimal(z.resources.ammo_packs as nat) + " IS IN ZONE "@ + b,
                ),
            )
        } else {
            prev
        };
        assert(a =~= a_spec);
        let b_spec = if z.resources.med_packs > 0 {
            a_spec.push(
                (
                    "MED_"@ + b,
                    IndexedItemKind::Medical,
                    z.id,
                    "MEDICAL SUPPLIES ARE IN ZONE "@ + b,
                ),
            )
        } else {
            a_spec
        };
        assert(bb =~= b_spec);
        let c_spec = if z.resources.tool_packs > 0 {
            b_spec.push(("TOOL_"@ + b, IndexedItemKind::Tool, z.id, "TOOL CACHE IS IN ZONE "@ + b))
        } else {
            b_spec
        };
        assert(items@.map_values(|it: IndexedItem| item_view(it)) =~= c_spec);
    }
}

/// The index every terminal of the level answers queries from.
pub fn build_terminal_network(graph: &LevelGraph) -> (n: TerminalNetwork)
    ensures
        n.items@.map_values(|it: IndexedItem| item_view(it)) == terminal_items(*graph),
{
    let mut items: Vec<IndexedItem> = Vec::new();
    if let Some(kc) = graph.keycard_zone {
        let color = color_name(graph.keycard_color);
        let mut id = String::new();
        append_str(&mut id, "KC_");
        append_str(&mut id, color);
        append_str(&mut id, "_");
        append_decimal(&mut id, kc.0 as u64);
        let mut label = String::new();
        append_str(&mut label, "KEYCARD ");
        append_str(&mut label, color);
        append_str(&mut label, " IS IN ZONE ");
        append_decimal(&mut label, kc.0 as u64);
        items.push(IndexedItem { id, kind: IndexedItemKind::Keycard, zone: kc, label });
        proof {
            assert(Seq::<char>::empty() + "KC_"@ =~= "KC_"@);
            assert(Seq::<char>::empty() + "KEYCARD "@ =~= "KEYCARD "@);
        }
    }
    if let Some(obj) = graph.objective_zone {
        items.push(
            IndexedItem {
                id: prefixed_number("OBJ_", obj.0),
                kind: IndexedItemKind::Objective,
                zone: obj,
                label: prefixed_number("OBJECTIVE IS IN ZONE ", obj.0),
            },
        );
    }
    let ghost head = items@.map_values(|it: IndexedItem| item_view(it));
    proof {
        let a = match graph.keycard_zone {
            Some(kc) => seq![
                (
                    "KC_"@ + color_text(graph.keycard_color) + "_"@ + decimal(kc.0 as nat),
                    IndexedItemKind::Keycard,
                    kc,
                    "KEYCARD "@ + color_text(graph.keycard_color) + " IS IN ZONE "@ + decimal(
                        kc.0 as nat,
                    ),
                ),
            ],
            None => seq![],
        };
        let b = match graph.objective_zone {
            Some(obj) => a.push(
                (
                    "OBJ_"@ + decimal(obj.0 as nat),
                    IndexedItemKind::Objective,
                    obj,
                    "OBJECTIVE IS IN ZONE "@ + decimal(obj.0 as nat),
                ),
            ),
            None => a,
        };
        assert(head =~= b);
    }
    let mut i: usize = 0;
    while i < graph.zones.len()
        invariant
            i <= graph.zones@.len(),
            items@.map_values(|it: IndexedItem| item_view(it)) == head + zone_items_upto(
                graph.zones@,
                i as nat,
            ),
        decreases graph.zones@.len() - i,
    {
        push_zone_items(&mut items, &graph.zones[i]);
        proof {
            let prev = zone_items_upto(graph.zones@, i as nat);
            let next = zone_items_upto(graph.zones@, (i + 1) as nat);
            let z = graph.zones@[i as int];
            let base = decimal(z.id.0 as nat);
            assert((head + prev).push(
                (
                    "AMMO_"@ + base,
                    IndexedItemKind::Ammo,
                    z.id,
                    "AMMO CACHE "@ + decimal(z.resources.ammo_packs as nat) + " IS IN ZONE "@ + base,
                ),
            ) =~= head + prev.push(
                (
                    "AMMO_"@ + base,
                    IndexedItemKind::Ammo,
                    z.id,
                    "AMMO CACHE "@ + decimal(z.resources.ammo_packs as nat) + " IS IN ZONE "@ + base,
                ),
            ));
            let a = if z.resources.ammo_packs > 0 {
                prev.push(
                    (
                        "AMMO_"@ + base,
                        IndexedItemKind::Ammo,
                        z.id,
                        "AMMO CACHE "@ + decimal(z.resources.ammo_packs as nat) + " IS IN ZONE "@
                            + base,
                    ),
                )
            } else {
                prev
            };
            let m = ("MED_"@ + base, IndexedItemKind::Medical, z.id, "MEDICAL SUPPLIES ARE IN ZONE "@ + base);
            assert((head + a).push(m) =~= head + a.push(m));
            let bb = if z.resources.med_packs > 0 {
                a.push(m)
            } else {
                a
            };
            let t = ("TOOL_"@ + base, IndexedItemKind::Tool, z.id, "TOOL CACHE IS IN ZONE "@ + base);
            assert((head + bb).push(t) =~= head + bb.push(t));
        }
        i = i + 1;
    }
    TerminalNetwork { items }
}

// ---------------------------------------------------------------------------
// The expedition design pass
// ---------------------------------------------------------------------------

/// The greatest depth among the first `n` entries (0 when there are none).
pub open spec fn max_depth_upto(d: Seq<(ZoneId, u32)>, n: nat) -> u32
    decreases n,
{
    if n == 0 {
        0
    } else {
        let m = max_depth_upto(d, (n - 1) as nat);
        if d[n - 1].1 > m {
            d[n - 1].1
        } else {
            m
        }
    }
}

/// The greatest listed depth (0 when none is listed).
pub open spec fn max_depth_of(d: Seq<(ZoneId, u32)>) -> u32 {
    max_depth_upto(d, d.len())
}

/// The greatest listed depth.
pub fn max_depth_value(d: &Vec<(ZoneId, u32)>) -> (m: u32)
    ensures
        m == max_depth_of(d@),
{
    let mut m: u32 = 0;
    let mut i: usize = 0;
    while i < d.len()
        invariant
            i <= d@.len(),
            m == max_depth_upto(d@, i as nat),
        decreases d@.len() - i,
    {
        if d[i].1 > m {
            m = d[i].1;
        }
        i = i + 1;
    }
    m
}

/// `p` is the path breadth-first search gives from `a` to `b`: a shortest walk
/// through the doors, or empty when `b` cannot be reached.
pub open spec fn critical_path_for(conns: Seq<ZoneConnection>, a: ZoneId, b: ZoneId, p: Seq<ZoneId>) -> bool {
    if reachable(conns, a.0, b.0) {
        walk_between(conns, raw_ids(p), a.0, b.0) && forall|w: Seq<u32>|
            walk_between(conns, w, a.0, b.0) ==> p.len() <= w.len()
    } else {
        p.len() == 0
    }
}

/// The dead ends among the first `n` of `lv` that are off the path `p`.
pub open spec fn off_path_upto(lv: Seq<ZoneId>, p: Seq<ZoneId>, n: nat) -> Seq<ZoneId>
    decreases n,
{
    if n == 0 {
        seq![]
    } else {
        let prev = off_path_upto(lv, p, (n - 1) as nat);
        if p.contains(lv[n - 1]) {
            prev
        } else {
            prev.push(lv[n - 1])
        }
    }
}

/// The zones of `lv` that are not on `p`, in order.
pub open spec fn off_path(lv: Seq<ZoneId>, p: Seq<ZoneId>) -> Seq<ZoneId> {
    off_path_upto(lv, p, lv.len())
}

proof fn lemma_off_path_upto(lv: Seq<ZoneId>, p: Seq<ZoneId>, n: nat)
    requires
        n <= lv.len(),
    ensures
        forall|z: ZoneId| #[trigger] off_path_upto(lv, p, n).contains(z) <==> (exists|i: int| 0 <= i < n && lv[i] == z) && !p.contains(z),
    decreases n,
{
    if n > 0 {
        lemma_off_path_upto(lv, p, (n - 1) as nat);
        let prev = off_path_upto(lv, p, (n - 1) as nat);
        assert forall|z: ZoneId| off_path_upto(lv, p, n).contains(z) <==> (exists|i: int| 0 <= i < n && lv[i] == z) && !p.contains(z) by {
            if !p.contains(lv[n - 1]) {
                let t = prev.push(lv[n - 1]);
                assert(t[t.len() - 1] == lv[n - 1]);
                if t.contains(z) {
                    let k = choose|k: int| 0 <= k < t.len() && t[k] == z;
                    if k < prev.len() {
                        assert(prev[k] == z);
                    }
                }
                if prev.contains(z) {
                    let k = choose|k: int| 0 <= k < prev.len() && prev[k] == z;
                    assert(t[k] == z);
                }
            }
            if (exists|i: int| 0 <= i < n && lv[i] == z) && !p.contains(z) {
                let i = choose|i: int| 0 <= i < n && lv[i] == z;
                if i < n - 1 {
                    assert(prev.contains(z));
                }
            }
        }
    }
}

/// The dead ends off the path, in order.
fn leaves_off_path(lv: &Vec<ZoneId>, p: &Vec<ZoneId>) -> (r: Vec<ZoneId>)
    ensures
        r@ == off_path(lv@, p@),
{
    let mut r: Vec<ZoneId> = Vec::new();
    let mut i: usize = 0;
    while i < lv.len()
        invariant
            i <= lv@.len(),
            r@ == off_path_upto(lv@, p@, i as nat),
        decreases lv@.len() - i,
    {
        if position_of(p, lv[i]).is_none() {
            r.push(lv[i]);
        }
        i = i + 1;
    }
    r
}

/// The keycard goes to the deepest dead end off the critical path, if any.
pub open spec fn keycard_choice(lv: Seq<ZoneId>, p: Seq<ZoneId>, d: Seq<(ZoneId, u32)>) -> Option<ZoneId> {
    let off = off_path(lv, p);
    if off.len() > 0 {
        Some(deepest(off, d))
    } else {
        None
    }
}

/// The first zone of `q` (among its first `n`) that lies on `p`.
pub open spec fn first_on_path_upto(q: Seq<ZoneId>, p: Seq<ZoneId>, n: nat) -> Option<ZoneId>
    decreases n,
{
    if n == 0 {
        None
    } else {
        match first_on_path_upto(q, p, (n - 1) as nat) {
            Some(z) => Some(z),
            None => if p.contains(q[n - 1]) {
                Some(q[n - 1])
            } else {
                None
            },
        }
    }
}

/// The first zone of `q` that lies on `p`.
fn first_on_path(q: &Vec<ZoneId>, p: &Vec<ZoneId>) -> (r: Option<ZoneId>)
    ensures
        r == first_on_path_upto(q@, p@, q@.len()),
{
    let mut i: usize = 0;
    while i < q.len()
        invariant
            i <= q@.len(),
            first_on_path_upto(q@, p@, i as nat).is_none(),
        decreases q@.len() - i,
    {
        if position_of(p, q[i]).is_some() {
            proof {
                assert(first_on_path_upto(q@, p@, (i + 1) as nat) == Some(q@[i as int]));
                lemma_first_on_path_extends(q@, p@, (i + 1) as nat);
            }
            return Some(q[i]);
        }
        i = i + 1;
    }
    None
}

proof fn lemma_first_on_path_extends(q: Seq<ZoneId>, p: Seq<ZoneId>, n: nat)
    requires
        n <= q.len(),
        first_on_path_upto(q, p, n).is_some(),
    ensures
        first_on_path_upto(q, p, q.len()) == first_on_path_upto(q, p, n),
    decreases q.len() - n,
{
    if n < q.len() {
        assert(first_on_path_upto(q, p, n + 1) == first_on_path_upto(q, p, n));
        lemma_first_on_path_extends(q, p, n + 1);
    }
}

/// The door that the keycard locks: where the keycard's way to the objective
/// first meets the critical path (the spawn when it never does), the door from
/// there to the next zone of the critical path.
pub open spec fn gate_door(conns: Seq<ZoneConnection>, p: Seq<ZoneId>, q: Option<Seq<ZoneId>>, spawn: ZoneId) -> Option<int> {
    let attach = match q {
        Some(qq) => match first_on_path_upto(qq, p, qq.len()) {
            Some(z) => z,
            None => spawn,
        },
        None => spawn,
    };
    match first_index(p, attach) {
        Some(idx) => if idx + 1 < p.len() {
            first_link(conns, attach.0, p[idx + 1].0)
        } else {
            None
        },
        None => None,
    }
}

/// A door after the escalation pass: off the critical path a normal door may
/// become an alarm door (`roll`); on it, doors deep enough become alarm doors
/// unless they take a keycard.
pub open spec fn escalated(c: ZoneConnection, deep: bool, roll: bool) -> DoorType {
    if !c.is_critical_path {
        if c.door_type == DoorType::Normal && roll {
            DoorType::Alarm
        } else {
            c.door_type
        }
    } else if deep && c.door_type != DoorType::Keycard {
        DoorType::Alarm
    } else {
        c.door_type
    }
}

/// The door is deep enough for escalation: the zone with the larger id at its
/// ends lies at least half the greatest depth from the spawn.
pub open spec fn deep_door(c: ZoneConnection, d: Seq<(ZoneId, u32)>) -> bool {
    let deeper = if c.to_zone.0 > c.from_zone.0 {
        c.to_zone.0
    } else {
        c.from_zone.0
    };
    depth_or_zero(d, deeper) >= max_depth_of(d) / 2
}

/// Marks the doors that the critical path goes through.
fn mark_critical(conns: &mut Vec<ZoneConnection>, p: &Vec<ZoneId>)
    ensures
        final(conns)@.len() == old(conns)@.len(),
        forall|i: int|
            0 <= i < old(conns)@.len() ==> #[trigger] final(conns)@[i] == (ZoneConnection {
                is_critical_path: edge_on_path(p@, old(conns)@[i].from_zone, old(conns)@[i].to_zone),
                ..old(conns)@[i]
            }),
{
    let ghost c0 = conns@;
    let mut i: usize = 0;
    while i < conns.len()
        invariant
            i <= conns@.len(),
            conns@.len() == c0.len(),
            forall|k: int|
                i <= k < c0.len() ==> conns@[k] == c0[k],
            forall|k: int|
                0 <= k < i ==> #[trigger] conns@[k] == (ZoneConnection {
                    is_critical_path: edge_on_path(p@, c0[k].from_zone, c0[k].to_zone),
                    ..c0[k]
                }),
        decreases c0.len() - i,
    {
        let on = path_has_edge(p, conns[i].from_zone, conns[i].to_zone);
        let c = ZoneConnection {
            from_zone: conns[i].from_zone,
            to_zone: conns[i].to_zone,
            door_type: conns[i].door_type,
            required_keycard: conns[i].required_keycard,
            is_critical_path: on,
        };
        conns.set(i, c);
        i = i + 1;
    }
}

/// Escalates doors: off the critical path each normal door becomes an alarm door
/// with chance 9 in 50; on it, doors deep enough become alarm doors.
fn escalate_doors(conns: &mut Vec<ZoneConnection>, d: &Vec<(ZoneId, u32)>, rng: &mut StdRng)
    requires
        depth_keys_unique(d@),
    ensures
        final(conns)@.len() == old(conns)@.len(),
        forall|i: int|
            0 <= i < old(conns)@.len() ==> (#[trigger] final(conns)@[i] == (ZoneConnection {
                door_type: escalated(old(conns)@[i], deep_door(old(conns)@[i], d@), true),
                ..old(conns)@[i]
            }) || final(conns)@[i] == (ZoneConnection {
                door_type: escalated(old(conns)@[i], deep_door(old(conns)@[i], d@), false),
                ..old(conns)@[i]
            })),
{
    let threshold = max_depth_value(d) / 2;
    let ghost c0 = conns@;
    let mut i: usize = 0;
    while i < conns.len()
        invariant
            depth_keys_unique(d@),
            threshold == max_depth_of(d@) / 2,
            i <= conns@.len(),
            conns@.len() == c0.len(),
            forall|k: int|
                i <= k < c0.len() ==> conns@[k] == c0[k],
            forall|k: int|
                0 <= k < i ==> (#[trigger] conns@[k] == (ZoneConnection {
                    door_type: escalated(c0[k], deep_door(c0[k], d@), true),
                    ..c0[k]
                }) || conns@[k] == (ZoneConnection {
                    door_type: escalated(c0[k], deep_door(c0[k], d@), false),
                    ..c0[k]
                })),
        decreases c0.len() - i,
    {
        let door = conns[i].door_type;
        let new_door = if !conns[i].is_critical_path {
            if door == DoorType::Normal && random_ratio(rng, 9, 50) {
                DoorType::Alarm
            } else {
                door
            }
        } else {
            let a = conns[i].to_zone.0;
            let b = conns[i].from_zone.0;
            let deeper = if a > b {
                a
            } else {
                b
            };
            let depth = match lookup_depth(d, ZoneId(deeper)) {
                Some(n) => n,
                None => 0,
            };
            if depth >= threshold && door != DoorType::Keycard {
                DoorType::Alarm
            } else {
                door
            }
        };
        let req = conns[i].required_keycard;
        set_door(conns, i, new_door, req);
        proof {
            let ci = c0[i as int];
            assert(conns@[i as int] =~= (ZoneConnection { door_type: new_door, ..ci }));
            assert(new_door == escalated(ci, deep_door(ci, d@), true) || new_door == escalated(ci, deep_door(ci, d@), false));
        }
        i = i + 1;
    }
}

/// Locks the keycard's gate door: keycard type, requiring the keycard zone.
fn gate_keycard_door(
    conns: &mut Vec<ZoneConnection>,
    p: &Vec<ZoneId>,
    q: &Option<Vec<ZoneId>>,
    kc: ZoneId,
    spawn: ZoneId,
)
    ensures
        match gate_door(old(conns)@, p@, opt_view(*q), spawn) {
            Some(i) => final(conns)@ == old(conns)@.update(i, ZoneConnection {
                door_type: DoorType::Keycard,
                required_keycard: Some(kc),
                ..old(conns)@[i]
            }),
            None => final(conns)@ == old(conns)@,
        },
{
    let attach = match q {
        Some(qq) => match first_on_path(qq, p) {
            Some(z) => z,
            None => spawn,
        },
        None => spawn,
    };
    if let Some(idx) = position_of(p, attach) {
        proof {
            lemma_first_index_upto(p@, attach, p@.len());
            assert(first_index(p@, attach) == first_index_upto(p@, attach, p@.len()));
        }
        assert(idx < p.len());
        if idx + 1 < p.len() {
            let gate_target = p[idx + 1];
            if let Some(i) = find_connection(conns, attach, gate_target) {
                proof {
                    lemma_first_link_upto(old(conns)@, attach.0, gate_target.0, old(conns)@.len());
                }
                set_door(conns, i, DoorType::Keycard, Some(kc));
                assert(conns@ =~= old(conns)@.update(i as int, ZoneConnection {
                    door_type: DoorType::Keycard,
                    required_keycard: Some(kc),
                    ..old(conns)@[i as int]
                }));
            }
        }
    }
}

/// A bulkhead door that requires a keycard is a keycard door.
fn convert_locked_bulkheads(conns: &mut Vec<ZoneConnection>)
    ensures
        final(conns)@.len() == old(conns)@.len(),
        forall|i: int|
            0 <= i < old(conns)@.len() ==> #[trigger] final(conns)@[i] == if old(conns)@[i].door_type
                == DoorType::Bulkhead && old(conns)@[i].required_keycard.is_some() {
                ZoneConnection { door_type: DoorType::Keycard, ..old(conns)@[i] }
            } else {
                old(conns)@[i]
            },
{
    let ghost c0 = conns@;
    let mut i: usize = 0;
    while i < conns.len()
        invariant
            i <= conns@.len(),
            conns@.len() == c0.len(),
            forall|k: int|
                i <= k < c0.len() ==> conns@[k] == c0[k],
            forall|k: int|
                0 <= k < i ==> #[trigger] conns@[k] == if c0[k].door_type == DoorType::Bulkhead
                    && c0[k].required_keycard.is_some() {
                    ZoneConnection { door_type: DoorType::Keycard, ..c0[k] }
                } else {
                    c0[k]
                },
        decreases c0.len() - i,
    {
        if conns[i].door_type == DoorType::Bulkhead && conns[i].required_keycard.is_some() {
            let req = conns[i].required_keycard;
            set_door(conns, i, DoorType::Keycard, req);
            assert(conns@[i as int] =~= ZoneConnection { door_type: DoorType::Keycard, ..c0[i as int] });
        }
        i = i + 1;
    }
}

/// Hazard level of a zone at depth `depth`: the depth, truncated to a byte,
/// capped at five. The truncation comes first, so a zone 256 doors deep gets
/// hazard 0 again.
pub open spec fn hazard_for(depth: u32) -> u8 {
    let t = (depth % 256) as u8;
    if t < 5 {
        t
    } else {
        5
    }
}

/// Rewrites the design fields of the zone at position `i`.
fn rewrite_zone(
    zones: &mut Vec<Zone>,
    i: usize,
    is_objective: bool,
    is_keycard: bool,
    hazard_level: u8,
    resources: ZoneResources,
)
    requires
        i < old(zones)@.len(),
    ensures
        final(zones)@ == old(zones)@.update(
            i as int,
            Zone { is_objective, is_keycard, hazard_level, resources, ..old(zones)@[i as int] },
        ),
{
    let mut z = zones.remove(i);
    z.is_objective = is_objective;
    z.is_keycard = is_keycard;
    z.hazard_level = hazard_level;
    z.resources = resources;
    zones.insert(i, z);
    assert(zones@ =~= old(zones)@.update(
        i as int,
        Zone { is_objective, is_keycard, hazard_level, resources, ..old(zones)@[i as int] },
    ));
}

/// Whether the design pass does anything: four zones or more and a dead end.
pub open spec fn design_applies(g: LevelGraph) -> bool {
    g.zones@.len() >= 4 && leaves(g.zones@, g.spawn_zone).len() > 0
}

/// The colour of the keycard placed in zone `kc`: blue for even ids.
pub open spec fn keycard_color_for(kc: ZoneId) -> KeycardColor {
    if kc.0 % 2 == 0 {
        KeycardColor::Blue
    } else {
        KeycardColor::Red
    }
}

/// The doors with the critical path marked.
pub open spec fn marked(c: Seq<ZoneConnection>, p: Seq<ZoneId>) -> Seq<ZoneConnection> {
    Seq::new(
        c.len(),
        |i: int| ZoneConnection { is_critical_path: edge_on_path(p, c[i].from_zone, c[i].to_zone), ..c[i] },
    )
}

/// The door at position `i` of the marked doors `c` after escalation, the
/// keycard gate, the objective's bulkhead and the keycard override, given the
/// keycard's way `q` to the objective and the draw `roll` for an off-path
/// normal door.
pub open spec fn door_step(
    c: Seq<ZoneConnection>,
    d: Seq<(ZoneId, u32)>,
    p: Seq<ZoneId>,
    q: Option<Seq<ZoneId>>,
    objective: ZoneId,
    keycard: Option<ZoneId>,
    spawn: ZoneId,
    i: int,
    roll: bool,
) -> ZoneConnection {
    let c1 = c[i];
    let t1 = escalated(c1, deep_door(c1, d), roll);
    let is_gate = keycard.is_some() && gate_door(c, p, q, spawn) == Some(i);
    let t2 = if is_gate {
        DoorType::Keycard
    } else {
        t1
    };
    let r2 = if is_gate {
        keycard
    } else {
        c1.required_keycard
    };
    let t3 = if entry_door(c, p, objective) == Some(i) && t2 != DoorType::Keycard {
        DoorType::Bulkhead
    } else {
        t2
    };
    let t4 = if t3 == DoorType::Bulkhead && r2.is_some() {
        DoorType::Keycard
    } else {
        t3
    };
    ZoneConnection { door_type: t4, required_keycard: r2, ..c1 }
}

/// The door at position `i` after the design pass.
pub open spec fn door_plan(
    g: LevelGraph,
    d: Seq<(ZoneId, u32)>,
    p: Seq<ZoneId>,
    q: Option<Seq<ZoneId>>,
    objective: ZoneId,
    keycard: Option<ZoneId>,
    i: int,
    roll: bool,
) -> ZoneConnection {
    door_step(marked(g.connections@, p), d, p, q, objective, keycard, g.spawn_zone, i, roll)
}

/// A zone after the design pass.
pub open spec fn zone_plan(
    z0: Zone,
    z: Zone,
    d: Seq<(ZoneId, u32)>,
    objective: ZoneId,
    keycard: Option<ZoneId>,
) -> bool {
    let h = hazard_for(depth_or_zero(d, z0.id.0));
    &&& z == Zone {
        is_objective: z0.is_objective || z0.id == objective,
        is_keycard: z0.is_keycard || keycard == Some(z0.id),
        hazard_level: h,
        resources: z.resources,
        ..z0
    }
    &&& resources_ok(Zone { hazard_level: h, ..z0 }, objective, keycard, z.resources)
}

/// The level `g` is `g0` with the expedition design laid on it, given the depth
/// map `d`, the critical path `p` and the keycard's way `q` to the objective.
pub open spec fn design_result(
    g0: LevelGraph,
    g: LevelGraph,
    d: Seq<(ZoneId, u32)>,
    p: Seq<ZoneId>,
    q: Option<Seq<ZoneId>>,
) -> bool {
    let conns0 = g0.connections@;
    let spawn = g0.spawn_zone;
    let lv = leaves(g0.zones@, spawn);
    let objective = deepest(lv, d);
    let keycard = keycard_choice(lv, p, d);
    &&& is_depth_map(conns0, spawn.0, d)
    &&& critical_path_for(conns0, spawn, objective, p)
    &&& match keycard {
        Some(kc) => match q {
            Some(qq) => reachable(conns0, kc.0, objective.0) && critical_path_for(
                conns0,
                kc,
                objective,
                qq,
            ),
            None => !reachable(conns0, kc.0, objective.0),
        },
        None => q.is_none(),
    }
    &&& g.config == g0.config
    &&& g.spawn_zone == spawn
    &&& g.objective_zone == Some(objective)
    &&& g.objective_zones@ == if g0.objective_zones@.contains(objective) {
        g0.objective_zones@
    } else {
        g0.objective_zones@.push(objective)
    }
    &&& g.keycard_zone == match keycard {
        Some(kc) => Some(kc),
        None => g0.keycard_zone,
    }
    &&& g.keycard_color == match keycard {
        Some(kc) => keycard_color_for(kc),
        None => g0.keycard_color,
    }
    &&& g.zones@.len() == g0.zones@.len()
    &&& forall|i: int|
        0 <= i < g0.zones@.len() ==> zone_plan(
            #[trigger] g0.zones@[i],
            g.zones@[i],
            d,
            objective,
            keycard,
        )
    &&& g.connections@.len() == conns0.len()
    &&& forall|i: int|
        0 <= i < conns0.len() ==> (#[trigger] g.connections@[i] == door_plan(
            g0,
            d,
            p,
            q,
            objective,
            keycard,
            i,
            true,
        ) || g.connections@[i] == door_plan(g0, d, p, q, objective, keycard, i, false))
    &&& g.terminal_network.items@.map_values(|it: IndexedItem| item_view(it)) == terminal_items(g)
    &&& g.horde_spawn_zones@ == horde_spec(p, objective)
    &&& g.scan_node_zones@ == scan_spec(p, objective, spawn)
}

/// Doors that keep their ends join the same zones, by the same walks.
pub proof fn lemma_same_ends_adjacent(c1: Seq<ZoneConnection>, c2: Seq<ZoneConnection>)
    requires
        same_ends(c1, c2),
    ensures
        forall|a: u32, b: u32| crate::search::adjacent(c1, a, b) <==> crate::search::adjacent(c2, a, b),
        forall|p: Seq<u32>, a: u32, b: u32| walk_between(c1, p, a, b) <==> walk_between(c2, p, a, b),
        forall|a: u32, b: u32| reachable(c1, a, b) <==> reachable(c2, a, b),
{
    assert forall|a: u32, b: u32| crate::search::adjacent(c1, a, b) <==> crate::search::adjacent(c2, a, b) by {
        if crate::search::adjacent(c1, a, b) {
            let i = choose|i: int| 0 <= i < c1.len() && #[trigger] conn_links(c1[i], a, b);
            assert(conn_links(c2[i], a, b));
        }
        if crate::search::adjacent(c2, a, b) {
            let i = choose|i: int| 0 <= i < c2.len() && #[trigger] conn_links(c2[i], a, b);
            assert(conn_links(c1[i], a, b));
        }
    }
    assert forall|p: Seq<u32>, a: u32, b: u32| walk_between(c1, p, a, b) <==> walk_between(c2, p, a, b) by {
        if walk_between(c1, p, a, b) {
            assert forall|i: int| 0 <= i < p.len() - 1 implies crate::search::adjacent(c2, #[trigger] p[i], p[i + 1]) by {
                assert(crate::search::adjacent(c1, p[i], p[i + 1]));
            }
        }
        if walk_between(c2, p, a, b) {
            assert forall|i: int| 0 <= i < p.len() - 1 implies crate::search::adjacent(c1, #[trigger] p[i], p[i + 1]) by {
                assert(crate::search::adjacent(c2, p[i], p[i + 1]));
            }
        }
    }
    assert forall|a: u32, b: u32| reachable(c1, a, b) <==> reachable(c2, a, b) by {
        if reachable(c1, a, b) {
            let p = choose|p: Seq<u32>| walk_between(c1, p, a, b);
            assert(walk_between(c2, p, a, b));
        }
        if reachable(c2, a, b) {
            let p = choose|p: Seq<u32>| walk_between(c2, p, a, b);
            assert(walk_between(c1, p, a, b));
        }
    }
}

/// The view of an optional list of zones.
pub open spec fn opt_view(q: Option<Vec<ZoneId>>) -> Option<Seq<ZoneId>> {
    match q {
        Some(qq) => Some(qq@),
        None => None,
    }
}

/// The search for the keycard's way to the objective: `None` when it cannot be reached.
pub open spec fn way_for(conns: Seq<ZoneConnection>, kc: ZoneId, objective: ZoneId, q: Option<Seq<ZoneId>>) -> bool {
    match q {
        Some(qq) => reachable(conns, kc.0, objective.0) && critical_path_for(conns, kc, objective, qq),
        None => !reachable(conns, kc.0, objective.0),
    }
}

/// The door pass: escalation, the keycard gate, the objective's bulkhead door
/// and the keycard override. Returns the keycard's way to the objective.
fn design_doors(
    conns: &mut Vec<ZoneConnection>,
    d: &Vec<(ZoneId, u32)>,
    p: &Vec<ZoneId>,
    keycard: Option<ZoneId>,
    objective: ZoneId,
    spawn: ZoneId,
    rng: &mut StdRng,
) -> (q: Option<Vec<ZoneId>>)
    requires
        depth_keys_unique(d@),
    ensures
        final(conns)@.len() == old(conns)@.len(),
        match keycard {
            Some(kc) => way_for(old(conns)@, kc, objective, opt_view(q)),
            None => q.is_none(),
        },
        forall|i: int|
            0 <= i < old(conns)@.len() ==> (#[trigger] final(conns)@[i] == door_step(
                old(conns)@,
                d@,
                p@,
                opt_view(q),
                objective,
                keycard,
                spawn,
                i,
                true,
            ) || final(conns)@[i] == door_step(
                old(conns)@,
                d@,
                p@,
                opt_view(q),
                objective,
                keycard,
                spawn,
                i,
                false,
            )),
{
    let ghost c0 = conns@;
    escalate_doors(conns, d, rng);
    let ghost c3 = conns@;
    assert(same_ends(c0, c3));
    proof {
        lemma_same_ends_adjacent(c0, c3);
    }
    let mut q: Option<Vec<ZoneId>> = None;
    if let Some(kc) = keycard {
        q = bfs_path(conns, kc, objective);
        gate_keycard_door(conns, p, &q, kc, spawn);
    }
    let ghost qv = opt_view(q);
    let ghost c4 = conns@;
    proof {
        lemma_first_link_same_ends(c0, c3, 0, 0, 0);
        assert forall|a: u32, b: u32| first_link(c3, a, b) == first_link(c0, a, b) by {
            lemma_first_link_same_ends(c0, c3, a, b, c0.len());
        }
        assert(gate_door(c3, p@, qv, spawn) == gate_door(c0, p@, qv, spawn));
        if keycard.is_some() {
            match gate_door(c0, p@, qv, spawn) {
                Some(g) => {
                    lemma_gate_in_range(c0, p@, qv, spawn);
                },
                None => {},
            }
        }
    }
    assert(same_ends(c0, c4));
    set_path_edge_door(conns, p, objective, DoorType::Bulkhead);
    let ghost c5 = conns@;
    proof {
        assert forall|a: u32, b: u32| first_link(c4, a, b) == first_link(c0, a, b) by {
            lemma_first_link_same_ends(c0, c4, a, b, c0.len());
        }
        assert(entry_door(c4, p@, objective) == entry_door(c0, p@, objective));
        match entry_door(c0, p@, objective) {
            Some(e) => {
                lemma_entry_in_range(c0, p@, objective);
            },
            None => {},
        }
    }
    convert_locked_bulkheads(conns);
    proof {
        assert forall|i: int| 0 <= i < c0.len() implies (#[trigger] conns@[i] == door_step(c0, d@, p@, qv, objective, keycard, spawn, i, true)
            || conns@[i] == door_step(c0, d@, p@, qv, objective, keycard, spawn, i, false)) by {
            let is_gate = keycard.is_some() && gate_door(c0, p@, qv, spawn) == Some(i);
            if keycard.is_some() {
                assert(c4[i] == if is_gate {
                    ZoneConnection { door_type: DoorType::Keycard, required_keycard: keycard, ..c3[i] }
                } else {
                    c3[i]
                });
            } else {
                assert(c4[i] == c3[i]);
            }
        }
    }
    q
}

proof fn lemma_gate_in_range(c: Seq<ZoneConnection>, p: Seq<ZoneId>, q: Option<Seq<ZoneId>>, spawn: ZoneId)
    requires
        gate_door(c, p, q, spawn).is_some(),
    ensures
        0 <= gate_door(c, p, q, spawn).unwrap() < c.len(),
{
    let attach = match q {
        Some(qq) => match first_on_path_upto(qq, p, qq.len()) {
            Some(z) => z,
            None => spawn,
        },
        None => spawn,
    };
    let idx = first_index(p, attach).unwrap();
    lemma_first_link_upto(c, attach.0, p[idx + 1].0, c.len());
}

proof fn lemma_entry_in_range(c: Seq<ZoneConnection>, p: Seq<ZoneId>, target: ZoneId)
    requires
        entry_door(c, p, target).is_some(),
    ensures
        0 <= entry_door(c, p, target).unwrap() < c.len(),
{
    let idx = first_index(p, target).unwrap();
    lemma_first_index_upto(p, target, p.len());
    lemma_first_link_upto(c, p[idx - 1].0, target.0, c.len());
}

/// The zone pass: hazard from depth, then the resource budget.
fn design_zones(
    zones: &mut Vec<Zone>,
    d: &Vec<(ZoneId, u32)>,
    objective: ZoneId,
    keycard: Option<ZoneId>,
    rng: &mut StdRng,
)
    requires
        depth_keys_unique(d@),
    ensures
        final(zones)@.len() == old(zones)@.len(),
        forall|k: int|
            0 <= k < old(zones)@.len() ==> zone_stepped(old(zones)@[k], #[trigger] final(zones)@[k], d@, objective, keycard),
{
    let ghost z0 = zones@;
    let mut i: usize = 0;
    while i < zones.len()
        invariant
            i <= zones@.len(),
            zones@.len() == z0.len(),
            depth_keys_unique(d@),
            forall|k: int| i <= k < z0.len() ==> zones@[k] == z0[k],
            forall|k: int|
                0 <= k < i ==> {
                    let h = hazard_for(depth_or_zero(d@, z0[k].id.0));
                    &&& #[trigger] zones@[k] == Zone {
                        hazard_level: h,
                        resources: zones@[k].resources,
                        ..z0[k]
                    }
                    &&& resources_ok(
                        Zone { hazard_level: h, ..z0[k] },
                        objective,
                        keycard,
                        zones@[k].resources,
                    )
                },
        decreases z0.len() - i,
    {
        let dz = match lookup_depth(d, zones[i].id) {
            Some(n) => n,
            None => 0,
        };
        let t = (dz % 256) as u8;
        let h: u8 = if t < 5 {
            t
        } else {
            5
        };
        let o = zones[i].is_objective;
        let k = zones[i].is_keycard;
        let r0 = zones[i].resources;
        rewrite_zone(zones, i, o, k, h, r0);
        let r = assign_zone_resources(&zones[i], objective, keycard, rng);
        rewrite_zone(zones, i, o, k, h, r);
        proof {
            assert(zones@[i as int] == Zone {
                hazard_level: h,
                resources: zones@[i as int].resources,
                ..z0[i as int]
            });
        }
        i = i + 1;
    }
}

/// The zone pass turned `z0` into `z`.
pub open spec fn zone_stepped(
    z0: Zone,
    z: Zone,
    d: Seq<(ZoneId, u32)>,
    objective: ZoneId,
    keycard: Option<ZoneId>,
) -> bool {
    let h = hazard_for(depth_or_zero(d, z0.id.0));
    &&& z == Zone { hazard_level: h, resources: z.resources, ..z0 }
    &&& resources_ok(Zone { hazard_level: h, ..z0 }, objective, keycard, z.resources)
}

/// The facts the design pass establishes, one per step.
proof fn lemma_design_result(
    g0: LevelGraph,
    g1: LevelGraph,
    g2: LevelGraph,
    g3: LevelGraph,
    g: LevelGraph,
    d: Seq<(ZoneId, u32)>,
    p: Seq<ZoneId>,
    qv: Option<Seq<ZoneId>>,
    objective: ZoneId,
    keycard: Option<ZoneId>,
)
    requires
        g0.wf(),
        is_depth_map(g0.connections@, g0.spawn_zone.0, d),
        objective == deepest(leaves(g0.zones@, g0.spawn_zone), d),
        keycard == keycard_choice(leaves(g0.zones@, g0.spawn_zone), p, d),
        critical_path_for(g0.connections@, g0.spawn_zone, objective, p),
        g1.connections@ == g0.connections@,
        g1.config == g0.config,
        g1.spawn_zone == g0.spawn_zone,
        g1.keycard_zone == g0.keycard_zone,
        g1.keycard_color == g0.keycard_color,
        g1.objective_zone == Some(objective),
        g1.objective_zones@ == if g0.objective_zones@.contains(objective) {
            g0.objective_zones@
        } else {
            g0.objective_zones@.push(objective)
        },
        g1.zones@.len() == g0.zones@.len(),
        forall|i: int|
            0 <= i < g0.zones@.len() ==> #[trigger] g1.zones@[i] == (Zone {
                is_objective: g0.zones@[i].is_objective || g0.zones@[i].id == objective,
                ..g0.zones@[i]
            }),
        g2.connections@ == marked(g0.connections@, p),
        g2.config == g0.config,
        g2.spawn_zone == g0.spawn_zone,
        g2.objective_zone == g1.objective_zone,
        g2.objective_zones == g1.objective_zones,
        g2.keycard_zone == (match keycard {
            Some(kc) => Some(kc),
            None => g0.keycard_zone,
        }),
        g2.keycard_color == (match keycard {
            Some(kc) => keycard_color_for(kc),
            None => g0.keycard_color,
        }),
        g2.zones@.len() == g0.zones@.len(),
        forall|i: int|
            0 <= i < g0.zones@.len() ==> #[trigger] g2.zones@[i] == (Zone {
                is_keycard: g1.zones@[i].is_keycard || keycard == Some(g1.zones@[i].id),
                ..g1.zones@[i]
            }),
        (match keycard {
            Some(kc) => way_for(g2.connections@, kc, objective, qv),
            None => qv.is_none(),
        }),
        g3.connections@.len() == g2.connections@.len(),
        forall|i: int|
            0 <= i < g2.connections@.len() ==> (#[trigger] g3.connections@[i] == door_step(
                g2.connections@,
                d,
                p,
                qv,
                objective,
                keycard,
                g0.spawn_zone,
                i,
                true,
            ) || g3.connections@[i] == door_step(
                g2.connections@,
                d,
                p,
                qv,
                objective,
                keycard,
                g0.spawn_zone,
                i,
                false,
            )),
        g.connections@ == g3.connections@,
        g.config == g0.config,
        g.spawn_zone == g0.spawn_zone,
        g.objective_zone == g2.objective_zone,
        g.objective_zones == g2.objective_zones,
        g.keycard_zone == g2.keycard_zone,
        g.keycard_color == g2.keycard_color,
        g.zones@.len() == g0.zones@.len(),
        forall|k: int|
            0 <= k < g2.zones@.len() ==> zone_stepped(g2.zones@[k], #[trigger] g.zones@[k], d, objective, keycard),
        g.terminal_network.items@.map_values(|it: IndexedItem| item_view(it)) == terminal_items(g),
        g.horde_spawn_zones@ == horde_spec(p, objective),
        g.scan_node_zones@ == scan_spec(p, objective, g0.spawn_zone),
    ensures
        design_result(g0, g, d, p, qv),
{
    assert(same_ends(g0.connections@, g2.connections@));
    lemma_same_ends_adjacent(g0.connections@, g2.connections@);
    assert forall|i: int| 0 <= i < g0.zones@.len() implies zone_plan(
        #[trigger] g0.zones@[i],
        g.zones@[i],
        d,
        objective,
        keycard,
    ) by {
        assert(g2.zones@[i] == Zone {
            is_objective: g0.zones@[i].is_objective || g0.zones@[i].id == objective,
            is_keycard: g0.zones@[i].is_keycard || keycard == Some(g0.zones@[i].id),
            ..g0.zones@[i]
        });
        assert(g.zones@[i] == Zone {
            hazard_level: hazard_for(depth_or_zero(d, g0.zones@[i].id.0)),
            resources: g.zones@[i].resources,
            ..g2.zones@[i]
        });
    }
}

/// The zone with id `z` gets the given flag set (by position, ids being unique).
proof fn lemma_flag_by_id(zones: Seq<Zone>, z: ZoneId, i: int)
    requires
        unique_ids(zones),
        0 <= i < zones.len(),
        zones[i].id == z,
    ensures
        forall|k: int| 0 <= k < zones.len() ==> ((#[trigger] zones[k]).id == z <==> k == i),
{
}

/// The post-generation pass that lays an expedition onto the zone graph: a deep
/// dead-end objective, a keycard in a separate branch that locks a door on the
/// critical path, doors escalating along the critical path, hazards growing
/// with depth, resources concentrated in dead ends, the terminal network index,
/// scan nodes and routed horde spawns. With fewer than four zones or no dead
/// end it leaves the level as it is and draws nothing from `rng`.
#[verifier::rlimit(60)]
pub fn apply_expedition_design(graph: &mut LevelGraph, rng: &mut StdRng)
    requires
        old(graph).wf(),
    ensures
        final(graph).wf(),
        !design_applies(*old(graph)) ==> *final(graph) == *old(graph) && *final(rng) == *old(rng),
        design_applies(*old(graph)) ==> exists|
            d: Seq<(ZoneId, u32)>,
            p: Seq<ZoneId>,
            q: Option<Seq<ZoneId>>,
        | design_result(*old(graph), *final(graph), d, p, q),
{
    if graph.zones.len() < 4 {
        return ;
    }
    let ghost g0 = *graph;
    let depths = zone_depths(&graph.connections, graph.spawn_zone);
    let leaves = leaf_zones(graph);
    if leaves.len() == 0 {
        return ;
    }
    let objective = pick_deepest(&leaves, &depths);
    proof {
        lemma_deepest_in(leaves@, depths@);
        lemma_leaves_upto(g0.zones@, g0.spawn_zone, g0.zones@.len());
    }
    graph.objective_zone = Some(objective);
    if let Some(i) = graph.zone_position(objective) {
        let k = graph.zones[i].is_keycard;
        let h = graph.zones[i].hazard_level;
        let r = graph.zones[i].resources;
        rewrite_zone(&mut graph.zones, i, true, k, h, r);
        if !crate::level::contains_zone(&graph.objective_zones, objective) {
            graph.objective_zones.push(objective);
        }
        proof {
            lemma_flag_by_id(g0.zones@, objective, i as int);
        }
    }
    let ghost g1 = *graph;
    assert forall|i: int|
        0 <= i < g0.zones@.len() implies #[trigger] g1.zones@[i] == Zone {
            is_objective: g0.zones@[i].is_objective || g0.zones@[i].id == objective,
            ..g0.zones@[i]
        } by {
        if g0.zones@[i].id == objective {
            assert(has_zone(g0.zones@, objective.0));
        }
    }
    let critical_path = match bfs_path(&graph.connections, graph.spawn_zone, objective) {
        Some(p) => p,
        None => Vec::new(),
    };
    mark_critical(&mut graph.connections, &critical_path);
    let off = leaves_off_path(&leaves, &critical_path);
    let keycard = if off.len() > 0 {
        Some(pick_deepest(&off, &depths))
    } else {
        None
    };
    proof {
        lemma_off_path_upto(leaves@, critical_path@, leaves@.len() as nat);
        if off@.len() > 0 {
            lemma_deepest_in(off@, depths@);
        }
    }
    let ghost g1b = *graph;
    if let Some(kc) = keycard {
        graph.keycard_zone = Some(kc);
        graph.keycard_color = if kc.0 % 2 == 0 {
            KeycardColor::Blue
        } else {
            KeycardColor::Red
        };
        if let Some(i) = graph.zone_position(kc) {
            let o = graph.zones[i].is_objective;
            let h = graph.zones[i].hazard_level;
            let r = graph.zones[i].resources;
            rewrite_zone(&mut graph.zones, i, o, true, h, r);
            proof {
                assert(g1b.zones@[i as int].id == g0.zones@[i as int].id);
                lemma_flag_by_id(g0.zones@, kc, i as int);
            }
        }
    }
    let ghost g2 = *graph;
    proof {
        assert(g2.connections@ =~= marked(g0.connections@, critical_path@));
        assert forall|i: int|
            0 <= i < g0.zones@.len() implies #[trigger] g2.zones@[i] == Zone {
                is_keycard: g1.zones@[i].is_keycard || keycard == Some(g1.zones@[i].id),
                ..g1.zones@[i]
            } by {
            if keycard.is_some() && keycard == Some(g1.zones@[i].id) {
                assert(g1.zones@[i].id == g0.zones@[i].id);
                assert(has_zone(g0.zones@, g0.zones@[i].id.0));
            }
        }
    }
    let q = design_doors(&mut graph.connections, &depths, &critical_path, keycard, objective, graph.spawn_zone, rng);
    let ghost g3 = *graph;
    design_zones(&mut graph.zones, &depths, objective, keycard, rng);
    let network = build_terminal_network(graph);
    graph.terminal_network = network;
    graph.horde_spawn_zones = horde_spawn_zones(&critical_path, objective);
    graph.scan_node_zones = scan_node_zones(&critical_path, objective, graph.spawn_zone);
    proof {
        lemma_design_result(g0, g1, g2, g3, *graph, depths@, critical_path@, opt_view(q), objective, keycard);
    }
}

/// The doors with `zone` at one end, in order.
pub open spec fn doors_of(s: Seq<ZoneConnection>, zone: ZoneId) -> Seq<ZoneConnection>
    decreases s.len(),
{
    if s.len() == 0 {
        s
    } else {
        let prev = doors_of(s.drop_last(), zone);
        if s.last().from_zone == zone || s.last().to_zone == zone {
            prev.push(s.last())
        } else {
            prev
        }
    }
}

impl LevelGraph {
    /// The critical path from the spawn to `objective`: a shortest walk through
    /// the doors, empty when the objective cannot be reached.
    pub fn critical_path(&self, objective: ZoneId) -> (p: Vec<ZoneId>)
        ensures
            critical_path_for(self.connections@, self.spawn_zone, objective, p@),
    {
        match bfs_path(&self.connections, self.spawn_zone, objective) {
            Some(p) => p,
            None => Vec::new(),
        }
    }

    /// Every zone reachable from the spawn with its distance in doors.
    pub fn depth_map(&self) -> (d: Vec<(ZoneId, u32)>)
        ensures
            is_depth_map(self.connections@, self.spawn_zone.0, d@),
    {
        zone_depths(&self.connections, self.spawn_zone)
    }

    /// The doors of `zone`, in door order.
    pub fn connections_of(&self, zone: ZoneId) -> (r: Vec<ZoneConnection>)
        ensures
            r@ == doors_of(self.connections@, zone),
    {
        let mut r: Vec<ZoneConnection> = Vec::new();
        let mut i: usize = 0;
        while i < self.connections.len()
            invariant
                i <= self.connections@.len(),
                r@ == doors_of(self.connections@.subrange(0, i as int), zone),
            decreases self.connections@.len() - i,
        {
            let c = self.connections[i];
            proof {
                let t = self.connections@.subrange(0, i + 1);
                assert(t.drop_last() =~= self.connections@.subrange(0, i as int));
                assert(t.last() == c);
            }
            if c.from_zone.0 == zone.0 || c.to_zone.0 == zone.0 {
                r.push(c);
            }
            i = i + 1;
        }
        proof {
            assert(self.connections@.subrange(0, self.connections@.len() as int) =~= self.connections@);
        }
        r
    }
}

} // verus!

verus! {

// ---------------------------------------------------------------------------
// What the design pass guarantees
// ---------------------------------------------------------------------------

/// A layout as generation leaves it, before the design pass: every door a plain
/// normal door off any critical path, and no zone flagged.
pub open spec fn fresh_layout(g: LevelGraph) -> bool {
    &&& forall|i: int|
        0 <= i < g.connections@.len() ==> (#[trigger] g.connections@[i]).door_type == DoorType::Normal
            && g.connections@[i].required_keycard.is_none()
    &&& forall|i: int|
        0 <= i < g.zones@.len() ==> !(#[trigger] g.zones@[i]).is_objective && !g.zones@[i].is_keycard
    &&& g.keycard_zone.is_none()
}

/// The objective the design picks is a dead end of the level, and the zone
/// carrying its id is flagged as the objective.
pub proof fn law_objective_is_flagged_dead_end(
    g0: LevelGraph,
    g: LevelGraph,
    d: Seq<(ZoneId, u32)>,
    p: Seq<ZoneId>,
    q: Option<Seq<ZoneId>>,
)
    requires
        design_applies(g0),
        design_result(g0, g, d, p, q),
    ensures
        exists|i: int|
            0 <= i < g.zones@.len() && g.objective_zone == Some((#[trigger] g.zones@[i]).id)
                && g.zones@[i].is_objective && g.zones@[i].spec_is_leaf(g.spawn_zone),
{
    let lv = leaves(g0.zones@, g0.spawn_zone);
    let o = deepest(lv, d);
    lemma_deepest_in(lv, d);
    lemma_leaves_upto(g0.zones@, g0.spawn_zone, g0.zones@.len());
    let i = choose|i: int|
        0 <= i < g0.zones@.len() && g0.zones@[i].id == o && #[trigger] g0.zones@[i].spec_is_leaf(
            g0.spawn_zone,
        );
    assert(zone_plan(g0.zones@[i], g.zones@[i], d, o, keycard_choice(lv, p, d)));
    assert(g.zones@[i].id == o);
}

/// When the design places a keycard (in a layout that had none), it lies in a
/// dead end off the critical path, and the zone carrying its id is flagged.
pub proof fn law_keycard_in_side_branch(
    g0: LevelGraph,
    g: LevelGraph,
    d: Seq<(ZoneId, u32)>,
    p: Seq<ZoneId>,
    q: Option<Seq<ZoneId>>,
    kc: ZoneId,
)
    requires
        g0.keycard_zone.is_none(),
        design_result(g0, g, d, p, q),
        g.keycard_zone == Some(kc),
    ensures
        !p.contains(kc),
        exists|i: int|
            0 <= i < g.zones@.len() && (#[trigger] g.zones@[i]).id == kc && g.zones@[i].is_keycard
                && g.zones@[i].spec_is_leaf(g.spawn_zone),
{
    let lv = leaves(g0.zones@, g0.spawn_zone);
    let off = off_path(lv, p);
    assert(keycard_choice(lv, p, d) == Some(kc));
    assert(off.len() > 0);
    lemma_deepest_in(off, d);
    lemma_off_path_upto(lv, p, lv.len());
    assert(off.contains(kc));
    assert(off_path_upto(lv, p, lv.len()).contains(kc));
    assert(exists|i: int| 0 <= i < lv.len() && lv[i] == kc);
    let k = choose|k: int| 0 <= k < lv.len() && lv[k] == kc;
    assert(lv[k] == kc);
    assert(lv.contains(kc));
    lemma_leaves_upto(g0.zones@, g0.spawn_zone, g0.zones@.len());
    let i = choose|i: int|
        0 <= i < g0.zones@.len() && g0.zones@[i].id == kc && #[trigger] g0.zones@[i].spec_is_leaf(
            g0.spawn_zone,
        );
    assert(zone_plan(g0.zones@[i], g.zones@[i], d, deepest(lv, d), Some(kc)));
    assert(g.zones@[i].id == kc);
}

/// In a fresh layout, every door the design turns into a keycard door asks for
/// the keycard that the design placed.
pub proof fn law_keyed_doors_need_the_placed_keycard(
    g0: LevelGraph,
    g: LevelGraph,
    d: Seq<(ZoneId, u32)>,
    p: Seq<ZoneId>,
    q: Option<Seq<ZoneId>>,
)
    requires
        fresh_layout(g0),
        design_result(g0, g, d, p, q),
    ensures
        forall|i: int|
            0 <= i < g.connections@.len() && (#[trigger] g.connections@[i]).door_type == DoorType::Keycard
                ==> g.keycard_zone.is_some() && g.connections@[i].required_keycard == g.keycard_zone,
{
    let lv = leaves(g0.zones@, g0.spawn_zone);
    let objective = deepest(lv, d);
    let keycard = keycard_choice(lv, p, d);
    assert forall|i: int|
        0 <= i < g.connections@.len() && (#[trigger] g.connections@[i]).door_type == DoorType::Keycard implies g.keycard_zone.is_some()
            && g.connections@[i].required_keycard == g.keycard_zone by {
        let c = marked(g0.connections@, p);
        assert(c[i].door_type == DoorType::Normal);
        assert(c[i].required_keycard.is_none());
        assert(g0.connections@[i].door_type == DoorType::Normal);
    }
}

/// The design keeps the layout: the same zones, with the same ids, kinds and
/// doors, and doors that keep their ends.
pub proof fn law_design_keeps_layout(
    g0: LevelGraph,
    g: LevelGraph,
    d: Seq<(ZoneId, u32)>,
    p: Seq<ZoneId>,
    q: Option<Seq<ZoneId>>,
)
    requires
        design_result(g0, g, d, p, q),
    ensures
        g.spawn_zone == g0.spawn_zone,
        g.zones@.len() == g0.zones@.len(),
        forall|i: int|
            0 <= i < g.zones@.len() ==> (#[trigger] g.zones@[i]).id == g0.zones@[i].id && g.zones@[i].zone_type
                == g0.zones@[i].zone_type && g.zones@[i].connections@ == g0.zones@[i].connections@,
        same_ends(g.connections@, g0.connections@),
{
    let lv = leaves(g0.zones@, g0.spawn_zone);
    let objective = deepest(lv, d);
    let keycard = keycard_choice(lv, p, d);
    assert forall|i: int| 0 <= i < g.zones@.len() implies (#[trigger] g.zones@[i]).id == g0.zones@[i].id
        && g.zones@[i].zone_type == g0.zones@[i].zone_type && g.zones@[i].connections@
        == g0.zones@[i].connections@ by {
        assert(zone_plan(g0.zones@[i], g.zones@[i], d, objective, keycard));
    }
}

/// Every dead end other than the objective and the keycard zone holds at least
/// one ammunition pack, and the objective holds a cache.
pub proof fn law_dead_ends_hold_ammunition(
    g0: LevelGraph,
    g: LevelGraph,
    d: Seq<(ZoneId, u32)>,
    p: Seq<ZoneId>,
    q: Option<Seq<ZoneId>>,
)
    requires
        design_result(g0, g, d, p, q),
    ensures
        forall|i: int|
            0 <= i < g.zones@.len() && (#[trigger] g.zones@[i]).spec_is_leaf(g.spawn_zone)
                && !g.zones@[i].is_objective && !g.zones@[i].is_keycard ==> g.zones@[i].resources.ammo_packs
                >= 1,
        forall|i: int|
            0 <= i < g.zones@.len() && g.objective_zone == Some((#[trigger] g.zones@[i]).id) ==> g.zones@[i].resources
                == (ZoneResources { ammo_packs: 1, tool_packs: 1, med_packs: 1 }),
{
    let lv = leaves(g0.zones@, g0.spawn_zone);
    let objective = deepest(lv, d);
    let keycard = keycard_choice(lv, p, d);
    assert forall|i: int|
        0 <= i < g.zones@.len() && (#[trigger] g.zones@[i]).spec_is_leaf(g.spawn_zone)
            && !g.zones@[i].is_objective && !g.zones@[i].is_keycard implies g.zones@[i].resources.ammo_packs
        >= 1 by {
        let z0 = g0.zones@[i];
        assert(zone_plan(z0, g.zones@[i], d, objective, keycard));
        let h = hazard_for(depth_or_zero(d, z0.id.0));
        let zh = Zone { hazard_level: h, ..z0 };
        assert(resources_ok(zh, objective, keycard, g.zones@[i].resources));
        assert(zh.id != objective);
        assert(keycard != Some(zh.id));
        assert(zh.spec_is_leaf(objective));
        let roll = choose|roll: u8|
            (zh.spec_is_leaf(objective) ==> 1 <= roll <= 2) && g.zones@[i].resources
                == #[trigger] ordinary_resources(zh, objective, roll);
        assert(g.zones@[i].resources == ordinary_resources(zh, objective, roll));
    }
    assert forall|i: int|
        0 <= i < g.zones@.len() && g.objective_zone == Some((#[trigger] g.zones@[i]).id) implies g.zones@[i].resources
        == (ZoneResources { ammo_packs: 1, tool_packs: 1, med_packs: 1 }) by {
        let z0 = g0.zones@[i];
        assert(zone_plan(z0, g.zones@[i], d, objective, keycard));
    }
}

/// The resource budgets of the design pass. The objective holds one pack of
/// each kind; the keycard zone one medical pack, no tool pack and at most one
/// ammunition pack. Any other zone holds no medical pack, a tool pack exactly
/// when it is a storage room, and as ammunition: one or two packs when it is
/// a dead end (counted from the objective), one more when its hazard level is
/// three or above, and two more in a storage room.
pub proof fn law_resource_budgets(zone: Zone, objective: ZoneId, keycard: Option<ZoneId>, r: ZoneResources)
    requires
        resources_ok(zone, objective, keycard, r),
    ensures
        zone.id == objective ==> r == (ZoneResources { ammo_packs: 1, tool_packs: 1, med_packs: 1 }),
        zone.id != objective && keycard == Some(zone.id) ==> r.med_packs == 1 && r.tool_packs == 0
            && r.ammo_packs <= 1,
        zone.id != objective && keycard != Some(zone.id) ==> {
            let extra: int = (if zone.hazard_level >= 3 { 1int } else { 0int }) + (if zone.zone_type
                == ZoneType::Storage { 2int } else { 0int });
            &&& r.med_packs == 0
            &&& r.tool_packs == (if zone.zone_type == ZoneType::Storage { 1u8 } else { 0u8 })
            &&& zone.spec_is_leaf(objective) ==> extra + 1 <= r.ammo_packs <= extra + 2
            &&& !zone.spec_is_leaf(objective) ==> r.ammo_packs == extra
        },
{
    if zone.id != objective && keycard != Some(zone.id) {
        let roll = choose|roll: u8|
            (zone.spec_is_leaf(objective) ==> 1 <= roll <= 2) && r == #[trigger] ordinary_resources(
                zone,
                objective,
                roll,
            );
        assert(r == ordinary_resources(zone, objective, roll));
    }
}

/// After the design pass every storage room other than the objective and the
/// keycard zone holds exactly one tool pack and at least two ammunition packs;
/// no other zone but the objective holds a tool pack.
pub proof fn law_storage_rooms_hold_tools(
    g0: LevelGraph,
    g: LevelGraph,
    d: Seq<(ZoneId, u32)>,
    p: Seq<ZoneId>,
    q: Option<Seq<ZoneId>>,
)
    requires
        design_result(g0, g, d, p, q),
    ensures
        forall|i: int|
            0 <= i < g.zones@.len() && (#[trigger] g.zones@[i]).zone_type == ZoneType::Storage
                && g.objective_zone != Some(g.zones@[i].id) && g.keycard_zone != Some(g.zones@[i].id)
                ==> g.zones@[i].resources.tool_packs == 1 && g.zones@[i].resources.ammo_packs >= 2,
        forall|i: int|
            0 <= i < g.zones@.len() && (#[trigger] g.zones@[i]).zone_type != ZoneType::Storage
                && g.objective_zone != Some(g.zones@[i].id) ==> g.zones@[i].resources.tool_packs == 0,
{
    let lv = leaves(g0.zones@, g0.spawn_zone);
    let objective = deepest(lv, d);
    let keycard = keycard_choice(lv, p, d);
    assert forall|i: int| 0 <= i < g.zones@.len() implies {
        let z = #[trigger] g.zones@[i];
        &&& (z.zone_type == ZoneType::Storage && g.objective_zone != Some(z.id) && g.keycard_zone != Some(z.id)
            ==> z.resources.tool_packs == 1 && z.resources.ammo_packs >= 2)
        &&& (z.zone_type != ZoneType::Storage && g.objective_zone != Some(z.id) ==> z.resources.tool_packs
            == 0)
    } by {
        let z0 = g0.zones@[i];
        assert(zone_plan(z0, g.zones@[i], d, objective, keycard));
        let h = hazard_for(depth_or_zero(d, z0.id.0));
        let zh = Zone { hazard_level: h, ..z0 };
        law_resource_budgets(zh, objective, keycard, g.zones@[i].resources);
        if keycard.is_none() {
            assert(g.keycard_zone == g0.keycard_zone);
        }
    }
}

/// The terminal network lists the keycard first (when one is placed) and the
/// objective right after it; no objective entry comes earlier.
pub proof fn law_terminal_network_indexes_keycard_and_objective(
    g0: LevelGraph,
    g: LevelGraph,
    d: Seq<(ZoneId, u32)>,
    p: Seq<ZoneId>,
    q: Option<Seq<ZoneId>>,
)
    requires
        design_result(g0, g, d, p, q),
    ensures
        ({
            let items = terminal_items(g);
            let j: int = if g.keycard_zone.is_some() {
                1
            } else {
                0
            };
            &&& j < items.len()
            &&& items[j].1 == IndexedItemKind::Objective
            &&& g.objective_zone == Some(items[j].2)
            &&& forall|k: int| 0 <= k < j ==> items[k].1 != IndexedItemKind::Objective
            &&& forall|kc: ZoneId|
                g.keycard_zone == Some(kc) ==> items[0].1 == IndexedItemKind::Keycard && items[0].2 == kc
        }),
{
}

/// In a fresh layout where the objective can be reached, the door by which
/// the critical path enters the objective is a bulkhead, or the keycard door
/// when the keycard locks that very door.
pub proof fn law_objective_entry_is_guarded(
    g0: LevelGraph,
    g: LevelGraph,
    d: Seq<(ZoneId, u32)>,
    p: Seq<ZoneId>,
    q: Option<Seq<ZoneId>>,
)
    requires
        fresh_layout(g0),
        design_applies(g0),
        design_result(g0, g, d, p, q),
        p.len() > 0,
    ensures
        exists|i: int|
            0 <= i < g.connections@.len() && ((#[trigger] g.connections@[i]).from_zone
                == g.objective_zone.unwrap() || g.connections@[i].to_zone == g.objective_zone.unwrap())
                && (g.connections@[i].door_type == DoorType::Bulkhead || (g.connections@[i].door_type
                == DoorType::Keycard && g.connections@[i].required_keycard == g.keycard_zone
                && g.keycard_zone.is_some())),
{
    let conns0 = g0.connections@;
    let spawn = g0.spawn_zone;
    let lv = leaves(g0.zones@, spawn);
    let objective = deepest(lv, d);
    let c = marked(conns0, p);
    assert(same_ends(c, conns0));
    lemma_same_ends_adjacent(c, conns0);
    lemma_deepest_in(lv, d);
    lemma_leaves_upto(g0.zones@, spawn, g0.zones@.len());
    let ko = choose|i: int|
        0 <= i < g0.zones@.len() && g0.zones@[i].id == objective && #[trigger] g0.zones@[i].spec_is_leaf(spawn);
    assert(reachable(conns0, spawn.0, objective.0));
    let rp = raw_ids(p);
    assert(walk_between(conns0, rp, spawn.0, objective.0));
    assert(rp[0] == p[0].0);
    assert(rp[rp.len() - 1] == p[p.len() - 1].0);
    assert(p[0] == spawn);
    assert(p[p.len() - 1] == objective);
    assert(objective != spawn);
    lemma_first_index_upto(p, objective, p.len());
    let idx = first_index(p, objective).unwrap();
    assert(p[idx] == objective);
    assert(idx >= 1);
    assert(crate::search::adjacent(conns0, rp[idx - 1], rp[idx]));
    assert(rp[idx - 1] == p[idx - 1].0 && rp[idx] == p[idx].0);
    lemma_first_link_exists(c, p[idx - 1].0, objective.0);
    lemma_first_link_upto(c, p[idx - 1].0, objective.0, c.len());
    let i = entry_door(c, p, objective).unwrap();
    assert(c[i].door_type == DoorType::Normal);
    assert(c[i].required_keycard.is_none());
    assert(g0.connections@[i].door_type == DoorType::Normal);
    assert(conn_links(c[i], p[idx - 1].0, objective.0));
    assert(g.connections@[i].from_zone == objective || g.connections@[i].to_zone == objective);
}

} // verus!

verus! {

/// A zone at position `k` of a shortest walk lies `k` doors from its start.
proof fn lemma_prefix_distance(conns: Seq<ZoneConnection>, p: Seq<u32>, a: u32, b: u32, k: int)
    requires
        walk_between(conns, p, a, b),
        forall|w: Seq<u32>| walk_between(conns, w, a, b) ==> p.len() <= w.len(),
        0 <= k < p.len(),
    ensures
        distance_is(conns, a, p[k], k as nat),
{
    let w0 = p.subrange(0, k + 1);
    assert forall|i: int| 0 <= i < w0.len() - 1 implies crate::search::adjacent(conns, #[trigger] w0[i], w0[i + 1]) by {
        assert(w0[i] == p[i] && w0[i + 1] == p[i + 1]);
        assert(crate::search::adjacent(conns, p[i], p[i + 1]));
    }
    assert(walk_between(conns, w0, a, p[k]));
    assert forall|w: Seq<u32>| walk_between(conns, w, a, p[k]) implies k + 1 <= w.len() by {
        if w.len() < k + 1 {
            let v = w + p.subrange(k + 1, p.len() as int);
            assert forall|i: int| 0 <= i < v.len() - 1 implies crate::search::adjacent(conns, #[trigger] v[i], v[i + 1]) by {
                if i < w.len() - 1 {
                    assert(v[i] == w[i] && v[i + 1] == w[i + 1]);
                    assert(crate::search::adjacent(conns, w[i], w[i + 1]));
                } else if i == w.len() - 1 {
                    assert(v[i] == p[k] && v[i + 1] == p[k + 1]);
                    assert(crate::search::adjacent(conns, p[k], p[k + 1]));
                } else {
                    let j = i - w.len() + k + 1;
                    assert(v[i] == p[j] && v[i + 1] == p[j + 1]);
                    assert(crate::search::adjacent(conns, p[j], p[j + 1]));
                }
            }
            assert(v[0] == a);
            if k + 1 < p.len() {
                assert(v[v.len() - 1] == p[p.len() - 1]);
            } else {
                assert(v[v.len() - 1] == w[w.len() - 1]);
            }
            assert(walk_between(conns, v, a, b));
        }
    }
}

/// Two distances between the same zones agree.
proof fn lemma_distance_unique(conns: Seq<ZoneConnection>, a: u32, b: u32, n: nat, m: nat)
    requires
        distance_is(conns, a, b, n),
        distance_is(conns, a, b, m),
    ensures
        n == m,
{
    let p1 = choose|p: Seq<u32>| walk_between(conns, p, a, b) && p.len() == n + 1;
    let p2 = choose|p: Seq<u32>| walk_between(conns, p, a, b) && p.len() == m + 1;
    assert(n + 1 <= p2.len());
    assert(m + 1 <= p1.len());
}

/// A depth map lists each zone at its distance from the spawn.
proof fn lemma_depth_at(conns: Seq<ZoneConnection>, s: u32, d: Seq<(ZoneId, u32)>, z: u32, n: nat)
    requires
        is_depth_map(conns, s, d),
        distance_is(conns, s, z, n),
    ensures
        depth_or_zero(d, z) == n,
{
    let w = choose|p: Seq<u32>| walk_between(conns, p, s, z) && p.len() == n + 1;
    assert(reachable(conns, s, z));
    assert(depth_listed(d, z));
    let i = choose|i: int| 0 <= i < d.len() && d[i].0.0 == z;
    assert(distance_is(conns, s, d[i].0.0, d[i].1 as nat));
    lemma_distance_unique(conns, s, z, n, d[i].1 as nat);
}

/// Removing repeats keeps only zones of the sequence.
proof fn lemma_dedup_subset(s: Seq<ZoneId>)
    ensures
        forall|x: ZoneId| #[trigger] dedup(s).contains(x) ==> s.contains(x),
    decreases s.len(),
{
    if s.len() > 0 {
        lemma_dedup_subset(s.drop_last());
        let r = dedup(s.drop_last());
        assert forall|x: ZoneId| #[trigger] dedup(s).contains(x) implies s.contains(x) by {
            if r.contains(x) {
                assert(s.drop_last().contains(x));
                let k = choose|k: int| 0 <= k < s.drop_last().len() && s.drop_last()[k] == x;
                assert(s[k] == x);
            } else {
                let t = dedup(s);
                let k = choose|k: int| 0 <= k < t.len() && t[k] == x;
                if !(r.len() > 0 && r.last() == s.last()) {
                    if k < r.len() {
                        assert(r[k] == x);
                    } else {
                        assert(s[s.len() - 1] == x);
                    }
                }
            }
        }
    }
}

/// Alarm hordes spawn upstream of the objective: every horde zone lies fewer
/// doors from the spawn than the objective does.
pub proof fn law_hordes_spawn_upstream(
    g0: LevelGraph,
    g: LevelGraph,
    d: Seq<(ZoneId, u32)>,
    p: Seq<ZoneId>,
    q: Option<Seq<ZoneId>>,
)
    requires
        design_result(g0, g, d, p, q),
    ensures
        forall|k: int|
            0 <= k < g.horde_spawn_zones@.len() ==> depth_or_zero(d, (#[trigger] g.horde_spawn_zones@[k]).0)
                < depth_or_zero(d, g.objective_zone.unwrap().0),
{
    let conns0 = g0.connections@;
    let spawn = g0.spawn_zone;
    let objective = deepest(leaves(g0.zones@, spawn), d);
    if p.len() > 0 {
        assert(reachable(conns0, spawn.0, objective.0));
        let rp = raw_ids(p);
        assert(walk_between(conns0, rp, spawn.0, objective.0));
        assert(rp[rp.len() - 1] == p[p.len() - 1].0);
        assert(p[p.len() - 1] == objective);
        lemma_last_index_upto(p, objective, p.len());
        let oi = last_index(p, objective).unwrap();
        assert forall|k: int| 0 <= k < p.len() implies depth_or_zero(d, #[trigger] p[k].0) == k by {
            lemma_prefix_distance(conns0, rp, spawn.0, objective.0, k);
            assert(rp[k] == p[k].0);
            lemma_depth_at(conns0, spawn.0, d, p[k].0, k as nat);
        }
        assert(depth_or_zero(d, p[oi].0) == oi);
        let a = if oi >= 3 {
            seq![p[oi - 3]]
        } else {
            seq![]
        };
        let b = if oi >= 2 {
            a.push(p[oi - 2])
        } else {
            a
        };
        assert(g.horde_spawn_zones@ == dedup(b));
        lemma_dedup_subset(b);
        assert forall|k: int| 0 <= k < g.horde_spawn_zones@.len() implies depth_or_zero(
            d,
            (#[trigger] g.horde_spawn_zones@[k]).0,
        ) < depth_or_zero(d, g.objective_zone.unwrap().0) by {
            let z = g.horde_spawn_zones@[k];
            assert(dedup(b).contains(z));
            assert(b.contains(z));
            let j = choose|j: int| 0 <= j < b.len() && b[j] == z;
            if oi >= 3 && j == 0 {
                assert(z == p[oi - 3]);
                assert(depth_or_zero(d, p[oi - 3].0) == oi - 3);
            } else {
                assert(z == p[oi - 2]);
                assert(depth_or_zero(d, p[oi - 2].0) == oi - 2);
            }
        }
    }
}

} // verus!

verus! {

/// A door is recorded at a zone it ends in: the zone lists the other end
/// among its neighbours.
pub open spec fn door_recorded(c: ZoneConnection, z: Zone) -> bool {
    &&& z.id == c.from_zone ==> z.connections@.contains(c.to_zone)
    &&& z.id == c.to_zone ==> z.connections@.contains(c.from_zone)
}

/// Every door is recorded at the zones it ends in.
pub open spec fn links_consistent(g: LevelGraph) -> bool {
    forall|i: int, k: int|
        0 <= i < g.connections@.len() && 0 <= k < g.zones@.len() ==> door_recorded(
            #[trigger] g.connections@[i],
            #[trigger] g.zones@[k],
        )
}

/// A shortest walk reaches its end only at its last step.
proof fn lemma_shortest_walk_ends_once(conns: Seq<ZoneConnection>, p: Seq<u32>, a: u32, b: u32, j: int)
    requires
        walk_between(conns, p, a, b),
        forall|w: Seq<u32>| walk_between(conns, w, a, b) ==> p.len() <= w.len(),
        0 <= j < p.len() - 1,
    ensures
        p[j] != b,
{
    if p[j] == b {
        let w = p.subrange(0, j + 1);
        assert forall|i: int| 0 <= i < w.len() - 1 implies crate::search::adjacent(conns, #[trigger] w[i], w[i + 1]) by {
            assert(w[i] == p[i] && w[i + 1] == p[i + 1]);
            assert(crate::search::adjacent(conns, p[i], p[i + 1]));
        }
        assert(walk_between(conns, w, a, b));
    }
}

/// A dead end whose doors are all recorded has a single neighbour.
proof fn lemma_dead_end_neighbour(g: LevelGraph, k: int, u: u32, v: u32)
    requires
        links_consistent(g),
        0 <= k < g.zones@.len(),
        g.zones@[k].connections@.len() <= 1,
        crate::search::adjacent(g.connections@, g.zones@[k].id.0, u),
        crate::search::adjacent(g.connections@, g.zones@[k].id.0, v),
    ensures
        u == v,
{
    let z = g.zones@[k];
    let x = z.id.0;
    let i = choose|i: int| 0 <= i < g.connections@.len() && #[trigger] conn_links(g.connections@[i], x, u);
    let j = choose|j: int| 0 <= j < g.connections@.len() && #[trigger] conn_links(g.connections@[j], x, v);
    assert(door_recorded(g.connections@[i], z));
    assert(door_recorded(g.connections@[j], z));
    assert(z.connections@.contains(ZoneId(u)));
    assert(z.connections@.contains(ZoneId(v)));
    let a = choose|a: int| 0 <= a < z.connections@.len() && z.connections@[a] == ZoneId(u);
    let b = choose|b: int| 0 <= b < z.connections@.len() && z.connections@[b] == ZoneId(v);
    assert(a == 0 && b == 0);
}

/// Where `first_on_path_upto` finds a zone, it is one of the first `n` zones
/// of `q`, on `p`.
proof fn lemma_first_on_path_is_on_both(q: Seq<ZoneId>, p: Seq<ZoneId>, n: nat)
    requires
        n <= q.len(),
        first_on_path_upto(q, p, n).is_some(),
    ensures
        p.contains(first_on_path_upto(q, p, n).unwrap()),
        exists|k: int| 0 <= k < n && q[k] == first_on_path_upto(q, p, n).unwrap(),
    decreases n,
{
    if first_on_path_upto(q, p, (n - 1) as nat).is_some() {
        lemma_first_on_path_is_on_both(q, p, (n - 1) as nat);
    } else {
        assert(q[n - 1] == first_on_path_upto(q, p, n).unwrap());
    }
}

/// When the `j`-th zone of `q` lies on `p`, `first_on_path_upto` finds a zone
/// no later than it.
proof fn lemma_first_on_path_found(q: Seq<ZoneId>, p: Seq<ZoneId>, n: nat, j: int)
    requires
        n <= q.len(),
        0 <= j < n,
        p.contains(q[j]),
    ensures
        first_on_path_upto(q, p, n).is_some(),
        p.contains(first_on_path_upto(q, p, n).unwrap()),
        exists|k: int| 0 <= k <= j && q[k] == first_on_path_upto(q, p, n).unwrap(),
    decreases n,
{
    if j < n - 1 {
        lemma_first_on_path_found(q, p, (n - 1) as nat, j);
    } else if first_on_path_upto(q, p, (n - 1) as nat).is_some() {
        lemma_first_on_path_is_on_both(q, p, (n - 1) as nat);
    }
}

/// Two zones joined by a door are joined by a first door.
proof fn lemma_first_link_exists(conns: Seq<ZoneConnection>, a: u32, b: u32)
    requires
        crate::search::adjacent(conns, a, b),
    ensures
        first_link(conns, a, b).is_some(),
{
    lemma_first_link_upto(conns, a, b, conns.len());
    if first_link(conns, a, b).is_none() {
        let i = choose|i: int| 0 <= i < conns.len() && #[trigger] conn_links(conns[i], a, b);
        assert(!conn_links(conns[i], a, b));
    }
}

} // verus!

verus! {

/// When the objective can be reached from the spawn and a keycard is placed
/// (in a level whose doors are recorded at their zones and that had no
/// keycard), some door asks for that keycard: the keycard locks the critical
/// path where the way back from the keycard meets it, so reaching the
/// objective means fetching the keycard first.
pub proof fn law_keycard_locks_a_door(
    g0: LevelGraph,
    g: LevelGraph,
    d: Seq<(ZoneId, u32)>,
    p: Seq<ZoneId>,
    q: Option<Seq<ZoneId>>,
    kc: ZoneId,
)
    requires
        links_consistent(g0),
        g0.keycard_zone.is_none(),
        design_result(g0, g, d, p, q),
        g.keycard_zone == Some(kc),
        p.len() > 0,
    ensures
        exists|i: int|
            0 <= i < g.connections@.len() && (#[trigger] g.connections@[i]).door_type == DoorType::Keycard
                && g.connections@[i].required_keycard == Some(kc),
{
    let conns0 = g0.connections@;
    let spawn = g0.spawn_zone;
    let lv = leaves(g0.zones@, spawn);
    let objective = deepest(lv, d);
    let keycard = keycard_choice(lv, p, d);
    assert(keycard == Some(kc));
    let c = marked(conns0, p);
    // the marked doors join the same zones
    assert(same_ends(c, conns0));
    lemma_same_ends_adjacent(c, conns0);
    // the objective is a dead end
    lemma_deepest_in(lv, d);
    lemma_leaves_upto(g0.zones@, spawn, g0.zones@.len());
    let ko = choose|i: int|
        0 <= i < g0.zones@.len() && g0.zones@[i].id == objective && #[trigger] g0.zones@[i].spec_is_leaf(spawn);
    // the critical path is a shortest walk from the spawn to the objective
    assert(reachable(conns0, spawn.0, objective.0));
    let rp = raw_ids(p);
    assert(walk_between(conns0, rp, spawn.0, objective.0));
    assert(rp[0] == p[0].0);
    assert(rp[rp.len() - 1] == p[p.len() - 1].0);
    assert(p[0] == spawn);
    assert(p[p.len() - 1] == objective);
    assert(objective != spawn);
    assert(p.len() >= 2);
    // the keycard lies off the critical path
    let off = off_path(lv, p);
    lemma_deepest_in(off, d);
    lemma_off_path_upto(lv, p, lv.len());
    assert(off_path_upto(lv, p, lv.len()).contains(kc));
    assert(!p.contains(kc));
    let attach = match q {
        Some(qq) => match first_on_path_upto(qq, p, qq.len()) {
            Some(z) => z,
            None => spawn,
        },
        None => spawn,
    };
    lemma_first_index_upto(p, attach, p.len());
    if attach == spawn {
        assert(p[0] == attach);
        assert(first_index(p, attach) == Some(0int));
        assert(crate::search::adjacent(conns0, rp[0], rp[1]));
        assert(rp[1] == p[1].0);
        lemma_first_link_exists(c, spawn.0, p[1].0);
    } else {
        let qq = q.unwrap();
        let rq = raw_ids(qq);
        assert(walk_between(conns0, rq, kc.0, objective.0));
        assert(rq[0] == qq[0].0);
        assert(qq[0] == kc);
        assert(rq[rq.len() - 1] == qq[qq.len() - 1].0);
        assert(qq[qq.len() - 1] == objective);
        assert(kc != objective) by {
            assert(p.contains(objective));
        }
        let m = qq.len();
        assert(m >= 2);
        // the zone before the objective on the keycard's way is the one on the critical path
        assert(crate::search::adjacent(conns0, rq[m - 2], rq[m - 1]));
        assert(crate::search::adjacent(conns0, rp[p.len() - 2], rp[p.len() - 1]));
        assert(conns0 == g0.connections@);
        assert(g0.zones@[ko].id.0 == objective.0);
        assert(crate::search::adjacent(g0.connections@, g0.zones@[ko].id.0, rq[m - 2])) by {
            let i = choose|i: int| 0 <= i < conns0.len() && #[trigger] conn_links(conns0[i], rq[m - 2], rq[m - 1]);
            assert(conn_links(conns0[i], objective.0, rq[m - 2]));
        }
        assert(crate::search::adjacent(g0.connections@, g0.zones@[ko].id.0, rp[p.len() - 2])) by {
            let i = choose|i: int| 0 <= i < conns0.len() && #[trigger] conn_links(conns0[i], rp[p.len() - 2], rp[p.len() - 1]);
            assert(conn_links(conns0[i], objective.0, rp[p.len() - 2]));
        }
        lemma_dead_end_neighbour(g0, ko, rq[m - 2], rp[p.len() - 2]);
        assert(rq[m - 2] == qq[m - 2].0);
        assert(rp[p.len() - 2] == p[p.len() - 2].0);
        assert(qq[m - 2] == p[p.len() - 2]);
        assert(p.contains(qq[m - 2]));
        lemma_first_on_path_found(qq, p, m, m - 2);
        let z = first_on_path_upto(qq, p, m).unwrap();
        assert(z == attach);
        let kz = choose|k: int| 0 <= k <= m - 2 && qq[k] == z;
        lemma_shortest_walk_ends_once(conns0, rq, kc.0, objective.0, kz);
        assert(rq[kz] == qq[kz].0);
        assert(z != objective);
        let idx = first_index(p, attach).unwrap();
        assert(p[idx] == attach);
        assert(idx + 1 < p.len());
        assert(crate::search::adjacent(conns0, rp[idx], rp[idx + 1]));
        assert(rp[idx] == p[idx].0 && rp[idx + 1] == p[idx + 1].0);
        lemma_first_link_exists(c, attach.0, p[idx + 1].0);
    }
    assert(gate_door(c, p, q, spawn).is_some());
    lemma_gate_in_range(c, p, q, spawn);
    let i = gate_door(c, p, q, spawn).unwrap();
    assert(door_plan(g0, d, p, q, objective, keycard, i, true).door_type == DoorType::Keycard);
    assert(door_plan(g0, d, p, q, objective, keycard, i, false).door_type == DoorType::Keycard);
    assert(g.connections@[i].door_type == DoorType::Keycard);
    assert(g.connections@[i].required_keycard == Some(kc));
}

} // verus!
