use vstd::prelude::*;

use crate::level::{LevelGraph, Zone, ZoneId, ZoneType, unique_ids};
use crate::text::{append_decimal, append_str, decimal};

verus! {

/// What a terminal console placed in a zone serves.
#[derive(Clone, Copy, Debug, PartialEq, Eq, Structural)]
pub enum TerminalRole {
    Objective,
    Keycard,
}

/// A terminal console to be placed in a zone, with its identifier and the
/// description it shows.
#[derive(Clone, Debug)]
pub struct TerminalPlacement {
    pub zone: ZoneId,
    pub role: TerminalRole,
    pub terminal_id: String,
    pub description: String,
}

/// The zones of `zs` that satisfy `keep`, in order, with the role given.
pub open spec fn zones_where(zs: Seq<Zone>, keep: spec_fn(Zone) -> bool, role: TerminalRole) -> Seq<
    (ZoneId, TerminalRole),
>
    decreases zs.len(),
{
    if zs.len() == 0 {
        seq![]
    } else {
        let prev = zones_where(zs.drop_last(), keep, role);
        if keep(zs.last()) {
            prev.push((zs.last().id, role))
        } else {
            prev
        }
    }
}

/// Objective zones get an objective terminal.
pub open spec fn objective_terminal_zone(z: Zone) -> bool {
    z.is_objective
}

/// Keycard zones that are utility rooms get a keycard terminal.
pub open spec fn keycard_terminal_zone(z: Zone) -> bool {
    z.is_keycard && z.zone_type == ZoneType::Utility
}

/// Objective-type rooms, for when no other terminal was placed.
pub open spec fn fallback_terminal_zone(z: Zone) -> bool {
    z.zone_type == ZoneType::Objective
}

/// Where terminals go: one in each objective zone, then one in each keycard
/// utility zone; when that places none, one in each objective-type room.
pub open spec fn terminal_plan(zs: Seq<Zone>) -> Seq<(ZoneId, TerminalRole)> {
    let first = zones_where(zs, |z: Zone| objective_terminal_zone(z), TerminalRole::Objective) + zones_where(
        zs,
        |z: Zone| keycard_terminal_zone(z),
        TerminalRole::Keycard,
    );
    if first.len() > 0 {
        first
    } else {
        zones_where(zs, |z: Zone| fallback_terminal_zone(z), TerminalRole::Objective)
    }
}

/// The identifier of the terminal of the given role in zone `id`.
pub open spec fn terminal_id_text(role: TerminalRole, id: u32) -> Seq<char> {
    match role {
        TerminalRole::Objective => "TERM_"@ + decimal(id as nat),
        TerminalRole::Keycard => "TERM_KC_"@ + decimal(id as nat),
    }
}

/// The description of the terminal of the given role in zone `id`.
pub open spec fn terminal_description_text(role: TerminalRole, id: u32) -> Seq<char> {
    match role {
        TerminalRole::Objective => "Objective Terminal - Zone "@ + decimal(id as nat),
        TerminalRole::Keycard => "Keycard Terminal - Zone "@ + decimal(id as nat),
    }
}

/// A placement that stands for the planned entry `p`.
pub open spec fn placement_matches(t: TerminalPlacement, p: (ZoneId, TerminalRole)) -> bool {
    &&& t.zone == p.0
    &&& t.role == p.1
    &&& t.terminal_id@ == terminal_id_text(p.1, p.0.0)
    &&& t.description@ == terminal_description_text(p.1, p.0.0)
}

/// The terminal to place in zone `zone` for the given role.
fn make_placement(zone: ZoneId, role: TerminalRole) -> (t: TerminalPlacement)
    ensures
        placement_matches(t, (zone, role)),
{
    let mut terminal_id = String::new();
    let mut description = String::new();
    match role {
        TerminalRole::Objective => {
            append_str(&mut terminal_id, "TERM_");
            append_str(&mut description, "Objective Terminal - Zone ");
        },
        TerminalRole::Keycard => {
            append_str(&mut terminal_id, "TERM_KC_");
            append_str(&mut description, "Keycard Terminal - Zone ");
        },
    }
    append_decimal(&mut terminal_id, zone.0 as u64);
    append_decimal(&mut description, zone.0 as u64);
    proof {
        assert(Seq::<char>::empty() + "TERM_"@ =~= "TERM_"@);
        assert(Seq::<char>::empty() + "TERM_KC_"@ =~= "TERM_KC_"@);
        assert(Seq::<char>::empty() + "Objective Terminal - Zone "@ =~= "Objective Terminal - Zone "@);
        assert(Seq::<char>::empty() + "Keycard Terminal - Zone "@ =~= "Keycard Terminal - Zone "@);
    }
    TerminalPlacement { zone, role, terminal_id, description }
}

/// Appends a placement for each zone of `zones` that the given role selects.
fn place_where(zones: &Vec<Zone>, role: TerminalRole, fallback: bool, out: &mut Vec<TerminalPlacement>)
    requires
        role == TerminalRole::Keycard ==> !fallback,
    ensures
        final(out)@.len() == old(out)@.len() + zones_where(
            zones@,
            selector(role, fallback),
            role,
        ).len(),
        forall|i: int| 0 <= i < old(out)@.len() ==> #[trigger] final(out)@[i] == old(out)@[i],
        forall|i: int|
            0 <= i < zones_where(zones@, selector(role, fallback), role).len() ==> placement_matches(
                #[trigger] final(out)@[old(out)@.len() + i],
                zones_where(zones@, selector(role, fallback), role)[i],
            ),
{
    let ghost keep = selector(role, fallback);
    let ghost base = out@;
    let mut i: usize = 0;
    while i < zones.len()
        invariant
            i <= zones@.len(),
            keep == selector(role, fallback),
            role == TerminalRole::Keycard ==> !fallback,
            out@.len() == base.len() + zones_where(zones@.subrange(0, i as int), keep, role).len(),
            forall|k: int| 0 <= k < base.len() ==> #[trigger] out@[k] == base[k],
            forall|k: int|
                0 <= k < zones_where(zones@.subrange(0, i as int), keep, role).len() ==> placement_matches(
                    #[trigger] out@[base.len() + k],
                    zones_where(zones@.subrange(0, i as int), keep, role)[k],
                ),
        decreases zones@.len() - i,
    {
        let ghost prefix = zones@.subrange(0, i as int);
        let ghost next = zones@.subrange(0, i + 1);
        proof {
            assert(next.drop_last() =~= prefix);
            assert(next.last() == zones@[i as int]);
        }
        let z = &zones[i];
        let selected = match role {
            TerminalRole::Objective => if fallback {
                z.zone_type == ZoneType::Objective
            } else {
                z.is_objective
            },
            TerminalRole::Keycard => z.is_keycard && z.zone_type == ZoneType::Utility,
        };
        if selected {
            let t = make_placement(z.id, role);
            out.push(t);
        }
        i = i + 1;
    }
    proof {
        assert(zones@.subrange(0, zones@.len() as int) =~= zones@);
    }
}

/// The selection a pass of the placement uses.
pub open spec fn selector(role: TerminalRole, fallback: bool) -> spec_fn(Zone) -> bool {
    match role {
        TerminalRole::Objective => if fallback {
            |z: Zone| fallback_terminal_zone(z)
        } else {
            |z: Zone| objective_terminal_zone(z)
        },
        TerminalRole::Keycard => |z: Zone| keycard_terminal_zone(z),
    }
}

/// The terminal consoles a generated level gets, in the order they are
/// placed: see [`terminal_plan`].
pub fn plan_procedural_terminals(graph: &LevelGraph) -> (r: Vec<TerminalPlacement>)
    ensures
        r@.len() == terminal_plan(graph.zones@).len(),
        forall|i: int| 0 <= i < r@.len() ==> placement_matches(#[trigger] r@[i], terminal_plan(graph.zones@)[i]),
{
    let mut out: Vec<TerminalPlacement> = Vec::new();
    place_where(&graph.zones, TerminalRole::Objective, false, &mut out);
    let ghost a = zones_where(graph.zones@, selector(TerminalRole::Objective, false), TerminalRole::Objective);
    let ghost b = zones_where(graph.zones@, selector(TerminalRole::Keycard, false), TerminalRole::Keycard);
    place_where(&graph.zones, TerminalRole::Keycard, false, &mut out);
    proof {
        assert(selector(TerminalRole::Objective, false) == (|z: Zone| objective_terminal_zone(z)));
        assert(selector(TerminalRole::Keycard, false) == (|z: Zone| keycard_terminal_zone(z)));
        assert forall|i: int| 0 <= i < out@.len() implies placement_matches(#[trigger] out@[i], (a + b)[i]) by {
            if i < a.len() {
                assert(out@[0 + i] == out@[i]);
            } else {
                assert(out@[a.len() + (i - a.len())] == out@[i]);
            }
        }
    }
    if out.len() == 0 {
        place_where(&graph.zones, TerminalRole::Objective, true, &mut out);
        proof {
            assert(selector(TerminalRole::Objective, true) == (|z: Zone| fallback_terminal_zone(z)));
            assert forall|i: int| 0 <= i < out@.len() implies placement_matches(
                #[trigger] out@[i],
                terminal_plan(graph.zones@)[i],
            ) by {
                assert(out@[0 + i] == out@[i]);
            }
        }
    }
    out
}

/// Sleepers wake in every zone but corridors and the objective.
pub open spec fn sleeper_zone(z: Zone) -> bool {
    z.zone_type != ZoneType::Corridor && !z.is_objective
}

/// Is `id` the id of a zone of `zs` where sleepers are placed?
pub open spec fn is_sleeper_zone_id(zs: Seq<Zone>, id: u32) -> bool {
    exists|j: int| 0 <= j < zs.len() && zs[j].id.0 == id && sleeper_zone(zs[j])
}

/// Strictly increasing.
pub open spec fn increasing(s: Seq<ZoneId>) -> bool {
    forall|a: int, b: int| 0 <= a < b < s.len() ==> s[a].0 < s[b].0
}

/// The zones that get sleepers, by increasing id: every zone that is neither
/// a corridor nor the objective.
pub fn sleeper_candidate_zones(graph: &LevelGraph) -> (r: Vec<ZoneId>)
    requires
        graph.wf(),
    ensures
        increasing(r@),
        forall|id: u32| #[trigger] r@.contains(ZoneId(id)) <==> is_sleeper_zone_id(graph.zones@, id),
{
    let zones = &graph.zones;
    let mut r: Vec<ZoneId> = Vec::new();
    let mut i: usize = 0;
    while i < zones.len()
        invariant
            i <= zones@.len(),
            unique_ids(zones@),
            increasing(r@),
            forall|id: u32| #[trigger]
                r@.contains(ZoneId(id)) <==> is_sleeper_zone_id(zones@.subrange(0, i as int), id),
        decreases zones@.len() - i,
    {
        let ghost prefix = zones@.subrange(0, i as int);
        let ghost next = zones@.subrange(0, i + 1);
        let z = &zones[i];
        let ghost r0 = r@;
        if z.zone_type != ZoneType::Corridor && !z.is_objective {
            let id = z.id;
            let mut k: usize = 0;
            while k < r.len() && r[k].0 < id.0
                invariant
                    k <= r@.len(),
                    forall|a: int| 0 <= a < k ==> r@[a].0 < id.0,
                decreases r@.len() - k,
            {
                k = k + 1;
            }
            proof {
                assert(!r@.contains(id)) by {
                    if r@.contains(id) {
                        assert(is_sleeper_zone_id(prefix, id.0));
                        let j = choose|j: int| 0 <= j < prefix.len() && prefix[j].id.0 == id.0 && sleeper_zone(prefix[j]);
                        assert(zones@[j].id.0 == zones@[i as int].id.0);
                    }
                }
                if k < r@.len() {
                    assert(r@[k as int].0 >= id.0);
                    assert(r@[k as int].0 != id.0) by {
                        if r@[k as int].0 == id.0 {
                            assert(r@[k as int] == id);
                            assert(r@.contains(id));
                        }
                    }
                }
            }
            let ghost before = r@;
            r.insert(k, id);
            proof {
                assert forall|x: ZoneId| #[trigger] r@.contains(x) <==> (before.contains(x) || x == id) by {
                    if r@.contains(x) {
                        let a = choose|a: int| 0 <= a < r@.len() && r@[a] == x;
                        if a < k {
                            assert(before[a] == x);
                        } else if a > k {
                            assert(before[a - 1] == x);
                        }
                    }
                    if before.contains(x) {
                        let a = choose|a: int| 0 <= a < before.len() && before[a] == x;
                        if a < k {
                            assert(r@[a] == x);
                        } else {
                            assert(r@[a + 1] == x);
                        }
                    }
                    if x == id {
                        assert(r@[k as int] == x);
                    }
                }
                assert forall|a: int, b: int| 0 <= a < b < r@.len() implies r@[a].0 < r@[b].0 by {
                    let oa = if a < k { a } else if a == k { -1 } else { a - 1 };
                    let ob = if b < k { b } else if b == k { -1 } else { b - 1 };
                    if a != k && b != k {
                        assert(r@[a] == before[oa] && r@[b] == before[ob]);
                    } else if a == k {
                        assert(r@[b] == before[ob]);
                    } else {
                        assert(r@[a] == before[oa]);
                    }
                }
            }
        }
        proof {
            assert(next.last() == zones@[i as int]);
            assert forall|id: u32| #[trigger] r@.contains(ZoneId(id)) <==> is_sleeper_zone_id(next, id) by {
                if sleeper_zone(zones@[i as int]) {
                    assert(r@.contains(ZoneId(id)) <==> (r0.contains(ZoneId(id)) || ZoneId(id) == zones@[i as int].id));
                } else {
                    assert(r@ == r0);
                }
                if ZoneId(id) == zones@[i as int].id && sleeper_zone(zones@[i as int]) {
                    assert(next[i as int] == zones@[i as int]);
                }
                if is_sleeper_zone_id(next, id) {
                    let j = choose|j: int| 0 <= j < next.len() && next[j].id.0 == id && sleeper_zone(next[j]);
                    if j < i {
                        assert(prefix[j] == next[j]);
                        assert(is_sleeper_zone_id(prefix, id));
                    }
                }
                if is_sleeper_zone_id(prefix, id) {
                    let j = choose|j: int| 0 <= j < prefix.len() && prefix[j].id.0 == id && sleeper_zone(prefix[j]);
                    assert(next[j] == prefix[j]);
                }
            }
        }
        i = i + 1;
    }
    proof {
        assert(zones@.subrange(0, zones@.len() as int) =~= zones@);
    }
    r
}

} // verus!
