use vstd::prelude::*;

use crate::level::ZoneId;

verus! {

/// A door between two zones as the culling sees it: whether one can pass
/// (it is open or opening).
#[derive(Clone, Copy, Debug, PartialEq, Eq, Structural)]
pub struct DoorPassage {
    pub zone_a: ZoneId,
    pub zone_b: ZoneId,
    pub passable: bool,
}

/// The zones reached from `start` by one pass over the doors in order: a
/// passable door with one side reached adds the other side.
pub open spec fn reached_after(start: ZoneId, doors: Seq<DoorPassage>) -> Set<ZoneId>
    decreases doors.len(),
{
    if doors.len() == 0 {
        set![start]
    } else {
        let prev = reached_after(start, doors.drop_last());
        let d = doors.last();
        if d.passable && (prev.contains(d.zone_a) || prev.contains(d.zone_b)) {
            prev.insert(d.zone_a).insert(d.zone_b)
        } else {
            prev
        }
    }
}

/// Which of the zones, listed in order, are shown: the observer is taken to
/// stand in the first zone listed, and a zone is shown when one pass over the
/// doors reaches it from there. With no zones, nothing is shown.
pub fn zone_visibility(zones: &Vec<ZoneId>, doors: &Vec<DoorPassage>) -> (shown: Vec<bool>)
    ensures
        shown@.len() == zones@.len(),
        forall|i: int|
            0 <= i < zones@.len() ==> #[trigger] shown@[i] == reached_after(zones@[0], doors@).contains(
                zones@[i],
            ),
{
    let mut shown: Vec<bool> = Vec::new();
    if zones.len() == 0 {
        return shown;
    }
    let start = zones[0];
    let mut reached: Vec<ZoneId> = Vec::new();
    add_zone(&mut reached, start);
    proof {
        assert(doors@.subrange(0, 0) =~= Seq::<DoorPassage>::empty());
    }
    let mut d: usize = 0;
    while d < doors.len()
        invariant
            d <= doors@.len(),
            forall|z: ZoneId| #[trigger] reached@.contains(z) <==> reached_after(start, doors@.subrange(0, d as int)).contains(z),
        decreases doors@.len() - d,
    {
        let ghost prefix = doors@.subrange(0, d as int);
        proof {
            assert(doors@.subrange(0, d + 1).drop_last() =~= prefix);
            assert(doors@.subrange(0, d + 1).last() == doors@[d as int]);
        }
        let door = doors[d];
        if door.passable {
            let has_a = contains_zone_id(&reached, door.zone_a);
            let has_b = contains_zone_id(&reached, door.zone_b);
            if has_a || has_b {
                add_zone(&mut reached, door.zone_a);
                add_zone(&mut reached, door.zone_b);
            }
        }
        d = d + 1;
    }
    proof {
        assert(doors@.subrange(0, doors@.len() as int) =~= doors@);
    }
    let mut i: usize = 0;
    while i < zones.len()
        invariant
            i <= zones@.len(),
            zones@.len() > 0,
            start == zones@[0],
            shown@.len() == i,
            forall|z: ZoneId| #[trigger] reached@.contains(z) <==> reached_after(start, doors@).contains(z),
            forall|k: int| 0 <= k < i ==> #[trigger] shown@[k] == reached_after(start, doors@).contains(zones@[k]),
        decreases zones@.len() - i,
    {
        let b = contains_zone_id(&reached, zones[i]);
        shown.push(b);
        i = i + 1;
    }
    shown
}

/// Adds `id` to `v` unless it is there already.
fn add_zone(v: &mut Vec<ZoneId>, id: ZoneId)
    ensures
        forall|z: ZoneId| #[trigger] final(v)@.contains(z) <==> (old(v)@.contains(z) || z == id),
{
    if !contains_zone_id(v, id) {
        let ghost before = v@;
        v.push(id);
        proof {
            assert forall|z: ZoneId| #[trigger] v@.contains(z) <==> (before.contains(z) || z == id) by {
                if v@.contains(z) {
                    let k = choose|k: int| 0 <= k < v@.len() && v@[k] == z;
                    if k < before.len() {
                        assert(before[k] == z);
                    }
                }
                if before.contains(z) {
                    let k = choose|k: int| 0 <= k < before.len() && before[k] == z;
                    assert(v@[k] == z);
                }
                if z == id {
                    assert(v@[before.len() as int] == z);
                }
            }
        }
    }
}

/// Is `id` among `v`?
fn contains_zone_id(v: &Vec<ZoneId>, id: ZoneId) -> (b: bool)
    ensures
        b == v@.contains(id),
{
    let mut i: usize = 0;
    while i < v.len()
        invariant
            i <= v@.len(),
            forall|k: int| 0 <= k < i ==> v@[k] != id,
        decreases v@.len() - i,
    {
        if v[i] == id {
            return true;
        }
        i = i + 1;
    }
    false
}

/// The observer's own zone is always shown.
pub proof fn law_observer_zone_is_shown(start: ZoneId, doors: Seq<DoorPassage>)
    ensures
        reached_after(start, doors).contains(start),
    decreases doors.len(),
{
    if doors.len() > 0 {
        law_observer_zone_is_shown(start, doors.drop_last());
    }
}

/// Behind closed doors nothing but the observer's zone is shown.
pub proof fn law_closed_doors_hide_everything_else(start: ZoneId, doors: Seq<DoorPassage>)
    requires
        forall|i: int| 0 <= i < doors.len() ==> !(#[trigger] doors[i]).passable,
    ensures
        reached_after(start, doors) == set![start],
    decreases doors.len(),
{
    if doors.len() > 0 {
        law_closed_doors_hide_everything_else(start, doors.drop_last());
        assert(!doors[doors.len() - 1].passable);
    }
}

} // verus!
