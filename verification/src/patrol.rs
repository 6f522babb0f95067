use vstd::prelude::*;

verus! {

/// The step a patrol takes from waypoint `current` of a route of `len`
/// waypoints: the next index, if it names a waypoint, and the direction it
/// then walks in.
pub open spec fn patrol_step(len: nat, ping_pong: bool, current: nat, forward: bool) -> (Option<nat>, bool) {
    if len <= 1 {
        (None, forward)
    } else {
        let (next, dir) = if ping_pong {
            if forward {
                if current + 1 >= len {
                    ((len - 2) as nat, false)
                } else {
                    (current + 1, true)
                }
            } else if current > 0 {
                ((current - 1) as nat, false)
            } else {
                (1nat, true)
            }
        } else {
            (((current + 1) % len) as nat, forward)
        };
        (if next < len {
            Some(next)
        } else {
            None
        }, dir)
    }
}

/// The index of the waypoint a patrol heads for after waypoint
/// `current_index` of a route of `len` waypoints. A ping-pong route walks to
/// its end and back, turning `forward` around at either end; another route
/// loops. Routes of fewer than two waypoints give no step, and an index past
/// the end gives none either.
pub fn next_patrol_index(len: usize, ping_pong: bool, current_index: usize, forward: &mut bool) -> (r: Option<usize>)
    requires
        len >= 2 && (!ping_pong || *old(forward)) ==> current_index < usize::MAX,
    ensures
        ({
            let (next, dir) = patrol_step(len as nat, ping_pong, current_index as nat, *old(forward));
            &&& r == (match next {
                Some(n) => Some(n as usize),
                None => None,
            })
            &&& *final(forward) == dir
        }),
{
    if len <= 1 {
        return None;
    }
    let mut next_index = current_index;
    if ping_pong {
        if *forward {
            next_index = next_index + 1;
            if next_index >= len {
                next_index = len - 2;
                *forward = false;
            }
        } else if next_index > 0 {
            next_index = next_index - 1;
        } else {
            next_index = 1;
            *forward = true;
        }
    } else {
        next_index = (next_index + 1) % len;
    }
    if next_index < len {
        Some(next_index)
    } else {
        None
    }
}

/// A patrol on a route of two or more waypoints always has a next waypoint
/// on the route; a ping-pong patrol moves to a neighbouring waypoint.
pub proof fn law_patrol_stays_on_route(len: nat, ping_pong: bool, current: nat, forward: bool)
    requires
        len >= 2,
        current < len,
    ensures
        ({
            let (next, _dir) = patrol_step(len, ping_pong, current, forward);
            &&& next.is_some()
            &&& next.unwrap() < len
            &&& ping_pong ==> (next.unwrap() == current + 1 || next.unwrap() + 1 == current)
        }),
{
}

} // verus!
