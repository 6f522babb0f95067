use vstd::prelude::*;

use crate::level::{DoorType, ZoneConnection, ZoneId};

verus! {

/// The zones `x` shares a door with, each with the door's type, in the order
/// of the doors; a door from `x` to itself lists `x` twice.
pub open spec fn door_links(conns: Seq<ZoneConnection>, x: u32) -> Seq<(ZoneId, DoorType)>
    decreases conns.len(),
{
    if conns.len() == 0 {
        seq![]
    } else {
        let prev = door_links(conns.drop_last(), x);
        let c = conns.last();
        let with_from = if c.from_zone.0 == x {
            prev.push((c.to_zone, c.door_type))
        } else {
            prev
        };
        if c.to_zone.0 == x {
            with_from.push((c.from_zone, c.door_type))
        } else {
            with_from
        }
    }
}

/// The type of the first listed door that leads to `b`.
pub open spec fn first_door_to(links: Seq<(ZoneId, DoorType)>, b: u32) -> Option<DoorType>
    decreases links.len(),
{
    if links.len() == 0 {
        None
    } else if links[0].0.0 == b {
        Some(links[0].1)
    } else {
        first_door_to(links.drop_first(), b)
    }
}

/// The adjacency list of zone `x` through the level's doors: see
/// [`door_links`].
pub fn zone_door_links(conns: &Vec<ZoneConnection>, x: ZoneId) -> (r: Vec<(ZoneId, DoorType)>)
    ensures
        r@ == door_links(conns@, x.0),
{
    let mut r: Vec<(ZoneId, DoorType)> = Vec::new();
    let mut i: usize = 0;
    while i < conns.len()
        invariant
            i <= conns@.len(),
            r@ == door_links(conns@.subrange(0, i as int), x.0),
        decreases conns@.len() - i,
    {
        proof {
            assert(conns@.subrange(0, i + 1).drop_last() =~= conns@.subrange(0, i as int));
        }
        let c = conns[i];
        if c.from_zone.0 == x.0 {
            r.push((c.to_zone, c.door_type));
        }
        if c.to_zone.0 == x.0 {
            r.push((c.from_zone, c.door_type));
        }
        i = i + 1;
    }
    proof {
        assert(conns@.subrange(0, conns@.len() as int) =~= conns@);
    }
    r
}

/// The type of the door a sound crosses from zone `a` into zone `b`: the
/// first door leading to `b` in `a`'s adjacency list, if any.
pub fn door_between(conns: &Vec<ZoneConnection>, a: ZoneId, b: ZoneId) -> (r: Option<DoorType>)
    ensures
        r == first_door_to(door_links(conns@, a.0), b.0),
{
    let links = zone_door_links(conns, a);
    proof {
        assert(links@.subrange(0, links@.len() as int) =~= links@);
    }
    let mut i: usize = 0;
    while i < links.len()
        invariant
            i <= links@.len(),
            links@ == door_links(conns@, a.0),
            first_door_to(links@, b.0) == first_door_to(links@.subrange(i as int, links@.len() as int), b.0),
        decreases links@.len() - i,
    {
        let ghost rest = links@.subrange(i as int, links@.len() as int);
        proof {
            assert(rest.drop_first() =~= links@.subrange(i + 1, links@.len() as int));
            assert(rest[0] == links@[i as int]);
        }
        if links[i].0.0 == b.0 {
            assert(rest.len() > 0 && rest[0].0.0 == b.0);
            assert(first_door_to(rest, b.0) == Some(rest[0].1));
            return Some(links[i].1);
        }
        i = i + 1;
    }
    None
}

} // verus!

verus! {

/// The type of the first door (in door order) joining `a` and `b`.
pub open spec fn first_joining_door(conns: Seq<ZoneConnection>, a: u32, b: u32) -> Option<DoorType>
    decreases conns.len(),
{
    if conns.len() == 0 {
        None
    } else {
        match first_joining_door(conns.drop_last(), a, b) {
            Some(t) => Some(t),
            None => {
                let c = conns.last();
                if (c.from_zone.0 == a && c.to_zone.0 == b) || (c.from_zone.0 == b && c.to_zone.0 == a) {
                    Some(c.door_type)
                } else {
                    None
                }
            },
        }
    }
}

/// Looking for `b` in a list with one more entry at the end.
proof fn lemma_first_door_to_push(s: Seq<(ZoneId, DoorType)>, e: (ZoneId, DoorType), b: u32)
    ensures
        first_door_to(s.push(e), b) == (match first_door_to(s, b) {
            Some(t) => Some(t),
            None => if e.0.0 == b {
                Some(e.1)
            } else {
                None
            },
        }),
    decreases s.len(),
{
    if s.len() > 0 {
        assert(s.push(e)[0] == s[0]);
        assert(s.push(e).drop_first() =~= s.drop_first().push(e));
        lemma_first_door_to_push(s.drop_first(), e, b);
    } else {
        assert(s.push(e)[0] == e);
        assert(s.push(e).drop_first() =~= Seq::<(ZoneId, DoorType)>::empty());
        assert(first_door_to(Seq::<(ZoneId, DoorType)>::empty(), b) == None::<DoorType>);
    }
}

/// In `x`'s adjacency list, the first entry for another zone `y` carries the
/// type of the first door joining them.
proof fn lemma_first_door_to_is_first_joining(conns: Seq<ZoneConnection>, x: u32, y: u32)
    requires
        x != y,
    ensures
        first_door_to(door_links(conns, x), y) == first_joining_door(conns, x, y),
    decreases conns.len(),
{
    if conns.len() > 0 {
        let prev = door_links(conns.drop_last(), x);
        lemma_first_door_to_is_first_joining(conns.drop_last(), x, y);
        let c = conns.last();
        let with_from = if c.from_zone.0 == x {
            prev.push((c.to_zone, c.door_type))
        } else {
            prev
        };
        if c.from_zone.0 == x {
            lemma_first_door_to_push(prev, (c.to_zone, c.door_type), y);
        }
        if c.to_zone.0 == x {
            lemma_first_door_to_push(with_from, (c.from_zone, c.door_type), y);
        }
    }
}

/// A sound crosses the same kind of door from `a` into `b` as from `b` into
/// `a`: the door lookup is symmetric between two different zones.
pub proof fn law_door_between_is_symmetric(conns: Seq<ZoneConnection>, a: u32, b: u32)
    requires
        a != b,
    ensures
        first_door_to(door_links(conns, a), b) == first_door_to(door_links(conns, b), a),
    decreases conns.len(),
{
    lemma_first_door_to_is_first_joining(conns, a, b);
    lemma_first_door_to_is_first_joining(conns, b, a);
    lemma_first_joining_symmetric(conns, a, b);
}

/// The first door joining two zones does not depend on their order.
proof fn lemma_first_joining_symmetric(conns: Seq<ZoneConnection>, a: u32, b: u32)
    ensures
        first_joining_door(conns, a, b) == first_joining_door(conns, b, a),
    decreases conns.len(),
{
    if conns.len() > 0 {
        lemma_first_joining_symmetric(conns.drop_last(), a, b);
    }
}

} // verus!
