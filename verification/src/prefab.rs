use vstd::prelude::*;

use crate::rng::random_index;
use rand::rngs::StdRng;

verus! {

/// The side of a room a door socket sits on.
#[derive(Clone, Copy, Debug, PartialEq, Eq, Structural, Hash)]
pub enum SocketSide {
    North,
    South,
    East,
    West,
}

/// The side facing the given one.
pub open spec fn opposite_side(s: SocketSide) -> SocketSide {
    match s {
        SocketSide::North => SocketSide::South,
        SocketSide::South => SocketSide::North,
        SocketSide::East => SocketSide::West,
        SocketSide::West => SocketSide::East,
    }
}

impl SocketSide {
    /// The side facing this one.
    pub fn opposite(self) -> (o: Self)
        ensures
            o == opposite_side(self),
    {
        match self {
            SocketSide::North => SocketSide::South,
            SocketSide::South => SocketSide::North,
            SocketSide::East => SocketSide::West,
            SocketSide::West => SocketSide::East,
        }
    }
}

/// A room variant offers every required side.
pub open spec fn covers(sockets: Seq<SocketSide>, required: Seq<SocketSide>) -> bool {
    forall|k: int| 0 <= k < required.len() ==> sockets.contains(#[trigger] required[k])
}

/// The indices of the variants that offer every required side, in order.
pub open spec fn covering_variants(variants: Seq<Vec<SocketSide>>, required: Seq<SocketSide>) -> Seq<usize>
    decreases variants.len(),
{
    if variants.len() == 0 {
        seq![]
    } else {
        let prev = covering_variants(variants.drop_last(), required);
        if covers(variants.last()@, required) {
            prev.push((variants.len() - 1) as usize)
        } else {
            prev
        }
    }
}

/// The variants a room is drawn from: those that offer every required side,
/// or all of them when none does.
pub open spec fn variant_pool(variants: Seq<Vec<SocketSide>>, required: Seq<SocketSide>) -> Seq<usize> {
    let perfect = covering_variants(variants, required);
    if perfect.len() > 0 {
        perfect
    } else {
        Seq::new(variants.len(), |i: int| i as usize)
    }
}

/// Does the variant with these sockets offer `side`?
pub fn has_socket(sockets: &Vec<SocketSide>, side: SocketSide) -> (b: bool)
    ensures
        b == sockets@.contains(side),
{
    let mut i: usize = 0;
    while i < sockets.len()
        invariant
            i <= sockets@.len(),
            forall|k: int| 0 <= k < i ==> sockets@[k] != side,
        decreases sockets@.len() - i,
    {
        if sockets[i] == side {
            return true;
        }
        i = i + 1;
    }
    false
}

/// Does the variant with these sockets offer every required side?
fn covers_all(sockets: &Vec<SocketSide>, required: &Vec<SocketSide>) -> (b: bool)
    ensures
        b == covers(sockets@, required@),
{
    let mut k: usize = 0;
    while k < required.len()
        invariant
            k <= required@.len(),
            forall|j: int| 0 <= j < k ==> sockets@.contains(#[trigger] required@[j]),
        decreases required@.len() - k,
    {
        if !has_socket(sockets, required[k]) {
            return false;
        }
        k = k + 1;
    }
    true
}

/// The indices of the room variants a room may be drawn from, given the
/// sides of each variant's sockets and the sides the room needs doors on:
/// see [`variant_pool`].
pub fn variant_candidates(variants: &Vec<Vec<SocketSide>>, required: &Vec<SocketSide>) -> (pool: Vec<usize>)
    ensures
        pool@ == variant_pool(variants@, required@),
{
    let mut perfect: Vec<usize> = Vec::new();
    let mut i: usize = 0;
    while i < variants.len()
        invariant
            i <= variants@.len(),
            perfect@ == covering_variants(variants@.subrange(0, i as int), required@),
        decreases variants@.len() - i,
    {
        proof {
            let next = variants@.subrange(0, i + 1);
            assert(next.drop_last() =~= variants@.subrange(0, i as int));
            assert(next.last() == variants@[i as int]);
        }
        if covers_all(&variants[i], required) {
            perfect.push(i);
        }
        i = i + 1;
    }
    proof {
        assert(variants@.subrange(0, variants@.len() as int) =~= variants@);
    }
    if perfect.len() > 0 {
        return perfect;
    }
    let mut all: Vec<usize> = Vec::new();
    let mut j: usize = 0;
    while j < variants.len()
        invariant
            j <= variants@.len(),
            all@ == Seq::new(j as nat, |k: int| k as usize),
        decreases variants@.len() - j,
    {
        all.push(j);
        proof {
            assert(all@ =~= Seq::new((j + 1) as nat, |k: int| k as usize));
        }
        j = j + 1;
    }
    all
}

/// Draws the variant of a room: an index taken uniformly from
/// [`variant_pool`] with the level's random generator.
pub fn select_variant(variants: &Vec<Vec<SocketSide>>, required: &Vec<SocketSide>, rng: &mut StdRng) -> (index: usize)
    requires
        variants@.len() > 0,
    ensures
        variant_pool(variants@, required@).contains(index),
        index < variants@.len(),
{
    let pool = variant_candidates(variants, required);
    proof {
        lemma_pool_in_range(variants@, required@);
    }
    let k = random_index(rng, pool.len());
    let index = pool[k];
    assert(pool@[k as int] == index);
    index
}

/// The pool is never empty when there are variants, and names only variants.
proof fn lemma_pool_in_range(variants: Seq<Vec<SocketSide>>, required: Seq<SocketSide>)
    requires
        variants.len() > 0,
    ensures
        variant_pool(variants, required).len() > 0,
        forall|k: int|
            0 <= k < variant_pool(variants, required).len() ==> #[trigger] variant_pool(variants, required)[k]
                < variants.len(),
{
    lemma_covering_in_range(variants, required);
}

/// Covering indices name variants.
proof fn lemma_covering_in_range(variants: Seq<Vec<SocketSide>>, required: Seq<SocketSide>)
    ensures
        forall|k: int|
            0 <= k < covering_variants(variants, required).len() ==> #[trigger] covering_variants(
                variants,
                required,
            )[k] < variants.len(),
        covering_variants(variants, required).len() <= variants.len(),
    decreases variants.len(),
{
    if variants.len() > 0 {
        lemma_covering_in_range(variants.drop_last(), required);
    }
}

} // verus!
