//! What one round of gossip tells one neighbour.
//!
//! The values a node holds fall into two parts for each neighbour: those the
//! neighbour has shown it holds, and those it has not. The second part is always
//! sent. Of the first part a small random share is sent again, so that a value
//! lost on the way still arrives in some later round.

use rand::Rng;
use std::collections::HashSet;
use vstd::prelude::*;

verus! {

broadcast use vstd::std_specs::hash::group_hash_axioms;

/// The values of `messages` that the neighbour has shown it holds.
pub open spec fn already_known(messages: Set<usize>, known: Set<usize>) -> Set<usize> {
    messages.intersect(known)
}

/// The values of `messages` that the neighbour has not shown it holds.
pub open spec fn unknown(messages: Set<usize>, known: Set<usize>) -> Set<usize> {
    messages.difference(known)
}

/// How many of `pool` values a round may send again on average: a tenth of
/// them, rounded down.
pub open spec fn resend_cap(pool: nat) -> nat {
    pool / 10
}

/// The largest pool whose size the sampler's ratio can hold.
pub open spec fn widest_pool() -> nat {
    u32::MAX as nat
}

/// The chance, as numerator and denominator, with which each value of a pool of
/// `pool` values is sent again.
///
/// An empty pool has none. Otherwise it is the cap over the pool's size, the cap
/// never above the size. A pool too large for the sampler gets one in ten, which
/// that quotient then equals to nine decimal places.
pub open spec fn resend_ratio(pool: nat) -> Option<(nat, nat)> {
    if pool == 0 {
        None
    } else if pool <= widest_pool() {
        Some((if resend_cap(pool) <= pool { resend_cap(pool) } else { pool }, pool))
    } else {
        Some((1, 10))
    }
}

/// Whether `seen` is something a round may send to a neighbour: it holds every
/// value unknown to the neighbour, only values of `messages`, and nothing more
/// than the unknown ones while the pool is too small to have a cap.
pub open spec fn may_notify(messages: Set<usize>, known: Set<usize>, seen: Set<usize>) -> bool {
    &&& unknown(messages, known).subset_of(seen)
    &&& seen.subset_of(messages)
    &&& resend_cap(already_known(messages, known).len()) == 0 ==> seen == unknown(
        messages,
        known,
    )
}

/// A copy of a set.
pub fn snapshot(set: &HashSet<usize>) -> (copy: HashSet<usize>)
    ensures
        copy@ == set@,
{
    let mut copy: HashSet<usize> = HashSet::new();
    for m in it: set.iter()
        invariant
            forall|j: int| 0 <= j < it.index() ==> copy@.contains(*it.seq()[j]),
            copy@.subset_of(set@),
    {
        copy.insert(*m);
    }
    copy
}

/// Adds every value of `more` to `set`.
pub fn merge(set: &mut HashSet<usize>, more: &HashSet<usize>)
    ensures
        final(set)@ == old(set)@.union(more@),
{
    for m in it: more.iter()
        invariant
            forall|j: int| 0 <= j < it.index() ==> set@.contains(*it.seq()[j]),
            old(set)@.subset_of(set@),
            set@.subset_of(old(set)@.union(more@)),
    {
        set.insert(*m);
    }
}

/// Splits `messages` by what the neighbour has shown it holds.
pub fn partition(messages: &HashSet<usize>, known: &HashSet<usize>) -> (parts: (
    HashSet<usize>,
    HashSet<usize>,
))
    ensures
        parts.0@ == already_known(messages@, known@),
        parts.1@ == unknown(messages@, known@),
{
    let mut held: HashSet<usize> = HashSet::new();
    let mut fresh: HashSet<usize> = HashSet::new();
    for m in it: messages.iter()
        invariant
            forall|j: int|
                0 <= j < it.index() ==> (held@.contains(*it.seq()[j]) <==> known@.contains(
                    *it.seq()[j],
                )),
            forall|j: int|
                0 <= j < it.index() ==> (fresh@.contains(*it.seq()[j]) <==> !known@.contains(
                    *it.seq()[j],
                )),
            held@.subset_of(already_known(messages@, known@)),
            fresh@.subset_of(unknown(messages@, known@)),
    {
        if known.contains(m) {
            held.insert(*m);
        } else {
            fresh.insert(*m);
        }
    }
    (held, fresh)
}

/// The chance with which each value of a pool of `pool` values is sent again.
pub fn resend_chance(pool: usize) -> (ratio: Option<(u32, u32)>)
    ensures
        match resend_ratio(pool as nat) {
            Some((numerator, denominator)) => ratio == Some(
                (numerator as u32, denominator as u32),
            ) && 0 < denominator <= u32::MAX && numerator <= denominator,
            None => ratio.is_none(),
        },
{
    if pool == 0 {
        None
    } else if pool <= u32::MAX as usize {
        let cap: usize = pool / 10;
        let numerator: usize = if cap <= pool {
            cap
        } else {
            pool
        };
        Some((numerator as u32, pool as u32))
    } else {
        Some((1, 10))
    }
}

/// The handle of `rand`'s generator of the running thread. Nothing inside it is
/// known here: it is only passed on to [`draw`].
#[verifier::external_type_specification]
#[verifier::external_body]
pub struct ExThreadRng(rand::rngs::ThreadRng);

/// `rand::thread_rng` hands out the thread's generator, which the system has
/// seeded; it panics where the system cannot seed it. Nothing is claimed of the
/// generator.
pub assume_specification[ rand::thread_rng ]() -> (generator: rand::rngs::ThreadRng)
;

/// One draw from the generator: `rand::Rng::gen_ratio`.
///
/// The draw is true with chance `numerator` in `denominator`. Of a single
/// outcome only what `gen_ratio` documents of a chance of nought is claimed: the
/// draw is then false. `gen_ratio` panics on a denominator of nought and on a
/// numerator above the denominator, which the precondition leaves out.
#[verifier::external_body]
fn draw(generator: &mut rand::rngs::ThreadRng, numerator: u32, denominator: u32) -> (hit: bool)
    requires
        denominator > 0,
        numerator <= denominator,
    ensures
        numerator == 0 ==> !hit,
{
    generator.gen_ratio(numerator, denominator)
}

/// Puts `value` into `picked` where the draw for it was a hit.
pub fn keep_if(picked: &mut HashSet<usize>, value: usize, hit: bool)
    ensures
        final(picked)@ == if hit {
            old(picked)@.insert(value)
        } else {
            old(picked)@
        },
{
    if hit {
        picked.insert(value);
    }
}

/// Picks at random which values of `pool` are sent again: one draw for each,
/// all with the chance that [`resend_ratio`] gives for the pool's size.
///
/// Whatever the draws, only values of the pool are picked, and none where the
/// pool has no cap.
pub fn sample(pool: &HashSet<usize>) -> (picked: HashSet<usize>)
    ensures
        picked@.subset_of(pool@),
        resend_cap(pool@.len()) == 0 ==> picked@ == Set::<usize>::empty(),
{
    let mut picked: HashSet<usize> = HashSet::new();
    match resend_chance(pool.len()) {
        None => {},
        Some((numerator, denominator)) => {
            let mut generator = rand::thread_rng();
            for m in it: pool.iter()
                invariant
                    denominator > 0,
                    numerator <= denominator,
                    picked@.subset_of(pool@),
                    numerator == 0 ==> picked@ == Set::<usize>::empty(),
            {
                let hit = draw(&mut generator, numerator, denominator);
                keep_if(&mut picked, *m, hit);
            }
        },
    }
    picked
}

/// What one round sends to a neighbour that has shown it holds `known`.
///
/// All that the neighbour has not shown it holds is sent. What it has shown it
/// holds is sampled, each value with the chance of [`resend_ratio`], and the
/// picked values are sent again. Whatever was picked, the result meets
/// [`may_notify`].
pub fn gossip_to(messages: &HashSet<usize>, known: &HashSet<usize>) -> (seen: HashSet<usize>)
    ensures
        may_notify(messages@, known@, seen@),
{
    let (held, fresh) = partition(messages, known);
    let picked = sample(&held);
    let mut seen = fresh;
    merge(&mut seen, &picked);
    proof {
        if picked@ == Set::<usize>::empty() {
            assert(seen@ =~= unknown(messages@, known@));
        }
    }
    seen
}

} // verus!
