//! Client ids: how a candidate is drawn, and how a free id is found when the
//! candidate is taken.

use std::collections::HashMap;
use vstd::prelude::*;

verus! {

/// How often a taken candidate is replaced by a fresh random draw before the
/// search goes on id by id.
pub const REDRAWS: usize = 8;

/// Draws a candidate id with `rand::random::<usize>()`. Nothing is promised of
/// the value: any `usize` may come back, and two draws may agree. The draw
/// comes from the thread's generator, which panics if the operating system
/// cannot seed it.
#[verifier::external_body]
pub(crate) fn random_id() -> usize {
    rand::random::<usize>()
}

/// The id that lies `steps` after `start`, where the id after `usize::MAX` is 0.
pub open spec fn nth_after(start: usize, steps: nat) -> usize
    recommends
        steps <= usize::MAX,
{
    if start + steps <= usize::MAX {
        (start + steps) as usize
    } else {
        (start + steps - usize::MAX - 1) as usize
    }
}

/// `id` is the first id at or after `start`, counting around, that is not in
/// `taken`.
pub open spec fn first_free_from(taken: Set<usize>, start: usize, id: usize) -> bool {
    exists|steps: nat|
        {
            &&& steps <= usize::MAX
            &&& id == #[trigger] nth_after(start, steps)
            &&& !taken.contains(id)
            &&& forall|k: nat| k < steps ==> taken.contains(#[trigger] nth_after(start, k))
        }
}

/// The first `n` ids from `start` on.
spec fn probed(start: usize, n: nat) -> Set<usize>
    decreases n,
{
    if n == 0 {
        Set::empty()
    } else {
        probed(start, (n - 1) as nat).insert(nth_after(start, (n - 1) as nat))
    }
}

/// The first `n` ids from `start` on are `n` different ids, as long as the
/// count does not go round.
proof fn lemma_probed(start: usize, n: nat)
    requires
        n <= usize::MAX + 1,
    ensures
        probed(start, n).finite(),
        probed(start, n).len() == n,
        forall|id: usize| #[trigger]
            probed(start, n).contains(id) ==> exists|k: nat| k < n && id == nth_after(start, k),
    decreases n,
{
    if n > 0 {
        let m = (n - 1) as nat;
        lemma_probed(start, m);
        let last = nth_after(start, m);
        if probed(start, m).contains(last) {
            let k = choose|k: nat| k < m && last == nth_after(start, k);
            assert(false);
        }
        assert forall|id: usize| #[trigger] probed(start, n).contains(id) implies exists|k: nat|
            k < n && id == nth_after(start, k) by {
            if id == last {
                assert(m < n && id == nth_after(start, m));
            } else {
                let k = choose|k: nat| k < m && id == nth_after(start, k);
                assert(k < n && id == nth_after(start, k));
            }
        }
    }
}

/// A finite set that holds the first `n` ids from `start` on has at least `n`
/// elements.
proof fn lemma_probed_fit(taken: Set<usize>, start: usize, n: nat)
    requires
        taken.finite(),
        n <= usize::MAX + 1,
        forall|k: nat| k < n ==> taken.contains(#[trigger] nth_after(start, k)),
    ensures
        n <= taken.len(),
{
    lemma_probed(start, n);
    assert(probed(start, n).subset_of(taken)) by {
        assert forall|id: usize| probed(start, n).contains(id) implies taken.contains(id) by {
            let k = choose|k: nat| k < n && id == nth_after(start, k);
            assert(taken.contains(nth_after(start, k)));
        }
    }
    vstd::set_lib::lemma_len_subset(probed(start, n), taken);
}

/// Searches from `start` on, id by id and around the end of `usize`, for the
/// first id that no client of `room` has.
pub fn free_id_from<H>(room: &HashMap<usize, H>, start: usize) -> (id: usize)
    ensures
        first_free_from(room@.dom(), start, id),
        !room@.contains_key(id),
        !room@.contains_key(start) ==> id == start,
{
    broadcast use vstd::std_specs::hash::group_hash_axioms;

    let ghost taken = room@.dom();
    proof {
        assert(taken.len() == room.len());
    }
    let mut id: usize = start;
    let mut steps: usize = 0;
    while room.contains_key(&id)
        invariant
            taken == room@.dom(),
            taken.finite(),
            taken.len() <= usize::MAX,
            id == nth_after(start, steps as nat),
            forall|k: nat| k < steps ==> taken.contains(#[trigger] nth_after(start, k)),
        decreases usize::MAX - steps,
    {
        proof {
            lemma_probed_fit(taken, start, (steps + 1) as nat);
        }
        id = if id == usize::MAX {
            0
        } else {
            id + 1
        };
        steps = steps + 1;
    }
    proof {
        if steps > 0 {
            assert(taken.contains(nth_after(start, 0)));
        }
    }
    id
}

/// Settles on an id for a new client of `room`: the candidate itself where it
/// is free. Where it is taken, a new candidate is drawn at random, up to
/// [`REDRAWS`] times; after that the first free id from the last draw on is
/// taken.
pub fn pick_id<H>(room: &HashMap<usize, H>, candidate: usize) -> (id: usize)
    ensures
        !room@.contains_key(id),
        !room@.contains_key(candidate) ==> id == candidate,
{
    broadcast use vstd::std_specs::hash::group_hash_axioms;

    let mut id: usize = candidate;
    let mut redraws: usize = 0;
    while redraws < REDRAWS && room.contains_key(&id)
        invariant
            redraws <= REDRAWS,
            !room@.contains_key(candidate) ==> id == candidate,
        decreases REDRAWS - redraws,
    {
        id = random_id();
        redraws = redraws + 1;
    }
    free_id_from(room, id)
}

} // verus!
