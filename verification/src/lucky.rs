//! Random choice of the peers that a retried request is sent to.

use rand::rngs::SmallRng;
use rand::seq::SliceRandom;
use vstd::prelude::*;

verus! {

/// `SmallRng` of rand: a small, fast generator of random numbers, which is
/// not reproducible across versions of rand. Nothing is known of its state.
#[verifier::external_type_specification]
#[verifier::external_body]
pub struct ExSmallRng(SmallRng);

/// Calls `SliceRandom::shuffle` of rand on the items. Trusted: the call swaps
/// items in place, so that the same items are there afterwards, each as often
/// as before. Which order comes out depends on the generator's state, and
/// nothing is said of it.
#[verifier::external_body]
fn shuffle<T>(items: &mut Vec<T>, rng: &mut SmallRng)
    ensures
        final(items)@.to_multiset() == old(items)@.to_multiset(),
{
    items.shuffle(rng);
}

/// The number of peers that are picked from `available` when `wanted` are
/// asked for.
pub open spec fn picked_len(available: nat, wanted: nat) -> nat {
    if available <= wanted {
        available
    } else {
        wanted
    }
}

/// Every item of a prefix of `s` is an item of `s`, as often at most.
pub proof fn lemma_take_is_part<T>(s: Seq<T>, n: int)
    requires
        0 <= n <= s.len(),
    ensures
        s.take(n).to_multiset().subset_of(s.to_multiset()),
{
    vstd::seq_lib::lemma_multiset_commutative(s.take(n), s.skip(n));
    assert(s.take(n) + s.skip(n) =~= s);
}

/// Keeps the first `nodes` of `items`, or all of them if there are no more.
pub fn first_nodes<T>(items: Vec<T>, nodes: usize) -> (chosen: Vec<T>)
    ensures
        chosen@ == items@.take(picked_len(items@.len(), nodes as nat) as int),
{
    let mut chosen = items;
    chosen.truncate(nodes);
    assert(chosen@ =~= items@.take(picked_len(items@.len(), nodes as nat) as int));
    chosen
}

/// Picks `nodes` of the `peers` at random, each at most as often as it is
/// listed, or all of them if there are no more than `nodes`.
pub fn lucky_select<T>(peers: Vec<T>, rng: &mut SmallRng, nodes: usize) -> (chosen: Vec<T>)
    ensures
        chosen@.len() == picked_len(peers@.len(), nodes as nat),
        chosen@.to_multiset().subset_of(peers@.to_multiset()),
{
    let ghost listed = peers@;
    let mut shuffled = peers;
    shuffle(&mut shuffled, rng);
    proof {
        vstd::seq_lib::to_multiset_len(shuffled@);
        vstd::seq_lib::to_multiset_len(listed);
        lemma_take_is_part(shuffled@, picked_len(shuffled@.len(), nodes as nat) as int);
    }
    first_nodes(shuffled, nodes)
}

} // verus!
