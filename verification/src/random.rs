//! The random choices of generation, drawn from `rand`.

use rand::rngs::StdRng;
use rand::seq::SliceRandom;
use vstd::prelude::*;

verus! {

/// `rand`'s standard generator, carried through generation.
#[verifier::external_type_specification]
#[verifier::external_body]
pub struct ExStdRng(StdRng);

/// Puts the elements of `v` in a random order with `rand`'s `SliceRandom::shuffle`
/// (a Fisher–Yates pass of swaps). Whatever order comes out, it is a permutation of the
/// input: the same elements, each as often as before. Which permutation it is depends on
/// the generator's state and is left unsaid.
#[verifier::external_body]
pub(crate) fn shuffle<T>(v: &mut Vec<T>, rng: &mut StdRng)
    ensures
        final(v)@.to_multiset() == old(v)@.to_multiset(),
{
    v.shuffle(rng);
}

/// A shuffled sequence has the same length and the same members as before.
pub proof fn lemma_shuffled_same_members<T>(a: Seq<T>, b: Seq<T>)
    requires
        a.to_multiset() == b.to_multiset(),
    ensures
        a.len() == b.len(),
        forall|x: T| a.contains(x) <==> b.contains(x),
{
    a.to_multiset_ensures();
    b.to_multiset_ensures();
    assert forall|x: T| a.contains(x) <==> b.contains(x) by {
        assert(a.contains(x) <==> a.to_multiset().count(x) > 0);
        assert(b.contains(x) <==> b.to_multiset().count(x) > 0);
    }
}

} // verus!
