//! The random source of the loader tasks, from the `rand` crate.
use rand::rngs::StdRng;
use rand::seq::SliceRandom;
use rand::SeedableRng;
use vstd::prelude::*;

verus! {

#[verifier::external_type_specification]
#[verifier::external_body]
pub struct ExStdRng(StdRng);

/// A `StdRng` together with a record of its use: the seed it was made from
/// and, in order, every list it has shuffled, both as it was handed over and
/// as the shuffle left it. How the generator picks an order is not modelled.
pub struct SeededRng {
    rng: StdRng,
    seed: Ghost<u64>,
    shuffled: Ghost<Seq<Seq<usize>>>,
    outputs: Ghost<Seq<Seq<usize>>>,
}

impl SeededRng {
    /// The seed the generator was made from.
    pub closed spec fn seed(self) -> u64 {
        self.seed@
    }

    /// The lists handed to `shuffle_in_place`, oldest first, each as it was
    /// before it was shuffled.
    pub closed spec fn shuffled(self) -> Seq<Seq<usize>> {
        self.shuffled@
    }

    /// The lists as `shuffle_in_place` left them, oldest first, one per
    /// entry of `shuffled()`.
    pub closed spec fn outputs(self) -> Seq<Seq<usize>> {
        self.outputs@
    }
}

/// `rand::SeedableRng::seed_from_u64` for `rand::rngs::StdRng`: a generator
/// made from `seed`, which has shuffled nothing yet. Its internal state is
/// opaque; only the seed it was given is recorded.
#[verifier::external_body]
pub(crate) fn seeded_rng(seed: u64) -> (r: SeededRng)
    ensures
        r.seed() == seed,
        r.shuffled() == Seq::<Seq<usize>>::empty(),
        r.outputs() == Seq::<Seq<usize>>::empty(),
{
    SeededRng {
        rng: StdRng::seed_from_u64(seed),
        seed: Ghost(seed),
        shuffled: Ghost(Seq::empty()),
        outputs: Ghost(Seq::empty()),
    }
}

/// `rand::seq::SliceRandom::shuffle` on the items of a vector, driven by
/// `rng`. The crate's source permutes the slice in place by swaps (a
/// Fisher-Yates shuffle), so the items are the same, each as often as before;
/// the call, with the list before and after it, is recorded in the
/// generator's log. Which order comes out depends
/// on the generator's state and is left unsaid.
#[verifier::external_body]
pub(crate) fn shuffle_in_place(items: &mut Vec<usize>, rng: &mut SeededRng)
    ensures
        final(items)@.to_multiset() == old(items)@.to_multiset(),
        final(rng).seed() == old(rng).seed(),
        final(rng).shuffled() == old(rng).shuffled().push(old(items)@),
        final(rng).outputs() == old(rng).outputs().push(final(items)@),
{
    let ghost before = items@;
    items.shuffle(&mut rng.rng);
    proof {
        rng.shuffled@ = rng.shuffled@.push(before);
        rng.outputs@ = rng.outputs@.push(items@);
    }
}

} // verus!
