//! The library's source of chance: the thread-local generator of the `rand`
//! crate. Of a draw only that is stated which holds of every outcome.

use rand::seq::SliceRandom;
use rand::Rng;
use vstd::prelude::*;
use vstd::seq_lib::{to_multiset_contains, to_multiset_len};
use crate::permutation::{identity_permutation, is_bijection};

verus! {

/// Calls `rand::seq::SliceRandom::shuffle` on `items`, with the generator that
/// `rand::thread_rng` hands out.
///
/// Trusted: the shuffle only swaps entries, so afterwards `items` holds what
/// it held before, each value as often as before, in some order.
#[verifier::external_body]
pub(crate) fn shuffle(items: &mut Vec<u32>)
    ensures
        final(items)@.to_multiset() == old(items)@.to_multiset(),
{
    items.shuffle(&mut rand::thread_rng());
}

/// Calls `rand::Rng::gen_ratio` on the generator that `rand::thread_rng` hands
/// out: a bit that is set with probability `numerator / denominator`.
///
/// Trusted: with `numerator == denominator` the bit is always set, with
/// `numerator == 0` never; of any other draw nothing is known. The call panics
/// on a zero denominator and on a numerator above the denominator, which the
/// precondition leaves out.
#[verifier::external_body]
pub(crate) fn draw(numerator: u32, denominator: u32) -> (bit: bool)
    requires
        0 < denominator,
        numerator <= denominator,
    ensures
        numerator == denominator ==> bit,
        numerator == 0 ==> !bit,
{
    rand::thread_rng().gen_ratio(numerator, denominator)
}

/// The chance of a set bit, as a ratio of two integers: `numerator` draws in
/// `denominator` give a set bit.
#[derive(Debug, Clone, Copy)]
pub struct Bias {
    numerator: u32,
    denominator: u32,
}

impl Bias {
    /// The ratio is a probability: its denominator is not zero and its
    /// numerator is not above it.
    #[verifier::type_invariant]
    pub closed spec fn wf(&self) -> bool {
        0 < self.denominator && self.numerator <= self.denominator
    }

    /// The two integers of the ratio, numerator first.
    pub closed spec fn ratio(&self) -> (u32, u32) {
        (self.numerator, self.denominator)
    }

    /// Every draw gives a set bit.
    pub open spec fn certain(&self) -> bool {
        self.ratio().0 == self.ratio().1
    }

    /// No draw gives a set bit.
    pub open spec fn impossible(&self) -> bool {
        self.ratio().0 == 0
    }

    /// A bit that this bias may give.
    pub open spec fn allows(&self, bit: bool) -> bool {
        (self.certain() ==> bit) && (self.impossible() ==> !bit)
    }

    /// The bias of `numerator` set bits in `denominator` draws, where that is
    /// a probability.
    pub fn new(numerator: u32, denominator: u32) -> (bias: Option<Bias>)
        ensures
            bias is Some <==> 0 < denominator && numerator <= denominator,
            bias matches Some(p) ==> p.ratio() == (numerator, denominator),
    {
        if denominator == 0 || numerator > denominator {
            None
        } else {
            Some(Bias { numerator, denominator })
        }
    }

    /// The bias of a fair coin.
    pub fn even() -> (bias: Bias)
        ensures
            bias.ratio() == (1u32, 2u32),
    {
        Bias { numerator: 1, denominator: 2 }
    }

    /// Draws a bit with this bias.
    pub fn draw(&self) -> (bit: bool)
        ensures
            self.allows(bit),
    {
        proof {
            use_type_invariant(self);
        }
        draw(self.numerator, self.denominator)
    }
}

/// A sequence that holds exactly what a bijection on `0..n` holds is itself a
/// bijection on `0..n`.
pub proof fn lemma_rearranged_bijection(sigma: Seq<u32>, tau: Seq<u32>, n: nat)
    requires
        is_bijection(sigma, n),
        tau.to_multiset() == sigma.to_multiset(),
    ensures
        is_bijection(tau, n),
{
    to_multiset_len(sigma);
    to_multiset_len(tau);
    assert forall|i: int| 0 <= i < tau.len() implies (#[trigger] tau[i]) < n by {
        to_multiset_contains(tau, tau[i]);
        to_multiset_contains(sigma, tau[i]);
        assert(tau.contains(tau[i]));
        let k = choose|k: int| 0 <= k < sigma.len() && sigma[k] == tau[i];
        assert(sigma[k] < n);
    }
    sigma.lemma_multiset_has_no_duplicates();
    tau.lemma_multiset_has_no_duplicates_conv();
}

/// Draws a bijection on `0..n`: the identity, shuffled.
pub fn random_bijection(n: u32) -> (sigma: Vec<u32>)
    ensures
        is_bijection(sigma@, n as nat),
{
    let mut sigma = identity_permutation(n);
    let ghost start = sigma@;
    shuffle(&mut sigma);
    proof {
        lemma_rearranged_bijection(start, sigma@, n as nat);
    }
    sigma
}

} // verus!
