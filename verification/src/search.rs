//! Brute-force search for an isomorphism, over every relabeling of the
//! vertices.

use itertools::Itertools;
use vstd::prelude::*;
use crate::graph::{Graph, GraphView};
use crate::isomorphism::law_isomorphic_same_size;
use crate::permutation::{is_bijection, is_permutation};

verus! {

/// The iterator that `itertools::Itertools::permutations` returns. Nothing of
/// its inside is known here; what it yields is spoken of through [`pending`].
#[verifier::external_type_specification]
#[verifier::external_body]
#[verifier::reject_recursive_types(I)]
pub struct ExPermutations<I: Iterator>(itertools::Permutations<I>);

/// What `it` has still to yield before it reports that it is exhausted.
pub uninterp spec fn pending(it: itertools::Permutations<std::ops::Range<u32>>) -> Seq<Seq<u32>>;

/// The order in which `itertools` goes through the relabelings of `0..n`.
pub uninterp spec fn permutation_order(n: u32) -> Seq<Seq<u32>>;

/// Every entry of `order` is a bijection on `0..n`, and every bijection on
/// `0..n` is an entry of it.
pub open spec fn lists_bijections(order: Seq<Seq<u32>>, n: u32) -> bool {
    &&& forall|i: int| 0 <= i < order.len() ==> is_bijection(#[trigger] order[i], n as nat)
    &&& forall|sigma: Seq<u32>| is_bijection(sigma, n as nat) ==> #[trigger] order.contains(sigma)
}

/// Calls `itertools::Itertools::permutations` on the range `0..n`, asking for
/// the arrangements of all `n` of its values.
///
/// Trusted: what the iterator yields before it is exhausted is the same for
/// the same `n`, and it is every relabeling of `0..n`: each item a bijection,
/// no bijection left out.
#[verifier::external_body]
fn relabelings(n: u32) -> (it: itertools::Permutations<std::ops::Range<u32>>)
    ensures
        pending(it) == permutation_order(n),
        lists_bijections(pending(it), n),
{
    (0..n).permutations(n as usize)
}

/// Calls `Iterator::next` on the iterator of `itertools`.
///
/// Trusted: the call hands out the first of the pending items and leaves the
/// others pending; it reports exhaustion exactly when nothing is pending.
#[verifier::external_body]
fn next_relabeling(it: &mut itertools::Permutations<std::ops::Range<u32>>) -> (item: Option<
    Vec<u32>,
>)
    ensures
        match item {
            Some(sigma) => {
                &&& pending(*old(it)).len() > 0
                &&& sigma@ == pending(*old(it))[0]
                &&& pending(*final(it)) == pending(*old(it)).skip(1)
            },
            None => pending(*old(it)).len() == 0,
        },
{
    it.next()
}

/// `order[i]` is the first entry of `order` that is an isomorphism from `a`
/// to `b`.
pub open spec fn first_witness(order: Seq<Seq<u32>>, a: GraphView, b: GraphView, i: int) -> bool {
    &&& 0 <= i < order.len()
    &&& a.maps_onto(order[i], b)
    &&& forall|j: int| 0 <= j < i ==> !a.maps_onto(#[trigger] order[j], b)
}

/// `sigma` is what the search for an isomorphism from `a` to `b` comes upon
/// first: the first relabeling of the vertices of `a`, in the order in which
/// `itertools` goes through them, that is an isomorphism from `a` to `b`.
pub open spec fn found_first(a: GraphView, b: GraphView, sigma: Seq<u32>) -> bool {
    let order = permutation_order(a.n as u32);
    exists|i: int| #[trigger] first_witness(order, a, b, i) && order[i] == sigma
}

impl Graph {
    /// Tells whether `sigma` is an isomorphism from this graph to `other`: a
    /// bijection on the vertices under which this graph gets the vertex count
    /// and exactly the edges of `other`.
    pub fn is_isomorphism_to(&self, sigma: &Vec<u32>, other: &Graph) -> (holds: bool)
        ensures
            holds == self@.maps_onto(sigma@, other@),
    {
        if self.n() != other.n() || !is_permutation(sigma, self.n()) {
            return false;
        }
        let image = self.permute(sigma);
        image == *other
    }

    /// Searches the relabelings of the vertices, in the order in which
    /// `itertools` lists them, for an isomorphism from this graph to `other`,
    /// and returns the first one found; none where the two graphs are not
    /// isomorphic.
    pub fn find_isomorphism_to(&self, other: &Graph) -> (found: Option<Vec<u32>>)
        ensures
            match found {
                Some(sigma) => {
                    &&& self@.maps_onto(sigma@, other@)
                    &&& found_first(self@, other@, sigma@)
                },
                None => !self@.isomorphic_to(other@),
            },
    {
        let n = self.n();
        if n != other.n() {
            return None;
        }
        let mut it = relabelings(n);
        let ghost order = permutation_order(n);
        let ghost mut tried: int = 0;
        loop
            invariant
                n == self@.n,
                n == other@.n,
                order == permutation_order(n),
                lists_bijections(order, n),
                0 <= tried <= order.len(),
                pending(it) == order.skip(tried),
                forall|j: int| 0 <= j < tried ==> !self@.maps_onto(#[trigger] order[j], other@),
            decreases pending(it).len(),
        {
            match next_relabeling(&mut it) {
                None => {
                    proof {
                        assert forall|sigma: Seq<u32>| !self@.maps_onto(sigma, other@) by {
                            if self@.maps_onto(sigma, other@) {
                                assert(order.contains(sigma));
                                let j = choose|j: int| 0 <= j < order.len() && order[j] == sigma;
                                assert(!self@.maps_onto(order[j], other@));
                            }
                        }
                    }
                    return None;
                },
                Some(sigma) => {
                    assert(sigma@ == order[tried]);
                    assert(is_bijection(order[tried], n as nat));
                    let image = self.permute(&sigma);
                    if image == *other {
                        proof {
                            assert(self@.permuted(sigma@) =~= other@);
                            assert(self@.n as u32 == n);
                            assert(first_witness(
                                permutation_order(self@.n as u32),
                                self@,
                                other@,
                                tried,
                            ));
                        }
                        return Some(sigma);
                    }
                    proof {
                        assert(order.skip(tried).skip(1) =~= order.skip(tried + 1));
                        tried = tried + 1;
                    }
                },
            }
        }
    }
}

/// Tells whether some relabeling of the vertices turns `a` into `b`.
///
/// Graphs that differ in their number of vertices or of edges are told apart
/// at once; for the others every relabeling is tried.
pub fn are_isomorphic(a: &Graph, b: &Graph) -> (isomorphic: bool)
    ensures
        isomorphic == a@.isomorphic_to(b@),
{
    if a.n() != b.n() || a.edge_count() != b.edge_count() {
        proof {
            use_type_invariant(a);
            a.lemma_view_wf();
            if a@.isomorphic_to(b@) {
                law_isomorphic_same_size(a@, b@);
            }
        }
        return false;
    }
    a.find_isomorphism_to(b).is_some()
}

} // verus!
