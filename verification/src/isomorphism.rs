//! What it means for two graphs to be isomorphic, and the laws of that
//! relation.

use vstd::prelude::*;
use crate::graph::{relabel, GraphView};
use crate::permutation::{
    compose, identity, inverse, is_bijection, law_inverse_after, law_inverse_is_bijection,
    lemma_bijection_len, lemma_bijection_onto,
};

verus! {

impl GraphView {
    /// `sigma` is an isomorphism from this graph to `other`: a bijection on
    /// the vertices under which this graph becomes `other`.
    pub open spec fn maps_onto(self, sigma: Seq<u32>, other: GraphView) -> bool {
        &&& is_bijection(sigma, self.n)
        &&& self.permuted(sigma) == other
    }

    /// Some relabeling of the vertices turns this graph into `other`.
    pub open spec fn isomorphic_to(self, other: GraphView) -> bool {
        exists|sigma: Seq<u32>| self.maps_onto(sigma, other)
    }
}

/// An isomorphism is a bijection that carries edges to edges and non-edges to
/// non-edges; and every such bijection between graphs of one size is an
/// isomorphism.
pub proof fn law_isomorphism_preserves_edges(a: GraphView, sigma: Seq<u32>, b: GraphView)
    requires
        a.wf(),
        b.wf(),
        is_bijection(sigma, a.n),
        a.n == b.n,
    ensures
        a.maps_onto(sigma, b) <==> (forall|u: u32, v: u32|
            u < a.n && v < a.n ==> (a.edges.contains((u, v)) <==> #[trigger] b.edges.contains(
                (sigma[u as int], sigma[v as int]),
            ))),
{
    let image = a.permuted(sigma).edges;
    if a.maps_onto(sigma, b) {
        assert forall|u: u32, v: u32| u < a.n && v < a.n implies (a.edges.contains((u, v))
            <==> #[trigger] b.edges.contains((sigma[u as int], sigma[v as int]))) by {
            if a.edges.contains((u, v)) {
                assert(relabel(sigma, (u, v)) == (sigma[u as int], sigma[v as int]));
                assert(image.contains((sigma[u as int], sigma[v as int])));
            }
            if b.edges.contains((sigma[u as int], sigma[v as int])) {
                let d = choose|d: (u32, u32)|
                    a.edges.contains(d) && (sigma[u as int], sigma[v as int]) == relabel(sigma, d);
                if d.0 != u {
                    assert(sigma[d.0 as int] != sigma[u as int]);
                }
                if d.1 != v {
                    assert(sigma[d.1 as int] != sigma[v as int]);
                }
            }
        }
    }
    if forall|u: u32, v: u32|
        u < a.n && v < a.n ==> (a.edges.contains((u, v)) <==> #[trigger] b.edges.contains(
            (sigma[u as int], sigma[v as int]),
        )) {
        assert forall|e: (u32, u32)| image.contains(e) <==> b.edges.contains(e) by {
            if image.contains(e) {
                let d = choose|d: (u32, u32)| a.edges.contains(d) && e == relabel(sigma, d);
                assert(b.edges.contains((sigma[d.0 as int], sigma[d.1 as int])));
            }
            if b.edges.contains(e) {
                lemma_bijection_onto(sigma, a.n, e.0);
                lemma_bijection_onto(sigma, a.n, e.1);
                lemma_bijection_len(sigma, a.n);
                let u = sigma.index_of(e.0) as u32;
                let v = sigma.index_of(e.1) as u32;
                assert(b.edges.contains((sigma[u as int], sigma[v as int])));
                assert(e == relabel(sigma, (u, v)));
            }
        }
        assert(image =~= b.edges);
    }
}

/// Relabeling by the identity changes nothing.
pub proof fn lemma_permuted_identity(g: GraphView)
    requires
        g.wf(),
    ensures
        g.permuted(identity(g.n)) == g,
{
    let id = identity(g.n);
    let image = g.permuted(id).edges;
    assert forall|e: (u32, u32)| image.contains(e) <==> g.edges.contains(e) by {
        if image.contains(e) {
            let d = choose|d: (u32, u32)| g.edges.contains(d) && e == relabel(id, d);
            assert(relabel(id, d) == d);
        }
        if g.edges.contains(e) {
            assert(relabel(id, e) == e);
        }
    }
    assert(image =~= g.edges);
}

/// Relabeling twice is relabeling once, by the composition.
pub proof fn lemma_permuted_twice(g: GraphView, first: Seq<u32>, second: Seq<u32>)
    requires
        g.wf(),
        is_bijection(first, g.n),
        is_bijection(second, g.n),
    ensures
        g.permuted(first).permuted(second) == g.permuted(compose(second, first)),
        is_bijection(compose(second, first), g.n),
{
    let both = compose(second, first);
    let twice = g.permuted(first).permuted(second).edges;
    let once = g.permuted(both).edges;
    assert forall|i: int, j: int|
        0 <= i < both.len() && 0 <= j < both.len() && i != j implies both[i] != both[j] by {
        assert(first[i] != first[j]);
    }
    assert forall|e: (u32, u32)| twice.contains(e) <==> once.contains(e) by {
        if twice.contains(e) {
            let m = choose|m: (u32, u32)|
                g.permuted(first).edges.contains(m) && e == relabel(second, m);
            let d = choose|d: (u32, u32)| g.edges.contains(d) && m == relabel(first, d);
            assert(e == relabel(both, d));
        }
        if once.contains(e) {
            let d = choose|d: (u32, u32)| g.edges.contains(d) && e == relabel(both, d);
            let m = relabel(first, d);
            assert(g.permuted(first).edges.contains(m));
            assert(e == relabel(second, m));
        }
    }
    assert(twice =~= once);
}

/// Every graph is isomorphic to itself.
pub proof fn law_isomorphic_reflexive(g: GraphView)
    requires
        g.wf(),
    ensures
        g.isomorphic_to(g),
{
    lemma_permuted_identity(g);
    assert(is_bijection(identity(g.n), g.n));
    assert(g.maps_onto(identity(g.n), g));
}

/// The inverse of an isomorphism is an isomorphism the other way.
pub proof fn law_inverse_maps_back(a: GraphView, sigma: Seq<u32>, b: GraphView)
    requires
        a.wf(),
        a.maps_onto(sigma, b),
    ensures
        b.maps_onto(inverse(sigma), a),
{
    crate::graph::law_permuted_keeps_size(a, sigma);
    law_inverse_is_bijection(sigma, a.n);
    law_inverse_after(sigma, a.n);
    lemma_permuted_twice(a, sigma, inverse(sigma));
    lemma_permuted_identity(a);
}

/// Isomorphism does not depend on the side from which it is looked at.
pub proof fn law_isomorphic_symmetric(a: GraphView, b: GraphView)
    requires
        a.wf(),
        a.isomorphic_to(b),
    ensures
        b.isomorphic_to(a),
{
    let sigma = choose|sigma: Seq<u32>| a.maps_onto(sigma, b);
    law_inverse_maps_back(a, sigma, b);
}

/// Isomorphisms compose.
pub proof fn law_isomorphic_transitive(a: GraphView, b: GraphView, c: GraphView)
    requires
        a.wf(),
        a.isomorphic_to(b),
        b.isomorphic_to(c),
    ensures
        a.isomorphic_to(c),
{
    let sigma = choose|sigma: Seq<u32>| a.maps_onto(sigma, b);
    let tau = choose|tau: Seq<u32>| b.maps_onto(tau, c);
    lemma_permuted_twice(a, sigma, tau);
    assert(a.maps_onto(compose(tau, sigma), c));
}

/// A graph is isomorphic to each of its relabelings: whatever bijection was
/// drawn to relabel `g`, the search for an isomorphism from `g` to the result
/// has something to find.
pub proof fn law_relabeling_is_isomorphic(g: GraphView, h: GraphView)
    requires
        h.relabeling_of(g),
    ensures
        g.isomorphic_to(h),
{
    let sigma = choose|sigma: Seq<u32>|
        is_bijection(sigma, g.n) && h == #[trigger] g.permuted(sigma);
    assert(g.maps_onto(sigma, h));
}

/// A relabeling of a graph is a relabeling of every graph that is isomorphic
/// to it.
pub proof fn lemma_relabeling_of_isomorphic(a: GraphView, b: GraphView, h: GraphView)
    requires
        a.wf(),
        b.wf(),
        b.isomorphic_to(a),
        h.relabeling_of(a),
    ensures
        h.relabeling_of(b),
{
    let sigma = choose|sigma: Seq<u32>| b.maps_onto(sigma, a);
    let tau = choose|tau: Seq<u32>| is_bijection(tau, a.n) && h == #[trigger] a.permuted(tau);
    lemma_permuted_twice(b, sigma, tau);
    assert(h == b.permuted(compose(tau, sigma)));
}

/// Isomorphic graphs have the same number of vertices and of edges.
pub proof fn law_isomorphic_same_size(a: GraphView, b: GraphView)
    requires
        a.wf(),
        a.isomorphic_to(b),
    ensures
        b.wf(),
        a.n == b.n,
        a.edges.len() == b.edges.len(),
{
    let sigma = choose|sigma: Seq<u32>| a.maps_onto(sigma, b);
    crate::graph::law_permuted_keeps_size(a, sigma);
}

} // verus!
