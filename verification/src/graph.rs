//! Directed graphs on the vertices `0..n`, built once and never changed.

use vstd::prelude::*;
use vstd::relations::injective_on;
use vstd::seq_lib::seq_to_set_is_finite;
use vstd::set_lib::{lemma_map_size, lemma_subset_equality};
use vstd::std_specs::cmp::PartialEqSpecImpl;
use crate::permutation::is_bijection;
use crate::random::random_bijection;

verus! {

/// The mathematical content of a [`Graph`]: how many vertices it has and which
/// ordered pairs of them are joined by an edge.
pub struct GraphView {
    pub n: nat,
    pub edges: Set<(u32, u32)>,
}

impl GraphView {
    /// The edge set is finite and every endpoint is one of the `n` vertices,
    /// whose labels fit in 32 bits.
    pub open spec fn wf(self) -> bool {
        &&& self.n <= u32::MAX
        &&& self.edges.finite()
        &&& forall|e: (u32, u32)| #[trigger] self.edges.contains(e) ==> e.0 < self.n && e.1 < self.n
    }

    /// The graph in which vertex `i` has taken the label `sigma[i]`.
    pub open spec fn permuted(self, sigma: Seq<u32>) -> GraphView {
        GraphView { n: self.n, edges: self.edges.map(|e: (u32, u32)| relabel(sigma, e)) }
    }

    /// This graph is `g` with its vertices relabeled by some bijection.
    pub open spec fn relabeling_of(self, g: GraphView) -> bool {
        exists|sigma: Seq<u32>| is_bijection(sigma, g.n) && self == #[trigger] g.permuted(sigma)
    }

    /// The vertices that an edge leads to from `u`.
    pub open spec fn successors(self, u: u32) -> Set<u32> {
        Set::new(|v: u32| self.edges.contains((u, v)))
    }
}

/// The edge that `e` becomes when vertex `i` takes the label `sigma[i]`.
pub open spec fn relabel(sigma: Seq<u32>, e: (u32, u32)) -> (u32, u32) {
    (sigma[e.0 as int], sigma[e.1 as int])
}

/// The edges of `edges`, each relabeled by `sigma`, in the same order.
pub open spec fn relabeled(edges: Seq<(u32, u32)>, sigma: Seq<u32>) -> Seq<(u32, u32)> {
    edges.map_values(|e: (u32, u32)| relabel(sigma, e))
}

/// Relabeling by a bijection keeps the vertex count and the number of edges,
/// and gives a graph on the same vertices.
pub proof fn law_permuted_keeps_size(g: GraphView, sigma: Seq<u32>)
    requires
        g.wf(),
        is_bijection(sigma, g.n),
    ensures
        g.permuted(sigma).wf(),
        g.permuted(sigma).n == g.n,
        g.permuted(sigma).edges.len() == g.edges.len(),
{
    let f = |e: (u32, u32)| relabel(sigma, e);
    assert(injective_on(f, g.edges)) by {
        assert forall|a: (u32, u32), b: (u32, u32)|
            g.edges.contains(a) && g.edges.contains(b) && #[trigger] f(a) == #[trigger] f(
                b,
            ) implies a == b by {
            if a.0 != b.0 {
                assert(sigma[a.0 as int] != sigma[b.0 as int]);
            }
            if a.1 != b.1 {
                assert(sigma[a.1 as int] != sigma[b.1 as int]);
            }
        }
    }
    lemma_map_size(g.edges, g.permuted(sigma).edges, f);
    assert forall|e: (u32, u32)| #[trigger]
        g.permuted(sigma).edges.contains(e) implies e.0 < g.n && e.1 < g.n by {
        let d = choose|d: (u32, u32)| g.edges.contains(d) && e == f(d);
        assert(sigma[d.0 as int] < g.n);
        assert(sigma[d.1 as int] < g.n);
    }
}

/// An edge named a vertex that the declared vertex count does not cover.
#[derive(Debug, Clone, Copy, PartialEq, Eq, Structural)]
pub struct ConstructionError {
    /// The larger endpoint of the first offending edge.
    pub vertex: u32,
}

/// A directed graph on the vertices `0..n`.
///
/// The edges are kept without repetition, in the order in which they were
/// first given; beside them stands, for every vertex, the list of its
/// successors.
#[derive(Debug)]
pub struct Graph {
    n: u32,
    edges: Vec<(u32, u32)>,
    adj: Vec<Vec<u32>>,
}

/// Every endpoint of every edge of `edges` is a vertex of `0..n`.
pub open spec fn edges_in_range(edges: Seq<(u32, u32)>, n: u32) -> bool {
    forall|i: int| 0 <= i < edges.len() ==> (#[trigger] edges[i]).0 < n && edges[i].1 < n
}

/// The larger endpoint of an edge.
pub open spec fn larger_endpoint(e: (u32, u32)) -> u32 {
    if e.0 >= e.1 {
        e.0
    } else {
        e.1
    }
}

/// `k` is the position of the first edge of `edges` with an endpoint outside
/// `0..n`.
pub open spec fn first_out_of_range(edges: Seq<(u32, u32)>, n: u32, k: int) -> bool {
    &&& 0 <= k < edges.len()
    &&& edges_in_range(edges.take(k), n)
    &&& larger_endpoint(edges[k]) >= n
}

/// The edges of `edges`, each kept only where it first occurs.
pub open spec fn first_occurrences(edges: Seq<(u32, u32)>) -> Seq<(u32, u32)>
    decreases edges.len(),
{
    if edges.len() == 0 {
        Seq::empty()
    } else {
        let before = first_occurrences(edges.drop_last());
        if before.contains(edges.last()) {
            before
        } else {
            before.push(edges.last())
        }
    }
}

/// The vertices to which the edges of `edges` lead from `u`, in the order of
/// those edges.
pub open spec fn successor_seq(edges: Seq<(u32, u32)>, u: u32) -> Seq<u32>
    decreases edges.len(),
{
    if edges.len() == 0 {
        Seq::empty()
    } else {
        let before = successor_seq(edges.drop_last(), u);
        if edges.last().0 == u {
            before.push(edges.last().1)
        } else {
            before
        }
    }
}

/// Dropping the repetitions loses no edge and adds none, and leaves a list
/// without repetitions as it is.
pub proof fn lemma_first_occurrences(edges: Seq<(u32, u32)>)
    ensures
        first_occurrences(edges).no_duplicates(),
        forall|e: (u32, u32)| first_occurrences(edges).contains(e) <==> edges.contains(e),
        first_occurrences(edges).to_set() == edges.to_set(),
        edges.no_duplicates() ==> first_occurrences(edges) == edges,
    decreases edges.len(),
{
    if edges.len() > 0 {
        let front = edges.drop_last();
        let before = first_occurrences(front);
        lemma_first_occurrences(front);
        assert(edges =~= front.push(edges.last()));
        assert forall|e: (u32, u32)| first_occurrences(edges).contains(e) <==> edges.contains(
            e,
        ) by {
            vstd::seq_lib::lemma_seq_contains_after_push(front, edges.last(), e);
            vstd::seq_lib::lemma_seq_contains_after_push(before, edges.last(), e);
        }
        if edges.no_duplicates() {
            assert(front.no_duplicates());
            assert(!front.contains(edges.last())) by {
                if front.contains(edges.last()) {
                    let i = choose|i: int| 0 <= i < front.len() && front[i] == edges.last();
                    assert(edges[i] == edges[edges.len() - 1]);
                }
            }
        }
    }
    assert(first_occurrences(edges).to_set() =~= edges.to_set());
}

/// The successors listed for `u` are the vertices that an edge of the list
/// leads to from `u`; where no edge is listed twice, no successor is.
pub proof fn lemma_successor_seq(edges: Seq<(u32, u32)>, u: u32)
    ensures
        forall|v: u32| successor_seq(edges, u).contains(v) <==> edges.contains((u, v)),
        edges.no_duplicates() ==> successor_seq(edges, u).no_duplicates(),
    decreases edges.len(),
{
    if edges.len() > 0 {
        let front = edges.drop_last();
        let before = successor_seq(front, u);
        lemma_successor_seq(front, u);
        assert(edges =~= front.push(edges.last()));
        assert forall|v: u32| successor_seq(edges, u).contains(v) <==> edges.contains((u, v)) by {
            vstd::seq_lib::lemma_seq_contains_after_push(front, edges.last(), (u, v));
            vstd::seq_lib::lemma_seq_contains_after_push(before, edges.last().1, v);
        }
        if edges.no_duplicates() {
            assert(front.no_duplicates());
            if edges.last().0 == u {
                assert(!front.contains(edges.last())) by {
                    if front.contains(edges.last()) {
                        let i = choose|i: int| 0 <= i < front.len() && front[i] == edges.last();
                        assert(edges[i] == edges[edges.len() - 1]);
                    }
                }
                assert(!before.contains(edges.last().1));
            }
        }
    }
}

impl View for Graph {
    type V = GraphView;

    closed spec fn view(&self) -> GraphView {
        GraphView { n: self.n as nat, edges: self.edges@.to_set() }
    }
}

fn list_contains(list: &Vec<u32>, v: u32) -> (found: bool)
    ensures
        found == list@.contains(v),
{
    let mut i: usize = 0;
    while i < list.len()
        invariant
            i <= list.len(),
            forall|j: int| 0 <= j < i ==> list@[j] != v,
        decreases list.len() - i,
    {
        if list[i] == v {
            return true;
        }
        i += 1;
    }
    false
}

fn copy_of<T: Copy>(list: &Vec<T>) -> (copy: Vec<T>)
    ensures
        copy@ == list@,
{
    let mut copy: Vec<T> = Vec::new();
    let mut j: usize = 0;
    while j < list.len()
        invariant
            j <= list@.len(),
            copy@ == list@.take(j as int),
        decreases list@.len() - j,
    {
        copy.push(list[j]);
        proof {
            assert(copy@ =~= list@.take(j + 1));
        }
        j += 1;
    }
    assert(copy@ =~= list@);
    copy
}

impl Graph {
    /// The representation invariant: no edge is kept twice, every endpoint is
    /// a vertex, and every vertex has its list of successors, which says what
    /// the edge list says, in the same order.
    #[verifier::type_invariant]
    pub closed spec fn wf(&self) -> bool {
        &&& self.adj@.len() == self.n
        &&& self.edges@.no_duplicates()
        &&& edges_in_range(self.edges@, self.n)
        &&& forall|u: int|
            0 <= u < self.n ==> (#[trigger] self.adj@[u])@ == successor_seq(self.edges@, u as u32)
    }

    /// The edges, each once, in the order in which they were first given.
    pub closed spec fn edge_list(&self) -> Seq<(u32, u32)> {
        self.edges@
    }

    /// The edge list of a graph lists the edges of its view, each once, and
    /// the view is a graph in good order.
    pub proof fn lemma_view_wf(&self)
        requires
            self.wf(),
        ensures
            self@.wf(),
            self.edge_list().no_duplicates(),
            self.edge_list().to_set() == self@.edges,
            self.edge_list().len() == self@.edges.len(),
            edges_in_range(self.edge_list(), self@.n as u32),
    {
        seq_to_set_is_finite(self.edges@);
        self.edges@.unique_seq_to_set();
        assert forall|e: (u32, u32)| #[trigger] self@.edges.contains(e) implies e.0 < self@.n && e.1
            < self@.n by {
            let i = choose|i: int| 0 <= i < self.edges@.len() && self.edges@[i] == e;
            assert(self.edges@[i].0 < self.n);
        }
    }

    /// The successors that the edge list gives a vertex are the successors
    /// that the view gives it.
    pub proof fn lemma_successors(&self, u: u32)
        requires
            self.wf(),
        ensures
            successor_seq(self.edge_list(), u).no_duplicates(),
            successor_seq(self.edge_list(), u).to_set() == self@.successors(u),
            successor_seq(self.edge_list(), u).len() == self@.successors(u).len(),
    {
        let list = successor_seq(self.edges@, u);
        lemma_successor_seq(self.edges@, u);
        assert(list.to_set() =~= self@.successors(u));
        list.unique_seq_to_set();
    }

    /// Builds the graph on `0..n` with the given edges; an edge that is given
    /// more than once counts once.
    ///
    /// Fails when an edge names a vertex outside `0..n`, and then reports the
    /// larger endpoint of the first such edge.
    pub fn new(n: u32, edges: Vec<(u32, u32)>) -> (built: Result<Graph, ConstructionError>)
        ensures
            match built {
                Ok(g) => {
                    &&& edges_in_range(edges@, n)
                    &&& g@.n == n
                    &&& g@.edges == edges@.to_set()
                    &&& g.edge_list() == first_occurrences(edges@)
                },
                Err(e) => exists|k: int|
                    #[trigger] first_out_of_range(edges@, n, k) && e.vertex == larger_endpoint(
                        edges@[k],
                    ),
            },
    {
        let mut adj: Vec<Vec<u32>> = Vec::new();
        let mut made: u32 = 0;
        while made < n
            invariant
                made <= n,
                adj@.len() == made,
                forall|u: int| 0 <= u < made ==> (#[trigger] adj@[u])@ == Seq::<u32>::empty(),
            decreases n - made,
        {
            adj.push(Vec::new());
            made += 1;
        }
        let mut kept: Vec<(u32, u32)> = Vec::new();
        let mut k: usize = 0;
        assert(edges@.take(0) =~= Seq::<(u32, u32)>::empty());
        while k < edges.len()
            invariant
                k <= edges.len(),
                adj@.len() == n,
                edges_in_range(kept@, n),
                edges_in_range(edges@.take(k as int), n),
                kept@ == first_occurrences(edges@.take(k as int)),
                forall|u: int|
                    0 <= u < n ==> (#[trigger] adj@[u])@ == successor_seq(kept@, u as u32),
            decreases edges.len() - k,
        {
            let (u, v) = edges[k];
            let m: u32 = if u >= v { u } else { v };
            if m >= n {
                assert(first_out_of_range(edges@, n, k as int));
                return Err(ConstructionError { vertex: m });
            }
            proof {
                assert(edges@.take(k + 1).drop_last() =~= edges@.take(k as int));
                lemma_successor_seq(kept@, u);
            }
            if !list_contains(&adj[u as usize], v) {
                let ghost old_adj = adj@;
                let ghost old_kept = kept@;
                adj[u as usize].push(v);
                kept.push((u, v));
                proof {
                    assert(kept@.drop_last() =~= old_kept);
                    assert(adj@.len() == old_adj.len());
                    assert(adj@[u as int]@ == old_adj[u as int]@.push(v));
                    assert forall|w: int| 0 <= w < n implies (#[trigger] adj@[w])@ == successor_seq(
                        kept@,
                        w as u32,
                    ) by {
                        if w != u {
                            assert(adj@[w] == old_adj[w]);
                        }
                    }
                }
            }
            k += 1;
        }
        proof {
            assert(edges@.take(k as int) =~= edges@);
            lemma_first_occurrences(edges@);
        }
        Ok(Graph { n, edges: kept, adj })
    }

    /// The graph without vertices.
    pub fn empty() -> (g: Graph)
        ensures
            g@.n == 0,
            g@.edges == Set::<(u32, u32)>::empty(),
            g.edge_list() == Seq::<(u32, u32)>::empty(),
    {
        let g = Graph { n: 0, edges: Vec::new(), adj: Vec::new() };
        assert(g@.edges =~= Set::<(u32, u32)>::empty());
        g
    }

    /// The number of vertices.
    pub fn n(&self) -> (n: u32)
        ensures
            n == self@.n,
    {
        self.n
    }

    /// The number of edges.
    pub fn edge_count(&self) -> (count: usize)
        ensures
            count == self@.edges.len(),
    {
        proof {
            use_type_invariant(self);
            self.lemma_view_wf();
        }
        self.edges.len()
    }

    /// The edges, each once, in the order in which they were first given.
    pub fn edges(&self) -> (list: Vec<(u32, u32)>)
        ensures
            list@ == self.edge_list(),
    {
        copy_of(&self.edges)
    }

    /// The vertices that an edge leads to from `u`, each once, in the order
    /// of the edges; none where `u` is no vertex of the graph.
    pub fn successors(&self, u: u32) -> (list: Vec<u32>)
        ensures
            list@ == successor_seq(self.edge_list(), u),
            list@.to_set() == self@.successors(u),
    {
        proof {
            use_type_invariant(self);
            self.lemma_successors(u);
        }
        if u >= self.n {
            proof {
                self.lemma_outside(u);
            }
            return Vec::new();
        }
        copy_of(&self.adj[u as usize])
    }

    /// The number of edges that leave `u`; none where `u` is no vertex of the
    /// graph.
    pub fn out_degree(&self, u: u32) -> (count: usize)
        ensures
            count == self@.successors(u).len(),
    {
        proof {
            use_type_invariant(self);
            self.lemma_successors(u);
        }
        if u >= self.n {
            proof {
                self.lemma_outside(u);
            }
            return 0;
        }
        self.adj[u as usize].len()
    }

    /// Nothing leaves what is no vertex of the graph.
    proof fn lemma_outside(&self, u: u32)
        requires
            self.wf(),
            u >= self.n,
        ensures
            successor_seq(self.edges@, u) == Seq::<u32>::empty(),
    {
        lemma_successor_seq(self.edges@, u);
        let list = successor_seq(self.edges@, u);
        if list.len() > 0 {
            assert(list.contains(list[0]));
            let i = choose|i: int| 0 <= i < self.edges@.len() && self.edges@[i] == (u, list[0]);
            assert(self.edges@[i].0 < self.n);
        }
        assert(list =~= Seq::<u32>::empty());
    }

    /// Tells whether an edge leads from `u` to `v`.
    pub fn has_edge(&self, u: u32, v: u32) -> (present: bool)
        ensures
            present == self@.edges.contains((u, v)),
    {
        proof {
            use_type_invariant(self);
            lemma_successor_seq(self.edges@, u);
        }
        if u >= self.n {
            proof {
                self.lemma_outside(u);
            }
            return false;
        }
        list_contains(&self.adj[u as usize], v)
    }

    /// Applies a relabeling of the vertices: the result has an edge from
    /// `isomorphism[u]` to `isomorphism[v]` for every edge from `u` to `v` of
    /// this graph, and no other. The graph itself is left as it is.
    pub fn permute(&self, isomorphism: &Vec<u32>) -> (image: Graph)
        requires
            is_bijection(isomorphism@, self@.n),
        ensures
            image@ == self@.permuted(isomorphism@),
            image@.n == self@.n,
            image@.edges.len() == self@.edges.len(),
            image.edge_list() == relabeled(self.edge_list(), isomorphism@),
    {
        proof {
            use_type_invariant(self);
            self.lemma_view_wf();
            law_permuted_keeps_size(self@, isomorphism@);
        }
        let mut edges: Vec<(u32, u32)> = Vec::new();
        let mut i: usize = 0;
        assert(edges@ =~= relabeled(self.edges@.take(0), isomorphism@));
        while i < self.edges.len()
            invariant
                i <= self.edges@.len(),
                self.wf(),
                is_bijection(isomorphism@, self.n as nat),
                edges@ == relabeled(self.edges@.take(i as int), isomorphism@),
            decreases self.edges@.len() - i,
        {
            let (a, b) = self.edges[i];
            assert(self.edges@[i as int].0 < self.n && self.edges@[i as int].1 < self.n);
            edges.push((isomorphism[a as usize], isomorphism[b as usize]));
            proof {
                assert(edges@ =~= relabeled(self.edges@.take(i + 1), isomorphism@));
            }
            i += 1;
        }
        proof {
            assert(self.edges@.take(i as int) =~= self.edges@);
            self.lemma_relabeled(isomorphism@);
            lemma_first_occurrences(edges@);
        }
        let built = Graph::new(self.n, edges);
        assert(built is Ok) by {
            if let Err(e) = built {
                let k = choose|k: int| first_out_of_range(edges@, self.n, k);
                assert(larger_endpoint(edges@[k]) < self.n);
            }
        }
        built.unwrap()
    }

    /// The relabeled edge list lists the edges of the relabeled graph, each
    /// once, and names vertices only.
    proof fn lemma_relabeled(&self, sigma: Seq<u32>)
        requires
            self.wf(),
            is_bijection(sigma, self.n as nat),
        ensures
            relabeled(self.edges@, sigma).no_duplicates(),
            relabeled(self.edges@, sigma).to_set() == self@.permuted(sigma).edges,
            edges_in_range(relabeled(self.edges@, sigma), self.n),
    {
        let image = relabeled(self.edges@, sigma);
        assert forall|i: int, j: int|
            0 <= i < image.len() && 0 <= j < image.len() && i != j implies image[i] != image[j] by {
            let a = self.edges@[i];
            let b = self.edges@[j];
            assert(a != b);
            if a.0 != b.0 {
                assert(sigma[a.0 as int] != sigma[b.0 as int]);
            } else {
                assert(sigma[a.1 as int] != sigma[b.1 as int]);
            }
        }
        let target = self@.permuted(sigma).edges;
        assert forall|e: (u32, u32)| image.to_set().contains(e) implies target.contains(e) by {
            let i = choose|i: int| 0 <= i < image.len() && image[i] == e;
            let d = self.edges@[i];
            assert(self.edges@.contains(d));
            assert(self@.edges.contains(d) && e == relabel(sigma, d));
        }
        assert forall|e: (u32, u32)| target.contains(e) implies image.to_set().contains(e) by {
            let d = choose|d: (u32, u32)| self@.edges.contains(d) && e == relabel(sigma, d);
            assert(self.edges@.contains(d));
            let i = choose|i: int| 0 <= i < self.edges@.len() && self.edges@[i] == d;
            assert(image[i] == e);
            assert(image.contains(e));
        }
        assert(image.to_set() =~= self@.permuted(sigma).edges);
        assert forall|i: int| 0 <= i < image.len() implies (#[trigger] image[i]).0 < self.n
            && image[i].1 < self.n by {
            let d = self.edges@[i];
            assert(sigma[d.0 as int] < self.n);
            assert(sigma[d.1 as int] < self.n);
        }
    }

    /// Relabels the vertices by a bijection drawn at random, and returns the
    /// graph that comes out.
    pub fn random_permutation(&self) -> (image: Graph)
        ensures
            image@.relabeling_of(self@),
    {
        let isomorphism = random_bijection(self.n);
        self.permute(&isomorphism)
    }
}

/// The instance of a proof: the two graphs that a claim is about.
pub struct GraphPair {
    pub g0: Graph,
    pub g1: Graph,
}

impl GraphPair {
    /// The graph that a bit stands for: `g1` for a set bit, `g0` for a clear
    /// one.
    pub open spec fn side(&self, b: bool) -> Graph {
        if b {
            self.g1
        } else {
            self.g0
        }
    }

    /// The graph that a bit stands for: `g1` for a set bit, `g0` for a clear
    /// one.
    pub fn graph(&self, b: bool) -> (g: &Graph)
        ensures
            *g == self.side(b),
    {
        if b {
            &self.g1
        } else {
            &self.g0
        }
    }
}

impl Clone for Graph {
    fn clone(&self) -> (copy: Graph)
        ensures
            copy@ == self@,
            copy.edge_list() == self.edge_list(),
    {
        proof {
            use_type_invariant(self);
        }
        let edges = copy_of(&self.edges);
        let mut adj: Vec<Vec<u32>> = Vec::new();
        let mut u: usize = 0;
        while u < self.adj.len()
            invariant
                u <= self.adj@.len(),
                adj@.len() == u,
                forall|w: int| 0 <= w < u ==> (#[trigger] adj@[w])@ == self.adj@[w]@,
            decreases self.adj@.len() - u,
        {
            adj.push(copy_of(&self.adj[u]));
            u += 1;
        }
        Graph { n: self.n, edges, adj }
    }
}

impl PartialEq for Graph {
    /// Two graphs are equal when they have the same edges.
    fn eq(&self, other: &Graph) -> (same: bool) {
        proof {
            use_type_invariant(self);
            use_type_invariant(other);
            self.lemma_view_wf();
            other.lemma_view_wf();
        }
        if self.edges.len() != other.edges.len() {
            return false;
        }
        let mut i: usize = 0;
        while i < self.edges.len()
            invariant
                i <= self.edges@.len(),
                forall|k: int| 0 <= k < i ==> other@.edges.contains(#[trigger] self.edges@[k]),
            decreases self.edges@.len() - i,
        {
            let (u, v) = self.edges[i];
            if !other.has_edge(u, v) {
                assert(self@.edges.contains(self.edges@[i as int]));
                return false;
            }
            i += 1;
        }
        proof {
            assert(self@.edges.subset_of(other@.edges)) by {
                assert forall|e: (u32, u32)| self@.edges.contains(e) implies other@.edges.contains(
                    e,
                ) by {
                    let k = choose|k: int| 0 <= k < self.edges@.len() && self.edges@[k] == e;
                    assert(other@.edges.contains(self.edges@[k]));
                }
            }
            lemma_subset_equality(self@.edges, other@.edges);
        }
        true
    }
}

impl PartialEqSpecImpl for Graph {
    open spec fn obeys_eq_spec() -> bool {
        true
    }

    open spec fn eq_spec(&self, other: &Graph) -> bool {
        self@.edges == other@.edges
    }
}

} // verus!
