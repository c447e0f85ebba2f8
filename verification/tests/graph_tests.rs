use itertools::Itertools;
use zklib::graph::{ConstructionError, Graph};
use zklib::permutation::{identity_permutation, invert_isomorphism, is_permutation};
use zklib::random::{random_bijection, Bias};
use zklib::search::are_isomorphic;

fn sample() -> Graph {
    Graph::new(4, vec![(0, 1), (1, 2), (1, 3), (0, 3), (3, 0)]).unwrap()
}

#[test]
fn graph_test_create_graph_single_edge() {
    let graph = Graph::new(2, vec![(0, 1)]).unwrap();
    assert_eq!(graph.n(), 2);
    assert!(graph.edges().contains(&(0, 1)));
    assert_eq!(graph.successors(0).len(), 1);
    assert!(graph.successors(0).contains(&1));
}

#[test]
fn graph_test_create_graph_multi_edge() {
    let graph = Graph::new(4, vec![(0, 1), (1, 2), (1, 3), (0, 3), (3, 0)]).unwrap();
    assert_eq!(graph.n(), 4);
    assert_eq!(graph.edges().len(), 5);
    assert_eq!(graph.successors(0).len(), 2);
    assert_eq!(graph.successors(1).len(), 2);
    assert_eq!(graph.successors(2).len(), 0);
    assert_eq!(graph.successors(3).len(), 1);
}

#[test]
#[should_panic]
fn graph_test_create_invalid_graph() {
    // Vertex labels must be in the range 0 to N-1, inclusive
    Graph::new(4, vec![(0, 1), (1, 5), (1, 3), (0, 3), (3, 0)]).unwrap();
}

#[test]
fn lib_test_create_graph_single_edge() {
    // graph with a single edge
    let graph = Graph::new(2, vec![(0, 1)]).unwrap();
    assert_eq!(graph.n(), 2);
    assert!(graph.has_edge(0, 1));
    assert_eq!(graph.out_degree(0), 1);
    assert!(graph.successors(0).contains(&1));
}

#[test]
fn lib_test_create_graph_multi_edge() {
    // graph with a multiple edges
    let graph = Graph::new(4, vec![(0, 1), (1, 2), (1, 3), (0, 3), (3, 0)]).unwrap();
    assert_eq!(graph.n(), 4);
    assert_eq!(graph.edge_count(), 5);
    assert_eq!(graph.out_degree(0), 2);
    assert_eq!(graph.out_degree(1), 2);
    assert_eq!(graph.out_degree(2), 0);
    assert_eq!(graph.out_degree(3), 1);
}

#[test]
#[should_panic]
fn lib_test_create_invalid_graph() {
    // graph with a multiple edges
    let _graph = Graph::new(4, vec![(0, 1), (1, 5), (1, 3), (0, 3), (3, 0)]).unwrap();
}

#[test]
fn test_permute() {
    let perm = sample().permute(&vec![1, 2, 3, 0]);
    let expected_perm = Graph::new(4, vec![(1, 2), (2, 3), (2, 0), (1, 0), (0, 1)]).unwrap();

    assert_eq!(perm, expected_perm);
}

#[test]
fn test_are_isomorphic() {
    let graph = sample();
    // All permutations of the graph should be isomorphic to it
    assert!((0..graph.n())
        .permutations(graph.n() as usize)
        .any(|x| are_isomorphic(&graph, &graph.permute(&x))));
}

#[test]
fn test_random_permute() {
    let graph = sample();
    // Any random permutation of the graph should be isomorphic to it
    assert!(are_isomorphic(&graph, &graph.random_permutation()))
}

#[test]
fn test_is_isomorphic() {
    let graph = sample();
    assert!(are_isomorphic(&graph, &graph));
    let other = Graph::new(4, vec![(0, 2), (2, 3), (1, 3), (2, 1), (3, 0)]).unwrap();
    assert!(!are_isomorphic(&graph, &other));
}

#[test]
fn test_permutation() {
    // graph with a multiple edges
    let graph = sample();
    assert!(are_isomorphic(&graph, &graph.random_permutation()))
}

#[test]
fn construction_reports_the_first_offending_edge() {
    assert_eq!(Graph::new(4, vec![(0, 1), (1, 5)]).unwrap_err(), ConstructionError { vertex: 5 });
    assert_eq!(
        Graph::new(4, vec![(0, 1), (7, 2), (1, 9)]).unwrap_err(),
        ConstructionError { vertex: 7 }
    );
    assert_eq!(Graph::new(4, vec![(4, 4)]).unwrap_err(), ConstructionError { vertex: 4 });
    assert_eq!(Graph::new(0, vec![(0, 0)]).unwrap_err(), ConstructionError { vertex: 0 });
}

#[test]
fn construction_accepts_every_label_below_the_count() {
    let graph = Graph::new(4, vec![(3, 3), (0, 3)]).unwrap();
    assert!(graph.has_edge(3, 3));
    assert!(graph.has_edge(0, 3));
    assert!(!graph.has_edge(3, 0));
    assert!(Graph::new(0, Vec::new()).is_ok());
}

#[test]
fn repeated_edges_count_once() {
    let graph = Graph::new(3, vec![(0, 1), (1, 2), (0, 1), (0, 1), (1, 2)]).unwrap();
    assert_eq!(graph.edge_count(), 2);
    assert_eq!(graph.edges(), vec![(0, 1), (1, 2)]);
    assert_eq!(graph.out_degree(0), 1);
    assert_eq!(graph.successors(1), vec![2]);
}

#[test]
fn adjacency_covers_every_vertex() {
    let graph = Graph::new(5, vec![(4, 0)]).unwrap();
    assert_eq!(graph.out_degree(4), 1);
    assert_eq!(graph.successors(4), vec![0]);
    assert_eq!(graph.out_degree(3), 0);
    // no vertex, no successors
    assert_eq!(graph.out_degree(5), 0);
    assert!(graph.successors(17).is_empty());
    assert!(!graph.has_edge(17, 0));
}

#[test]
fn equality_looks_at_the_edges_only() {
    let a = Graph::new(3, vec![(0, 1), (1, 2)]).unwrap();
    let b = Graph::new(5, vec![(1, 2), (0, 1), (1, 2)]).unwrap();
    let c = Graph::new(3, vec![(0, 1), (2, 1)]).unwrap();
    let d = Graph::new(3, vec![(0, 1)]).unwrap();
    assert_eq!(a, b);
    assert_ne!(a, c);
    assert_ne!(a, d);
    assert_ne!(d, a);
    assert_eq!(Graph::empty(), Graph::new(9, Vec::new()).unwrap());
    assert_eq!(a.clone(), a);
    assert_eq!(a.clone().n(), 3);
}

#[test]
fn permuting_keeps_the_size() {
    let graph = sample();
    for sigma in (0..4u32).permutations(4) {
        let image = graph.permute(&sigma);
        assert_eq!(image.n(), graph.n());
        assert_eq!(image.edge_count(), graph.edge_count());
    }
    // the graph itself is left as it was
    assert_eq!(graph, sample());
}

#[test]
fn permuting_by_the_identity_changes_nothing() {
    let graph = sample();
    assert_eq!(identity_permutation(4), vec![0, 1, 2, 3]);
    assert_eq!(graph.permute(&identity_permutation(4)), graph);
    assert!(identity_permutation(0).is_empty());
}

#[test]
fn inverting_a_bijection() {
    assert_eq!(invert_isomorphism(&vec![1, 2, 3, 0]), vec![3, 0, 1, 2]);
    assert_eq!(invert_isomorphism(&vec![2, 0, 1]), vec![1, 2, 0]);
    assert_eq!(invert_isomorphism(&Vec::new()), Vec::<u32>::new());
}

#[test]
fn inverting_twice_gives_the_bijection_back() {
    for sigma in (0..5u32).permutations(5) {
        assert_eq!(invert_isomorphism(&invert_isomorphism(&sigma)), sigma);
    }
}

#[test]
fn the_inverse_undoes_the_bijection() {
    for sigma in (0..5u32).permutations(5) {
        let back = invert_isomorphism(&sigma);
        for i in 0..5u32 {
            assert_eq!(back[sigma[i as usize] as usize], i);
            assert_eq!(sigma[back[i as usize] as usize], i);
        }
    }
    let graph = sample();
    let sigma = vec![3, 0, 2, 1];
    assert_eq!(graph.permute(&sigma).permute(&invert_isomorphism(&sigma)), graph);
}

#[test]
fn telling_bijections_from_other_sequences() {
    assert!(is_permutation(&vec![2, 0, 1], 3));
    assert!(is_permutation(&Vec::new(), 0));
    assert!(!is_permutation(&vec![0, 1], 3));
    assert!(!is_permutation(&vec![0, 1, 2, 3], 3));
    assert!(!is_permutation(&vec![0, 1, 1], 3));
    assert!(!is_permutation(&vec![0, 1, 3], 3));
}

#[test]
fn finding_the_isomorphism() {
    let g0 = sample();
    let g1 = Graph::new(4, vec![(2, 1), (1, 0), (1, 3), (2, 3), (3, 2)]).unwrap();
    assert_eq!(g0.find_isomorphism_to(&g1), Some(vec![2, 1, 0, 3]));
    assert_eq!(g1.find_isomorphism_to(&g0), Some(vec![2, 1, 0, 3]));
    assert!(g0.is_isomorphism_to(&vec![2, 1, 0, 3], &g1));
    assert!(!g0.is_isomorphism_to(&vec![0, 1, 2, 3], &g1));
    assert!(!g0.is_isomorphism_to(&vec![2, 1, 0], &g1));
    assert!(!g0.is_isomorphism_to(&vec![2, 1, 0, 0], &g1));
}

#[test]
fn finding_no_isomorphism() {
    let g0 = sample();
    let other = Graph::new(4, vec![(0, 2), (2, 3), (1, 3), (2, 1), (3, 0)]).unwrap();
    assert_eq!(g0.find_isomorphism_to(&other), None);
    // the same edges on more vertices
    let wider = Graph::new(5, vec![(0, 1), (1, 2), (1, 3), (0, 3), (3, 0)]).unwrap();
    assert_eq!(g0, wider);
    assert_eq!(g0.find_isomorphism_to(&wider), None);
    assert!(!are_isomorphic(&g0, &wider));
    // fewer edges
    let thinner = Graph::new(4, vec![(0, 1), (1, 2)]).unwrap();
    assert!(!are_isomorphic(&g0, &thinner));
}

#[test]
fn the_search_starts_at_the_identity() {
    let bare = Graph::new(3, Vec::new()).unwrap();
    assert_eq!(bare.find_isomorphism_to(&bare), Some(vec![0, 1, 2]));
    let none = Graph::empty();
    assert_eq!(none.find_isomorphism_to(&none), Some(Vec::new()));
    assert!(are_isomorphic(&none, &none));
}

#[test]
fn every_relabeling_is_found_again() {
    let graph = sample();
    for sigma in (0..4u32).permutations(4) {
        let image = graph.permute(&sigma);
        // the sample has no symmetry, so the search can only find `sigma`
        assert_eq!(graph.find_isomorphism_to(&image), Some(sigma));
    }
}

#[test]
fn random_bijections_are_bijections_and_differ() {
    let mut moved = false;
    for _ in 0..200 {
        let sigma = random_bijection(8);
        assert!(is_permutation(&sigma, 8));
        if sigma != identity_permutation(8) {
            moved = true;
        }
    }
    assert!(moved);
    assert!(random_bijection(0).is_empty());
}

#[test]
fn a_bias_is_a_probability() {
    assert!(Bias::new(1, 0).is_none());
    assert!(Bias::new(3, 2).is_none());
    assert!(Bias::new(0, 0).is_none());
    let always = Bias::new(5, 5).unwrap();
    let never = Bias::new(0, 5).unwrap();
    let even = Bias::even();
    let (mut set, mut clear) = (0, 0);
    for _ in 0..1000 {
        assert!(always.draw());
        assert!(!never.draw());
        if even.draw() {
            set += 1;
        } else {
            clear += 1;
        }
    }
    assert!(set > 0 && clear > 0);
}

#[test]
fn the_listing_goes_vertex_by_vertex() {
    assert_eq!(sample().listing(), "Graph {{\n  0: {1, 3}\n  1: {2, 3}\n  2: {}\n  3: {0}\n}}");
    assert_eq!(Graph::empty().listing(), "Graph {{\n}}");
    assert_eq!(Graph::new(2, Vec::new()).unwrap().listing(), "Graph {{\n  0: {}\n  1: {}\n}}");
}

#[test]
fn the_listing_writes_numbers_in_decimal() {
    let graph = Graph::new(12, vec![(11, 10), (10, 0), (11, 9), (10, 0)]).unwrap();
    let text = graph.listing();
    let lines: Vec<&str> = text.lines().collect();
    assert_eq!(lines.len(), 14);
    assert_eq!(lines[0], "Graph {{");
    assert_eq!(lines[1], "  0: {}");
    assert_eq!(lines[10], "  9: {}");
    assert_eq!(lines[11], "  10: {0}");
    assert_eq!(lines[12], "  11: {10, 9}");
    assert_eq!(lines[13], "}}");
    let wide = Graph::new(1001, vec![(1000, 999), (1000, 1000)]).unwrap();
    assert!(wide.listing().ends_with("  999: {}\n  1000: {999, 1000}\n}}"));
}

#[test]
fn the_order_of_the_edges_is_kept() {
    let graph = Graph::new(4, vec![(3, 0), (1, 3), (3, 0), (1, 2), (0, 3), (1, 3)]).unwrap();
    assert_eq!(graph.edges(), vec![(3, 0), (1, 3), (1, 2), (0, 3)]);
    assert_eq!(graph.successors(1), vec![3, 2]);
    let image = graph.permute(&vec![1, 2, 3, 0]);
    assert_eq!(image.edges(), vec![(0, 1), (2, 0), (2, 3), (1, 0)]);
    assert_eq!(image.successors(2), vec![0, 3]);
    assert_eq!(graph.clone().edges(), graph.edges());
}
