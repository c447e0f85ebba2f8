use rayon::iter::{IntoParallelRefIterator, ParallelIterator};
use zklib::gi::{GIProver, GIProverMalicious, GIVerifier};
use zklib::gni::{GNIProver, GNIProverMalicious, GNIVerifier};
use zklib::graph::{Graph, GraphPair};
use zklib::random::Bias;
use zklib::{run_interactive_proof, ProtocolError};

fn isomorphic_pair() -> GraphPair {
    GraphPair {
        g0: Graph::new(4, vec![(0, 1), (1, 2), (1, 3), (0, 3), (3, 0)]).unwrap(),
        g1: Graph::new(4, vec![(2, 1), (1, 0), (1, 3), (2, 3), (3, 2)]).unwrap(),
    }
}

fn different_pair() -> GraphPair {
    GraphPair {
        g0: Graph::new(4, vec![(0, 1), (1, 2), (1, 3), (0, 3), (3, 0)]).unwrap(),
        g1: Graph::new(4, vec![(0, 2), (2, 3), (1, 3), (2, 1), (3, 0)]).unwrap(),
    }
}

#[test]
fn test_gi_interactive_proof() {
    let instance = GraphPair {
        g0: Graph::new(4, vec![(0, 1), (1, 2), (1, 3), (0, 3), (3, 0)]).unwrap(),
        g1: Graph::new(4, vec![(2, 1), (1, 0), (1, 3), (2, 3), (3, 2)]).unwrap(),
    };
    let mut prover = GIProver {
        r: 0,
        random_perm: Graph::new(0, Vec::new()).unwrap(),
        instance: &instance,
    };
    let mut verifier = GIVerifier {
        r: 0,
        b: false,
        random_perm: Graph::new(0, Vec::new()).unwrap(),
        instance: &instance,
    };
    // Since the proof has perfect completeness, an honest prover should always be able to
    // prove that the graphs are in GI.
    assert!(run_interactive_proof(&mut prover, &mut verifier).unwrap());
}

#[test]
fn test_gi_malicious_interactive_proof() {
    // Malicious prover should have probability of 1/2^N of successfully convincing
    // verifier after N rounds of the interactive proof.
    let n = 1000;
    let instance = GraphPair {
        g0: Graph::new(4, vec![(0, 1), (1, 2), (1, 3), (0, 3), (3, 0)]).unwrap(),
        g1: Graph::new(4, vec![(0, 2), (2, 3), (1, 3), (2, 1), (3, 0)]).unwrap(),
    };

    // There should be a negligible chance of the prover successfully convincing the verifier
    // in all 1000 rounds.
    let successes = (0..n)
        .collect::<Vec<i32>>()
        .par_iter()
        .filter(|_| {
            let mut prover = GIProverMalicious {
                r: 0,
                isomorphism: Vec::new(),
                instance: &instance,
                p: Bias::new(1, 2).unwrap(),
            };
            let mut verifier = GIVerifier {
                r: 0,
                b: false,
                random_perm: Graph::new(0, Vec::new()).unwrap(),
                instance: &instance,
            };
            run_interactive_proof(&mut prover, &mut verifier).unwrap()
        })
        .count();

    println!("Malicious GI prover succeeded {} out of {} times.", successes, n);

    assert!(successes != n as usize);
}

#[test]
fn test_gni_interactive_proof() {
    let instance = GraphPair {
        g0: Graph::new(4, vec![(0, 1), (1, 2), (1, 3), (0, 3), (3, 0)]).unwrap(),
        g1: Graph::new(4, vec![(0, 2), (2, 3), (1, 3), (2, 1), (3, 0)]).unwrap(),
    };
    let mut prover = GNIProver { sent_guess: false, instance: &instance };
    let mut verifier = GNIVerifier { b: false, instance: &instance };
    // Since the proof has perfect completeness, an honest prover should always be able to
    // prove that the graphs are in GNI.
    assert!(run_interactive_proof(&mut prover, &mut verifier).unwrap());
}

#[test]
fn test_gni_malicious_interactive_proof() {
    // Malicious prover should have probability of 1/2^N of successfully convincing
    // verifier after N rounds of the interactive proof.
    let n = 1000;
    let instance = GraphPair {
        g0: Graph::new(4, vec![(0, 1), (1, 2), (1, 3), (0, 3), (3, 0)]).unwrap(),
        g1: Graph::new(4, vec![(2, 1), (1, 0), (1, 3), (2, 3), (3, 2)]).unwrap(),
    };

    // There should be a negligible chance of the prover successfully convincing the verifier
    // in all 1000 rounds.
    let successes = (0..n)
        .collect::<Vec<i32>>()
        .par_iter()
        .filter(|_| {
            let mut prover = GNIProverMalicious { sent_guess: false, p: Bias::new(1, 2).unwrap() };
            let mut verifier = GNIVerifier { b: false, instance: &instance };
            run_interactive_proof(&mut prover, &mut verifier).unwrap()
        })
        .count();

    println!("Malicious GI prover succeeded {} out of {} times.", successes, n);

    assert!(successes != n as usize);
}

#[test]
fn the_honest_gi_prover_never_fails() {
    let instance = isomorphic_pair();
    for _ in 0..100 {
        let mut prover = GIProver { r: 0, random_perm: Graph::empty(), instance: &instance };
        let mut verifier =
            GIVerifier { r: 0, b: false, random_perm: Graph::empty(), instance: &instance };
        assert_eq!(run_interactive_proof(&mut prover, &mut verifier), Ok(true));
        // three answers of the prover, two of the verifier
        assert_eq!(prover.r, 3);
        assert_eq!(verifier.r, 2);
        assert_eq!(prover.random_perm, verifier.random_perm);
    }
}

#[test]
fn the_honest_gni_prover_never_fails() {
    let instance = different_pair();
    for _ in 0..100 {
        let mut prover = GNIProver { sent_guess: false, instance: &instance };
        let mut verifier = GNIVerifier { b: false, instance: &instance };
        assert_eq!(run_interactive_proof(&mut prover, &mut verifier), Ok(true));
        assert!(prover.sent_guess);
    }
}

#[test]
fn the_guessing_gi_prover_wins_about_half_the_runs() {
    // the graphs are isomorphic, but the prover does not know how
    let instance = isomorphic_pair();
    let runs = 1000;
    let mut successes = 0;
    for _ in 0..runs {
        let mut prover = GIProverMalicious {
            r: 0,
            isomorphism: Vec::new(),
            instance: &instance,
            p: Bias::even(),
        };
        let mut verifier =
            GIVerifier { r: 0, b: false, random_perm: Graph::empty(), instance: &instance };
        if run_interactive_proof(&mut prover, &mut verifier).unwrap() {
            successes += 1;
        }
    }
    assert!(successes != runs);
    assert!(350 < successes && successes < 650);
}

#[test]
fn the_guessing_gni_prover_wins_about_half_the_runs() {
    let instance = isomorphic_pair();
    let runs = 1000;
    let mut successes = 0;
    for _ in 0..runs {
        let mut prover = GNIProverMalicious { sent_guess: false, p: Bias::even() };
        let mut verifier = GNIVerifier { b: false, instance: &instance };
        if run_interactive_proof(&mut prover, &mut verifier).unwrap() {
            successes += 1;
        }
    }
    assert!(successes != runs);
    assert!(350 < successes && successes < 650);
}

#[test]
fn a_gni_prover_cannot_tell_isomorphic_graphs_apart() {
    // the honest strategy answers "g1" for every relabeling, and is right
    // only when the verifier drew g1
    let instance = isomorphic_pair();
    let runs = 1000;
    let mut successes = 0;
    for _ in 0..runs {
        let mut prover = GNIProver { sent_guess: false, instance: &instance };
        let mut verifier = GNIVerifier { b: false, instance: &instance };
        let accepted = run_interactive_proof(&mut prover, &mut verifier).unwrap();
        assert_eq!(accepted, verifier.b);
        if accepted {
            successes += 1;
        }
    }
    assert!(350 < successes && successes < 650);
}

#[test]
fn a_guess_that_cannot_be_set_is_right_when_the_bit_is_clear() {
    let instance = isomorphic_pair();
    for _ in 0..50 {
        let mut prover = GNIProverMalicious { sent_guess: false, p: Bias::new(0, 1).unwrap() };
        let mut verifier = GNIVerifier { b: false, instance: &instance };
        let accepted = run_interactive_proof(&mut prover, &mut verifier).unwrap();
        assert_eq!(accepted, !verifier.b);
    }
}

#[test]
fn the_guessing_gi_prover_wins_exactly_when_it_guessed_right() {
    let instance = different_pair();
    for _ in 0..50 {
        // this prover always relabels g1
        let mut prover = GIProverMalicious {
            r: 0,
            isomorphism: Vec::new(),
            instance: &instance,
            p: Bias::new(1, 1).unwrap(),
        };
        let mut verifier =
            GIVerifier { r: 0, b: false, random_perm: Graph::empty(), instance: &instance };
        let accepted = run_interactive_proof(&mut prover, &mut verifier).unwrap();
        assert_eq!(accepted, verifier.b);
    }
}

#[test]
fn the_honest_gi_prover_fails_without_an_isomorphism() {
    let instance = different_pair();
    let mut failures = 0;
    for _ in 0..100 {
        let mut prover = GIProver { r: 0, random_perm: Graph::empty(), instance: &instance };
        let mut verifier =
            GIVerifier { r: 0, b: false, random_perm: Graph::empty(), instance: &instance };
        match run_interactive_proof(&mut prover, &mut verifier) {
            // asked for g0, from which its graph came
            Ok(accepted) => {
                assert!(accepted);
                assert!(!verifier.b);
            },
            // asked for g1
            Err(e) => {
                assert_eq!(e, ProtocolError::IsomorphismNotFound);
                assert!(verifier.b);
                failures += 1;
            },
        }
    }
    assert!(0 < failures && failures < 100);
}

#[test]
fn a_prover_that_is_done_leaves_the_verifier_unheard() {
    let instance = isomorphic_pair();
    let mut prover = GIProver { r: 2, random_perm: Graph::empty(), instance: &instance };
    let mut verifier =
        GIVerifier { r: 0, b: false, random_perm: Graph::empty(), instance: &instance };
    assert_eq!(run_interactive_proof(&mut prover, &mut verifier), Ok(false));
    assert_eq!(verifier.r, 0);

    let mut prover = GNIProver { sent_guess: true, instance: &instance };
    let mut verifier = GNIVerifier { b: false, instance: &instance };
    assert_eq!(run_interactive_proof(&mut prover, &mut verifier), Ok(false));
}

#[test]
fn a_message_of_the_wrong_shape_ends_the_run() {
    let instance = isomorphic_pair();
    // a prover in its second round sends a bijection where the verifier
    // expects a graph
    let mut prover = GIProverMalicious {
        r: 1,
        isomorphism: vec![1, 0, 3, 2],
        instance: &instance,
        p: Bias::even(),
    };
    let mut verifier =
        GIVerifier { r: 0, b: false, random_perm: Graph::empty(), instance: &instance };
    assert_eq!(
        run_interactive_proof(&mut prover, &mut verifier),
        Err(ProtocolError::UnexpectedMessage { round: 1 })
    );

    // a verifier in its second round receives a graph where it expects a
    // bijection
    let mut prover = GIProver { r: 0, random_perm: Graph::empty(), instance: &instance };
    let mut verifier =
        GIVerifier { r: 1, b: false, random_perm: Graph::empty(), instance: &instance };
    assert_eq!(
        run_interactive_proof(&mut prover, &mut verifier),
        Err(ProtocolError::UnexpectedMessage { round: 2 })
    );
}

#[test]
fn a_bijection_on_other_vertices_ends_the_run() {
    let instance = isomorphic_pair();
    // the prover's bijection is on four vertices, the verifier's graph has none
    let mut prover = GIProverMalicious {
        r: 1,
        isomorphism: vec![1, 0, 3, 2],
        instance: &instance,
        p: Bias::even(),
    };
    let mut verifier =
        GIVerifier { r: 1, b: false, random_perm: Graph::empty(), instance: &instance };
    assert_eq!(
        run_interactive_proof(&mut prover, &mut verifier),
        Err(ProtocolError::UnexpectedMessage { round: 2 })
    );
}
