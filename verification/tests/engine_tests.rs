use zklib::{run_interactive_proof, ProtocolError, Prover, Verifier};

/// A prover that answers from a script.
struct Scripted {
    answers: Vec<Result<(u32, bool), ProtocolError>>,
    heard: Vec<u32>,
}

impl Prover for Scripted {
    type ProverMessage = u32;
    type VerifierMessage = u32;

    fn handle(&mut self, msg: &u32) -> Result<(u32, bool), ProtocolError> {
        self.heard.push(*msg);
        if self.answers.is_empty() {
            Ok((0, true))
        } else {
            self.answers.remove(0)
        }
    }
}

/// A verifier that accepts the even numbers and fails on the number 13.
struct Even {
    heard: Vec<u32>,
}

impl Verifier for Even {
    type ProverMessage = u32;
    type VerifierMessage = u32;

    fn init(&mut self) -> u32 {
        100
    }

    fn handle(&mut self, msg: &u32) -> Result<(u32, bool), ProtocolError> {
        self.heard.push(*msg);
        if *msg == 13 {
            Err(ProtocolError::UnexpectedMessage { round: self.heard.len() as u32 })
        } else {
            Ok((*msg + 1, *msg % 2 == 0))
        }
    }
}

#[test]
fn the_engine_returns_the_last_word_of_the_verifier() {
    let mut prover = Scripted {
        answers: vec![Ok((2, false)), Ok((5, false)), Ok((8, false)), Ok((7, true))],
        heard: Vec::new(),
    };
    let mut verifier = Even { heard: Vec::new() };
    assert_eq!(run_interactive_proof(&mut prover, &mut verifier), Ok(true));
    // the closing answer is not delivered
    assert_eq!(verifier.heard, vec![2, 5, 8]);
    assert_eq!(prover.heard, vec![100, 3, 6, 9]);

    let mut prover = Scripted {
        answers: vec![Ok((2, false)), Ok((5, false)), Ok((8, true))],
        heard: Vec::new(),
    };
    let mut verifier = Even { heard: Vec::new() };
    assert_eq!(run_interactive_proof(&mut prover, &mut verifier), Ok(false));
    assert_eq!(verifier.heard, vec![2, 5]);
}

#[test]
fn the_engine_rejects_where_the_verifier_was_never_heard() {
    let mut prover = Scripted { answers: vec![Ok((4, true))], heard: Vec::new() };
    let mut verifier = Even { heard: Vec::new() };
    assert_eq!(run_interactive_proof(&mut prover, &mut verifier), Ok(false));
    assert!(verifier.heard.is_empty());
    assert_eq!(prover.heard, vec![100]);
}

#[test]
fn the_engine_stops_at_the_first_failure() {
    let mut prover = Scripted {
        answers: vec![Ok((2, false)), Err(ProtocolError::IsomorphismNotFound), Ok((4, false))],
        heard: Vec::new(),
    };
    let mut verifier = Even { heard: Vec::new() };
    assert_eq!(
        run_interactive_proof(&mut prover, &mut verifier),
        Err(ProtocolError::IsomorphismNotFound)
    );
    assert_eq!(verifier.heard, vec![2]);

    let mut prover = Scripted {
        answers: vec![Ok((2, false)), Ok((13, false)), Ok((4, false))],
        heard: Vec::new(),
    };
    let mut verifier = Even { heard: Vec::new() };
    assert_eq!(
        run_interactive_proof(&mut prover, &mut verifier),
        Err(ProtocolError::UnexpectedMessage { round: 2 })
    );
    assert_eq!(prover.heard, vec![100, 3]);
}
