//! The interactive proof that two graphs are isomorphic.
//!
//! The prover commits to a random relabeling of one of the graphs, the
//! verifier then names one of the two graphs, and the prover has to show an
//! isomorphism from its relabeling to the graph that was named.

use vstd::prelude::*;
use crate::graph::{Graph, GraphPair};
use crate::permutation::{inverse, invert_isomorphism, is_bijection, is_permutation};
use crate::isomorphism::{
    law_isomorphic_symmetric, law_isomorphic_transitive, law_relabeling_is_isomorphic,
};
use crate::protocol::{
    advance, next_round, run_ends, ProtocolError, Prover, Reply, Verdict, Verifier,
};
use crate::random::{random_bijection, Bias};
use crate::search::found_first;

verus! {

/// What the prover sends.
pub enum GIProverMessage {
    /// The relabeled graph that the prover commits to.
    Graph(Graph),
    /// An isomorphism from the committed graph to the graph that the verifier
    /// named.
    Isomorphism(Vec<u32>),
    /// The conversation is over.
    Done,
}

/// What the verifier sends: the bit that names the graph to which the prover
/// is to show an isomorphism, `g1` for a set bit.
pub struct GIVerifierMessage {
    pub b: bool,
}

/// The prover that does what the protocol asks.
pub struct GIProver<'a> {
    /// The number of messages answered so far.
    pub r: u32,
    /// The relabeling of `g0` that was sent to the verifier.
    pub random_perm: Graph,
    pub instance: &'a GraphPair,
}

impl<'a> Prover for GIProver<'a> {
    type ProverMessage = GIProverMessage;

    type VerifierMessage = GIVerifierMessage;

    open spec fn rounds_left(&self) -> nat {
        if self.r < 2 {
            (2 - self.r) as nat
        } else {
            0
        }
    }

    /// In its first round the prover commits to a relabeling of `g0` and
    /// sends it. In its second it sends the first isomorphism, in the order of
    /// the search, from that graph to the one that the verifier named, and
    /// fails where there is none. After that it closes the conversation.
    open spec fn step(
        &self,
        msg: GIVerifierMessage,
        next: Self,
        out: Reply<GIProverMessage>,
    ) -> bool {
        let round = next_round(self.r);
        &&& next.r == round
        &&& next.instance == self.instance
        &&& if round == 1 {
            &&& next.random_perm@.relabeling_of(self.instance.g0@)
            &&& out matches Ok((GIProverMessage::Graph(h), false)) && h@ == next.random_perm@
        } else if round == 2 {
            let target = self.instance.side(msg.b)@;
            &&& next.random_perm@ == self.random_perm@
            &&& match out {
                Ok((GIProverMessage::Isomorphism(sigma), false)) => found_first(
                    self.random_perm@,
                    target,
                    sigma@,
                ),
                Err(ProtocolError::IsomorphismNotFound) => !self.random_perm@.isomorphic_to(target),
                _ => false,
            }
        } else {
            &&& next.random_perm@ == self.random_perm@
            &&& out matches Ok((GIProverMessage::Done, true))
        }
    }

    fn handle(&mut self, msg: &GIVerifierMessage) -> (out: Reply<GIProverMessage>) {
        self.r = advance(self.r);
        if self.r == 1 {
            self.random_perm = self.instance.g0.random_permutation();
            Ok((GIProverMessage::Graph(self.random_perm.clone()), false))
        } else if self.r == 2 {
            match self.random_perm.find_isomorphism_to(self.instance.graph(msg.b)) {
                Some(sigma) => Ok((GIProverMessage::Isomorphism(sigma), false)),
                None => Err(ProtocolError::IsomorphismNotFound),
            }
        } else {
            Ok((GIProverMessage::Done, true))
        }
    }
}

/// A prover that knows no isomorphism between the two graphs. It guesses
/// which graph the verifier will name, and can answer only for that one.
pub struct GIProverMalicious<'a> {
    /// The number of messages answered so far.
    pub r: u32,
    /// The bijection by which the guessed graph was relabeled.
    pub isomorphism: Vec<u32>,
    pub instance: &'a GraphPair,
    /// The chance with which the prover guesses `g1`.
    pub p: Bias,
}

impl<'a> Prover for GIProverMalicious<'a> {
    type ProverMessage = GIProverMessage;

    type VerifierMessage = GIVerifierMessage;

    /// What the prover keeps as its bijection is one.
    open spec fn inv(&self) -> bool {
        is_bijection(self.isomorphism@, self.isomorphism@.len())
    }

    open spec fn rounds_left(&self) -> nat {
        if self.r < 2 {
            (2 - self.r) as nat
        } else {
            0
        }
    }

    /// In its first round the prover guesses a bit, relabels the graph that
    /// the bit stands for by a bijection that it keeps, and sends the result.
    /// In its second it sends the inverse of that bijection, whichever graph
    /// the verifier named. After that it closes the conversation.
    open spec fn step(
        &self,
        msg: GIVerifierMessage,
        next: Self,
        out: Reply<GIProverMessage>,
    ) -> bool {
        let round = next_round(self.r);
        &&& next.r == round
        &&& next.instance == self.instance
        &&& next.p == self.p
        &&& if round == 1 {
            exists|guess: bool|
                {
                    &&& self.p.allows(guess)
                    &&& is_bijection(next.isomorphism@, (#[trigger] self.instance.side(guess))@.n)
                    &&& out matches Ok((GIProverMessage::Graph(h), false)) && h@
                        == self.instance.side(guess)@.permuted(next.isomorphism@)
                }
        } else if round == 2 {
            &&& next.isomorphism@ == self.isomorphism@
            &&& out matches Ok((GIProverMessage::Isomorphism(sigma), false)) && sigma@ == inverse(
                self.isomorphism@,
            )
        } else {
            &&& next.isomorphism@ == self.isomorphism@
            &&& out matches Ok((GIProverMessage::Done, true))
        }
    }

    fn handle(&mut self, msg: &GIVerifierMessage) -> (out: Reply<GIProverMessage>) {
        self.r = advance(self.r);
        if self.r == 1 {
            let guess = self.p.draw();
            let graph = self.instance.graph(guess);
            self.isomorphism = random_bijection(graph.n());
            Ok((GIProverMessage::Graph(graph.permute(&self.isomorphism)), false))
        } else if self.r == 2 {
            Ok((GIProverMessage::Isomorphism(invert_isomorphism(&self.isomorphism)), false))
        } else {
            Ok((GIProverMessage::Done, true))
        }
    }
}

/// The verifier of the protocol.
pub struct GIVerifier<'a> {
    /// The number of messages answered so far.
    pub r: u32,
    /// The bit that was drawn: the graph that the prover has to reach.
    pub b: bool,
    /// The graph that the prover committed to.
    pub random_perm: Graph,
    pub instance: &'a GraphPair,
}

impl<'a> Verifier for GIVerifier<'a> {
    type ProverMessage = GIProverMessage;

    type VerifierMessage = GIVerifierMessage;

    /// The verifier has nothing to say before the prover has committed
    /// itself: its opening message is an empty one.
    open spec fn opening(&self, next: Self, msg: GIVerifierMessage) -> bool {
        next == *self && msg.b == false
    }

    /// In its first round the verifier takes the graph that the prover
    /// commits to, draws a bit and sends it. From then on it takes a
    /// bijection on the vertices of that graph, and accepts where the graph,
    /// relabeled by it, has exactly the edges of the graph that the bit
    /// stands for. Any other message is a failure.
    open spec fn step(
        &self,
        msg: GIProverMessage,
        next: Self,
        out: Reply<GIVerifierMessage>,
    ) -> bool {
        let round = next_round(self.r);
        &&& next.r == round
        &&& next.instance == self.instance
        &&& if round == 1 {
            match msg {
                GIProverMessage::Graph(h) => {
                    &&& next.random_perm@ == h@
                    &&& out == Ok::<(GIVerifierMessage, bool), ProtocolError>(
                        (GIVerifierMessage { b: next.b }, false),
                    )
                },
                _ => {
                    &&& next.random_perm@ == self.random_perm@
                    &&& next.b == self.b
                    &&& out == Err::<(GIVerifierMessage, bool), ProtocolError>(
                        ProtocolError::UnexpectedMessage { round },
                    )
                },
            }
        } else {
            &&& next.random_perm@ == self.random_perm@
            &&& next.b == self.b
            &&& match msg {
                GIProverMessage::Isomorphism(sigma) if is_bijection(
                    sigma@,
                    self.random_perm@.n,
                ) => {
                    out == Ok::<(GIVerifierMessage, bool), ProtocolError>(
                        (
                            GIVerifierMessage { b: self.b },
                            self.random_perm@.permuted(sigma@).edges == self.instance.side(
                                self.b,
                            )@.edges,
                        ),
                    )
                },
                _ => out == Err::<(GIVerifierMessage, bool), ProtocolError>(
                    ProtocolError::UnexpectedMessage { round },
                ),
            }
        }
    }

    fn init(&mut self) -> (msg: GIVerifierMessage) {
        GIVerifierMessage { b: false }
    }

    fn handle(&mut self, msg: &GIProverMessage) -> (out: Reply<GIVerifierMessage>) {
        self.r = advance(self.r);
        if self.r == 1 {
            match msg {
                GIProverMessage::Graph(random_perm) => {
                    self.random_perm = random_perm.clone();
                    self.b = Bias::even().draw();
                    Ok((GIVerifierMessage { b: self.b }, false))
                },
                _ => Err(ProtocolError::UnexpectedMessage { round: self.r }),
            }
        } else {
            match msg {
                GIProverMessage::Isomorphism(isomorphism) => {
                    if !is_permutation(isomorphism, self.random_perm.n()) {
                        return Err(ProtocolError::UnexpectedMessage { round: self.r });
                    }
                    let image = self.random_perm.permute(isomorphism);
                    let accepted = image == *self.instance.graph(self.b);
                    Ok((GIVerifierMessage { b: self.b }, accepted))
                },
                _ => Err(ProtocolError::UnexpectedMessage { round: self.r }),
            }
        }
    }
}

/// Completeness: where the two graphs are isomorphic, a run of the two honest
/// roles, from their first states, ends with the verifier accepting, whatever
/// relabeling the prover and whatever bit the verifier draws.
pub proof fn law_gi_completeness(
    prover: GIProver,
    verifier: GIVerifier,
    prover_end: GIProver,
    verifier_end: GIVerifier,
    verdict: Verdict,
)
    requires
        prover.r == 0,
        verifier.r == 0,
        prover.instance == verifier.instance,
        prover.instance.g0.wf(),
        prover.instance.g1.wf(),
        prover.instance.g0@.isomorphic_to(prover.instance.g1@),
        exists|opened: GIVerifier, request: GIVerifierMessage| #[trigger]
            verifier.opening(opened, request) && run_ends(
                prover,
                opened,
                request,
                false,
                prover_end,
                verifier_end,
                verdict,
            ),
    ensures
        verdict == Ok::<bool, ProtocolError>(true),
{
    let g0 = prover.instance.g0;
    let g1 = prover.instance.g1;
    g0.lemma_view_wf();
    g1.lemma_view_wf();
    // whatever the prover commits to has an isomorphism to either graph
    assert forall|h: crate::graph::GraphView, b: bool| #[trigger]
        h.relabeling_of(g0@) implies h.isomorphic_to(#[trigger] prover.instance.side(b)@) by {
        law_relabeling_is_isomorphic(g0@, h);
        law_isomorphic_symmetric(g0@, h);
        crate::isomorphism::law_isomorphic_same_size(g0@, h);
        if b {
            law_isomorphic_transitive(h, g0@, g1@);
        }
    }
    reveal_with_fuel(run_ends, 4);
}

/// What guessing is worth: in a run of the guessing prover against the
/// verifier, from their first states, the verifier accepts exactly when the
/// graph that the prover guessed has the edges of the graph that the
/// verifier named. For two graphs with different edges that is when the guess
/// was the verifier's bit.
pub proof fn law_gi_guessing(
    prover: GIProverMalicious,
    verifier: GIVerifier,
    prover_end: GIProverMalicious,
    verifier_end: GIVerifier,
    verdict: Verdict,
)
    requires
        prover.r == 0,
        verifier.r == 0,
        prover.instance == verifier.instance,
        prover.instance.g0.wf(),
        prover.instance.g1.wf(),
        exists|opened: GIVerifier, request: GIVerifierMessage| #[trigger]
            verifier.opening(opened, request) && run_ends(
                prover,
                opened,
                request,
                false,
                prover_end,
                verifier_end,
                verdict,
            ),
    ensures
        exists|guess: bool| #[trigger]
            prover.p.allows(guess) && verdict == Ok::<bool, ProtocolError>(
                prover.instance.side(guess)@.edges == prover.instance.side(verifier_end.b)@.edges,
            ),
{
    prover.instance.g0.lemma_view_wf();
    prover.instance.g1.lemma_view_wf();
    // the inverse of the prover's bijection takes its graph back to the one
    // that it guessed
    assert forall|guess: bool, sigma: Seq<u32>| #[trigger]
        is_bijection(sigma, prover.instance.side(guess)@.n) implies {
        let g = prover.instance.side(guess)@;
        is_bijection(inverse(sigma), g.permuted(sigma).n) && g.permuted(sigma).permuted(
            inverse(sigma),
        ) == g
    } by {
        let g = prover.instance.side(guess)@;
        crate::isomorphism::law_inverse_maps_back(g, sigma, g.permuted(sigma));
    }
    reveal_with_fuel(run_ends, 4);
}

/// Soundness, as far as it is no matter of chance: where the two graphs are
/// not isomorphic, a graph on their vertices has an answer that the verifier
/// accepts for one of the two bits at most. Whatever a prover commits to, it
/// is lost if the verifier names the other graph.
pub proof fn law_gi_soundness(
    pair: GraphPair,
    committed: Graph,
    for_g0: Seq<u32>,
    for_g1: Seq<u32>,
)
    requires
        pair.g0.wf(),
        pair.g1.wf(),
        committed.wf(),
        committed@.n == pair.g0@.n,
        committed@.n == pair.g1@.n,
        !pair.g0@.isomorphic_to(pair.g1@),
        is_bijection(for_g0, committed@.n),
        is_bijection(for_g1, committed@.n),
    ensures
        !(committed@.permuted(for_g0).edges == pair.side(false)@.edges && committed@.permuted(
            for_g1,
        ).edges == pair.side(true)@.edges),
{
    let h = committed@;
    committed.lemma_view_wf();
    pair.g0.lemma_view_wf();
    pair.g1.lemma_view_wf();
    if h.permuted(for_g0).edges == pair.g0@.edges && h.permuted(for_g1).edges == pair.g1@.edges {
        assert(h.permuted(for_g0) == pair.g0@);
        assert(h.permuted(for_g1) == pair.g1@);
        assert(h.maps_onto(for_g0, pair.g0@));
        assert(h.maps_onto(for_g1, pair.g1@));
        law_isomorphic_symmetric(h, pair.g0@);
        law_isomorphic_transitive(pair.g0@, h, pair.g1@);
    }
}

} // verus!
