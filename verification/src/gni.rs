//! The interactive proof that two graphs are not isomorphic.
//!
//! The verifier relabels one of the two graphs at random and sends the
//! result; the prover has to say which of the two it came from.

use vstd::prelude::*;
use crate::graph::{Graph, GraphPair};
use crate::isomorphism::{
    law_isomorphic_symmetric, law_isomorphic_transitive, law_relabeling_is_isomorphic,
};
use crate::protocol::{run_ends, ProtocolError, Prover, Reply, Verdict, Verifier};
use crate::random::Bias;
use crate::search::are_isomorphic;

verus! {

/// What the prover sends: its guess of the verifier's bit.
pub struct GNIProverMessage {
    pub b: bool,
}

/// What the verifier sends: a relabeling of the graph that its bit stands
/// for.
pub struct GNIVerifierMessage {
    pub gb: Graph,
}

/// The prover that does what the protocol asks.
pub struct GNIProver<'a> {
    /// Whether the guess has been sent.
    pub sent_guess: bool,
    pub instance: &'a GraphPair,
}

impl<'a> Prover for GNIProver<'a> {
    type ProverMessage = GNIProverMessage;

    type VerifierMessage = GNIVerifierMessage;

    open spec fn rounds_left(&self) -> nat {
        if self.sent_guess {
            0
        } else {
            1
        }
    }

    /// The prover answers the graph that it receives with a set bit where
    /// that graph is isomorphic to `g1`, and with a clear one where it is
    /// not. Once it has sent its guess it closes the conversation.
    open spec fn step(
        &self,
        msg: GNIVerifierMessage,
        next: Self,
        out: Reply<GNIProverMessage>,
    ) -> bool {
        &&& next.sent_guess
        &&& next.instance == self.instance
        &&& if self.sent_guess {
            out == Ok::<(GNIProverMessage, bool), ProtocolError>(
                (GNIProverMessage { b: false }, true),
            )
        } else {
            out == Ok::<(GNIProverMessage, bool), ProtocolError>(
                (GNIProverMessage { b: msg.gb@.isomorphic_to(self.instance.g1@) }, false),
            )
        }
    }

    fn handle(&mut self, msg: &GNIVerifierMessage) -> (out: Reply<GNIProverMessage>) {
        if self.sent_guess {
            Ok((GNIProverMessage { b: false }, true))
        } else {
            self.sent_guess = true;
            Ok((GNIProverMessage { b: are_isomorphic(&msg.gb, &self.instance.g1) }, false))
        }
    }
}

/// A prover that does not look at the graph it receives, and guesses.
pub struct GNIProverMalicious {
    /// Whether the guess has been sent.
    pub sent_guess: bool,
    /// The chance with which the prover guesses a set bit.
    pub p: Bias,
}

impl Prover for GNIProverMalicious {
    type ProverMessage = GNIProverMessage;

    type VerifierMessage = GNIVerifierMessage;

    open spec fn rounds_left(&self) -> nat {
        if self.sent_guess {
            0
        } else {
            1
        }
    }

    /// The prover answers with a bit that its bias allows, whatever graph it
    /// receives. Once it has sent its guess it closes the conversation.
    open spec fn step(
        &self,
        msg: GNIVerifierMessage,
        next: Self,
        out: Reply<GNIProverMessage>,
    ) -> bool {
        &&& next.sent_guess
        &&& next.p == self.p
        &&& if self.sent_guess {
            out == Ok::<(GNIProverMessage, bool), ProtocolError>(
                (GNIProverMessage { b: false }, true),
            )
        } else {
            out matches Ok((guess, false)) && self.p.allows(guess.b)
        }
    }

    fn handle(&mut self, msg: &GNIVerifierMessage) -> (out: Reply<GNIProverMessage>) {
        if self.sent_guess {
            Ok((GNIProverMessage { b: false }, true))
        } else {
            self.sent_guess = true;
            Ok((GNIProverMessage { b: self.p.draw() }, false))
        }
    }
}

/// The verifier of the protocol.
pub struct GNIVerifier<'a> {
    /// The bit that was drawn: the graph that was relabeled and sent.
    pub b: bool,
    pub instance: &'a GraphPair,
}

impl<'a> Verifier for GNIVerifier<'a> {
    type ProverMessage = GNIProverMessage;

    type VerifierMessage = GNIVerifierMessage;

    /// The verifier draws a bit and sends a relabeling of the graph that the
    /// bit stands for.
    open spec fn opening(&self, next: Self, msg: GNIVerifierMessage) -> bool {
        &&& next.instance == self.instance
        &&& msg.gb@.relabeling_of(self.instance.side(next.b)@)
    }

    /// The verifier accepts a guess that is its bit. What it sends back is an
    /// empty graph.
    open spec fn step(
        &self,
        msg: GNIProverMessage,
        next: Self,
        out: Reply<GNIVerifierMessage>,
    ) -> bool {
        &&& next == *self
        &&& out matches Ok((reply, accepted)) && accepted == (msg.b == self.b) && reply.gb@.n == 0
            && reply.gb@.edges == Set::<(u32, u32)>::empty()
    }

    fn init(&mut self) -> (msg: GNIVerifierMessage) {
        self.b = Bias::even().draw();
        GNIVerifierMessage { gb: self.instance.graph(self.b).random_permutation() }
    }

    fn handle(&mut self, msg: &GNIProverMessage) -> (out: Reply<GNIVerifierMessage>) {
        Ok((GNIVerifierMessage { gb: Graph::empty() }, msg.b == self.b))
    }
}

/// Completeness: where the two graphs are not isomorphic, a run of the two
/// honest roles, from their first states, ends with the verifier accepting,
/// whatever bit and whatever relabeling the verifier draws.
pub proof fn law_gni_completeness(
    prover: GNIProver,
    verifier: GNIVerifier,
    prover_end: GNIProver,
    verifier_end: GNIVerifier,
    verdict: Verdict,
)
    requires
        !prover.sent_guess,
        prover.instance == verifier.instance,
        prover.instance.g0.wf(),
        prover.instance.g1.wf(),
        !prover.instance.g0@.isomorphic_to(prover.instance.g1@),
        exists|opened: GNIVerifier, request: GNIVerifierMessage| #[trigger]
            verifier.opening(opened, request) && run_ends(
                prover,
                opened,
                request,
                false,
                prover_end,
                verifier_end,
                verdict,
            ),
    ensures
        verdict == Ok::<bool, ProtocolError>(true),
{
    let g0 = prover.instance.g0;
    let g1 = prover.instance.g1;
    g0.lemma_view_wf();
    g1.lemma_view_wf();
    let (opened, request) = choose|opened: GNIVerifier, request: GNIVerifierMessage| #[trigger]
        verifier.opening(opened, request) && run_ends(
            prover,
            opened,
            request,
            false,
            prover_end,
            verifier_end,
            verdict,
        );
    // the prover's guess is the verifier's bit
    let guess = request.gb@.isomorphic_to(g1@);
    assert(guess == opened.b) by {
        let drawn = prover.instance.side(opened.b)@;
        law_relabeling_is_isomorphic(drawn, request.gb@);
        law_isomorphic_symmetric(drawn, request.gb@);
        if !opened.b && guess {
            law_isomorphic_transitive(g0@, request.gb@, g1@);
        }
    }
    reveal_with_fuel(run_ends, 3);
}

/// Where the two graphs are isomorphic, the honest prover has nothing to go
/// by: it takes every graph that it receives for a relabeling of `g1`, so the
/// verifier accepts exactly when `g1` is what it drew.
pub proof fn law_gni_isomorphic_graphs(
    prover: GNIProver,
    verifier: GNIVerifier,
    prover_end: GNIProver,
    verifier_end: GNIVerifier,
    verdict: Verdict,
)
    requires
        !prover.sent_guess,
        prover.instance == verifier.instance,
        prover.instance.g0.wf(),
        prover.instance.g1.wf(),
        prover.instance.g0@.isomorphic_to(prover.instance.g1@),
        exists|opened: GNIVerifier, request: GNIVerifierMessage| #[trigger]
            verifier.opening(opened, request) && run_ends(
                prover,
                opened,
                request,
                false,
                prover_end,
                verifier_end,
                verdict,
            ),
    ensures
        verdict == Ok::<bool, ProtocolError>(verifier_end.b),
{
    let g0 = prover.instance.g0;
    let g1 = prover.instance.g1;
    g0.lemma_view_wf();
    g1.lemma_view_wf();
    let (opened, request) = choose|opened: GNIVerifier, request: GNIVerifierMessage| #[trigger]
        verifier.opening(opened, request) && run_ends(
            prover,
            opened,
            request,
            false,
            prover_end,
            verifier_end,
            verdict,
        );
    assert(request.gb@.isomorphic_to(g1@)) by {
        let drawn = prover.instance.side(opened.b)@;
        law_relabeling_is_isomorphic(drawn, request.gb@);
        law_isomorphic_symmetric(drawn, request.gb@);
        crate::isomorphism::law_isomorphic_same_size(drawn, request.gb@);
        if !opened.b {
            law_isomorphic_transitive(request.gb@, g0@, g1@);
        }
    }
    reveal_with_fuel(run_ends, 3);
}

/// What guessing is worth: in a run of the guessing prover against the
/// verifier, from their first states, the verifier accepts exactly when the
/// bit that the prover drew is the verifier's.
pub proof fn law_gni_guessing(
    prover: GNIProverMalicious,
    verifier: GNIVerifier,
    prover_end: GNIProverMalicious,
    verifier_end: GNIVerifier,
    verdict: Verdict,
)
    requires
        !prover.sent_guess,
        exists|opened: GNIVerifier, request: GNIVerifierMessage| #[trigger]
            verifier.opening(opened, request) && run_ends(
                prover,
                opened,
                request,
                false,
                prover_end,
                verifier_end,
                verdict,
            ),
    ensures
        exists|guess: bool| #[trigger]
            prover.p.allows(guess) && verdict == Ok::<bool, ProtocolError>(
                guess == verifier_end.b,
            ),
{
    reveal_with_fuel(run_ends, 3);
}

/// Soundness, as far as it is no matter of chance: where the two graphs are
/// isomorphic, every graph that the verifier can send for one bit it can send
/// for the other, so what the prover receives does not depend on the bit.
pub proof fn law_gni_soundness(pair: GraphPair, sent: Graph)
    requires
        pair.g0.wf(),
        pair.g1.wf(),
        pair.g0@.isomorphic_to(pair.g1@),
    ensures
        sent@.relabeling_of(pair.side(false)@) <==> sent@.relabeling_of(pair.side(true)@),
{
    let g0 = pair.g0@;
    let g1 = pair.g1@;
    pair.g0.lemma_view_wf();
    pair.g1.lemma_view_wf();
    crate::isomorphism::law_isomorphic_same_size(g0, g1);
    law_isomorphic_symmetric(g0, g1);
    if sent@.relabeling_of(g0) {
        crate::isomorphism::lemma_relabeling_of_isomorphic(g0, g1, sent@);
    }
    if sent@.relabeling_of(g1) {
        crate::isomorphism::lemma_relabeling_of_isomorphic(g1, g0, sent@);
    }
}

} // verus!
