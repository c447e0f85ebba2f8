//! The two roles of an interactive proof and the engine that makes them talk.

use vstd::prelude::*;

verus! {

/// Why a run of an interactive proof broke off without a verdict.
#[derive(Debug, Clone, Copy, PartialEq, Eq, Structural)]
pub enum ProtocolError {
    /// A role received a message of a shape that it does not expect in the
    /// given round of its own.
    UnexpectedMessage { round: u32 },
    /// The prover was asked for an isomorphism between two graphs that have
    /// none.
    IsomorphismNotFound,
}

/// What a role hands back from one step: its message and a flag, or the
/// reason why the run cannot go on.
pub type Reply<M> = Result<(M, bool), ProtocolError>;

/// How a run ends: with the verifier's last word, or with the reason why it
/// broke off.
pub type Verdict = Result<bool, ProtocolError>;

/// The number of the round that follows round `r`. The count stops at the
/// largest number it can hold.
pub open spec fn next_round(r: u32) -> u32 {
    if r < u32::MAX {
        (r + 1) as u32
    } else {
        r
    }
}

/// The number of the round that follows round `r`.
pub fn advance(r: u32) -> (round: u32)
    ensures
        round == next_round(r),
{
    if r < u32::MAX {
        r + 1
    } else {
        r
    }
}

/// The proving side of an interactive proof.
///
/// The prover answers each message of the verifier, and with its answer says
/// whether the conversation is over. It alone ends a run.
pub trait Prover: Sized {
    type ProverMessage;

    type VerifierMessage;

    /// The state is one that the role can be in. Where a prover does not say
    /// otherwise, every state is.
    open spec fn inv(&self) -> bool {
        true
    }

    /// A bound on the number of answers that this prover will still give
    /// before one that ends the conversation.
    open spec fn rounds_left(&self) -> nat {
        0
    }

    /// In this state and on the message `msg`, the prover may go over to the
    /// state `next` and answer `out`. Where a prover does not say otherwise,
    /// it may do anything.
    open spec fn step(
        &self,
        msg: Self::VerifierMessage,
        next: Self,
        out: Reply<Self::ProverMessage>,
    ) -> bool {
        true
    }

    /// Answers a message of the verifier. The flag beside the answer is set
    /// when the conversation is over.
    fn handle(&mut self, msg: &Self::VerifierMessage) -> (out: Reply<Self::ProverMessage>)
        requires
            old(self).inv(),
        ensures
            final(self).inv(),
            old(self).step(*msg, *final(self), out),
            out matches Ok((_, false)) ==> final(self).rounds_left() < old(self).rounds_left(),
    ;
}

/// The verifying side of an interactive proof.
///
/// The verifier speaks first. It answers each message of the prover, and with
/// its answer says whether, as things stand, it accepts the proof.
pub trait Verifier: Sized {
    type ProverMessage;

    type VerifierMessage;

    /// The state is one that the role can be in. Where a verifier does not
    /// say otherwise, every state is.
    open spec fn inv(&self) -> bool {
        true
    }

    /// In this state the verifier may open the conversation by going over to
    /// the state `next` and sending `msg`. Where a verifier does not say
    /// otherwise, it may open in any way.
    open spec fn opening(&self, next: Self, msg: Self::VerifierMessage) -> bool {
        true
    }

    /// In this state and on the message `msg`, the verifier may go over to the
    /// state `next` and answer `out`. Where a verifier does not say otherwise,
    /// it may do anything.
    open spec fn step(
        &self,
        msg: Self::ProverMessage,
        next: Self,
        out: Reply<Self::VerifierMessage>,
    ) -> bool {
        true
    }

    /// Opens the conversation.
    fn init(&mut self) -> (msg: Self::VerifierMessage)
        requires
            old(self).inv(),
        ensures
            final(self).inv(),
            old(self).opening(*final(self), msg),
    ;

    /// Answers a message of the prover. The flag beside the answer is set
    /// when the verifier accepts.
    fn handle(&mut self, msg: &Self::ProverMessage) -> (out: Reply<Self::VerifierMessage>)
        requires
            old(self).inv(),
        ensures
            final(self).inv(),
            old(self).step(*msg, *final(self), out),
    ;
}

/// The run is over with the roles in the states `p` and `v` and with the
/// outcome `outcome`: these are the last states and the verdict.
pub open spec fn stops<P, V>(
    p: P,
    v: V,
    outcome: Verdict,
    p_end: P,
    v_end: V,
    verdict: Verdict,
) -> bool {
    p_end == p && v_end == v && verdict == outcome
}

/// A conversation that stands at the prover in state `p`, the verifier in
/// state `v`, the message `request` on its way to the prover and the
/// verifier's last word `accepted`, can end with the roles in the states
/// `p_end` and `v_end` and with the outcome `verdict`.
///
/// The prover's answer ends the run when it fails or carries the closing flag:
/// the outcome is then the failure, or the verifier's last word, and the
/// answer is not delivered. An answer without the flag goes to the verifier,
/// whose failure ends the run, and whose reply and flag otherwise take the
/// place of `request` and `accepted`.
pub open spec fn run_ends<P, V>(
    p: P,
    v: V,
    request: P::VerifierMessage,
    accepted: bool,
    p_end: P,
    v_end: V,
    verdict: Verdict,
) -> bool where
    P: Prover,
    V: Verifier<ProverMessage = P::ProverMessage, VerifierMessage = P::VerifierMessage>,

    decreases p.rounds_left(),
{
    exists|p_next: P, out: Reply<P::ProverMessage>| #[trigger]
        p.step(request, p_next, out) && match out {
            Err(e) => stops(p_next, v, Err(e), p_end, v_end, verdict),
            Ok((_, true)) => stops(p_next, v, Ok(accepted), p_end, v_end, verdict),
            Ok((reply, false)) => exists|v_next: V, back: Reply<P::VerifierMessage>| #[trigger]
                v.step(reply, v_next, back) && match back {
                    Err(e) => stops(p_next, v_next, Err(e), p_end, v_end, verdict),
                    Ok((next, flag)) => p_next.rounds_left() < p.rounds_left() && run_ends(
                        p_next,
                        v_next,
                        next,
                        flag,
                        p_end,
                        v_end,
                        verdict,
                    ),
                },
        }
}

/// Runs one interactive proof from its opening to its end.
///
/// The verifier opens. Then the prover answers the verifier's latest message,
/// and the verifier the prover's, in turn, until the prover closes the
/// conversation; the result is the flag that came with the verifier's last
/// answer, or `false` where the verifier never answered. The run breaks off
/// with the failure of the first role that fails.
pub fn run_interactive_proof<P, V>(prover: &mut P, verifier: &mut V) -> (verdict: Verdict) where
    P: Prover,
    V: Verifier<ProverMessage = P::ProverMessage, VerifierMessage = P::VerifierMessage>,

    requires
        old(prover).inv(),
        old(verifier).inv(),
    ensures
        final(prover).inv(),
        final(verifier).inv(),
        exists|opened: V, request: P::VerifierMessage| #[trigger]
            old(verifier).opening(opened, request) && run_ends(
                *old(prover),
                opened,
                request,
                false,
                *final(prover),
                *final(verifier),
                verdict,
            ),
{
    let mut request = verifier.init();
    let mut accepted = false;
    let ghost p_start = *prover;
    let ghost v_start = *verifier;
    let ghost first = request;
    loop
        invariant
            prover.inv(),
            verifier.inv(),
            p_start == *old(prover),
            old(verifier).opening(v_start, first),
            forall|p_end: P, v_end: V, verdict: Verdict| #[trigger]
                run_ends(*prover, *verifier, request, accepted, p_end, v_end, verdict)
                    ==> run_ends(p_start, v_start, first, false, p_end, v_end, verdict),
        decreases prover.rounds_left(),
    {
        let ghost p = *prover;
        let ghost v = *verifier;
        let out = prover.handle(&request);
        assert(p.step(request, *prover, out));
        match out {
            Err(e) => {
                assert(run_ends(p, v, request, accepted, *prover, *verifier, Err(e)));
                return Err(e);
            },
            Ok((reply, done)) => {
                if done {
                    assert(run_ends(p, v, request, accepted, *prover, *verifier, Ok(accepted)));
                    return Ok(accepted);
                }
                let back = verifier.handle(&reply);
                assert(v.step(reply, *verifier, back));
                match back {
                    Err(e) => {
                        assert(run_ends(p, v, request, accepted, *prover, *verifier, Err(e)));
                        return Err(e);
                    },
                    Ok((next, flag)) => {
                        assert forall|p_end: P, v_end: V, verdict: Verdict| #[trigger]
                            run_ends(*prover, *verifier, next, flag, p_end, v_end, verdict)
                            implies run_ends(
                            p_start,
                            v_start,
                            first,
                            false,
                            p_end,
                            v_end,
                            verdict,
                        ) by {
                            assert(run_ends(p, v, request, accepted, p_end, v_end, verdict));
                        }
                        request = next;
                        accepted = flag;
                    },
                }
            },
        }
    }
}

} // verus!
