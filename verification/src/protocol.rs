//! The claims of a requantization layer's proving and verification steps.
//!
//! The lookup argument and the same-polynomial accumulator run outside this
//! library. What they yield comes in as plain claims; what they are to be
//! given goes out the same way.

use vstd::prelude::*;
use crate::claim::{copy_point, Claim};
use crate::error::LayerError;
use crate::field::{lift, Fp};
use crate::layer::{Layer, LayerCtx, RequantCtx};
use crate::recombine::values_of;
use crate::requant::Requant;

verus! {

/// What the claim logic reads of a requantization proof: the claims that
/// the lookup argument yields, one per column, all at one point.
#[derive(Debug)]
pub struct RequantProof {
    pub lookup_claims: Vec<Claim<Fp>>,
}

/// The kinds of layer proof.
#[derive(Debug)]
pub enum LayerProof {
    Dense,
    Convolution,
    Activation,
    Requant(RequantProof),
    Pooling,
}

/// The claims of one step of a layer.
#[derive(Debug)]
pub struct LayerStep {
    /// The claims about the layer's output polynomial that go to the
    /// same-polynomial accumulator, in order.
    pub accumulated: Vec<Claim<Fp>>,
    /// The claims about the layer's inputs, one per input.
    pub input_claims: Vec<Claim<Fp>>,
}

/// The values of a list of claims.
pub open spec fn evals_of(claims: Seq<Claim<Fp>>) -> Seq<Fp> {
    Seq::new(claims.len(), |i: int| claims[i].eval)
}

/// Whether a layer context and a proof are of the same kind.
pub open spec fn same_kind(ctx: LayerCtx, proof: LayerProof) -> bool {
    match (ctx, proof) {
        (LayerCtx::Dense, LayerProof::Dense) => true,
        (LayerCtx::Convolution, LayerProof::Convolution) => true,
        (LayerCtx::Activation, LayerProof::Activation) => true,
        (LayerCtx::Requant(_), LayerProof::Requant(_)) => true,
        (LayerCtx::Pooling, LayerProof::Pooling) => true,
        _ => false,
    }
}

impl Requant {
    /// The step that the lookup claims and the claim about the output
    /// determine: the accumulator gets the claim about the output, then the
    /// first lookup claim moved down by half the range; the one input claim
    /// is at the lookup's point and has the recombined value.
    pub open spec fn is_step(&self, last_claim: Claim<Fp>, lookups: Seq<Claim<Fp>>, step: LayerStep) -> bool {
        &&& step.accumulated@.len() == 2
        &&& step.accumulated@[0].point@ == last_claim.point@
        &&& step.accumulated@[0].eval == last_claim.eval
        &&& step.accumulated@[1].point@ == lookups[0].point@
        &&& step.accumulated@[1].eval.wf()
        &&& step.accumulated@[1].eval.val() == lift(lookups[0].eval.val() - self.half())
        &&& step.input_claims@.len() == 1
        &&& step.input_claims@[0].point@ == lookups[0].point@
        &&& step.input_claims@[0].eval.wf()
        &&& step.input_claims@[0].eval.val() == lift(
            self.recombine_int(values_of(evals_of(lookups))),
        )
    }

    /// What a step returns: the step above where the lookup gave a claim,
    /// the error `NoClaims` where it gave none.
    pub open spec fn is_step_result(
        &self,
        last_claim: Claim<Fp>,
        lookups: Seq<Claim<Fp>>,
        r: Result<LayerStep, LayerError>,
    ) -> bool {
        match r {
            Ok(step) => lookups.len() >= 1 && self.is_step(last_claim, lookups, step),
            Err(e) => lookups.len() == 0 && e == LayerError::NoClaims,
        }
    }

    /// The claims of a step, from the claim about the output and the claims
    /// of the lookup argument.
    pub fn step_claims(&self, last_claim: &Claim<Fp>, lookup_claims: &[Claim<Fp>]) -> (r: Result<
        LayerStep,
        LayerError,
    >)
        requires
            self.wf(),
        ensures
            self.is_step_result(*last_claim, lookup_claims@, r),
    {
        if lookup_claims.len() == 0 {
            return Err(LayerError::NoClaims);
        }
        let mut evals: Vec<Fp> = Vec::new();
        let mut i: usize = 0;
        while i < lookup_claims.len()
            invariant
                i <= lookup_claims@.len(),
                evals@.len() == i,
                forall|j: int| 0 <= j < i ==> evals@[j] == lookup_claims@[j].eval,
            decreases lookup_claims@.len() - i,
        {
            evals.push(lookup_claims[i].eval);
            i = i + 1;
        }
        assert(evals@ =~= evals_of(lookup_claims@));
        let combined = self.recombine_claims(evals.as_slice());
        let first = &lookup_claims[0];
        assert(first.eval == evals_of(lookup_claims@)[0]);
        let half = Fp::new((self.after_range / 2) as u64);
        let corrected = Claim::new(copy_point(&first.point), first.eval.sub(half));
        let mut accumulated: Vec<Claim<Fp>> = Vec::new();
        accumulated.push(last_claim.duplicate());
        accumulated.push(corrected);
        let mut input_claims: Vec<Claim<Fp>> = Vec::new();
        input_claims.push(Claim::new(copy_point(&first.point), combined));
        Ok(LayerStep { accumulated, input_claims })
    }

    /// The prover's step: the claims for the accumulator and the claim
    /// about the layer's input, by the parameters of the context.
    pub fn prove_step(
        &self,
        last_claim: &Claim<Fp>,
        lookup_claims: &[Claim<Fp>],
        requant_info: &RequantCtx,
    ) -> (r: Result<LayerStep, LayerError>)
        requires
            requant_info.requant.wf(),
        ensures
            requant_info.requant.is_step_result(*last_claim, lookup_claims@, r),
    {
        requant_info.requant.step_claims(last_claim, lookup_claims)
    }

    /// Proves the layer for the claim about its one output.
    pub fn prove(&self, ctx: &RequantCtx, last_claims: &Vec<&Claim<Fp>>, lookup_claims: &[Claim<Fp>]) -> (r:
        Result<LayerStep, LayerError>)
        requires
            ctx.requant.wf(),
            last_claims@.len() >= 1,
        ensures
            ctx.requant.is_step_result(*last_claims@[0], lookup_claims@, r),
    {
        self.prove_step(last_claims[0], lookup_claims, ctx)
    }
}

impl RequantCtx {
    /// Number of lookup instances of this layer: its number of columns.
    pub fn num_instances(&self) -> (k: usize)
        requires
            self.requant.wf(),
        ensures
            k == self.requant.num_columns_spec(),
    {
        self.requant.num_columns()
    }

    /// The verifier's step, from the claims that the verification of the
    /// lookup proof gave.
    pub fn verify_requant(&self, last_claim: &Claim<Fp>, proof: &RequantProof) -> (r: Result<
        LayerStep,
        LayerError,
    >)
        requires
            self.requant.wf(),
        ensures
            self.requant.is_step_result(*last_claim, proof.lookup_claims@, r),
    {
        self.requant.step_claims(last_claim, proof.lookup_claims.as_slice())
    }

    /// What `verify` returns: without challenges for the range table the
    /// error `MissingChallenges`, else the verifier's step.
    pub open spec fn is_verify_result(
        &self,
        proof: RequantProof,
        last_claim: Claim<Fp>,
        challenges: Option<(Fp, Fp)>,
        r: Result<LayerStep, LayerError>,
    ) -> bool {
        if challenges is None {
            r == Err::<LayerStep, LayerError>(LayerError::MissingChallenges)
        } else {
            self.requant.is_step_result(last_claim, proof.lookup_claims@, r)
        }
    }

    /// Verifies the layer for the claim about its one output.
    pub fn verify(
        &self,
        proof: &RequantProof,
        last_claims: &[&Claim<Fp>],
        challenges: Option<(Fp, Fp)>,
    ) -> (r: Result<LayerStep, LayerError>)
        requires
            self.requant.wf(),
            last_claims@.len() >= 1,
        ensures
            self.is_verify_result(*proof, *last_claims@[0], challenges, r),
    {
        match challenges {
            None => Err(LayerError::MissingChallenges),
            Some(_) => self.verify_requant(last_claims[0], proof),
        }
    }
}

impl Layer {
    /// The claims of a layer that needs no proof: one claim with an empty
    /// point and the value zero.
    pub fn default_claims(&self) -> (r: Vec<Claim<Fp>>)
        requires
            *self is Flatten,
        ensures
            r@.len() == 1,
            r@[0].point@.len() == 0,
            r@[0].eval.val() == 0,
            r@[0].eval.wf(),
    {
        let mut r: Vec<Claim<Fp>> = Vec::new();
        r.push(Claim::new(Vec::new(), Fp::zero()));
        r
    }
}

impl LayerCtx {
    /// Verifies a layer proof against this context. A proof of another
    /// kind than the context is refused before anything else is looked at;
    /// of the kinds of layer, requantization is verified here.
    pub fn verify(
        &self,
        layer_proof: &LayerProof,
        last_claims: &[&Claim<Fp>],
        challenges: Option<(Fp, Fp)>,
    ) -> (r: Result<LayerStep, LayerError>)
        requires
            !(*self is Flatten),
            (*self is Requant && *layer_proof is Requant) ==> {
                &&& self->Requant_0.requant.wf()
                &&& last_claims@.len() >= 1
            },
        ensures
            !same_kind(*self, *layer_proof) ==> r == Err::<LayerStep, LayerError>(
                LayerError::VariantMismatch,
            ),
            same_kind(*self, *layer_proof) && !(*self is Requant) ==> r == Err::<LayerStep, LayerError>(
                LayerError::Unsupported,
            ),
            (*self is Requant && *layer_proof is Requant) ==> self->Requant_0.is_verify_result(
                layer_proof->Requant_0,
                *last_claims@[0],
                challenges,
                r,
            ),
    {
        match self {
            LayerCtx::Requant(requant_ctx) => {
                if let LayerProof::Requant(requant_proof) = layer_proof {
                    requant_ctx.verify(requant_proof, last_claims, challenges)
                } else {
                    Err(LayerError::VariantMismatch)
                }
            },
            LayerCtx::Dense => {
                if let LayerProof::Dense = layer_proof {
                    Err(LayerError::Unsupported)
                } else {
                    Err(LayerError::VariantMismatch)
                }
            },
            LayerCtx::Convolution => {
                if let LayerProof::Convolution = layer_proof {
                    Err(LayerError::Unsupported)
                } else {
                    Err(LayerError::VariantMismatch)
                }
            },
            LayerCtx::Activation => {
                if let LayerProof::Activation = layer_proof {
                    Err(LayerError::Unsupported)
                } else {
                    Err(LayerError::VariantMismatch)
                }
            },
            LayerCtx::Pooling => {
                if let LayerProof::Pooling = layer_proof {
                    Err(LayerError::Unsupported)
                } else {
                    Err(LayerError::VariantMismatch)
                }
            },
            LayerCtx::Flatten => Err(LayerError::VariantMismatch),
        }
    }
}

/// Prover and verifier agree: from the same lookup claims and the same
/// claim about the output, under the same parameters, both steps succeed
/// or both fail, and where they succeed their input claims have the same
/// point and the same value, as have the claims they hand to the
/// accumulator.
pub proof fn lemma_prove_verify_agree(
    q: Requant,
    last_claim: Claim<Fp>,
    lookups: Seq<Claim<Fp>>,
    proved: Result<LayerStep, LayerError>,
    verified: Result<LayerStep, LayerError>,
)
    requires
        q.is_step_result(last_claim, lookups, proved),
        q.is_step_result(last_claim, lookups, verified),
    ensures
        proved is Ok <==> verified is Ok,
        proved is Err ==> proved->Err_0 == verified->Err_0,
        proved is Ok ==> {
            let p = proved->Ok_0;
            let v = verified->Ok_0;
            &&& p.input_claims@.len() == v.input_claims@.len()
            &&& p.input_claims@[0].point@ == v.input_claims@[0].point@
            &&& p.input_claims@[0].eval == v.input_claims@[0].eval
            &&& p.accumulated@.len() == v.accumulated@.len()
            &&& forall|i: int|
                0 <= i < p.accumulated@.len() ==> p.accumulated@[i].point@ == v.accumulated@[i].point@
                    && p.accumulated@[i].eval == v.accumulated@[i].eval
        },
{
}

} // verus!
