//! The failures that the library reports.

use vstd::prelude::*;
use crate::graph::NodeId;

verus! {

/// The failures of a layer operation.
#[derive(Clone, Copy, Debug, PartialEq, Eq, Structural)]
pub enum LayerError {
    /// A layer got another number of inputs or outputs than it takes.
    Arity,
    /// The input shapes of a layer differ in their number of variables.
    Shape,
    /// The lookup argument yielded no claim.
    NoClaims,
    /// The proof is of another kind than the layer.
    VariantMismatch,
    /// The layer is not one that this library proves.
    Unsupported,
    /// The verifier holds no challenges for the range table.
    MissingChallenges,
}

/// The failures of claim routing.
#[derive(Clone, Copy, Debug, PartialEq, Eq, Structural)]
pub enum RoutingError {
    /// No claims are recorded for the node.
    NoClaimsForNode { node: NodeId },
    /// The node has `found` claims, and the claim `index` was asked for.
    NotEnoughClaims { node: NodeId, index: usize, found: usize },
    /// The model has `available` output claims, and the claim `output` was
    /// asked for.
    NoOutputClaim { output: usize, available: usize },
    /// No node takes an input of the model.
    NoInputClaims,
    /// The inputs of the model that the nodes take are not numbered
    /// `0, 1, .., k - 1`.
    IncompleteInputClaims,
}

} // verus!
