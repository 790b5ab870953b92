//! Provable requantization for a quantized-inference prover: the layer graph,
//! the routing of evaluation claims between nodes, and the requantization
//! layer with its limb decomposition and claim recombination.

pub mod claim;
pub mod decomposition;
pub mod error;
pub mod field;
pub mod graph;
pub mod inputs;
pub mod layer;
pub mod numeric;
pub mod protocol;
pub mod recombine;
pub mod requant;
pub mod witness;
