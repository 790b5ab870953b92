//! The layer graph: nodes, the wires between them, and the routing of
//! claims along the wires.

use std::collections::HashMap;
use vstd::prelude::*;
use crate::claim::Claim;
use crate::error::RoutingError;
use crate::layer::{Layer, LayerCtx};

verus! {

broadcast use vstd::std_specs::hash::group_hash_axioms;

/// Identifies a node of the graph.
pub type NodeId = usize;

/// One end of a wire: the wire `index` of `node`, or, without a node, the
/// model's own input or output `index`.
#[derive(Clone, Copy, Debug, PartialEq, Eq, Structural)]
pub struct Edge {
    pub node: Option<NodeId>,
    pub index: usize,
}

impl Default for Edge {
    fn default() -> (r: Self)
        ensures
            r.node is None,
            r.index == 0,
    {
        Edge { node: None, index: 0 }
    }
}

impl Edge {
    /// The wire `index` of `node`.
    pub fn new(node: NodeId, index: usize) -> (r: Self)
        ensures
            r.node == Some(node),
            r.index == index,
    {
        Edge { node: Some(node), index }
    }

    /// The model's own input or output `index`.
    pub fn new_at_edge(index: usize) -> (r: Self)
        ensures
            r.node is None,
            r.index == index,
    {
        Edge { node: None, index }
    }
}

/// The edges that one output of a node feeds.
#[derive(Clone, Debug, PartialEq, Eq)]
pub struct OutputWire {
    pub edges: Vec<Edge>,
}

impl Default for OutputWire {
    fn default() -> (r: Self)
        ensures
            r.edges@.len() == 0,
    {
        OutputWire { edges: Vec::new() }
    }
}

/// A node of a model: an operation and its wires.
#[derive(Debug)]
pub struct Node {
    pub inputs: Vec<Edge>,
    pub outputs: Vec<OutputWire>,
    pub operation: Layer,
}

/// The proving-side twin of a node: the same wires, with the layer's
/// context.
#[derive(Debug)]
pub struct NodeCtx {
    pub inputs: Vec<Edge>,
    pub outputs: Vec<OutputWire>,
    pub ctx: LayerCtx,
}

/// The wires of a node.
pub trait NodeEgdes {
    /// The input edges, in order.
    fn inputs(&self) -> &[Edge];

    /// The output wires, in order.
    fn outputs(&self) -> &[OutputWire];
}

impl NodeEgdes for Node {
    fn inputs(&self) -> (r: &[Edge])
        ensures
            r@ == self.inputs@,
    {
        self.inputs.as_slice()
    }

    fn outputs(&self) -> (r: &[OutputWire])
        ensures
            r@ == self.outputs@,
    {
        self.outputs.as_slice()
    }
}

impl NodeEgdes for NodeCtx {
    fn inputs(&self) -> (r: &[Edge])
        ensures
            r@ == self.inputs@,
    {
        self.inputs.as_slice()
    }

    fn outputs(&self) -> (r: &[OutputWire])
        ensures
            r@ == self.outputs@,
    {
        self.outputs.as_slice()
    }
}

impl Node {
    /// A node with the given inputs and operation, and as many output
    /// wires, still unconnected, as the operation has outputs.
    pub fn new(inputs: Vec<Edge>, operation: Layer) -> (r: Self)
        ensures
            r.inputs == inputs,
            r.operation == operation,
            r.outputs@.len() == inputs@.len(),
            forall|i: int| 0 <= i < r.outputs@.len() ==> (#[trigger] r.outputs@[i]).edges@.len() == 0,
    {
        let num_outputs: usize = operation.num_outputs(inputs.len());
        let mut outputs: Vec<OutputWire> = Vec::new();
        let mut i: usize = 0;
        while i < num_outputs
            invariant
                i <= num_outputs,
                outputs@.len() == i,
                forall|j: int| 0 <= j < i ==> (#[trigger] outputs@[j]).edges@.len() == 0,
            decreases num_outputs - i,
        {
            outputs.push(OutputWire::default());
            i = i + 1;
        }
        Self::new_with_outputs(inputs, operation, outputs)
    }

    /// A node with the given wires and operation.
    pub fn new_with_outputs(inputs: Vec<Edge>, operation: Layer, outputs: Vec<OutputWire>) -> (r:
        Self)
        ensures
            r.inputs == inputs,
            r.operation == operation,
            r.outputs == outputs,
    {
        Node { inputs, outputs, operation }
    }
}

/// The claim at the far end of an edge that leaves an output: the claim
/// for input `index` of the node it feeds, or the model's output claim
/// `index`.
pub open spec fn route<E>(
    edge: Edge,
    by_node: Map<NodeId, Vec<Claim<E>>>,
    outs: Seq<Claim<E>>,
) -> Result<Claim<E>, RoutingError> {
    match edge.node {
        Some(id) => if !by_node.contains_key(id) {
            Err(RoutingError::NoClaimsForNode { node: id })
        } else if edge.index >= by_node[id]@.len() {
            Err(
                RoutingError::NotEnoughClaims {
                    node: id,
                    index: edge.index,
                    found: by_node[id]@.len() as usize,
                },
            )
        } else {
            Ok(by_node[id]@[edge.index as int])
        },
        None => if edge.index >= outs.len() {
            Err(RoutingError::NoOutputClaim { output: edge.index, available: outs.len() as usize })
        } else {
            Ok(outs[edge.index as int])
        },
    }
}

impl NodeCtx {
    /// Every output wire feeds exactly one edge.
    pub open spec fn single_consumer(&self) -> bool {
        forall|o: int| 0 <= o < self.outputs@.len() ==> (#[trigger] self.outputs@[o]).edges@.len() == 1
    }

    /// Whether every output wire feeds exactly one edge.
    pub fn has_single_consumers(&self) -> (b: bool)
        ensures
            b == self.single_consumer(),
    {
        let mut o: usize = 0;
        while o < self.outputs.len()
            invariant
                o <= self.outputs@.len(),
                forall|p: int| 0 <= p < o ==> (#[trigger] self.outputs@[p]).edges@.len() == 1,
            decreases self.outputs@.len() - o,
        {
            if self.outputs[o].edges.len() != 1 {
                return false;
            }
            o = o + 1;
        }
        true
    }

    /// The claims about this node's outputs, one per output wire, in order:
    /// each is the claim at the far end of the wire's one edge. Fails with
    /// the error of the first wire whose claim is missing.
    pub fn claims_for_node<'a, E>(
        &self,
        claims_by_node: &'a HashMap<NodeId, Vec<Claim<E>>>,
        output_claims: &'a [Claim<E>],
    ) -> (r: Result<Vec<&'a Claim<E>>, RoutingError>)
        requires
            self.single_consumer(),
        ensures
            (forall|o: int|
                0 <= o < self.outputs@.len() ==> route(
                    (#[trigger] self.outputs@[o]).edges@[0],
                    claims_by_node@,
                    output_claims@,
                ) is Ok) ==> r is Ok,
            match r {
                Ok(v) => {
                    &&& v@.len() == self.outputs@.len()
                    &&& forall|o: int|
                        0 <= o < v@.len() ==> route(
                            (#[trigger] self.outputs@[o]).edges@[0],
                            claims_by_node@,
                            output_claims@,
                        ) == Ok::<Claim<E>, RoutingError>(*v@[o])
                },
                Err(e) => exists|o: int|
                    {
                        &&& 0 <= o < self.outputs@.len()
                        &&& #[trigger] route(
                            self.outputs@[o].edges@[0],
                            claims_by_node@,
                            output_claims@,
                        ) == Err::<Claim<E>, RoutingError>(e)
                        &&& forall|p: int|
                            0 <= p < o ==> route(
                                (#[trigger] self.outputs@[p]).edges@[0],
                                claims_by_node@,
                                output_claims@,
                            ) is Ok
                    },
            },
    {
        let mut v: Vec<&'a Claim<E>> = Vec::new();
        let mut o: usize = 0;
        while o < self.outputs.len()
            invariant
                o <= self.outputs@.len(),
                self.single_consumer(),
                v@.len() == o,
                forall|p: int|
                    0 <= p < o ==> route(
                        (#[trigger] self.outputs@[p]).edges@[0],
                        claims_by_node@,
                        output_claims@,
                    ) == Ok::<Claim<E>, RoutingError>(*v@[p]),
            decreases self.outputs@.len() - o,
        {
            let edge = &self.outputs[o].edges[0];
            let ghost routed = route(*edge, claims_by_node@, output_claims@);
            match edge.node {
                Some(id) => {
                    match claims_by_node.get(&id) {
                        None => {
                            assert(routed == Err::<Claim<E>, RoutingError>(
                                RoutingError::NoClaimsForNode { node: id },
                            ));
                            return Err(RoutingError::NoClaimsForNode { node: id });
                        },
                        Some(claims) => {
                            if edge.index >= claims.len() {
                                assert(routed == Err::<Claim<E>, RoutingError>(
                                    RoutingError::NotEnoughClaims {
                                        node: id,
                                        index: edge.index,
                                        found: claims.len(),
                                    },
                                ));
                                return Err(
                                    RoutingError::NotEnoughClaims {
                                        node: id,
                                        index: edge.index,
                                        found: claims.len(),
                                    },
                                );
                            }
                            v.push(&claims[edge.index]);
                        },
                    }
                },
                None => {
                    if edge.index >= output_claims.len() {
                        assert(routed == Err::<Claim<E>, RoutingError>(
                            RoutingError::NoOutputClaim {
                                output: edge.index,
                                available: output_claims.len(),
                            },
                        ));
                        return Err(
                            RoutingError::NoOutputClaim {
                                output: edge.index,
                                available: output_claims.len(),
                            },
                        );
                    }
                    v.push(&output_claims[edge.index]);
                },
            }
            o = o + 1;
        }
        Ok(v)
    }
}

/// Every edge that leaves an output points at an input that exists, or at
/// one of the model's `num_outputs` outputs.
pub open spec fn edges_exist(nodes: Seq<NodeCtx>, num_outputs: nat) -> bool {
    forall|n: int, o: int, k: int|
        0 <= n < nodes.len() && 0 <= o < nodes[n].outputs@.len() && 0 <= k
            < nodes[n].outputs@[o].edges@.len() ==> {
            let edge = #[trigger] nodes[n].outputs@[o].edges@[k];
            match edge.node {
                Some(id) => id < nodes.len() && edge.index < nodes[id as int].inputs@.len(),
                None => edge.index < num_outputs,
            }
        }
}

/// Every node has its claims on record, one per input.
pub open spec fn fully_populated<E>(nodes: Seq<NodeCtx>, by_node: Map<NodeId, Vec<Claim<E>>>) -> bool {
    forall|id: NodeId|
        id < nodes.len() ==> #[trigger] by_node.contains_key(id) && by_node[id]@.len()
            == nodes[id as int].inputs@.len()
}

/// Routing is total on a well-wired graph: where every edge points at an
/// input that exists or at an output of the model, and every node has its
/// claims on record, the claim at the far end of every edge is found.
pub proof fn lemma_routing_total<E>(
    nodes: Seq<NodeCtx>,
    by_node: Map<NodeId, Vec<Claim<E>>>,
    output_claims: Seq<Claim<E>>,
    n: int,
    o: int,
    k: int,
)
    requires
        edges_exist(nodes, output_claims.len()),
        fully_populated(nodes, by_node),
        0 <= n < nodes.len(),
        0 <= o < nodes[n].outputs@.len(),
        0 <= k < nodes[n].outputs@[o].edges@.len(),
    ensures
        route(nodes[n].outputs@[o].edges@[k], by_node, output_claims) is Ok,
{
    let edge = nodes[n].outputs@[o].edges@[k];
    match edge.node {
        Some(id) => {
            assert(by_node.contains_key(id));
        },
        None => {},
    }
}

} // verus!
