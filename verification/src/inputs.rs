//! The claims about the model's own inputs, gathered from the nodes that
//! take them.

use std::collections::HashMap;
use vstd::prelude::*;
use crate::claim::Claim;
use crate::error::RoutingError;
use crate::graph::{Edge, NodeCtx, NodeId};

verus! {

broadcast use vstd::std_specs::hash::group_hash_axioms;

/// Input `i` of entry `n` is an input of the model.
pub open spec fn takes_model_input(nodes: Seq<(NodeId, NodeCtx)>, n: int, i: int) -> bool {
    &&& 0 <= n < nodes.len()
    &&& 0 <= i < nodes[n].1.inputs@.len()
    &&& nodes[n].1.inputs@[i].node is None
}

/// Input `i` of entry `n` is the model's input `slot`.
pub open spec fn feeds(nodes: Seq<(NodeId, NodeCtx)>, n: int, i: int, slot: usize) -> bool {
    takes_model_input(nodes, n, i) && nodes[n].1.inputs@[i].index == slot
}

/// Every node that takes an input of the model has a claim on record for
/// that input.
pub open spec fn populated<E>(nodes: Seq<(NodeId, NodeCtx)>, by_node: Map<NodeId, Vec<Claim<E>>>) -> bool {
    forall|n: int, i: int| #[trigger]
        takes_model_input(nodes, n, i) ==> by_node.contains_key(nodes[n].0) && i
            < by_node[nodes[n].0]@.len()
}

/// The claim for a slot after one more node: the claim of the node's last
/// input that takes the slot, or, where it has none, the earlier claim.
pub open spec fn slot_in_node<E>(
    inputs: Seq<Edge>,
    claims: Seq<Claim<E>>,
    slot: usize,
    earlier: Option<Claim<E>>,
) -> Option<Claim<E>>
    decreases inputs.len(),
{
    if inputs.len() == 0 {
        earlier
    } else {
        let last = inputs.len() - 1;
        if inputs[last].node is None && inputs[last].index == slot {
            Some(claims[last])
        } else {
            slot_in_node(inputs.drop_last(), claims, slot, earlier)
        }
    }
}

/// The claim for the model's input `slot`: that of the last input, in the
/// order of the nodes and of their inputs, that takes the slot.
pub open spec fn slot_claim<E>(
    nodes: Seq<(NodeId, NodeCtx)>,
    by_node: Map<NodeId, Vec<Claim<E>>>,
    slot: usize,
) -> Option<Claim<E>>
    decreases nodes.len(),
{
    if nodes.len() == 0 {
        None
    } else {
        let last = nodes.last();
        slot_in_node(
            last.1.inputs@,
            by_node[last.0]@,
            slot,
            slot_claim(nodes.drop_last(), by_node, slot),
        )
    }
}

/// The slots that are taken are exactly `0, .., k - 1`, for a `k` of at
/// least 1 that fits a machine word.
pub open spec fn slots_filled<E>(
    nodes: Seq<(NodeId, NodeCtx)>,
    by_node: Map<NodeId, Vec<Claim<E>>>,
    k: int,
) -> bool {
    &&& 1 <= k <= usize::MAX
    &&& forall|s: usize| (#[trigger] slot_claim(nodes, by_node, s)) is Some <==> s < k
}

/// Every input before input `i` of entry `n`, in the order of the entries and
/// of their inputs, that takes an input of the model has a claim on record.
pub open spec fn populated_before<E>(
    nodes: Seq<(NodeId, NodeCtx)>,
    by_node: Map<NodeId, Vec<Claim<E>>>,
    n: int,
    i: int,
) -> bool {
    forall|m: int, j: int|
        (m < n || (m == n && j < i)) && #[trigger] takes_model_input(nodes, m, j)
            ==> by_node.contains_key(nodes[m].0) && j < by_node[nodes[m].0]@.len()
}

/// The first input that takes an input of the model without a claim on
/// record belongs to an entry for `node`, which has no claims at all.
pub open spec fn lacks_claims<E>(
    nodes: Seq<(NodeId, NodeCtx)>,
    by_node: Map<NodeId, Vec<Claim<E>>>,
    node: NodeId,
) -> bool {
    exists|n: int, i: int| #[trigger]
        takes_model_input(nodes, n, i) && nodes[n].0 == node && !by_node.contains_key(node)
            && populated_before(nodes, by_node, n, i)
}

/// The first input that takes an input of the model without a claim on
/// record is input `index` of an entry for `node`, which has only `found`
/// claims.
pub open spec fn short_of_claims<E>(
    nodes: Seq<(NodeId, NodeCtx)>,
    by_node: Map<NodeId, Vec<Claim<E>>>,
    node: NodeId,
    index: usize,
    found: usize,
) -> bool {
    exists|n: int| #[trigger]
        takes_model_input(nodes, n, index as int) && nodes[n].0 == node && by_node.contains_key(
            node,
        ) && by_node[node]@.len() == found && index >= found && populated_before(
            nodes,
            by_node,
            n,
            index as int,
        )
}

/// What `input_claims` returns.
pub open spec fn is_input_claims_result<E>(
    nodes: Seq<(NodeId, NodeCtx)>,
    by_node: Map<NodeId, Vec<Claim<E>>>,
    r: Result<Vec<&Claim<E>>, RoutingError>,
) -> bool {
    match r {
        Ok(v) => {
            &&& populated(nodes, by_node)
            &&& slots_filled(nodes, by_node, v@.len() as int)
            &&& forall|s: usize|
                s < v@.len() ==> #[trigger] slot_claim(nodes, by_node, s) == Some(*v@[s as int])
        },
        Err(RoutingError::NoClaimsForNode { node }) => lacks_claims(nodes, by_node, node),
        Err(RoutingError::NotEnoughClaims { node, index, found }) => short_of_claims(
            nodes,
            by_node,
            node,
            index,
            found,
        ),
        Err(RoutingError::NoInputClaims) => {
            &&& populated(nodes, by_node)
            &&& forall|n: int, i: int| !#[trigger] takes_model_input(nodes, n, i)
        },
        Err(RoutingError::IncompleteInputClaims) => {
            &&& populated(nodes, by_node)
            &&& exists|n: int, i: int| #[trigger] takes_model_input(nodes, n, i)
            &&& forall|k: int| !#[trigger] slots_filled(nodes, by_node, k)
        },
        Err(RoutingError::NoOutputClaim { output, available }) => false,
    }
}

/// Within one node, a slot has a claim exactly if it had one before or an
/// input of the node takes it.
pub proof fn lemma_slot_in_node<E>(
    inputs: Seq<Edge>,
    claims: Seq<Claim<E>>,
    slot: usize,
    earlier: Option<Claim<E>>,
)
    ensures
        slot_in_node(inputs, claims, slot, earlier) is Some <==> (earlier is Some || exists|i: int|
            0 <= i < inputs.len() && (#[trigger] inputs[i]).node is None && inputs[i].index == slot),
    decreases inputs.len(),
{
    if inputs.len() == 0 {
    } else {
        let last = inputs.len() - 1;
        let front = inputs.drop_last();
        lemma_slot_in_node(front, claims, slot, earlier);
        if inputs[last].node is None && inputs[last].index == slot {
        } else {
            if exists|i: int|
                0 <= i < front.len() && (#[trigger] front[i]).node is None && front[i].index == slot {
                let i = choose|i: int|
                    0 <= i < front.len() && (#[trigger] front[i]).node is None && front[i].index
                        == slot;
                assert(inputs[i] == front[i]);
            }
            if exists|i: int|
                0 <= i < inputs.len() && (#[trigger] inputs[i]).node is None && inputs[i].index
                    == slot {
                let i = choose|i: int|
                    0 <= i < inputs.len() && (#[trigger] inputs[i]).node is None && inputs[i].index
                        == slot;
                assert(front[i] == inputs[i]);
            }
        }
    }
}

/// A slot has a claim exactly if some input of some node takes it.
pub proof fn lemma_slot_claim<E>(
    nodes: Seq<(NodeId, NodeCtx)>,
    by_node: Map<NodeId, Vec<Claim<E>>>,
    slot: usize,
)
    ensures
        slot_claim(nodes, by_node, slot) is Some <==> exists|n: int, i: int| #[trigger]
            feeds(nodes, n, i, slot),
    decreases nodes.len(),
{
    if nodes.len() == 0 {
    } else {
        let last = nodes.last();
        let front = nodes.drop_last();
        let earlier = slot_claim(front, by_node, slot);
        lemma_slot_claim(front, by_node, slot);
        lemma_slot_in_node(last.1.inputs@, by_node[last.0]@, slot, earlier);
        if slot_claim(nodes, by_node, slot) is Some {
            if earlier is Some {
                let (n, i) = choose|n: int, i: int| #[trigger] feeds(front, n, i, slot);
                assert(front[n] == nodes[n]);
                assert(feeds(nodes, n, i, slot));
            } else {
                let i = choose|i: int|
                    0 <= i < last.1.inputs@.len() && (#[trigger] last.1.inputs@[i]).node is None
                        && last.1.inputs@[i].index == slot;
                assert(feeds(nodes, nodes.len() - 1, i, slot));
            }
        }
        if exists|n: int, i: int| #[trigger] feeds(nodes, n, i, slot) {
            let (n, i) = choose|n: int, i: int| #[trigger] feeds(nodes, n, i, slot);
            if n == nodes.len() - 1 {
                assert(last.1.inputs@[i].node is None && last.1.inputs@[i].index == slot);
            } else {
                assert(front[n] == nodes[n]);
                assert(feeds(front, n, i, slot));
            }
        }
    }
}

/// Whether every node that takes an input of the model has a claim for it,
/// and if not, the first that has none.
fn check_populated<E>(nodes: &[(NodeId, NodeCtx)], by_node: &HashMap<NodeId, Vec<Claim<E>>>) -> (r:
    Result<(), RoutingError>)
    ensures
        r is Ok <==> populated(nodes@, by_node@),
        r is Err ==> is_input_claims_result(nodes@, by_node@, Err(r->Err_0)),
        r is Err ==> (r->Err_0 is NoClaimsForNode || r->Err_0 is NotEnoughClaims),
{
    let mut n: usize = 0;
    while n < nodes.len()
        invariant
            n <= nodes@.len(),
            forall|m: int, i: int|
                m < n && #[trigger] takes_model_input(nodes@, m, i) ==> by_node@.contains_key(
                    nodes@[m].0,
                ) && i < by_node@[nodes@[m].0]@.len(),
        decreases nodes@.len() - n,
    {
        let id: NodeId = nodes[n].0;
        let ctx = &nodes[n].1;
        let mut i: usize = 0;
        while i < ctx.inputs.len()
            invariant
                n < nodes@.len(),
                id == nodes@[n as int].0,
                *ctx == nodes@[n as int].1,
                i <= ctx.inputs@.len(),
                forall|m: int, j: int|
                    m < n && #[trigger] takes_model_input(nodes@, m, j) ==> by_node@.contains_key(
                        nodes@[m].0,
                    ) && j < by_node@[nodes@[m].0]@.len(),
                forall|j: int|
                    j < i && #[trigger] takes_model_input(nodes@, n as int, j)
                        ==> by_node@.contains_key(id) && j < by_node@[id]@.len(),
            decreases ctx.inputs@.len() - i,
        {
            let edge: Edge = ctx.inputs[i];
            if edge.node.is_none() {
                assert(takes_model_input(nodes@, n as int, i as int));
                match by_node.get(&id) {
                    None => {
                        assert(populated_before(nodes@, by_node@, n as int, i as int));
                        assert(lacks_claims(nodes@, by_node@, id));
                        return Err(RoutingError::NoClaimsForNode { node: id });
                    },
                    Some(claims) => {
                        if i >= claims.len() {
                            assert(takes_model_input(nodes@, n as int, i as int));
                            assert(populated_before(nodes@, by_node@, n as int, i as int));
                            assert(short_of_claims(nodes@, by_node@, id, i, claims.len()));
                            return Err(
                                RoutingError::NotEnoughClaims {
                                    node: id,
                                    index: i,
                                    found: claims.len(),
                                },
                            );
                        }
                    },
                }
            }
            i = i + 1;
        }
        n = n + 1;
    }
    Ok(())
}

/// The claim on record for a slot, if an input takes it.
fn find_slot<'a, E>(
    nodes: &[(NodeId, NodeCtx)],
    by_node: &'a HashMap<NodeId, Vec<Claim<E>>>,
    slot: usize,
) -> (r: Option<&'a Claim<E>>)
    requires
        populated(nodes@, by_node@),
    ensures
        match r {
            Some(c) => slot_claim(nodes@, by_node@, slot) == Some(*c),
            None => slot_claim(nodes@, by_node@, slot) is None,
        },
{
    let mut found: Option<&'a Claim<E>> = None;
    let mut n: usize = 0;
    assert(nodes@.take(0).len() == 0);
    while n < nodes.len()
        invariant
            n <= nodes@.len(),
            populated(nodes@, by_node@),
            match found {
                Some(c) => slot_claim(nodes@.take(n as int), by_node@, slot) == Some(*c),
                None => slot_claim(nodes@.take(n as int), by_node@, slot) is None,
            },
        decreases nodes@.len() - n,
    {
        let id: NodeId = nodes[n].0;
        let ctx = &nodes[n].1;
        let ghost earlier = slot_claim(nodes@.take(n as int), by_node@, slot);
        let mut i: usize = 0;
        assert(ctx.inputs@.take(0).len() == 0);
        while i < ctx.inputs.len()
            invariant
                n < nodes@.len(),
                id == nodes@[n as int].0,
                *ctx == nodes@[n as int].1,
                i <= ctx.inputs@.len(),
                populated(nodes@, by_node@),
                match found {
                    Some(c) => slot_in_node(
                        ctx.inputs@.take(i as int),
                        by_node@[id]@,
                        slot,
                        earlier,
                    ) == Some(*c),
                    None => slot_in_node(
                        ctx.inputs@.take(i as int),
                        by_node@[id]@,
                        slot,
                        earlier,
                    ) is None,
                },
            decreases ctx.inputs@.len() - i,
        {
            let edge: Edge = ctx.inputs[i];
            proof {
                assert(ctx.inputs@.take(i + 1).drop_last() == ctx.inputs@.take(i as int));
                assert(ctx.inputs@.take(i + 1)[i as int] == edge);
            }
            if edge.node.is_none() && edge.index == slot {
                assert(takes_model_input(nodes@, n as int, i as int));
                match by_node.get(&id) {
                    Some(claims) => {
                        found = Some(&claims[i]);
                    },
                    None => {
                        assert(false);
                    },
                }
            }
            i = i + 1;
        }
        proof {
            assert(ctx.inputs@.take(ctx.inputs@.len() as int) == ctx.inputs@);
            assert(nodes@.take(n + 1).drop_last() == nodes@.take(n as int));
            assert(nodes@.take(n + 1).last() == nodes@[n as int]);
        }
        n = n + 1;
    }
    assert(nodes@.take(nodes@.len() as int) == nodes@);
    found
}

/// Whether some input takes a slot of the model numbered `k` or higher.
fn any_slot_from(nodes: &[(NodeId, NodeCtx)], k: usize) -> (b: bool)
    ensures
        b <==> exists|n: int, i: int| #[trigger]
            takes_model_input(nodes@, n, i) && nodes@[n].1.inputs@[i].index >= k,
{
    let mut n: usize = 0;
    while n < nodes.len()
        invariant
            n <= nodes@.len(),
            forall|m: int, i: int|
                m < n && #[trigger] takes_model_input(nodes@, m, i) ==> nodes@[m].1.inputs@[i].index
                    < k,
        decreases nodes@.len() - n,
    {
        let ctx = &nodes[n].1;
        let mut i: usize = 0;
        while i < ctx.inputs.len()
            invariant
                n < nodes@.len(),
                *ctx == nodes@[n as int].1,
                i <= ctx.inputs@.len(),
                forall|m: int, j: int|
                    m < n && #[trigger] takes_model_input(nodes@, m, j)
                        ==> nodes@[m].1.inputs@[j].index < k,
                forall|j: int|
                    j < i && #[trigger] takes_model_input(nodes@, n as int, j)
                        ==> nodes@[n as int].1.inputs@[j].index < k,
            decreases ctx.inputs@.len() - i,
        {
            let edge: Edge = ctx.inputs[i];
            if edge.node.is_none() && edge.index >= k {
                assert(takes_model_input(nodes@, n as int, i as int));
                return true;
            }
            i = i + 1;
        }
        n = n + 1;
    }
    false
}

impl NodeCtx {
    /// The claims about the model's inputs, in the order of the inputs.
    ///
    /// Every input of a node that is an input of the model names a slot,
    /// and the node's claim for that input is the claim for the slot; where
    /// several inputs name one slot, the last counts. The slots named must
    /// be `0, .., k - 1` for some `k >= 1`.
    pub fn input_claims<'a, E>(
        nodes: &[(NodeId, NodeCtx)],
        claims_by_node: &'a HashMap<NodeId, Vec<Claim<E>>>,
    ) -> (r: Result<Vec<&'a Claim<E>>, RoutingError>)
        ensures
            is_input_claims_result(nodes@, claims_by_node@, r),
    {
        match check_populated(nodes, claims_by_node) {
            Err(e) => {
                return Err(e);
            },
            Ok(_) => {},
        }
        let mut v: Vec<&'a Claim<E>> = Vec::new();
        let mut k: usize = 0;
        let mut done: bool = false;
        while !done
            invariant
                populated(nodes@, claims_by_node@),
                v@.len() == k,
                forall|s: usize|
                    s < k ==> #[trigger] slot_claim(nodes@, claims_by_node@, s) == Some(
                        *v@[s as int],
                    ),
                done ==> slot_claim(nodes@, claims_by_node@, k) is None,
            decreases
                    (usize::MAX - k) + if done {
                        0int
                    } else {
                        1int
                    },
        {
            match find_slot(nodes, claims_by_node, k) {
                None => {
                    done = true;
                },
                Some(c) => {
                    if k == usize::MAX {
                        proof {
                            lemma_slot_claim(nodes@, claims_by_node@, k);
                            let (n, i) = choose|n: int, i: int| #[trigger]
                                feeds(nodes@, n, i, k);
                            assert(takes_model_input(nodes@, n, i));
                            assert forall|j: int| !#[trigger] slots_filled(
                                nodes@,
                                claims_by_node@,
                                j,
                            ) by {
                                if slots_filled(nodes@, claims_by_node@, j) {
                                    assert(slot_claim(nodes@, claims_by_node@, k) is Some);
                                }
                            }
                        }
                        return Err(RoutingError::IncompleteInputClaims);
                    }
                    v.push(c);
                    k = k + 1;
                },
            }
        }
        if any_slot_from(nodes, k) {
            proof {
                let (n, i) = choose|n: int, i: int| #[trigger]
                    takes_model_input(nodes@, n, i) && nodes@[n].1.inputs@[i].index >= k;
                let s: usize = nodes@[n].1.inputs@[i].index;
                assert(feeds(nodes@, n, i, s));
                lemma_slot_claim(nodes@, claims_by_node@, s);
                assert forall|j: int| !#[trigger] slots_filled(nodes@, claims_by_node@, j) by {
                    if slots_filled(nodes@, claims_by_node@, j) {
                        assert(slot_claim(nodes@, claims_by_node@, s) is Some);
                        assert(slot_claim(nodes@, claims_by_node@, k) is None);
                    }
                }
            }
            return Err(RoutingError::IncompleteInputClaims);
        }
        if k == 0 {
            proof {
                assert forall|n: int, i: int| !#[trigger] takes_model_input(nodes@, n, i) by {
                    if takes_model_input(nodes@, n, i) {
                        assert(nodes@[n].1.inputs@[i].index >= k);
                    }
                }
            }
            return Err(RoutingError::NoInputClaims);
        }
        proof {
            assert forall|s: usize| (#[trigger] slot_claim(nodes@, claims_by_node@, s)) is Some
                <==> s < k by {
                lemma_slot_claim(nodes@, claims_by_node@, s);
                if slot_claim(nodes@, claims_by_node@, s) is Some {
                    let (n, i) = choose|n: int, i: int| #[trigger] feeds(nodes@, n, i, s);
                    assert(takes_model_input(nodes@, n, i));
                }
            }
        }
        Ok(v)
    }
}

/// The claims come out complete exactly where the slots are: `input_claims`
/// returns `k` claims if and only if every node that takes an input of the
/// model has its claim on record and the slots taken are `0, .., k - 1`.
pub proof fn lemma_input_claims_complete<E>(
    nodes: Seq<(NodeId, NodeCtx)>,
    by_node: Map<NodeId, Vec<Claim<E>>>,
    r: Result<Vec<&Claim<E>>, RoutingError>,
    k: int,
)
    requires
        is_input_claims_result(nodes, by_node, r),
    ensures
        (r is Ok && r->Ok_0@.len() == k) <==> (populated(nodes, by_node) && slots_filled(
            nodes,
            by_node,
            k,
        )),
{
    if populated(nodes, by_node) && slots_filled(nodes, by_node, k) {
        assert(slot_claim(nodes, by_node, 0) is Some);
        lemma_slot_claim(nodes, by_node, 0);
        let (n, i) = choose|n: int, i: int| #[trigger] feeds(nodes, n, i, 0);
        assert(takes_model_input(nodes, n, i));
        match r {
            Ok(v) => {
                let len = v@.len() as int;
                if len < k {
                    assert(slot_claim(nodes, by_node, len as usize) is Some);
                }
                if k < len {
                    assert(slot_claim(nodes, by_node, k as usize) is Some);
                }
            },
            Err(RoutingError::NoClaimsForNode { node }) => {},
            Err(RoutingError::NotEnoughClaims { node, index, found }) => {},
            Err(_) => {},
        }
    }
}

} // verus!
