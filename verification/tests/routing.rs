use std::collections::HashMap;
use zkml::claim::Claim;
use zkml::field::Fp;
use zkml::error::RoutingError;
use zkml::graph::{Edge, Node, NodeCtx, NodeEgdes, OutputWire};
use zkml::layer::{Layer, LayerCtx, RequantCtx};
use zkml::requant::Requant;

fn claim(tag: u64) -> Claim<Fp> {
    Claim::new(vec![Fp::new(tag), Fp::new(tag + 1)], Fp::new(1000 + tag))
}

fn ctx() -> LayerCtx {
    LayerCtx::Requant(RequantCtx { requant: Requant::new(128, 8, 256), poly_id: 0, num_vars: 1 })
}

fn node(inputs: Vec<Edge>, outputs: Vec<Edge>) -> NodeCtx {
    NodeCtx {
        inputs,
        outputs: outputs.into_iter().map(|e| OutputWire { edges: vec![e] }).collect(),
        ctx: ctx(),
    }
}

#[test]
fn edges_and_nodes_are_built_as_given() {
    let e = Edge::new(3, 1);
    assert_eq!(e.node, Some(3));
    assert_eq!(e.index, 1);
    let m = Edge::new_at_edge(2);
    assert_eq!(m.node, None);
    assert_eq!(m.index, 2);
    assert_eq!(Edge::default(), Edge::new_at_edge(0));
    assert_eq!(OutputWire::default().edges.len(), 0);
    let n = Node::new(vec![e, m], Layer::Requant(Requant::new(128, 8, 256)));
    assert_eq!(n.inputs, vec![e, m]);
    assert_eq!(n.outputs, vec![OutputWire::default(), OutputWire::default()]);
    assert_eq!(n.inputs(), &[e, m]);
    assert_eq!(n.outputs().len(), 2);
    let w = Node::new_with_outputs(vec![m], Layer::Flatten, vec![OutputWire { edges: vec![e] }]);
    assert_eq!(w.outputs[0].edges, vec![e]);
    assert_eq!(w.operation, Layer::Flatten);
    assert!(!w.operation.is_provable());
    assert_eq!(w.operation.num_outputs(4), 4);
    let d = Layer::Flatten.default_claims();
    assert_eq!(d.len(), 1);
    assert!(d[0].point.is_empty());
    assert_eq!(d[0].eval, Fp::zero());
}

#[test]
fn claims_for_node_follows_each_wire() {
    let mut by_node: HashMap<usize, Vec<Claim<Fp>>> = HashMap::new();
    by_node.insert(1, vec![claim(10), claim(11)]);
    by_node.insert(2, vec![claim(20)]);
    let outs = vec![claim(90), claim(91)];
    let n = node(vec![], vec![Edge::new(1, 1), Edge::new_at_edge(0), Edge::new(2, 0)]);
    let got = n.claims_for_node(&by_node, &outs).unwrap();
    assert_eq!(got.len(), 3);
    assert_eq!(got[0].eval, Fp::new(1011));
    assert_eq!(got[1].eval, Fp::new(1090));
    assert_eq!(got[2].eval, Fp::new(1020));
    assert_eq!(got[0].point, vec![Fp::new(11), Fp::new(12)]);
    assert!(std::ptr::eq(got[1], &outs[0]));
    assert_eq!(n.inputs().len(), 0);
    assert_eq!(n.outputs().len(), 3);
    assert!(n.has_single_consumers());
    let mut fan_out = node(vec![], vec![Edge::new(1, 1)]);
    fan_out.outputs[0].edges.push(Edge::new(2, 0));
    assert!(!fan_out.has_single_consumers());
    let mut dangling = node(vec![], vec![Edge::new(1, 1)]);
    dangling.outputs[0].edges.clear();
    assert!(!dangling.has_single_consumers());
}

#[test]
fn claims_for_node_reports_the_first_missing_claim() {
    let mut by_node: HashMap<usize, Vec<Claim<Fp>>> = HashMap::new();
    by_node.insert(1, vec![claim(10)]);
    let outs = vec![claim(90)];
    let missing = node(vec![], vec![Edge::new(1, 0), Edge::new(5, 0), Edge::new_at_edge(7)]);
    assert_eq!(
        missing.claims_for_node(&by_node, &outs).err(),
        Some(RoutingError::NoClaimsForNode { node: 5 })
    );
    let short = node(vec![], vec![Edge::new(1, 1)]);
    assert_eq!(
        short.claims_for_node(&by_node, &outs).err(),
        Some(RoutingError::NotEnoughClaims { node: 1, index: 1, found: 1 })
    );
    let beyond = node(vec![], vec![Edge::new_at_edge(1)]);
    assert_eq!(
        beyond.claims_for_node(&by_node, &outs).err(),
        Some(RoutingError::NoOutputClaim { output: 1, available: 1 })
    );
    let none = node(vec![], vec![]);
    assert_eq!(none.claims_for_node(&by_node, &outs).unwrap().len(), 0);
}

#[test]
fn routing_succeeds_on_a_fully_populated_chain() {
    // model input -> 0 -> 1 -> 2 -> model output
    let nodes = vec![
        node(vec![Edge::new_at_edge(0)], vec![Edge::new(1, 0)]),
        node(vec![Edge::new(0, 0)], vec![Edge::new(2, 0)]),
        node(vec![Edge::new(1, 0)], vec![Edge::new_at_edge(0)]),
    ];
    let mut by_node: HashMap<usize, Vec<Claim<Fp>>> = HashMap::new();
    for id in 0..3usize {
        by_node.insert(id, vec![claim(id as u64)]);
    }
    let outs = vec![claim(50)];
    let expect = [1001u64, 1002, 1050];
    for (id, n) in nodes.iter().enumerate() {
        let got = n.claims_for_node(&by_node, &outs).unwrap();
        assert_eq!(got.len(), 1);
        assert_eq!(got[0].eval, Fp::new(expect[id]));
    }
}

fn entries(list: Vec<(usize, Vec<Edge>)>) -> Vec<(usize, NodeCtx)> {
    list.into_iter().map(|(id, inputs)| (id, node(inputs, vec![]))).collect()
}

#[test]
fn input_claims_come_in_slot_order() {
    let nodes = entries(vec![
        (4, vec![Edge::new_at_edge(1), Edge::new(9, 0)]),
        (7, vec![Edge::new(4, 0), Edge::new_at_edge(0), Edge::new_at_edge(2)]),
    ]);
    let mut by_node: HashMap<usize, Vec<Claim<Fp>>> = HashMap::new();
    by_node.insert(4, vec![claim(40), claim(41)]);
    by_node.insert(7, vec![claim(70), claim(71), claim(72)]);
    let got = NodeCtx::input_claims(&nodes, &by_node).unwrap();
    assert_eq!(got.len(), 3);
    assert_eq!(got[0].eval, Fp::new(1071));
    assert_eq!(got[1].eval, Fp::new(1040));
    assert_eq!(got[2].eval, Fp::new(1072));
}

#[test]
fn input_claims_last_taker_of_a_slot_counts() {
    let nodes = entries(vec![
        (1, vec![Edge::new_at_edge(0)]),
        (2, vec![Edge::new_at_edge(0), Edge::new_at_edge(0)]),
    ]);
    let mut by_node: HashMap<usize, Vec<Claim<Fp>>> = HashMap::new();
    by_node.insert(1, vec![claim(10)]);
    by_node.insert(2, vec![claim(20), claim(21)]);
    let got = NodeCtx::input_claims(&nodes, &by_node).unwrap();
    assert_eq!(got.len(), 1);
    assert_eq!(got[0].eval, Fp::new(1021));
}

#[test]
fn input_claims_need_slots_without_gaps() {
    let mut by_node: HashMap<usize, Vec<Claim<Fp>>> = HashMap::new();
    by_node.insert(1, vec![claim(10), claim(11)]);
    let gap = entries(vec![(1, vec![Edge::new_at_edge(0), Edge::new_at_edge(2)])]);
    assert_eq!(
        NodeCtx::input_claims(&gap, &by_node).err(),
        Some(RoutingError::IncompleteInputClaims)
    );
    let no_zero = entries(vec![(1, vec![Edge::new_at_edge(1)])]);
    assert_eq!(
        NodeCtx::input_claims(&no_zero, &by_node).err(),
        Some(RoutingError::IncompleteInputClaims)
    );
    let inner = entries(vec![(1, vec![Edge::new(0, 0), Edge::new(0, 1)])]);
    assert_eq!(NodeCtx::input_claims(&inner, &by_node).err(), Some(RoutingError::NoInputClaims));
    assert_eq!(NodeCtx::input_claims(&[], &by_node).err(), Some(RoutingError::NoInputClaims));
}

#[test]
fn input_claims_need_the_claims_of_every_taker() {
    let mut by_node: HashMap<usize, Vec<Claim<Fp>>> = HashMap::new();
    by_node.insert(1, vec![claim(10)]);
    let unknown = entries(vec![(1, vec![Edge::new_at_edge(0)]), (3, vec![Edge::new_at_edge(1)])]);
    assert_eq!(
        NodeCtx::input_claims(&unknown, &by_node).err(),
        Some(RoutingError::NoClaimsForNode { node: 3 })
    );
    let short = entries(vec![(1, vec![Edge::new_at_edge(0), Edge::new_at_edge(1)])]);
    assert_eq!(
        NodeCtx::input_claims(&short, &by_node).err(),
        Some(RoutingError::NotEnoughClaims { node: 1, index: 1, found: 1 })
    );
    // a node without claims that takes no model input is not asked
    let quiet = entries(vec![(1, vec![Edge::new_at_edge(0)]), (3, vec![Edge::new(1, 0)])]);
    assert_eq!(NodeCtx::input_claims(&quiet, &by_node).unwrap().len(), 1);
}

#[test]
fn routing_takes_claims_over_any_values() {
    let mut by_node: HashMap<usize, Vec<Claim<i64>>> = HashMap::new();
    by_node.insert(1, vec![Claim::new(vec![1, 2], -5), Claim::new(vec![3], 6)]);
    let outs: Vec<Claim<i64>> = vec![Claim::new(vec![], 9)];
    let n = node(vec![], vec![Edge::new(1, 1), Edge::new_at_edge(0)]);
    let got = n.claims_for_node(&by_node, &outs).unwrap();
    assert_eq!(got[0].eval, 6);
    assert_eq!(got[0].point, vec![3]);
    assert_eq!(got[1].eval, 9);
    let nodes = entries(vec![(1, vec![Edge::new_at_edge(1), Edge::new_at_edge(0)])]);
    let got = NodeCtx::input_claims(&nodes, &by_node).unwrap();
    assert_eq!(got.len(), 2);
    assert_eq!(got[0].eval, 6);
    assert_eq!(got[1].eval, -5);
}
