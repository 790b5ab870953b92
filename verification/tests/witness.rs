use std::collections::HashMap;
use zkml::claim::Tensor;
use zkml::error::LayerError;
use zkml::field::Fp;
use zkml::layer::TableType;
use zkml::requant::Requant;
use zkml::witness::{tally_into, LayerOut, LookupWitnessGen, StepData};

fn empty_gen() -> LookupWitnessGen {
    LookupWitnessGen {
        tables: vec![],
        range_lookups: HashMap::new(),
        polys_with_id: vec![],
        lookups_no_challenges: HashMap::new(),
    }
}

fn step(q: &Requant, input: Vec<i128>) -> StepData {
    let t = Tensor::new(vec![input.len()], input);
    let out = q.op(&t).unwrap();
    StepData { inputs: vec![t], outputs: LayerOut::from_vec(vec![out]) }
}

#[test]
fn tally_counts_every_occurrence() {
    let mut counts: HashMap<i128, u64> = HashMap::new();
    counts.insert(5, 2);
    tally_into(&mut counts, &[5, 7, 5, -1, 7, 5]);
    assert_eq!(counts.len(), 3);
    assert_eq!(counts[&5], 5);
    assert_eq!(counts[&7], 2);
    assert_eq!(counts[&-1], 1);
    tally_into(&mut counts, &[]);
    assert_eq!(counts.len(), 3);
}

#[test]
fn lookup_witness_is_recorded_for_the_node() {
    let q = Requant::new(128, 8, 256);
    let data = step(&q, vec![0, -32, 300]);
    let mut gen = empty_gen();
    gen.range_lookups.insert(0, 10);
    gen.polys_with_id.push((1, vec![Fp::new(9)]));
    assert_eq!(q.gen_lookup_witness(6, &mut gen, &data), Ok(()));
    assert_eq!(gen.tables, vec![TableType::Range]);
    // merged columns: 128, 127, 129, 0 | 0, 0, 0, 0 | 0, 224, 44, 0
    assert_eq!(gen.range_lookups.len(), 6);
    assert_eq!(gen.range_lookups[&0], 17);
    assert_eq!(gen.range_lookups[&128], 1);
    assert_eq!(gen.range_lookups[&127], 1);
    assert_eq!(gen.range_lookups[&129], 1);
    assert_eq!(gen.range_lookups[&224], 1);
    assert_eq!(gen.range_lookups[&44], 1);
    assert_eq!(gen.polys_with_id.len(), 2);
    assert_eq!(gen.polys_with_id[0], (1, vec![Fp::new(9)]));
    assert_eq!(
        gen.polys_with_id[1],
        (6, vec![Fp::from_element(0), Fp::from_element(-1), Fp::from_element(1)])
    );
    let (cols, width, table) = &gen.lookups_no_challenges[&6];
    assert_eq!(*width, 1);
    assert_eq!(*table, TableType::Range);
    assert_eq!(*cols, q.lookup_witness(&[0, -32, 300]).1);
    // a second layer asks for the same table once more
    assert_eq!(q.gen_lookup_witness(8, &mut gen, &data), Ok(()));
    assert_eq!(gen.tables, vec![TableType::Range]);
    assert_eq!(gen.range_lookups[&0], 24);
    assert_eq!(gen.lookups_no_challenges.len(), 2);
}

#[test]
fn lookup_witness_needs_one_input_and_one_output() {
    let q = Requant::new(128, 8, 256);
    let mut two_in = step(&q, vec![1]);
    two_in.inputs.push(Tensor::new(vec![1], vec![2]));
    let mut gen = empty_gen();
    assert_eq!(q.gen_lookup_witness(0, &mut gen, &two_in), Err(LayerError::Arity));
    let mut no_out = step(&q, vec![1]);
    no_out.outputs.outputs.clear();
    assert_eq!(q.gen_lookup_witness(0, &mut gen, &no_out), Err(LayerError::Arity));
    assert!(gen.tables.is_empty());
    assert!(gen.range_lookups.is_empty());
    assert!(gen.polys_with_id.is_empty());
    assert!(gen.lookups_no_challenges.is_empty());
}

#[test]
fn evaluate_takes_one_tensor() {
    let q = Requant::new(128, 8, 256);
    let t = Tensor::new(vec![2, 2], vec![0, -32, 256, -256]);
    let out = q.evaluate(&[&t], vec![]).unwrap();
    let outs = out.outputs();
    assert_eq!(outs.len(), 1);
    assert_eq!(outs[0].shape, vec![2, 2]);
    assert_eq!(outs[0].data, vec![0, -1, 1, -1]);
    assert_eq!(q.evaluate(&[&t, &t], vec![]).err(), Some(LayerError::Arity));
    assert_eq!(q.evaluate(&[], vec![]).err(), Some(LayerError::Arity));
}

#[test]
fn transcript_gets_the_shift_then_the_range() {
    let q = Requant::new(128, 8, 256);
    let mut t = vec![Fp::new(1)];
    q.write_to_transcript(&mut t);
    assert_eq!(t, vec![Fp::new(1), Fp::new(8), Fp::new(128)]);
}
