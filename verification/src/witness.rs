//! What a requantization layer adds to the lookup witness of a model, and
//! its evaluation on the tensors of an inference step.

use std::collections::HashMap;
use vstd::prelude::*;
use crate::claim::{Element, Tensor};
use crate::error::LayerError;
use crate::field::{lift, Fp};
use crate::graph::NodeId;
use crate::layer::{insert_table, with_table, PolyID, TableType};
use crate::numeric::padded_len;
use crate::requant::Requant;

verus! {

broadcast use vstd::std_specs::hash::group_hash_axioms;

/// The output tensors of the evaluation of a layer.
#[derive(Debug)]
pub struct LayerOut {
    pub outputs: Vec<Tensor>,
}

impl LayerOut {
    pub fn from_vec(out: Vec<Tensor>) -> (r: Self)
        ensures
            r.outputs == out,
    {
        LayerOut { outputs: out }
    }

    /// The output tensors, in order.
    pub fn outputs(&self) -> (r: Vec<&Tensor>)
        ensures
            r@.len() == self.outputs@.len(),
            forall|i: int| 0 <= i < r@.len() ==> *#[trigger] r@[i] == self.outputs@[i],
    {
        let mut r: Vec<&Tensor> = Vec::new();
        let mut i: usize = 0;
        while i < self.outputs.len()
            invariant
                i <= self.outputs@.len(),
                r@.len() == i,
                forall|j: int| 0 <= j < i ==> *#[trigger] r@[j] == self.outputs@[j],
            decreases self.outputs@.len() - i,
        {
            r.push(&self.outputs[i]);
            i = i + 1;
        }
        r
    }
}

/// Evaluates a requantization layer, with or without the unpadded shapes of
/// its inputs, which it does not look at.
pub fn evaluate_layer(
    layer: &Requant,
    inputs: &[&Tensor],
    unpadded_input_shapes: Option<Vec<Vec<usize>>>,
) -> (r: Result<LayerOut, LayerError>)
    requires
        layer.wf(),
        inputs@.len() == 1 ==> forall|i: int|
            0 <= i < inputs@[0].data@.len() ==> layer.accepts(#[trigger] inputs@[0].data@[i] as int),
    ensures
        inputs@.len() != 1 ==> r == Err::<LayerOut, LayerError>(LayerError::Arity),
        inputs@.len() == 1 ==> {
            &&& r is Ok
            &&& r->Ok_0.outputs@.len() == 1
            &&& r->Ok_0.outputs@[0].shape@ == inputs@[0].shape@
            &&& r->Ok_0.outputs@[0].data@.len() == inputs@[0].data@.len()
            &&& forall|i: int|
                0 <= i < inputs@[0].data@.len() ==> r->Ok_0.outputs@[0].data@[i] as int
                    == layer.apply_spec(#[trigger] inputs@[0].data@[i] as int)
        },
{
    let shapes: Vec<Vec<usize>> = match unpadded_input_shapes {
        Some(s) => s,
        None => Vec::new(),
    };
    layer.evaluate(inputs, shapes)
}

/// The tensors that went into and came out of a layer in one inference
/// step.
#[derive(Debug)]
pub struct StepData {
    pub inputs: Vec<Tensor>,
    pub outputs: LayerOut,
}

/// The lookup witness of a model, as the layers fill it.
#[derive(Debug)]
pub struct LookupWitnessGen {
    /// The tables in use, each once.
    pub tables: Vec<TableType>,
    /// How often each value is looked up in the range table.
    pub range_lookups: HashMap<Element, u64>,
    /// The output polynomials to commit to, by their ids.
    pub polys_with_id: Vec<(PolyID, Vec<Fp>)>,
    /// For each node its lookup columns, the number of columns of one
    /// lookup, and the table they are looked up in.
    pub lookups_no_challenges: HashMap<NodeId, (Vec<Vec<Fp>>, usize, TableType)>,
}

/// How often a value is counted: zero where it is not on record.
pub open spec fn count_of(counts: Map<Element, u64>, v: Element) -> int {
    if counts.contains_key(v) {
        counts[v] as int
    } else {
        0
    }
}

/// The counts after each value of a list was counted once more.
pub open spec fn tally(counts: Map<Element, u64>, values: Seq<Element>) -> Map<Element, u64>
    decreases values.len(),
{
    if values.len() == 0 {
        counts
    } else {
        let before = tally(counts, values.drop_last());
        before.insert(values.last(), (count_of(before, values.last()) + 1) as u64)
    }
}

/// Counts each value of a list once more.
pub fn tally_into(counts: &mut HashMap<Element, u64>, values: &[Element])
    requires
        forall|v: Element| count_of(old(counts)@, v) + values@.len() <= u64::MAX,
    ensures
        final(counts)@ == tally(old(counts)@, values@),
{
    let mut p: usize = 0;
    assert(values@.take(0).len() == 0);
    while p < values.len()
        invariant
            p <= values@.len(),
            counts@ == tally(old(counts)@, values@.take(p as int)),
            forall|v: Element| count_of(old(counts)@, v) + values@.len() <= u64::MAX,
            forall|v: Element| #[trigger] count_of(counts@, v) <= count_of(old(counts)@, v) + p,
        decreases values@.len() - p,
    {
        let v: Element = values[p];
        let c: u64 = match counts.get(&v) {
            Some(c) => *c,
            None => 0,
        };
        assert(c as int == count_of(counts@, v));
        assert(count_of(old(counts)@, v) + values@.len() <= u64::MAX);
        proof {
            assert(values@.take(p + 1).drop_last() == values@.take(p as int));
            assert(values@.take(p + 1).last() == v);
        }
        let ghost before = counts@;
        counts.insert(v, c + 1);
        assert forall|w: Element| #[trigger]
            count_of(counts@, w) <= count_of(old(counts)@, w) + p + 1 by {
            assert(count_of(before, w) <= count_of(old(counts)@, w) + p);
        }
        p = p + 1;
    }
    assert(values@.take(values@.len() as int) == values@);
}

impl Requant {
    /// The lookup columns laid end to end, column after column.
    pub open spec fn merged_spec(&self, input: Seq<Element>) -> Seq<Element> {
        Seq::new(
            (self.num_columns_spec() * padded_len(input.len())) as nat,
            |p: int|
                self.table_cell(
                    input,
                    p / (padded_len(input.len()) as int),
                    p % (padded_len(input.len()) as int),
                    true,
                ) as Element,
        )
    }

    /// The field columns of the lookup witness for a list of inputs.
    pub open spec fn is_lookup_columns(&self, input: Seq<Element>, f: Seq<Vec<Fp>>) -> bool {
        &&& f.len() == self.num_columns_spec()
        &&& forall|c: int| 0 <= c < f.len() ==> (#[trigger] f[c])@.len() == padded_len(input.len())
        &&& forall|c: int, idx: int|
            0 <= c < f.len() && 0 <= idx < padded_len(input.len()) ==> (#[trigger] f[c]@[idx]).wf()
                && f[c]@[idx].val() == lift(self.table_cell(input, c, idx, true))
    }

    /// Evaluates the layer on its one input tensor.
    pub fn evaluate(&self, inputs: &[&Tensor], unpadded_input_shapes: Vec<Vec<usize>>) -> (r:
        Result<LayerOut, LayerError>)
        requires
            self.wf(),
            inputs@.len() == 1 ==> forall|i: int|
                0 <= i < inputs@[0].data@.len() ==> self.accepts(
                    #[trigger] inputs@[0].data@[i] as int,
                ),
        ensures
            inputs@.len() != 1 ==> r == Err::<LayerOut, LayerError>(LayerError::Arity),
            inputs@.len() == 1 ==> {
                &&& r is Ok
                &&& r->Ok_0.outputs@.len() == 1
                &&& r->Ok_0.outputs@[0].shape@ == inputs@[0].shape@
                &&& r->Ok_0.outputs@[0].data@.len() == inputs@[0].data@.len()
                &&& forall|i: int|
                    0 <= i < inputs@[0].data@.len() ==> r->Ok_0.outputs@[0].data@[i] as int
                        == self.apply_spec(#[trigger] inputs@[0].data@[i] as int)
            },
    {
        if inputs.len() != 1 {
            return Err(LayerError::Arity);
        }
        match self.op(inputs[0]) {
            Ok(t) => {
                let mut out: Vec<Tensor> = Vec::new();
                out.push(t);
                Ok(LayerOut::from_vec(out))
            },
            Err(e) => Err(e),
        }
    }

    /// The two field elements that stand for this layer in a transcript,
    /// appended to it:
    /// the shift, then the range.
    pub fn write_to_transcript(&self, t: &mut Vec<Fp>)
        ensures
            final(t)@.len() == old(t)@.len() + 2,
            final(t)@.take(old(t)@.len() as int) == old(t)@,
            final(t)@[old(t)@.len() as int].wf(),
            final(t)@[old(t)@.len() as int].val() == lift(self.right_shift as int),
            final(t)@[old(t)@.len() as int + 1].wf(),
            final(t)@[old(t)@.len() as int + 1].val() == lift(self.range as int),
    {
        t.push(Fp::new(self.right_shift as u64));
        t.push(Fp::new(self.range as u64));
        assert(t@.take(old(t)@.len() as int) == old(t)@);
    }

    /// Adds this layer's part to the lookup witness: the range table is in
    /// use, every cell of the lookup columns is counted once more, the
    /// output polynomial is on the list to commit to, and the columns are
    /// on record for the node. With another number of inputs or outputs
    /// than one, nothing is added.
    pub fn gen_lookup_witness(&self, id: NodeId, gen: &mut LookupWitnessGen, step_data: &StepData) -> (r:
        Result<(), LayerError>)
        requires
            self.wf(),
            step_data.inputs@.len() == 1 && step_data.outputs.outputs@.len() == 1 ==> {
                &&& self.accepts_all(step_data.inputs@[0].data@)
                &&& forall|v: Element|
                    count_of(old(gen).range_lookups@, v) + self.num_columns_spec() * padded_len(
                        step_data.inputs@[0].data@.len(),
                    ) <= u64::MAX
            },
        ensures
            !(step_data.inputs@.len() == 1 && step_data.outputs.outputs@.len() == 1) ==> {
                &&& r == Err::<(), LayerError>(LayerError::Arity)
                &&& *final(gen) == *old(gen)
            },
            step_data.inputs@.len() == 1 && step_data.outputs.outputs@.len() == 1 ==> {
                let input = step_data.inputs@[0].data@;
                let output = step_data.outputs.outputs@[0].data@;
                let polys = final(gen).polys_with_id@;
                let n = old(gen).polys_with_id@.len() as int;
                let records = final(gen).lookups_no_challenges@;
                &&& r is Ok
                &&& final(gen).tables@ == with_table(old(gen).tables@, TableType::Range)
                &&& final(gen).range_lookups@ == tally(
                    old(gen).range_lookups@,
                    self.merged_spec(input),
                )
                &&& polys.len() == n + 1
                &&& polys.take(n) == old(gen).polys_with_id@
                &&& polys[n].0 == id
                &&& polys[n].1@.len() == output.len()
                &&& forall|j: int|
                    0 <= j < output.len() ==> (#[trigger] polys[n].1@[j]).wf() && polys[n].1@[j].val()
                        == lift(output[j] as int)
                &&& records.contains_key(id)
                &&& self.is_lookup_columns(input, records[id].0@)
                &&& records[id].1 == 1
                &&& records[id].2 == TableType::Range
                &&& records.remove(id) == old(gen).lookups_no_challenges@.remove(id)
            },
    {
        if step_data.inputs.len() != 1 {
            return Err(LayerError::Arity);
        }
        if step_data.outputs.outputs.len() != 1 {
            return Err(LayerError::Arity);
        }
        let input = step_data.inputs[0].get_data();
        let output = step_data.outputs.outputs[0].get_data();
        insert_table(&mut gen.tables, TableType::Range);
        let (merged_lookups, column_evals) = self.lookup_witness(input);
        assert(merged_lookups@ =~= self.merged_spec(input@));
        tally_into(&mut gen.range_lookups, merged_lookups.as_slice());
        let mut poly: Vec<Fp> = Vec::new();
        let mut j: usize = 0;
        while j < output.len()
            invariant
                j <= output@.len(),
                poly@.len() == j,
                forall|i: int|
                    0 <= i < j ==> (#[trigger] poly@[i]).wf() && poly@[i].val() == lift(
                        output@[i] as int,
                    ),
            decreases output@.len() - j,
        {
            poly.push(Fp::from_element(output[j]));
            j = j + 1;
        }
        let ghost n = gen.polys_with_id@.len() as int;
        gen.polys_with_id.push((id, poly));
        assert(gen.polys_with_id@.take(n) == old(gen).polys_with_id@);
        gen.lookups_no_challenges.insert(id, (column_evals, 1, TableType::Range));
        assert(gen.lookups_no_challenges@.remove(id) == old(gen).lookups_no_challenges@.remove(id));
        Ok(())
    }
}

} // verus!
