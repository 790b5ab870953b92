//! The capabilities that every layer offers, and the requantization layer's
//! own: shapes, description, context derivation, and the claims of its
//! proving and verification steps.

use vstd::prelude::*;
use crate::error::LayerError;
use crate::field::Fp;
use crate::graph::NodeId;
use crate::numeric::{ceil_log2, ceil_log2_spec, lemma_ceil_log2_bounds};
use crate::requant::Requant;

verus! {

/// Identifies a committed polynomial.
pub type PolyID = usize;

/// Whether shapes are taken as they are or padded to powers of two.
#[derive(Clone, Copy, Debug, PartialEq, Eq, Structural)]
pub enum PaddingMode {
    NoPadding,
    Padding,
}

/// The lookup tables that layers ask for.
#[derive(Clone, Copy, Debug, PartialEq, Eq, Structural)]
pub enum TableType {
    /// The table `{0, .., after_range - 1}` that range-checks the limbs.
    Range,
}

/// What is threaded through the layers while their contexts are derived.
#[derive(Debug)]
pub struct ContextAux {
    /// The tables asked for so far, each once, in the order of asking.
    pub tables: Vec<TableType>,
    /// The shapes of the outputs of the layer before.
    pub last_output_shape: Vec<Vec<usize>>,
}

/// What the verifier knows of a requantization layer.
#[derive(Clone, Copy, Debug, PartialEq, Eq, Structural)]
pub struct RequantCtx {
    pub requant: Requant,
    pub poly_id: PolyID,
    pub num_vars: usize,
}

/// What a layer offers for shapes and description.
pub trait OpInfo {
    /// The shapes of the outputs, in order.
    fn output_shapes(&self, input_shapes: &[Vec<usize>], padding_mode: PaddingMode) -> Vec<
        Vec<usize>,
    >;

    /// The number of output tensors for a number of input tensors.
    fn num_outputs(&self, num_inputs: usize) -> usize;

    /// A line of text about the operation.
    fn describe(&self) -> String;

    /// Whether the operation needs a proof.
    fn is_provable(&self) -> bool;
}

/// What a layer offers for the derivation of contexts and commitments.
pub trait ProveInfo {
    /// The context of the layer, and the aux that is handed on.
    fn step_info(&self, id: PolyID, aux: ContextAux) -> Result<(LayerCtx, ContextAux), LayerError>
        requires
            aux.last_output_shape@.len() >= 1,
            forall|i: int|
                0 <= i < aux.last_output_shape@.len() ==> shape_vars(
                    #[trigger] aux.last_output_shape@[i]@,
                ) <= usize::MAX,
    ;

    /// Per output, the constant polynomial to commit to, if there is one.
    fn commit_info(&self, id: NodeId) -> Vec<Option<(PolyID, Vec<Fp>)>>;
}

/// Padding of a layer to power-of-two dimensions.
pub trait PadOp: Sized {
    /// The layer with its tensors padded.
    fn pad_node(self) -> Self;
}

/// Number of variables of a tensor of the given shape: the sum of the
/// rounded-up logarithms of its dimensions.
pub open spec fn shape_vars(shape: Seq<usize>) -> nat
    decreases shape.len(),
{
    if shape.len() == 0 {
        0
    } else {
        shape_vars(shape.drop_last()) + ceil_log2_spec(shape.last() as nat)
    }
}

/// The largest `k` with `2^k <= n`, and 0 for 0.
pub open spec fn floor_log2_spec(n: nat) -> nat
    decreases n,
{
    if n <= 1 {
        0
    } else {
        1 + floor_log2_spec(n / 2)
    }
}

/// A table list with `t` in it: the list itself where it holds `t`, else the
/// list with `t` at its end.
pub open spec fn with_table(tables: Seq<TableType>, t: TableType) -> Seq<TableType> {
    if tables.contains(t) {
        tables
    } else {
        tables.push(t)
    }
}

/// Puts a table into a table list unless it is there.
pub fn insert_table(tables: &mut Vec<TableType>, t: TableType)
    ensures
        final(tables)@ == with_table(old(tables)@, t),
{
    let mut i: usize = 0;
    while i < tables.len()
        invariant
            i <= tables@.len(),
            tables@ == old(tables)@,
            forall|j: int| 0 <= j < i ==> tables@[j] != t,
        decreases tables@.len() - i,
    {
        if tables[i] == t {
            return ;
        }
        i = i + 1;
    }
    tables.push(t);
}

/// A copy of a list of shapes.
pub fn copy_shapes(input_shapes: &[Vec<usize>]) -> (r: Vec<Vec<usize>>)
    ensures
        r@.len() == input_shapes@.len(),
        forall|i: int| 0 <= i < r@.len() ==> (#[trigger] r@[i])@ == input_shapes@[i]@,
{
    let mut r: Vec<Vec<usize>> = Vec::new();
    let mut i: usize = 0;
    while i < input_shapes.len()
        invariant
            i <= input_shapes@.len(),
            r@.len() == i,
            forall|j: int| 0 <= j < i ==> (#[trigger] r@[j])@ == input_shapes@[j]@,
        decreases input_shapes@.len() - i,
    {
        let src = &input_shapes[i];
        let mut shape: Vec<usize> = Vec::new();
        let mut d: usize = 0;
        while d < src.len()
            invariant
                d <= src@.len(),
                shape@ == src@.take(d as int),
            decreases src@.len() - d,
        {
            shape.push(src[d]);
            assert(src@.take(d as int).push(src@[d as int]) == src@.take(d + 1));
            d = d + 1;
        }
        assert(src@.take(src@.len() as int) == src@);
        r.push(shape);
        i = i + 1;
    }
    r
}

/// Number of variables of a tensor of the given shape.
pub fn num_vars_of(shape: &Vec<usize>) -> (n: usize)
    requires
        shape_vars(shape@) <= usize::MAX,
    ensures
        n == shape_vars(shape@),
{
    let mut n: usize = 0;
    let mut i: usize = 0;
    while i < shape.len()
        invariant
            i <= shape@.len(),
            n == shape_vars(shape@.take(i as int)),
            shape_vars(shape@) <= usize::MAX,
        decreases shape@.len() - i,
    {
        proof {
            assert(shape@.take(i + 1).drop_last() == shape@.take(i as int));
            lemma_shape_vars_prefix(shape@, i + 1);
        }
        n = n + ceil_log2(shape[i]);
        i = i + 1;
    }
    assert(shape@.take(shape@.len() as int) == shape@);
    n
}

/// A prefix of a shape has no more variables than the shape.
pub proof fn lemma_shape_vars_prefix(shape: Seq<usize>, n: int)
    requires
        0 <= n <= shape.len(),
    ensures
        shape_vars(shape.take(n)) <= shape_vars(shape),
    decreases shape.len(),
{
    if n == shape.len() {
        assert(shape.take(n) == shape);
    } else {
        assert(shape.drop_last().take(n) == shape.take(n));
        lemma_shape_vars_prefix(shape.drop_last(), n);
    }
}

/// The largest `k` with `2^k <= x`.
pub fn floor_log2(x: usize) -> (k: usize)
    ensures
        k == floor_log2_spec(x as nat),
        k <= 64,
{
    let mut left: usize = x;
    let mut k: usize = 0;
    proof {
        lemma_floor_log2_le(x as nat);
    }
    while left > 1
        invariant
            floor_log2_spec(x as nat) == k + floor_log2_spec(left as nat),
            floor_log2_spec(x as nat) <= 64,
        decreases left,
    {
        left = left / 2;
        k = k + 1;
    }
    k
}

/// The rounded-down logarithm is at most the rounded-up one.
pub proof fn lemma_floor_log2_le(n: nat)
    ensures
        floor_log2_spec(n) <= ceil_log2_spec(n),
        n <= 0x1_0000_0000_0000_0000 ==> floor_log2_spec(n) <= 64,
    decreases n,
{
    lemma_ceil_log2_bounds(n);
    if n <= 1 {
    } else {
        lemma_floor_log2_le(n / 2);
        lemma_floor_log2_mono(n / 2, (n + 1) / 2);
        lemma_floor_log2_le((n + 1) / 2);
    }
}

/// The rounded-down logarithm grows with its argument.
pub proof fn lemma_floor_log2_mono(a: nat, b: nat)
    requires
        a <= b,
    ensures
        floor_log2_spec(a) <= floor_log2_spec(b),
    decreases b,
{
    if a <= 1 {
    } else {
        lemma_floor_log2_mono(a / 2, b / 2);
    }
}

/// The text that std's formatting gives for the template
/// `"{}: shift: {}, offset: 2^{}"` with a name and two numbers.
pub uninterp spec fn description_text(name: Seq<char>, shift: usize, offset_bits: usize) -> Seq<char>;

/// The text of `describe`, from its parts.
///
/// Calls std's `format!`. The text is not spelled out here: the contract
/// only says that it is the one text that the formatting gives for these
/// three values.
#[verifier::external_body]
fn format_description(name: &str, shift: usize, offset_bits: usize) -> (s: String)
    ensures
        s@ == description_text(name@, shift, offset_bits),
{
    format!("{}: shift: {}, offset: 2^{}", name, shift, offset_bits)
}

impl Requant {
    /// The exponent of the power of two that `describe` names as the
    /// offset: the rounded-down logarithm of twice the range, and 0 where
    /// twice the range does not fit a machine word.
    pub open spec fn offset_bits_spec(&self) -> nat {
        if 2 * self.range <= usize::MAX {
            floor_log2_spec((2 * self.range) as nat)
        } else {
            0
        }
    }

    pub fn offset_bits(&self) -> (k: usize)
        ensures
            k == self.offset_bits_spec(),
    {
        if self.range <= usize::MAX / 2 {
            floor_log2(self.range * 2)
        } else {
            0
        }
    }
}

impl ProveInfo for Requant {
    /// The context of this layer, and the aux that is handed on: the range
    /// table is asked for, and the number of variables is that of the
    /// shapes before, which must agree on it.
    fn step_info(&self, id: PolyID, aux: ContextAux) -> (r: Result<
        (LayerCtx, ContextAux),
        LayerError,
    >)
        ensures
            r is Ok <==> forall|i: int|
                0 <= i < aux.last_output_shape@.len() ==> shape_vars(
                    #[trigger] aux.last_output_shape@[i]@,
                ) == shape_vars(aux.last_output_shape@[0]@),
            r is Err ==> r->Err_0 == LayerError::Shape,
            r is Ok ==> {
                &&& r->Ok_0.0 == LayerCtx::Requant(
                    RequantCtx {
                        requant: *self,
                        poly_id: id,
                        num_vars: shape_vars(aux.last_output_shape@[0]@) as usize,
                    },
                )
                &&& r->Ok_0.1.tables@ == with_table(aux.tables@, TableType::Range)
                &&& r->Ok_0.1.last_output_shape == aux.last_output_shape
            },
    {
        let mut next = aux;
        insert_table(&mut next.tables, TableType::Range);
        let num_vars: usize = num_vars_of(&next.last_output_shape[0]);
        let mut i: usize = 1;
        while i < next.last_output_shape.len()
            invariant
                1 <= i <= next.last_output_shape@.len(),
                next.last_output_shape == aux.last_output_shape,
                next.tables@ == with_table(aux.tables@, TableType::Range),
                num_vars == shape_vars(aux.last_output_shape@[0]@),
                forall|j: int|
                    0 <= j < aux.last_output_shape@.len() ==> shape_vars(
                        #[trigger] aux.last_output_shape@[j]@,
                    ) <= usize::MAX,
                forall|j: int|
                    0 <= j < i ==> shape_vars(#[trigger] aux.last_output_shape@[j]@) == shape_vars(
                        aux.last_output_shape@[0]@,
                    ),
            decreases next.last_output_shape@.len() - i,
        {
            if num_vars_of(&next.last_output_shape[i]) != num_vars {
                assert(shape_vars(aux.last_output_shape@[i as int]@) != shape_vars(
                    aux.last_output_shape@[0]@,
                ));
                return Err(LayerError::Shape);
            }
            i = i + 1;
        }
        Ok((LayerCtx::Requant(RequantCtx { requant: *self, poly_id: id, num_vars }), next))
    }

    /// A requantization layer has no constant polynomial.
    fn commit_info(&self, id: NodeId) -> (r: Vec<Option<(PolyID, Vec<Fp>)>>)
        ensures
            r@.len() == 1,
            r@[0] is None,
    {
        let mut r: Vec<Option<(PolyID, Vec<Fp>)>> = Vec::new();
        r.push(None);
        r
    }
}

impl OpInfo for Requant {
    /// The shapes as they came.
    fn output_shapes(&self, input_shapes: &[Vec<usize>], padding_mode: PaddingMode) -> (r: Vec<
        Vec<usize>,
    >)
        ensures
            r@.len() == input_shapes@.len(),
            forall|i: int| 0 <= i < r@.len() ==> (#[trigger] r@[i])@ == input_shapes@[i]@,
    {
        copy_shapes(input_shapes)
    }

    fn num_outputs(&self, num_inputs: usize) -> (n: usize)
        ensures
            n == num_inputs,
    {
        num_inputs
    }

    fn describe(&self) -> (s: String)
        ensures
            s@ == description_text(
                "Requant"@,
                self.right_shift,
                self.offset_bits_spec() as usize,
            ),
    {
        format_description("Requant", self.right_shift, self.offset_bits())
    }

    fn is_provable(&self) -> (b: bool)
        ensures
            b,
    {
        true
    }
}

impl PadOp for Requant {
    /// Requantization does not depend on shapes: the layer itself.
    fn pad_node(self) -> (r: Self)
        ensures
            r == self,
    {
        self
    }
}

impl OpInfo for RequantCtx {
    /// The shapes as they came.
    fn output_shapes(&self, input_shapes: &[Vec<usize>], padding_mode: PaddingMode) -> (r: Vec<
        Vec<usize>,
    >)
        ensures
            r@.len() == input_shapes@.len(),
            forall|i: int| 0 <= i < r@.len() ==> (#[trigger] r@[i])@ == input_shapes@[i]@,
    {
        copy_shapes(input_shapes)
    }

    fn num_outputs(&self, num_inputs: usize) -> (n: usize)
        ensures
            n == num_inputs,
    {
        num_inputs
    }

    fn describe(&self) -> (s: String)
        ensures
            s@ == description_text(
                "Requant ctx"@,
                self.requant.right_shift,
                self.requant.offset_bits_spec() as usize,
            ),
    {
        format_description("Requant ctx", self.requant.right_shift, self.requant.offset_bits())
    }

    fn is_provable(&self) -> (b: bool)
        ensures
            b,
    {
        true
    }
}

/// The kinds of operation, each with what this library knows of it.
#[derive(Clone, Copy, Debug, PartialEq, Eq, Structural)]
pub enum Layer {
    Dense,
    Convolution,
    Activation,
    Requant(Requant),
    Pooling,
    Flatten,
}

/// The kinds of verifier context, one per kind of operation.
#[derive(Clone, Copy, Debug, PartialEq, Eq, Structural)]
pub enum LayerCtx {
    Dense,
    Convolution,
    Activation,
    Requant(RequantCtx),
    Pooling,
    Flatten,
}

impl Layer {
    /// Every kind of layer gives one output per input.
    pub fn num_outputs(&self, num_inputs: usize) -> (n: usize)
        ensures
            n == num_inputs,
    {
        num_inputs
    }

    /// Every kind but flattening needs a proof.
    pub fn is_provable(&self) -> (b: bool)
        ensures
            b == !(*self is Flatten),
    {
        match self {
            Layer::Flatten => false,
            _ => true,
        }
    }
}

impl LayerCtx {
    /// The shapes of the outputs of a requantization layer: those of its
    /// inputs. The shapes of the other kinds are theirs to say.
    pub fn output_shapes(&self, input_shapes: &[Vec<usize>], padding_mode: PaddingMode) -> (r:
        Result<Vec<Vec<usize>>, LayerError>)
        ensures
            !(*self is Requant) ==> r == Err::<Vec<Vec<usize>>, LayerError>(LayerError::Unsupported),
            *self is Requant ==> {
                &&& r is Ok
                &&& r->Ok_0@.len() == input_shapes@.len()
                &&& forall|i: int|
                    0 <= i < input_shapes@.len() ==> (#[trigger] r->Ok_0@[i])@ == input_shapes@[i]@
            },
    {
        match self {
            LayerCtx::Requant(requant_ctx) => Ok(requant_ctx.output_shapes(input_shapes, padding_mode)),
            _ => Err(LayerError::Unsupported),
        }
    }

    /// The description of a requantization layer. The other kinds describe
    /// themselves.
    pub fn describe(&self) -> (r: Result<String, LayerError>)
        ensures
            r is Ok <==> *self is Requant,
            r is Err ==> r->Err_0 == LayerError::Unsupported,
            r is Ok ==> r->Ok_0@ == description_text(
                "Requant ctx"@,
                self->Requant_0.requant.right_shift,
                self->Requant_0.requant.offset_bits_spec() as usize,
            ),
    {
        match self {
            LayerCtx::Requant(requant_ctx) => Ok(requant_ctx.describe()),
            _ => Err(LayerError::Unsupported),
        }
    }

    /// Every kind of layer gives one output per input.
    pub fn num_outputs(&self, num_inputs: usize) -> (n: usize)
        ensures
            n == num_inputs,
    {
        num_inputs
    }

    /// Every kind but flattening needs a proof.
    pub fn is_provable(&self) -> (b: bool)
        ensures
            b == !(*self is Flatten),
    {
        match self {
            LayerCtx::Flatten => false,
            _ => true,
        }
    }
}

} // verus!
