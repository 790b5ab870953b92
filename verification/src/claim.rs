//! Evaluation claims and integer tensors.

use vstd::prelude::*;
use crate::field::Fp;

verus! {

/// The integer type of quantized values.
pub type Element = i128;

/// The assertion that some multilinear polynomial takes the value `eval` at
/// `point`, over values of type `E`.
#[derive(Debug)]
pub struct Claim<E> {
    pub point: Vec<E>,
    pub eval: E,
}

impl<E> Claim<E> {
    pub fn new(point: Vec<E>, eval: E) -> (r: Claim<E>)
        ensures
            r.point == point,
            r.eval == eval,
    {
        Claim { point, eval }
    }
}

impl Claim<Fp> {
    /// Every coordinate and the value are reduced field elements.
    pub open spec fn wf(&self) -> bool {
        &&& self.eval.wf()
        &&& forall|i: int| 0 <= i < self.point@.len() ==> (#[trigger] self.point@[i]).wf()
    }

    /// Whether the value and every coordinate are reduced.
    pub fn is_reduced(&self) -> (b: bool)
        ensures
            b == self.wf(),
    {
        if !self.eval.is_reduced() {
            return false;
        }
        let mut i: usize = 0;
        while i < self.point.len()
            invariant
                i <= self.point@.len(),
                forall|j: int| 0 <= j < i ==> (#[trigger] self.point@[j]).wf(),
            decreases self.point@.len() - i,
        {
            if !self.point[i].is_reduced() {
                return false;
            }
            i = i + 1;
        }
        true
    }

    /// A claim with the same point and value.
    pub fn duplicate(&self) -> (r: Claim<Fp>)
        ensures
            r.point@ == self.point@,
            r.eval == self.eval,
    {
        Claim { point: copy_point(&self.point), eval: self.eval }
    }
}

/// A copy of an evaluation point.
pub fn copy_point(point: &Vec<Fp>) -> (r: Vec<Fp>)
    ensures
        r@ == point@,
{
    let mut r: Vec<Fp> = Vec::new();
    let mut i: usize = 0;
    while i < point.len()
        invariant
            i <= point.len(),
            r@ == point@.take(i as int),
        decreases point.len() - i,
    {
        r.push(point[i]);
        assert(point@.take(i as int).push(point@[i as int]) == point@.take(i + 1));
        i = i + 1;
    }
    assert(point@.take(point.len() as int) == point@);
    r
}

/// An integer tensor: a shape and its entries in row-major order.
#[derive(Debug)]
pub struct Tensor {
    pub shape: Vec<usize>,
    pub data: Vec<Element>,
}

impl Tensor {
    pub fn new(shape: Vec<usize>, data: Vec<Element>) -> (r: Tensor)
        ensures
            r.shape == shape,
            r.data == data,
    {
        Tensor { shape, data }
    }

    pub fn get_shape(&self) -> (r: Vec<usize>)
        ensures
            r@ == self.shape@,
    {
        let mut r: Vec<usize> = Vec::new();
        let mut i: usize = 0;
        while i < self.shape.len()
            invariant
                i <= self.shape.len(),
                r@ == self.shape@.take(i as int),
            decreases self.shape.len() - i,
        {
            r.push(self.shape[i]);
            assert(self.shape@.take(i as int).push(self.shape@[i as int]) == self.shape@.take(
                i + 1,
            ));
            i = i + 1;
        }
        assert(self.shape@.take(self.shape.len() as int) == self.shape@);
        r
    }

    pub fn get_data(&self) -> (r: &[Element])
        ensures
            r@ == self.data@,
    {
        self.data.as_slice()
    }
}

} // verus!
