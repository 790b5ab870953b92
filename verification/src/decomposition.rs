//! The column tables that the range lookup is run on.

use vstd::prelude::*;
use vstd::arithmetic::div_mod::lemma_fundamental_div_mod_converse;
use crate::claim::{Element, Tensor};
use crate::error::LayerError;
use crate::field::{lift, Fp};
use crate::numeric::{ceil_log2, lemma_ceil_log2_bounds, padded_len, pow2_u128};
use crate::recombine::{lemma_recombination_exact_in_field, values_of};
use crate::requant::{Requant, RequantResult};

verus! {

impl Requant {
    /// The inputs on which the column tables are defined: a non-empty list
    /// of admissible values whose padded length fits a machine word.
    pub open spec fn accepts_all(&self, input: Seq<Element>) -> bool {
        &&& input.len() >= 1
        &&& padded_len(input.len()) <= usize::MAX
        &&& forall|i: int| 0 <= i < input.len() ==> self.accepts(#[trigger] input[i] as int)
    }

    /// Whether the column tables are defined for a list of inputs.
    pub fn admits_all(&self, input: &[Element]) -> (b: bool)
        requires
            self.wf(),
        ensures
            b == self.accepts_all(input@),
    {
        if input.len() == 0 {
            return false;
        }
        proof {
            lemma_ceil_log2_bounds(input@.len());
        }
        if pow2_u128(ceil_log2(input.len())) > usize::MAX as u128 {
            return false;
        }
        let mut i: usize = 0;
        while i < input.len()
            invariant
                i <= input@.len(),
                2 * self.range <= usize::MAX,
                forall|j: int| 0 <= j < i ==> self.accepts(#[trigger] input@[j] as int),
            decreases input@.len() - i,
        {
            if !self.admits(input[i]) {
                return false;
            }
            i = i + 1;
        }
        true
    }

    /// The field elements of one row of a column table.
    pub open spec fn row(f: Seq<Vec<Fp>>, idx: int) -> Seq<Fp> {
        Seq::new(f.len(), |c: int| f[c]@[idx])
    }

    /// Requantizes every entry of a tensor; the shape stays as it is.
    pub fn op(&self, input: &Tensor) -> (r: Result<Tensor, LayerError>)
        requires
            self.wf(),
            forall|i: int| 0 <= i < input.data@.len() ==> self.accepts(#[trigger] input.data@[i] as int),
        ensures
            r is Ok,
            r->Ok_0.shape@ == input.shape@,
            r->Ok_0.data@.len() == input.data@.len(),
            forall|i: int|
                0 <= i < input.data@.len() ==> r->Ok_0.data@[i] as int == self.apply_spec(
                    #[trigger] input.data@[i] as int,
                ),
    {
        let data = input.get_data();
        let mut res: Vec<Element> = Vec::new();
        let mut i: usize = 0;
        while i < data.len()
            invariant
                self.wf(),
                data@ == input.data@,
                i <= data.len(),
                res@.len() == i,
                forall|j: int| 0 <= j < data@.len() ==> self.accepts(#[trigger] data@[j] as int),
                forall|j: int|
                    0 <= j < i ==> res@[j] as int == self.apply_spec(#[trigger] data@[j] as int),
            decreases data.len() - i,
        {
            let v = match self.apply(&data[i]) {
                RequantResult::InRange(v) => v,
                RequantResult::OutOfRange(v) => v,
            };
            res.push(v);
            i = i + 1;
        }
        Ok(Tensor::new(input.get_shape(), res))
    }

    /// How many entries of a tensor leave the output domain when
    /// requantized.
    pub fn count_out_of_range(&self, input: &Tensor) -> (n: usize)
        requires
            self.wf(),
            forall|i: int| 0 <= i < input.data@.len() ==> self.accepts(#[trigger] input.data@[i] as int),
        ensures
            n <= input.data@.len(),
            n == 0 <==> forall|i: int|
                0 <= i < input.data@.len() ==> self.in_range(
                    self.apply_spec(#[trigger] input.data@[i] as int),
                ),
    {
        let data = input.get_data();
        let mut n: usize = 0;
        let mut i: usize = 0;
        while i < data.len()
            invariant
                self.wf(),
                data@ == input.data@,
                i <= data.len(),
                n <= i,
                forall|j: int| 0 <= j < data@.len() ==> self.accepts(#[trigger] data@[j] as int),
                n == 0 <==> forall|j: int|
                    0 <= j < i ==> self.in_range(self.apply_spec(#[trigger] data@[j] as int)),
            decreases data.len() - i,
        {
            if !self.apply(&data[i]).is_in_range() {
                n = n + 1;
            }
            i = i + 1;
        }
        n
    }

    /// The values of the output domain in increasing order, as field
    /// elements: the range table.
    pub fn to_mle(&self) -> (r: Vec<Fp>)
        requires
            self.wf(),
        ensures
            r@.len() == self.after_range,
            forall|i: int|
                0 <= i < r@.len() ==> (#[trigger] r@[i]).wf() && r@[i].val() == lift(i - self.half()),
    {
        let half: i128 = (self.after_range / 2) as i128;
        let mut r: Vec<Fp> = Vec::new();
        let mut i: usize = 0;
        while i < self.after_range
            invariant
                i <= self.after_range,
                half == self.half(),
                r@.len() == i,
                forall|j: int|
                    0 <= j < i ==> (#[trigger] r@[j]).wf() && r@[j].val() == lift(j - self.half()),
            decreases self.after_range - i,
        {
            r.push(Fp::from_element(i as i128 - half));
            i = i + 1;
        }
        r
    }

    /// The integer column tables for a list of inputs: one column per part
    /// of the decomposition, each padded with zeros to a power-of-two length.
    pub fn columns(&self, input: &[Element], shifted: bool) -> (t: Vec<Vec<Element>>)
        requires
            self.wf(),
            self.accepts_all(input@),
        ensures
            t@.len() == self.num_columns_spec(),
            forall|c: int|
                0 <= c < t@.len() ==> (#[trigger] t@[c])@.len() == padded_len(input@.len()),
            forall|c: int, idx: int|
                0 <= c < t@.len() && 0 <= idx < padded_len(input@.len()) ==> t@[c]@[idx] as int
                    == #[trigger] self.table_cell(input@, c, idx, shifted),
    {
        let n: usize = input.len();
        proof {
            lemma_ceil_log2_bounds(n as nat);
        }
        let rows: usize = pow2_u128(ceil_log2(n)) as usize;
        let k: usize = self.num_columns();
        let mut decs: Vec<Vec<Element>> = Vec::new();
        let mut i: usize = 0;
        while i < n
            invariant
                self.wf(),
                self.accepts_all(input@),
                n == input@.len(),
                i <= n,
                decs@.len() == i,
                forall|a: int| 0 <= a < i ==> (#[trigger] decs@[a])@.len() == k,
                forall|a: int, c: int|
                    0 <= a < i && 0 <= c < k ==> decs@[a]@[c] as int == #[trigger] self.table_cell(
                        input@,
                        c,
                        a,
                        shifted,
                    ),
                k == self.num_columns_spec(),
            decreases n - i,
        {
            let d = self.decompose(input[i], shifted);
            assert forall|c: int| 0 <= c < k implies d@[c] as int == #[trigger] self.table_cell(
                input@,
                c,
                i as int,
                shifted,
            ) by {
                assert(d@[c] as int == self.column_value(input@[i as int] as int, c, shifted));
            }
            decs.push(d);
            i = i + 1;
        }
        let mut t: Vec<Vec<Element>> = Vec::new();
        let mut c: usize = 0;
        while c < k
            invariant
                c <= k,
                k == self.num_columns_spec(),
                n == input@.len(),
                rows == padded_len(input@.len()),
                rows >= n,
                decs@.len() == n,
                forall|a: int| 0 <= a < n ==> (#[trigger] decs@[a])@.len() == k,
                forall|a: int, c2: int|
                    0 <= a < n && 0 <= c2 < k ==> decs@[a]@[c2] as int == #[trigger] self.table_cell(
                        input@,
                        c2,
                        a,
                        shifted,
                    ),
                t@.len() == c,
                forall|c2: int| 0 <= c2 < c ==> (#[trigger] t@[c2])@.len() == rows,
                forall|c2: int, idx: int|
                    0 <= c2 < c && 0 <= idx < rows ==> t@[c2]@[idx] as int
                        == #[trigger] self.table_cell(input@, c2, idx, shifted),
            decreases k - c,
        {
            let mut col: Vec<Element> = Vec::new();
            let mut idx: usize = 0;
            while idx < rows
                invariant
                    c < k,
                    idx <= rows,
                    n == input@.len(),
                    decs@.len() == n,
                    forall|a: int| 0 <= a < n ==> (#[trigger] decs@[a])@.len() == k,
                    forall|a: int, c2: int|
                        0 <= a < n && 0 <= c2 < k ==> decs@[a]@[c2] as int
                            == #[trigger] self.table_cell(input@, c2, a, shifted),
                    col@.len() == idx,
                    forall|a: int|
                        0 <= a < idx ==> col@[a] as int == #[trigger] self.table_cell(
                            input@,
                            c as int,
                            a,
                            shifted,
                        ),
                decreases rows - idx,
            {
                if idx < n {
                    let v: Element = decs[idx][c];
                    assert(v as int == self.table_cell(input@, c as int, idx as int, shifted));
                    col.push(v);
                } else {
                    col.push(0);
                }
                idx = idx + 1;
            }
            t.push(col);
            c = c + 1;
        }
        t
    }

    /// The field image of integer column tables.
    pub fn lift_columns(t: &Vec<Vec<Element>>) -> (f: Vec<Vec<Fp>>)
        ensures
            f@.len() == t@.len(),
            forall|c: int| 0 <= c < t@.len() ==> (#[trigger] f@[c])@.len() == t@[c]@.len(),
            forall|c: int, idx: int|
                0 <= c < t@.len() && 0 <= idx < t@[c]@.len() ==> (#[trigger] f@[c]@[idx]).wf()
                    && f@[c]@[idx].val() == lift(t@[c]@[idx] as int),
    {
        let mut f: Vec<Vec<Fp>> = Vec::new();
        let mut c: usize = 0;
        while c < t.len()
            invariant
                c <= t@.len(),
                f@.len() == c,
                forall|c2: int| 0 <= c2 < c ==> (#[trigger] f@[c2])@.len() == t@[c2]@.len(),
                forall|c2: int, idx: int|
                    0 <= c2 < c && 0 <= idx < t@[c2]@.len() ==> (#[trigger] f@[c2]@[idx]).wf()
                        && f@[c2]@[idx].val() == lift(t@[c2]@[idx] as int),
            decreases t@.len() - c,
        {
            let src = &t[c];
            let mut col: Vec<Fp> = Vec::new();
            let mut idx: usize = 0;
            while idx < src.len()
                invariant
                    idx <= src@.len(),
                    col@.len() == idx,
                    forall|a: int|
                        0 <= a < idx ==> (#[trigger] col@[a]).wf() && col@[a].val() == lift(
                            src@[a] as int,
                        ),
                decreases src@.len() - idx,
            {
                col.push(Fp::from_element(src[idx]));
                idx = idx + 1;
            }
            f.push(col);
            c = c + 1;
        }
        f
    }

    /// The decomposition of a layer's output values for the claim that is
    /// handed on: column 0 holds the requantized values themselves, the
    /// other columns the limbs of the discarded bits.
    pub fn prep_for_requantize(&self, input: &[Element]) -> (f: Vec<Vec<Fp>>)
        requires
            self.wf(),
            self.accepts_all(input@),
        ensures
            f@.len() == self.num_columns_spec(),
            forall|c: int|
                0 <= c < f@.len() ==> (#[trigger] f@[c])@.len() == padded_len(input@.len()),
            forall|c: int, idx: int|
                0 <= c < f@.len() && 0 <= idx < padded_len(input@.len()) ==> (
                #[trigger] f@[c]@[idx]).wf() && f@[c]@[idx].val() == lift(
                    self.table_cell(input@, c, idx, false),
                ),
            forall|idx: int|
                0 <= idx < input@.len() ==> (#[trigger] f@[0]@[idx]).val() == lift(
                    self.apply_spec(input@[idx] as int),
                ),
    {
        let t = self.columns(input, false);
        let f = Self::lift_columns(&t);
        assert forall|c: int, idx: int|
            0 <= c < f@.len() && 0 <= idx < padded_len(input@.len()) implies (
            #[trigger] f@[c]@[idx]).wf() && f@[c]@[idx].val() == lift(
            self.table_cell(input@, c, idx, false),
        ) by {
            assert(t@[c]@.len() == padded_len(input@.len()));
            assert(t@[c]@[idx] as int == self.table_cell(input@, c, idx, false));
        }
        proof {
            self.lemma_limb_bits();
            lemma_ceil_log2_bounds(input@.len());
            assert forall|idx: int| 0 <= idx < input@.len() implies (#[trigger] f@[0]@[idx]).val()
                == lift(self.apply_spec(input@[idx] as int)) by {
                assert(f@[0]@[idx].val() == lift(self.table_cell(input@, 0, idx, false)));
            }
        }
        f
    }

    /// The lookup witness: every column in range-table form (column 0 moved
    /// up by half the range), once as integers laid end to end, column after
    /// column, and once as field elements column by column.
    pub fn lookup_witness(&self, input: &[Element]) -> (r: (Vec<Element>, Vec<Vec<Fp>>))
        requires
            self.wf(),
            self.accepts_all(input@),
        ensures
            r.0@.len() == self.num_columns_spec() * padded_len(input@.len()),
            forall|p: int|
                0 <= p < r.0@.len() ==> r.0@[p] as int == #[trigger] self.table_cell(
                    input@,
                    p / (padded_len(input@.len()) as int),
                    p % (padded_len(input@.len()) as int),
                    true,
                ),
            r.1@.len() == self.num_columns_spec(),
            forall|c: int|
                0 <= c < r.1@.len() ==> (#[trigger] r.1@[c])@.len() == padded_len(input@.len()),
            forall|c: int, idx: int|
                0 <= c < r.1@.len() && 0 <= idx < padded_len(input@.len()) ==> (
                #[trigger] r.1@[c]@[idx]).wf() && r.1@[c]@[idx].val() == lift(
                    self.table_cell(input@, c, idx, true),
                ),
            forall|idx: int|
                0 <= idx < input@.len() ==> lift(
                    self.recombine_int(values_of(#[trigger] Self::row(r.1@, idx))),
                ) == lift(input@[idx] as int),
    {
        let t = self.columns(input, true);
        let f = Self::lift_columns(&t);
        assert forall|c: int, idx: int|
            0 <= c < f@.len() && 0 <= idx < padded_len(input@.len()) implies (
            #[trigger] f@[c]@[idx]).wf() && f@[c]@[idx].val() == lift(
            self.table_cell(input@, c, idx, true),
        ) by {
            assert(t@[c]@.len() == padded_len(input@.len()));
            assert(t@[c]@[idx] as int == self.table_cell(input@, c, idx, true));
        }
        let ghost rows: int = padded_len(input@.len()) as int;
        proof {
            lemma_ceil_log2_bounds(input@.len());
            assert forall|idx: int| 0 <= idx < input@.len() implies lift(
                self.recombine_int(values_of(#[trigger] Self::row(f@, idx))),
            ) == lift(input@[idx] as int) by {
                let claims = Self::row(f@, idx);
                assert forall|c: int| 0 <= c < claims.len() implies (#[trigger] claims[c]).val()
                    == lift(self.column_value(input@[idx] as int, c, true)) by {
                    assert(f@[c]@[idx].val() == lift(self.table_cell(input@, c, idx, true)));
                }
                lemma_recombination_exact_in_field(*self, input@[idx] as int, claims);
            }
        }
        let mut merged: Vec<Element> = Vec::new();
        let mut c: usize = 0;
        while c < t.len()
            invariant
                c <= t@.len(),
                rows == padded_len(input@.len()),
                rows >= 1,
                t@.len() == self.num_columns_spec(),
                forall|c2: int| 0 <= c2 < t@.len() ==> (#[trigger] t@[c2])@.len() == rows,
                forall|c2: int, idx: int|
                    0 <= c2 < t@.len() && 0 <= idx < rows ==> t@[c2]@[idx] as int
                        == #[trigger] self.table_cell(input@, c2, idx, true),
                merged@.len() == c * rows,
                forall|p: int|
                    0 <= p < merged@.len() ==> merged@[p] as int == #[trigger] self.table_cell(
                        input@,
                        p / rows,
                        p % rows,
                        true,
                    ),
            decreases t@.len() - c,
        {
            let src = &t[c];
            let mut idx: usize = 0;
            while idx < src.len()
                invariant
                    c < t@.len(),
                    idx <= rows,
                    src@.len() == rows,
                    rows >= 1,
                    forall|a: int|
                        0 <= a < rows ==> src@[a] as int == #[trigger] self.table_cell(
                            input@,
                            c as int,
                            a,
                            true,
                        ),
                    merged@.len() == c * rows + idx,
                    forall|p: int|
                        0 <= p < merged@.len() ==> merged@[p] as int == #[trigger] self.table_cell(
                            input@,
                            p / rows,
                            p % rows,
                            true,
                        ),
                decreases rows - idx,
            {
                proof {
                    let p: int = c * rows + idx;
                    lemma_fundamental_div_mod_converse(p, rows, c as int, idx as int);
                    assert(src@[idx as int] as int == self.table_cell(input@, c as int, idx as int, true));
                }
                merged.push(src[idx]);
                idx = idx + 1;
            }
            assert((c + 1) * rows == c * rows + rows) by (nonlinear_arith);
            c = c + 1;
        }
        (merged, f)
    }
}

} // verus!
