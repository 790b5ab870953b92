//! Recombination of the column claims into one claim about the input.

use vstd::prelude::*;
use vstd::arithmetic::div_mod::{lemma_fundamental_div_mod, lemma_small_mod};
use vstd::arithmetic::power::{lemma_pow_increases, lemma_pow_multiplies, pow};
use vstd::arithmetic::power2::{
    lemma2_to64_rest, lemma_pow2, lemma_pow2_pos, lemma_pow2_strictly_increases, lemma_pow2_unfold,
};
use crate::field::{lemma_lift_add, lemma_lift_mul, lemma_lift_small, lemma_lift_sub, lemma_lift_twice, lift, Fp};
use crate::numeric::{horner, lemma_horner_limbs, lemma_limb_bounds, limb, pow2_u128};
use crate::claim::Element;
use crate::requant::{lemma_quotient_le, Requant};

verus! {

/// The integers that a list of field elements holds.
pub open spec fn values_of(claims: Seq<Fp>) -> Seq<int> {
    Seq::new(claims.len(), |i: int| claims[i].val())
}

impl Requant {
    /// Combines the values claimed for the columns at one point into the
    /// value of the layer's input at that point: `2^right_shift` times the
    /// output column (moved back down by half the range, with the shifted
    /// offset added), plus the limbs weighted by powers of the range, minus
    /// the offset.
    pub fn recombine_claims(&self, eval_claims: &[Fp]) -> (r: Fp)
        requires
            self.wf(),
            eval_claims@.len() >= 1,
        ensures
            r.wf(),
            r.val() == lift(self.recombine_int(values_of(eval_claims@))),
    {
        let ghost vals = values_of(eval_claims@);
        let ghost base: int = self.after_range as int;
        let max_bit: u128 = (self.range as u128) * 2;
        let sp_int: u128 = pow2_u128(self.right_shift);
        proof {
            lemma_quotient_le(max_bit as int, sp_int as int);
            lemma2_to64_rest();
            lemma_pow2_strictly_increases(self.right_shift as nat, 64);
        }
        let sp = Fp::new(sp_int as u64);
        let sub = Fp::new((max_bit / sp_int) as u64);
        let half = Fp::new((self.after_range / 2) as u64);
        let offset = Fp::new(max_bit as u64);
        let base_f = Fp::new(self.after_range as u64);
        let first = eval_claims[0];
        let inner = first.add(sub).sub(half);
        let head = sp.mul(inner);
        let ghost inner_int: int = vals[0] + self.subtract() - self.half();
        proof {
            assert(first.val() == vals[0]);
            lemma_lift_add(vals[0], self.subtract());
            lemma_lift_twice(vals[0] + self.subtract());
            lemma_lift_sub(vals[0] + self.subtract(), self.half());
            assert(inner.val() == lift(inner_int));
            lemma_lift_twice(inner_int);
            lemma_lift_mul(self.shift_pow(), inner_int);
            assert(head.val() == lift(self.shift_pow() * inner_int));
        }
        let mut acc = Fp::zero();
        let mut i: usize = 1;
        proof {
            assert(vals.subrange(1, 1).len() == 0);
            lemma_lift_small(0);
        }
        while i < eval_claims.len()
            invariant
                1 <= i <= eval_claims@.len(),
                vals == values_of(eval_claims@),
                base == self.after_range,
                base_f.wf(),
                base_f.val() == lift(base),
                acc.wf(),
                acc.val() == lift(horner(vals.subrange(1, i as int), base)),
            decreases eval_claims@.len() - i,
        {
            let c = eval_claims[i];
            let ghost h: int = horner(vals.subrange(1, i as int), base);
            proof {
                let s = vals.subrange(1, i + 1);
                assert(s.drop_last() == vals.subrange(1, i as int));
                assert(s.last() == c.val());
                assert(horner(s, base) == h * base + c.val());
                lemma_lift_twice(h);
                lemma_lift_mul(h, base);
                lemma_lift_add(h * base, c.val());
            }
            acc = acc.mul(base_f).add(c);
            i = i + 1;
        }
        let ghost tail: int = horner(vals.skip(1), base);
        proof {
            assert(vals.subrange(1, eval_claims@.len() as int) == vals.skip(1));
            lemma_lift_add(self.shift_pow() * inner_int, tail);
            lemma_lift_twice(self.shift_pow() * inner_int + tail);
            lemma_lift_sub(self.shift_pow() * inner_int + tail, self.max_bit());
        }
        head.add(acc).sub(offset)
    }
}

/// The discarded bits fit the limb columns: `2^right_shift` is at most the
/// range to the power of the number of limb columns.
pub proof fn lemma_limbs_cover_shift(q: Requant)
    requires
        q.wf(),
    ensures
        q.shift_pow() <= pow(q.after_range as int, (q.num_columns_spec() - 1) as nat),
{
    q.lemma_limb_bits();
    let b = q.limb_bits();
    let n = (q.num_columns_spec() - 1) as nat;
    lemma_pow2(b);
    lemma_pow2(q.right_shift as nat);
    lemma_pow_multiplies(2, b, n);
    lemma_pow_increases(2, q.right_shift as nat, b * n);
}

/// Recombining the decomposition of an admissible value gives the value
/// back.
pub proof fn lemma_recombination_exact(q: Requant, e: int)
    requires
        q.wf(),
        0 <= e + q.max_bit(),
    ensures
        q.recombine_int(q.decomposition(e, true)) == e,
{
    let c = q.decomposition(e, true);
    let s = c.skip(1);
    let r = q.remainder(e);
    let base = q.after_range as int;
    let sp = q.shift_pow();
    let pre = e + q.max_bit();
    q.lemma_limb_bits();
    lemma_pow2_pos(q.right_shift as nat);
    lemma_fundamental_div_mod(pre, sp);
    assert forall|i: int| 0 <= i < s.len() implies s[i] == limb(
        r,
        base,
        (s.len() - 1 - i) as nat,
    ) by {
        assert(s[i] == c[i + 1]);
    }
    lemma_horner_limbs(r, base, s);
    lemma_limbs_cover_shift(q);
    lemma_small_mod(r as nat, pow(base, s.len()) as nat);
    assert(c[0] + q.subtract() - q.half() == pre / sp);
    assert(sp * (pre / sp) + r == pre);
}

/// The value of a digit string modulo the field depends only on the digits
/// modulo the field.
pub proof fn lemma_horner_congruent(xs: Seq<int>, ys: Seq<int>, base: int)
    requires
        xs.len() == ys.len(),
        forall|i: int| 0 <= i < xs.len() ==> lift(xs[i]) == lift(ys[i]),
    ensures
        lift(horner(xs, base)) == lift(horner(ys, base)),
    decreases xs.len(),
{
    if xs.len() == 0 {
    } else {
        let xt = xs.drop_last();
        let yt = ys.drop_last();
        assert forall|i: int| 0 <= i < xt.len() implies lift(xt[i]) == lift(yt[i]) by {
            assert(xt[i] == xs[i] && yt[i] == ys[i]);
        }
        lemma_horner_congruent(xt, yt, base);
        let h1 = horner(xt, base);
        let h2 = horner(yt, base);
        lemma_lift_mul(h1, base);
        lemma_lift_mul(h2, base);
        lemma_lift_add(h1 * base, xs.last());
        lemma_lift_add(h2 * base, ys.last());
    }
}

/// The recombined value modulo the field depends only on the column values
/// modulo the field.
pub proof fn lemma_recombine_congruent(q: Requant, c1: Seq<int>, c2: Seq<int>)
    requires
        c1.len() == c2.len(),
        c1.len() >= 1,
        forall|i: int| 0 <= i < c1.len() ==> lift(c1[i]) == lift(c2[i]),
    ensures
        lift(q.recombine_int(c1)) == lift(q.recombine_int(c2)),
{
    let base = q.after_range as int;
    let k = q.subtract() - q.half();
    let sp = q.shift_pow();
    assert forall|i: int| 0 <= i < c1.skip(1).len() implies lift(c1.skip(1)[i]) == lift(
        c2.skip(1)[i],
    ) by {
        assert(c1.skip(1)[i] == c1[i + 1] && c2.skip(1)[i] == c2[i + 1]);
    }
    lemma_horner_congruent(c1.skip(1), c2.skip(1), base);
    let xt = horner(c1.skip(1), base);
    let yt = horner(c2.skip(1), base);
    lemma_lift_add(c1[0], k);
    lemma_lift_add(c2[0], k);
    lemma_lift_mul(sp, c1[0] + k);
    lemma_lift_mul(sp, c2[0] + k);
    let h1 = sp * (c1[0] + k);
    let h2 = sp * (c2[0] + k);
    assert(lift(h1) == lift(h2));
    lemma_lift_add(h1, xt);
    lemma_lift_add(h2, yt);
    lemma_lift_sub(h1 + xt, q.max_bit());
    lemma_lift_sub(h2 + yt, q.max_bit());
    assert(q.recombine_int(c1) == h1 + xt - q.max_bit());
    assert(q.recombine_int(c2) == h2 + yt - q.max_bit());
}

/// Recombination is exact in the field: for field elements that hold the
/// lifted columns of the decomposition of an admissible value `e`, the
/// recombined value is the lift of `e`.
pub proof fn lemma_recombination_exact_in_field(q: Requant, e: int, claims: Seq<Fp>)
    requires
        q.wf(),
        0 <= e + q.max_bit(),
        claims.len() == q.num_columns_spec(),
        forall|c: int|
            0 <= c < claims.len() ==> (#[trigger] claims[c]).val() == lift(
                q.column_value(e, c, true),
            ),
    ensures
        lift(q.recombine_int(values_of(claims))) == lift(e),
{
    q.lemma_limb_bits();
    let cols = q.decomposition(e, true);
    let vals = values_of(claims);
    assert forall|i: int| 0 <= i < vals.len() implies lift(vals[i]) == lift(cols[i]) by {
        lemma_lift_twice(q.column_value(e, i, true));
    }
    lemma_recombine_congruent(q, vals, cols);
    lemma_recombination_exact(q, e);
}

/// Every cell of the lookup form fits the range table: a limb always lies in
/// `[0, after_range)`, and the output column does exactly where the
/// requantized value lies in the output domain.
pub proof fn lemma_cells_fit_range_table(q: Requant, e: int, col: int)
    requires
        q.wf(),
        0 <= col < q.num_columns_spec(),
    ensures
        col >= 1 ==> 0 <= q.column_value(e, col, true) < q.after_range,
        col >= 1 ==> q.column_value(e, col, false) == q.column_value(e, col, true),
        col == 0 ==> (0 <= q.column_value(e, col, true) < q.after_range <==> q.in_range(
            q.apply_spec(e),
        )),
{
    if col >= 1 {
        lemma_limb_bounds(
            q.remainder(e),
            q.after_range as int,
            (q.num_columns_spec() - 1 - col) as nat,
        );
    } else {
        q.lemma_limb_bits();
        lemma_pow2_unfold(q.limb_bits());
    }
}

/// The output column is the requantized value: in the decomposition of a
/// one-element list that is handed on, row 0 of column 0 holds `apply` of
/// the element; in the form that is looked up it holds that value moved up
/// by half the range.
pub proof fn lemma_output_column_is_apply(q: Requant, e: Element)
    requires
        q.wf(),
        0 <= e + q.max_bit(),
    ensures
        q.table_cell(seq![e], 0, 0, false) == q.apply_spec(e as int),
        q.table_cell(seq![e], 0, 0, true) == q.apply_spec(e as int) + q.half(),
{
}

} // verus!
