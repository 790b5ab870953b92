//! Requantization: an integer right shift with offset correction, its
//! decomposition into range-checked limbs, and the recombination of limb
//! claims into one claim about the layer's input.

use vstd::prelude::*;
use vstd::arithmetic::div_mod::lemma_fundamental_div_mod;
use vstd::arithmetic::power2::{lemma2_to64, lemma2_to64_rest, lemma_pow2_pos, lemma_pow2_unfold, pow2};
use crate::claim::Element;
use crate::numeric::{
    ceil_log2, ceil_log2_spec, horner, lemma_ceil_log2_bounds, lemma_ceil_log2_pow2, limb, pow2_u128,
};

verus! {

/// The outcome of requantizing one value: the shifted value, tagged by
/// whether it lies in the output domain.
#[derive(Clone, Copy, Debug, PartialEq, Eq, Structural)]
pub enum RequantResult {
    InRange(Element),
    OutOfRange(Element),
}

impl RequantResult {
    /// The shifted value, whichever the tag.
    pub open spec fn value_spec(&self) -> int {
        match *self {
            RequantResult::InRange(v) => v as int,
            RequantResult::OutOfRange(v) => v as int,
        }
    }

    pub fn value(&self) -> (v: Element)
        ensures
            v as int == self.value_spec(),
    {
        match *self {
            RequantResult::InRange(v) => v,
            RequantResult::OutOfRange(v) => v,
        }
    }

    pub fn is_in_range(&self) -> (b: bool)
        ensures
            b == (*self is InRange),
    {
        match *self {
            RequantResult::InRange(_) => true,
            RequantResult::OutOfRange(_) => false,
        }
    }
}

/// The parameters of a requantization step.
#[derive(Clone, Copy, Debug, PartialEq, Eq, Structural)]
pub struct Requant {
    /// Number of low bits to discard.
    pub right_shift: usize,
    /// Magnitude bound of the values before the shift; twice this is added
    /// to make them non-negative.
    pub range: usize,
    /// Size of the value set after the shift, a power of two.
    pub after_range: usize,
}

impl Requant {
    /// The shift is between 1 and 63 bits, the offset fits a machine word,
    /// and the output range is a power of two of at least 2.
    pub open spec fn wf(&self) -> bool {
        &&& 1 <= self.right_shift <= 63
        &&& 2 * self.range <= usize::MAX
        &&& 2 <= self.after_range
        &&& pow2(ceil_log2_spec(self.after_range as nat)) == self.after_range
    }

    /// The offset that makes every admissible input non-negative.
    pub open spec fn max_bit(&self) -> int {
        2 * self.range
    }

    /// `2^right_shift`.
    pub open spec fn shift_pow(&self) -> int {
        pow2(self.right_shift as nat) as int
    }

    /// The offset after the shift.
    pub open spec fn subtract(&self) -> int {
        self.max_bit() / self.shift_pow()
    }

    /// Half the output range.
    pub open spec fn half(&self) -> int {
        self.after_range as int / 2
    }

    /// The inputs that can be requantized: the offset value is non-negative
    /// and fits the integer type.
    pub open spec fn accepts(&self, e: int) -> bool {
        0 <= e + self.max_bit() <= i128::MAX
    }

    /// The requantized value of `e`.
    pub open spec fn apply_spec(&self, e: int) -> int {
        (e + self.max_bit()) / self.shift_pow() - self.subtract()
    }

    /// Whether a requantized value lies in `[-after_range/2, after_range/2 - 1]`.
    pub open spec fn in_range(&self, v: int) -> bool {
        -self.half() <= v <= self.half() - 1
    }

    /// The bits that the shift discards.
    pub open spec fn remainder(&self, e: int) -> int {
        (e + self.max_bit()) % self.shift_pow()
    }

    /// Bits per limb.
    pub open spec fn limb_bits(&self) -> nat {
        ceil_log2_spec(self.after_range as nat)
    }

    /// Number of columns of the decomposition: `(right_shift - 1)` divided
    /// by the limb width, rounded up, plus 2. One column is the output; the
    /// others are limbs, enough of them to hold every discarded bit.
    pub open spec fn num_columns_spec(&self) -> int {
        (self.right_shift + self.limb_bits() - 2) / (self.limb_bits() as int) + 2
    }

    /// Column `col` of the decomposition of `e`. Column 0 is the output
    /// (moved up by half the range when `shifted`); the others are the
    /// limbs of the discarded bits, most significant first.
    pub open spec fn column_value(&self, e: int, col: int, shifted: bool) -> int {
        if col == 0 {
            self.apply_spec(e) + if shifted {
                self.half()
            } else {
                0
            }
        } else {
            limb(
                self.remainder(e),
                self.after_range as int,
                (self.num_columns_spec() - 1 - col) as nat,
            )
        }
    }

    /// The decomposition of `e`, column by column.
    pub open spec fn decomposition(&self, e: int, shifted: bool) -> Seq<int> {
        Seq::new(self.num_columns_spec() as nat, |col: int| self.column_value(e, col, shifted))
    }

    /// The entry of column `col` at row `idx` for a list of inputs; rows
    /// past the end of the list hold zero.
    pub open spec fn table_cell(&self, input: Seq<Element>, col: int, idx: int, shifted: bool) -> int {
        if 0 <= idx < input.len() {
            self.column_value(input[idx] as int, col, shifted)
        } else {
            0
        }
    }

    /// The single input value that a vector of column values stands for:
    /// `2^right_shift * (c[0] + subtract - half)`, plus the digit string
    /// `c[1], .., c[n - 1]` in base `after_range`, that is
    /// `c[1] * after_range^(n - 2) + .. + c[n - 1]`, minus the offset.
    pub open spec fn recombine_int(&self, c: Seq<int>) -> int {
        self.shift_pow() * (c[0] + self.subtract() - self.half()) + horner(
            c.skip(1),
            self.after_range as int,
        ) - self.max_bit()
    }

    pub fn new(min_value: usize, right_shift: usize, after_range: usize) -> (r: Requant)
        ensures
            r.right_shift == right_shift,
            r.range == min_value,
            r.after_range == after_range,
    {
        Requant { right_shift, range: min_value, after_range }
    }

    /// The output range of well-formed parameters is a power of two, and
    /// every power of two from 2 on is the output range of well-formed
    /// parameters.
    pub proof fn lemma_wf_is_power_of_two(&self)
        requires
            1 <= self.right_shift <= 63,
            2 * self.range <= usize::MAX,
        ensures
            self.wf() <==> exists|b: nat| b >= 1 && #[trigger] pow2(b) == self.after_range,
    {
        if self.wf() {
            let b = self.limb_bits();
            if b == 0 {
                lemma2_to64();
            }
            assert(b >= 1 && pow2(b) == self.after_range);
        }
        if exists|b: nat| b >= 1 && #[trigger] pow2(b) == self.after_range {
            let b = choose|b: nat| b >= 1 && #[trigger] pow2(b) == self.after_range;
            lemma_ceil_log2_pow2(b);
            lemma_pow2_unfold(b);
            lemma_pow2_pos((b - 1) as nat);
        }
    }

    /// Whether the parameters are well-formed.
    pub fn is_valid(&self) -> (b: bool)
        ensures
            b == self.wf(),
    {
        if self.right_shift < 1 || self.right_shift > 63 {
            return false;
        }
        if self.range > usize::MAX / 2 {
            return false;
        }
        if self.after_range < 2 {
            return false;
        }
        pow2_u128(ceil_log2(self.after_range)) == self.after_range as u128
    }

    /// Whether a value can be requantized.
    pub fn admits(&self, e: Element) -> (b: bool)
        requires
            2 * self.range <= usize::MAX,
        ensures
            b == self.accepts(e as int),
    {
        let max_bit: i128 = (self.range as i128) * 2;
        e >= -max_bit && e <= i128::MAX - max_bit
    }

    /// The limb width is between 1 and 63 bits.
    pub proof fn lemma_limb_bits(&self)
        requires
            self.wf(),
        ensures
            1 <= self.limb_bits() <= 63,
            self.num_columns_spec() >= 2,
            self.num_columns_spec() <= self.right_shift + 1,
            self.limb_bits() * (self.num_columns_spec() - 1) >= self.right_shift,
    {
        let b = self.limb_bits();
        lemma_ceil_log2_bounds(self.after_range as nat);
        lemma2_to64();
        lemma2_to64_rest();
        if b == 0 {
            assert(pow2(0) == 1);
        }
        if b == 64 {
            assert(pow2(64) == 0x1_0000_0000_0000_0000);
        }
        let rs = self.right_shift as int;
        let up = rs + b - 2;
        lemma_fundamental_div_mod(up, b as int);
        assert(up / (b as int) >= 0 && up / (b as int) <= rs - 1 && (b as int) * (up / (b as int)
            + 1) >= rs) by (nonlinear_arith)
            requires
                rs >= 1,
                b >= 1,
                up == rs + b - 2,
                up == (b as int) * (up / (b as int)) + up % (b as int),
                0 <= up % (b as int) < b,
        ;
    }

    /// Number of columns of the decomposition.
    pub fn num_columns(&self) -> (k: usize)
        requires
            self.wf(),
        ensures
            k == self.num_columns_spec(),
            2 <= k <= 64,
    {
        proof {
            self.lemma_limb_bits();
        }
        let b: usize = ceil_log2(self.after_range);
        (self.right_shift + b - 2) / b + 2
    }

    /// Requantizes one value: adds the offset, shifts, and takes the
    /// shifted offset away again. The result is tagged `OutOfRange` when it
    /// leaves the output domain, and is not clamped.
    pub fn apply(&self, e: &Element) -> (r: RequantResult)
        requires
            self.wf(),
            self.accepts(*e as int),
        ensures
            r.value_spec() == self.apply_spec(*e as int),
            (r is InRange) == self.in_range(self.apply_spec(*e as int)),
    {
        let max_bit: u128 = (self.range as u128) * 2;
        let pre: u128 = (*e + max_bit as i128) as u128;
        let sp: u128 = pow2_u128(self.right_shift);
        let tmp: u128 = pre / sp;
        let sub: u128 = max_bit / sp;
        proof {
            lemma_quotient_le(pre as int, sp as int);
            lemma_quotient_le(max_bit as int, sp as int);
        }
        let res: i128 = tmp as i128 - sub as i128;
        let half: i128 = (self.after_range / 2) as i128;
        if res >= -half && res <= half - 1 {
            RequantResult::InRange(res)
        } else {
            RequantResult::OutOfRange(res)
        }
    }

    /// The columns of the decomposition of one value.
    pub fn decompose(&self, e: Element, shifted: bool) -> (cols: Vec<Element>)
        requires
            self.wf(),
            self.accepts(e as int),
        ensures
            cols@.len() == self.num_columns_spec(),
            forall|c: int|
                0 <= c < cols@.len() ==> cols@[c] as int == #[trigger] self.column_value(
                    e as int,
                    c,
                    shifted,
                ),
    {
        let k: usize = self.num_columns();
        let base: u128 = self.after_range as u128;
        let max_bit: u128 = (self.range as u128) * 2;
        let pre: u128 = (e + max_bit as i128) as u128;
        let sp: u128 = pow2_u128(self.right_shift);
        let tmp: u128 = pre / sp;
        let sub: u128 = max_bit / sp;
        proof {
            lemma_quotient_le(pre as int, sp as int);
            lemma_quotient_le(max_bit as int, sp as int);
            lemma_pow2_unfold(self.right_shift as nat);
            lemma_pow2_pos((self.right_shift - 1) as nat);
            lemma_quotient_half(pre as int, sp as int);
        }
        let mut out: i128 = tmp as i128 - sub as i128;
        if shifted {
            out = out + (self.after_range / 2) as i128;
        }
        let mut cols: Vec<Element> = Vec::new();
        let mut i: usize = 0;
        while i < k
            invariant
                i <= k,
                cols@.len() == i,
                forall|c: int| 0 <= c < i ==> cols@[c] == if c == 0 {
                    out
                } else {
                    0
                },
            decreases k - i,
        {
            cols.push(
                if i == 0 {
                    out
                } else {
                    0
                },
            );
            i = i + 1;
        }
        let ghost r: int = self.remainder(e as int);
        let mut rem: u128 = pre % sp;
        let mut j: usize = 0;
        while j + 1 < k
            invariant
                self.wf(),
                j + 1 <= k,
                k == self.num_columns_spec(),
                base == self.after_range,
                base >= 2,
                cols@.len() == k,
                cols@[0] == out,
                forall|c: int|
                    k - 1 - j < c < k ==> cols@[c] as int == limb(
                        r,
                        base as int,
                        (k - 1 - c) as nat,
                    ),
                forall|t: nat| #[trigger] limb(rem as int, base as int, t) == limb(r, base as int, (j + t) as nat),
            decreases k - j,
        {
            let chunk: u128 = rem % base;
            let p: usize = k - 1 - j;
            let ghost old_rem = rem;
            assert(limb(old_rem as int, base as int, 0) == chunk);
            cols[p] = chunk as i128;
            rem = rem / base;
            assert forall|t: nat| #[trigger]
                limb(rem as int, base as int, t) == limb(r, base as int, (j + 1 + t) as nat) by {
                assert(limb(old_rem as int, base as int, t + 1) == limb(
                    old_rem as int / base as int,
                    base as int,
                    t,
                ));
                assert(limb(old_rem as int, base as int, t + 1) == limb(r, base as int, (j + t + 1) as nat));
            }
            j = j + 1;
        }
        cols
    }
}

/// A non-negative value divided by a positive one does not grow, and stays
/// non-negative.
pub proof fn lemma_quotient_le(x: int, d: int)
    requires
        x >= 0,
        d >= 1,
    ensures
        0 <= x / d <= x,
{
    lemma_fundamental_div_mod(x, d);
    assert(0 <= x / d <= x) by (nonlinear_arith)
        requires
            x >= 0,
            d >= 1,
            x == d * (x / d) + x % d,
            0 <= x % d < d,
    ;
}

/// Division by at least 2 halves a non-negative value.
pub proof fn lemma_quotient_half(x: int, d: int)
    requires
        x >= 0,
        d >= 2,
    ensures
        2 * (x / d) <= x,
{
    lemma_fundamental_div_mod(x, d);
    assert(2 * (x / d) <= x) by (nonlinear_arith)
        requires
            x >= 0,
            d >= 2,
            x == d * (x / d) + x % d,
            0 <= x % d < d,
    ;
}

} // verus!
