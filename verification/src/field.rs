//! The prime field in which evaluation claims live.

use vstd::prelude::*;
use vstd::arithmetic::div_mod::{
    lemma_fundamental_div_mod, lemma_fundamental_div_mod_converse, lemma_mod_multiples_vanish,
    lemma_small_mod, lemma_add_mod_noop, lemma_sub_mod_noop, lemma_mul_mod_noop, lemma_mod_twice,
};

verus! {

/// The field's modulus, `2^64 - 2^32 + 1`.
pub const MODULUS: u64 = 0xFFFF_FFFF_0000_0001;

/// The canonical representative of an integer in the field.
pub open spec fn lift(x: int) -> int {
    x % (MODULUS as int)
}

/// A field element, held as a representative. What this module makes is
/// reduced; the operations take any representative and give a reduced one.
#[derive(Clone, Copy, Debug, PartialEq, Eq, Structural)]
pub struct Fp {
    pub value: u64,
}

impl Fp {
    /// The representative is reduced.
    pub open spec fn wf(&self) -> bool {
        self.value < MODULUS
    }

    /// The representative as an integer; for a reduced element it lies in
    /// `[0, MODULUS)`.
    pub open spec fn val(&self) -> int {
        self.value as int
    }

    /// Whether the representative is reduced.
    pub fn is_reduced(&self) -> (b: bool)
        ensures
            b == self.wf(),
    {
        self.value < MODULUS
    }

    pub fn new(x: u64) -> (r: Fp)
        ensures
            r.wf(),
            r.val() == lift(x as int),
    {
        Fp { value: x % MODULUS }
    }

    pub fn zero() -> (r: Fp)
        ensures
            r.wf(),
            r.val() == 0,
    {
        Fp { value: 0 }
    }

    /// Lifts a signed integer: negative values wrap around the modulus.
    pub fn from_element(e: i128) -> (r: Fp)
        ensures
            r.wf(),
            r.val() == lift(e as int),
    {
        let p: u128 = MODULUS as u128;
        if e >= 0 {
            let m: u128 = (e as u128) % p;
            Fp { value: m as u64 }
        } else {
            let pos: u128 = (-(e + 1)) as u128;
            let m: u128 = pos % p;
            let v: u128 = p - 1 - m;
            proof {
                let q: int = (pos as int) / (p as int);
                lemma_fundamental_div_mod(pos as int, p as int);
                assert(e as int == (-(q + 1)) * (p as int) + (v as int)) by (nonlinear_arith)
                    requires
                        pos as int == (p as int) * q + (m as int),
                        e as int == -(pos as int) - 1,
                        v as int == (p as int) - 1 - (m as int),
                ;
                lemma_fundamental_div_mod_converse(e as int, p as int, -(q + 1), v as int);
            }
            Fp { value: v as u64 }
        }
    }

    pub fn add(self, other: Fp) -> (r: Fp)
        ensures
            r.wf(),
            r.val() == lift(self.val() + other.val()),
    {
        let s: u128 = (self.value as u128 + other.value as u128) % (MODULUS as u128);
        Fp { value: s as u64 }
    }

    pub fn sub(self, other: Fp) -> (r: Fp)
        ensures
            r.wf(),
            r.val() == lift(self.val() - other.val()),
    {
        let s: u128 = (self.value as u128 + 2 * (MODULUS as u128) - other.value as u128) % (
        MODULUS as u128);
        proof {
            lemma_mod_multiples_vanish(2, self.val() - other.val(), MODULUS as int);
        }
        Fp { value: s as u64 }
    }

    pub fn mul(self, other: Fp) -> (r: Fp)
        ensures
            r.wf(),
            r.val() == lift(self.val() * other.val()),
    {
        assert(self.value as int * other.value as int <= 0xFFFF_FFFF_FFFF_FFFF
            * 0xFFFF_FFFF_FFFF_FFFF) by (nonlinear_arith)
            requires
                0 <= self.value as int <= 0xFFFF_FFFF_FFFF_FFFF,
                0 <= other.value as int <= 0xFFFF_FFFF_FFFF_FFFF,
        ;
        let s: u128 = (self.value as u128 * other.value as u128) % (MODULUS as u128);
        Fp { value: s as u64 }
    }

    /// The canonical representative.
    pub fn to_canonical_u64(&self) -> (r: u64)
        ensures
            r as int == self.val(),
    {
        self.value
    }
}

/// A reduced value is its own lift.
pub proof fn lemma_lift_small(x: int)
    requires
        0 <= x < MODULUS as int,
    ensures
        lift(x) == x,
{
    lemma_small_mod(x as nat, MODULUS as nat);
}

} // verus!

verus! {

/// Reducing the terms of a sum first does not change the reduced sum.
pub proof fn lemma_lift_add(a: int, b: int)
    ensures
        lift(lift(a) + lift(b)) == lift(a + b),
        lift(lift(a) + b) == lift(a + b),
        lift(a + lift(b)) == lift(a + b),
{
    lemma_add_mod_noop(a, b, MODULUS as int);
    lemma_add_mod_noop(lift(a), b, MODULUS as int);
    lemma_add_mod_noop(a, lift(b), MODULUS as int);
    lemma_mod_twice(a, MODULUS as int);
    lemma_mod_twice(b, MODULUS as int);
}

/// Reducing the terms of a difference first does not change the reduced
/// difference.
pub proof fn lemma_lift_sub(a: int, b: int)
    ensures
        lift(lift(a) - lift(b)) == lift(a - b),
{
    lemma_sub_mod_noop(a, b, MODULUS as int);
}

/// Reducing the factors of a product first does not change the reduced
/// product.
pub proof fn lemma_lift_mul(a: int, b: int)
    ensures
        lift(lift(a) * lift(b)) == lift(a * b),
{
    lemma_mul_mod_noop(a, b, MODULUS as int);
}

/// Lifting twice is lifting once.
pub proof fn lemma_lift_twice(a: int)
    ensures
        lift(lift(a)) == lift(a),
{
    lemma_mod_twice(a, MODULUS as int);
}

} // verus!
