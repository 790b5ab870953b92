//! Powers of two, logarithms and base-`B` limbs.

use vstd::prelude::*;
use vstd::arithmetic::div_mod::{lemma_mod_bound, lemma_mod_breakdown};
use vstd::arithmetic::power::{lemma_pow_positive, pow};
use vstd::arithmetic::power2::{lemma2_to64, lemma2_to64_rest, lemma_pow2_pos, lemma_pow2_strictly_increases, lemma_pow2_unfold, pow2};

verus! {

/// The least `k` with `2^k >= n`, by repeated halving (rounding up).
pub open spec fn ceil_log2_spec(n: nat) -> nat
    decreases n,
{
    if n <= 1 {
        0
    } else {
        1 + ceil_log2_spec((n + 1) / 2)
    }
}

/// The smallest power of two that is at least `n`.
pub open spec fn padded_len(n: nat) -> nat {
    pow2(ceil_log2_spec(n))
}

/// Limb `j` of `r` in the given base, limb 0 being the least significant.
pub open spec fn limb(r: int, base: int, j: nat) -> int
    decreases j,
{
    if j == 0 {
        r % base
    } else {
        limb(r / base, base, (j - 1) as nat)
    }
}

/// The value of a digit string, most significant digit first.
pub open spec fn horner(s: Seq<int>, base: int) -> int
    decreases s.len(),
{
    if s.len() == 0 {
        0
    } else {
        horner(s.drop_last(), base) * base + s.last()
    }
}

/// `2^ceil_log2(n)` is at least `n`, and the logarithm is at most 64 for a
/// 64-bit argument.
pub proof fn lemma_ceil_log2_bounds(n: nat)
    ensures
        pow2(ceil_log2_spec(n)) >= n,
        n <= 0x1_0000_0000_0000_0000 ==> ceil_log2_spec(n) <= 64,
    decreases n,
{
    lemma2_to64();
    lemma2_to64_rest();
    if n <= 1 {
    } else {
        let m = (n + 1) / 2;
        lemma_ceil_log2_bounds(m);
        lemma_pow2_unfold(1 + ceil_log2_spec(m));
        if n <= 0x1_0000_0000_0000_0000 {
            lemma_ceil_log2_tight(m);
        }
    }
}

/// The logarithm of a value of at most `2^k` is at most `k`.
pub proof fn lemma_ceil_log2_le(n: nat, k: nat)
    requires
        n <= pow2(k),
    ensures
        ceil_log2_spec(n) <= k,
    decreases n,
{
    if n <= 1 {
    } else {
        lemma2_to64();
        if k == 0 {
        } else {
            lemma_pow2_unfold(k);
            lemma_ceil_log2_le((n + 1) / 2, (k - 1) as nat);
        }
    }
}

proof fn lemma_ceil_log2_tight(m: nat)
    requires
        2 * m <= 0x1_0000_0000_0000_0001,
    ensures
        ceil_log2_spec(m) <= 63,
{
    lemma2_to64_rest();
    lemma_ceil_log2_le(m, 63);
}

/// The logarithm of a power of two is its exponent.
pub proof fn lemma_ceil_log2_pow2(k: nat)
    ensures
        ceil_log2_spec(pow2(k)) == k,
    decreases k,
{
    lemma2_to64();
    if k == 0 {
    } else {
        lemma_pow2_unfold(k);
        lemma_pow2_pos((k - 1) as nat);
        lemma_ceil_log2_pow2((k - 1) as nat);
        assert((pow2(k) + 1) / 2 == pow2((k - 1) as nat));
    }
}

/// Every limb lies in `[0, base)`.
pub proof fn lemma_limb_bounds(r: int, base: int, j: nat)
    requires
        base > 0,
    ensures
        0 <= limb(r, base, j) < base,
    decreases j,
{
    if j == 0 {
        lemma_mod_bound(r, base);
    } else {
        lemma_limb_bounds(r / base, base, (j - 1) as nat);
    }
}

/// A digit string that lists the `s.len()` lowest limbs of `r`, most
/// significant first, has the value `r mod base^len`.
pub proof fn lemma_horner_limbs(r: int, base: int, s: Seq<int>)
    requires
        r >= 0,
        base > 0,
        forall|i: int| 0 <= i < s.len() ==> s[i] == limb(r, base, (s.len() - 1 - i) as nat),
    ensures
        pow(base, s.len()) > 0,
        horner(s, base) == r % pow(base, s.len()),
    decreases s.len(),
{
    reveal(pow);
    lemma_pow_positive(base, s.len());
    if s.len() == 0 {
        assert(pow(base, 0) == 1);
    } else {
        let n = s.len();
        let t = s.drop_last();
        assert forall|i: int| 0 <= i < t.len() implies t[i] == limb(
            r / base,
            base,
            (t.len() - 1 - i) as nat,
        ) by {
            assert(t[i] == s[i]);
        }
        assert(r / base >= 0) by (nonlinear_arith)
            requires
                r >= 0,
                base > 0,
        ;
        lemma_horner_limbs(r / base, base, t);
        lemma_pow_positive(base, t.len());
        lemma_mod_breakdown(r, base, pow(base, t.len()));
        assert(pow(base, n) == base * pow(base, t.len()));
        assert(s.last() == r % base);
        assert(((r / base) % pow(base, t.len())) * base == base * ((r / base) % pow(
            base,
            t.len(),
        ))) by (nonlinear_arith);
    }
}

/// The least `k` with `2^k >= x`.
pub fn ceil_log2(x: usize) -> (k: usize)
    ensures
        k == ceil_log2_spec(x as nat),
        k <= 64,
{
    let mut left: usize = x;
    let mut k: usize = 0;
    proof {
        lemma_ceil_log2_bounds(x as nat);
    }
    while left > 1
        invariant
            ceil_log2_spec(x as nat) == k + ceil_log2_spec(left as nat),
            ceil_log2_spec(x as nat) <= 64,
        decreases left,
    {
        left = left / 2 + left % 2;
        k = k + 1;
    }
    k
}

/// `2^k` as a machine integer.
pub fn pow2_u128(k: usize) -> (r: u128)
    requires
        k <= 64,
    ensures
        r == pow2(k as nat),
        1 <= r <= 0x1_0000_0000_0000_0000,
{
    let mut r: u128 = 1;
    let mut i: usize = 0;
    proof {
        lemma2_to64();
        lemma2_to64_rest();
    }
    while i < k
        invariant
            i <= k <= 64,
            r == pow2(i as nat),
            pow2(64) == 0x1_0000_0000_0000_0000,
        decreases k - i,
    {
        proof {
            lemma_pow2_unfold((i + 1) as nat);
            if i + 1 < 64 {
                lemma_pow2_strictly_increases((i + 1) as nat, 64);
            }
        }
        r = r * 2;
        i = i + 1;
    }
    proof {
        lemma_pow2_pos(k as nat);
    }
    r
}

} // verus!
