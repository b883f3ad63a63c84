//! Arithmetic helpers shared by the cache engine and the simulator:
//! power-of-two reasoning, saturating counters, and first-minimum search.

use vstd::prelude::*;

verus! {

use vstd::arithmetic::power2::pow2;
use vstd::arithmetic::power2::lemma_pow2_pos;
use vstd::bits::lemma_u64_shl_is_mul;
use vstd::bits::lemma_u64_pow2_no_overflow;
use vstd::std_specs::bits::u64_trailing_zeros;
use vstd::std_specs::bits::axiom_u64_trailing_zeros;

/// Holds exactly when `x` is a (representable) power of two.
pub open spec fn is_pow2(x: u64) -> bool {
    exists|e: nat| e < 64 && x == pow2(e)
}

/// A power of two equals one shifted left by its trailing-zero count.
pub proof fn lemma_pow2_shape(x: u64)
    requires
        is_pow2(x),
    ensures
        u64_trailing_zeros(x) < 64,
        x == pow2(u64_trailing_zeros(x) as nat),
        x == (1u64 << (u64_trailing_zeros(x) as u64)),
        x > 0,
{
    let e = choose|e: nat| e < 64 && x == pow2(e);
    lemma_u64_pow2_no_overflow(e);
    lemma_u64_shl_is_mul(1u64, e as u64);
    assert(x == (1u64 << (e as u64)));
    let t = u64_trailing_zeros(x);
    axiom_u64_trailing_zeros(x);
    assert(x != 0) by {
        lemma_pow2_pos(e);
    }
    let tu = t as u64;
    let eu = e as u64;
    assert(tu == eu) by (bit_vector)
        requires
            x == (1u64 << eu),
            eu < 64,
            tu < 64,
            (x >> tu) & 1u64 == 1u64,
            forall|j: u64| 0 <= j < tu ==> #[trigger] (x >> j) & 1u64 == 0u64,
    ;
}

/// The bit trick `x & (x - 1) == 0` recognises exactly the powers of two.
pub proof fn lemma_pow2_bit_trick(x: u64)
    ensures
        is_pow2(x) <==> (x > 0 && (x & ((x - 1) as u64)) == 0),
{
    if is_pow2(x) {
        lemma_pow2_shape(x);
        let t = u64_trailing_zeros(x) as u64;
        assert(x > 0 && (x & ((x - 1) as u64)) == 0) by (bit_vector)
            requires
                x == (1u64 << t),
                t < 64,
        ;
    }
    if x > 0 && (x & ((x - 1) as u64)) == 0 {
        let t = u64_trailing_zeros(x);
        axiom_u64_trailing_zeros(x);
        let tu = t as u64;
        assert(x == (1u64 << tu)) by (bit_vector)
            requires
                x > 0,
                (x & ((x - 1) as u64)) == 0,
                tu < 64,
                (x >> tu) & 1u64 == 1u64,
        ;
        lemma_u64_pow2_no_overflow(t as nat);
        lemma_u64_shl_is_mul(1u64, tu);
        assert(t < 64 && x == pow2(t as nat));
    }
}

/// Power-of-two test via the standard bit trick.
pub fn is_power_of_two(x: u64) -> (r: bool)
    ensures
        r == is_pow2(x),
        r ==> x >= 1,
{
    proof {
        lemma_pow2_bit_trick(x);
    }
    x > 0 && (x & (x - 1)) == 0
}

/// `x` clamped to the range of `u64`.
pub open spec fn sat_u64(x: int) -> u64 {
    if x > u64::MAX {
        u64::MAX
    } else if x < 0 {
        0
    } else {
        x as u64
    }
}

/// Saturating addition on `u64`.
pub fn sat_add_u64(a: u64, b: u64) -> (r: u64)
    ensures
        r == sat_u64(a + b),
{
    if a > u64::MAX - b {
        u64::MAX
    } else {
        a + b
    }
}

/// Saturated increments compose: adding `m` and then `n` saturates the same
/// as adding `m + n` at once.
pub proof fn lemma_sat_u64_chain(x: u64, m: int, n: int)
    requires
        m >= 0,
        n >= 0,
    ensures
        sat_u64(sat_u64(x + m) + n) == sat_u64(x + m + n),
{
}

/// Index of the first minimum of `s` within `[lo, ub)`.
pub open spec fn argmin_in(s: Seq<u64>, lo: int, ub: int) -> int
    decreases ub - lo,
{
    if lo + 1 >= ub {
        lo
    } else {
        let m = argmin_in(s, lo + 1, ub);
        if s[lo] <= s[m] {
            lo
        } else {
            m
        }
    }
}

/// Extending the search range by one entry keeps the earlier minimum unless
/// the new entry is strictly smaller.
pub proof fn lemma_argmin_in_extend(s: Seq<u64>, lo: int, ub: int)
    requires
        lo < ub,
    ensures
        argmin_in(s, lo, ub + 1) == (if s[argmin_in(s, lo, ub)] <= s[ub] {
            argmin_in(s, lo, ub)
        } else {
            ub
        }),
    decreases ub - lo,
{
    if lo + 1 >= ub {
        assert(argmin_in(s, lo + 1, ub + 1) == lo + 1);
        assert(argmin_in(s, lo, ub) == lo);
    } else {
        lemma_argmin_in_extend(s, lo + 1, ub);
        assert(argmin_in(s, lo, ub + 1) == (if s[lo] <= s[argmin_in(s, lo + 1, ub + 1)] {
            lo
        } else {
            argmin_in(s, lo + 1, ub + 1)
        }));
        assert(argmin_in(s, lo, ub) == (if s[lo] <= s[argmin_in(s, lo + 1, ub)] {
            lo
        } else {
            argmin_in(s, lo + 1, ub)
        }));
    }
}

/// A vector of `n` zeroes.
pub fn zero_vec(n: u64) -> (v: Vec<u64>)
    requires
        n <= usize::MAX,
    ensures
        v@ == Seq::new(n as nat, |i: int| 0u64),
{
    let mut v: Vec<u64> = Vec::new();
    let n_us = n as usize;
    let mut i: usize = 0;
    while i < n_us
        invariant
            i <= n_us,
            n_us == n,
            v@.len() == i,
            forall|j: int| 0 <= j < i ==> v@[j] == 0,
        decreases n_us - i,
    {
        v.push(0);
        i += 1;
    }
    proof {
        assert(v@ =~= Seq::new(n as nat, |i: int| 0u64));
    }
    v
}

/// `argmin_in` returns an index of a minimal value, and every entry before
/// that index is strictly larger, so ties go to the lowest index.
pub proof fn lemma_argmin_in(s: Seq<u64>, lo: int, ub: int)
    requires
        0 <= lo < ub <= s.len(),
    ensures
        ({
            let m = argmin_in(s, lo, ub);
            &&& lo <= m < ub
            &&& forall|j: int| lo <= j < ub ==> s[m] <= #[trigger] s[j]
            &&& forall|j: int| lo <= j < m ==> s[m] < #[trigger] s[j]
        }),
    decreases ub - lo,
{
    if lo + 1 < ub {
        lemma_argmin_in(s, lo + 1, ub);
    }
}

} // verus!
