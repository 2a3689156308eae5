//! Montgomery and Barrett reductions modulo q = 3329.
//!
//! Both reductions keep coefficients bounded without a general-purpose
//! modular division, and both are branch-free in the input value.

use vstd::prelude::*;

verus! {

use vstd::arithmetic::div_mod::{
    lemma_fundamental_div_mod,
    lemma_mod_bound,
    lemma_mod_multiples_basic,
    lemma_mod_multiples_vanish,
    lemma_mod_sub_multiples_vanish,
    lemma_mod_twice,
    lemma_mul_mod_noop_left,
    lemma_sub_mod_noop,
};

/// The prime modulus q.
pub const Q16: i16 = 3329;

/// q^(-1) mod 2^16.
pub const QINV: i64 = 62209;

/// The signed representative of a * q^(-1) modulo 2^16, in [-2^15, 2^15).
pub open spec fn mont_t(a: int) -> int {
    let low = (a * 62209) % 65536;
    if low >= 32768 {
        low - 65536
    } else {
        low
    }
}

/// The exact value of the Montgomery reduction of a: the unique r with
/// r * 2^16 == a - mont_t(a) * q, i.e. r == a * 2^(-16) (mod q).
pub open spec fn mont_reduce_spec(a: int) -> int {
    (a - mont_t(a) * 3329) / 65536
}

/// The Montgomery reduction of a is congruent to a * 2^(-16) modulo q and
/// has magnitude at most q whenever |a| <= q * 2^15.
pub proof fn lemma_mont_reduce_spec_props(a: int)
    requires
        -(3329 * 32768) <= a <= 3329 * 32768,
    ensures
        -3329 <= mont_reduce_spec(a) <= 3329,
        (mont_reduce_spec(a) * 65536 - a) % 3329 == 0,
        mont_reduce_spec(a) * 65536 == a - mont_t(a) * 3329,
{
    let p = a * 62209;
    lemma_mod_bound(p, 65536);
    let t = mont_t(a);
    assert(-32768 <= t < 32768);
    // t is congruent to p modulo 2^16, so t * q == p * q == a (mod 2^16)
    lemma_mod_sub_multiples_vanish(p % 65536, 65536);
    lemma_mod_twice(p, 65536);
    assert(t % 65536 == p % 65536);
    lemma_mul_mod_noop_left(t, 3329, 65536);
    lemma_mul_mod_noop_left(p, 3329, 65536);
    assert(p * 3329 == 3160 * a * 65536 + a) by (nonlinear_arith)
        requires
            p == a * 62209,
    ;
    lemma_mod_multiples_vanish(3160 * a, a, 65536);
    assert((t * 3329) % 65536 == a % 65536);
    // hence m == a - t * q is divisible by 2^16 and the division is exact
    let m = a - t * 3329;
    lemma_sub_mod_noop(a, t * 3329, 65536);
    assert(m % 65536 == 0);
    lemma_fundamental_div_mod(m, 65536);
    let r = mont_reduce_spec(a);
    assert(m == 65536 * r);
    // bounds: |t * q| <= 2^15 * q and |a| <= 2^15 * q
    assert(-(32768 * 3329) <= t * 3329 <= 32768 * 3329) by (nonlinear_arith)
        requires
            -32768 <= t < 32768,
    ;
    assert(-3329 <= r <= 3329) by (nonlinear_arith)
        requires
            m == 65536 * r,
            -(3329 * 65536) <= m <= 3329 * 65536,
    ;
    // congruence: r * 2^16 - a == -(t * q)
    assert(r * 65536 - a == (-t) * 3329);
    lemma_mod_multiples_basic(-t, 3329);
}

/// Montgomery reduction: given a with |a| <= q * 2^15, returns
/// r == a * 2^(-16) (mod q) with |r| <= q.
pub fn montgomery_reduce(a: i32) -> (r: i16)
    requires
        -(3329 * 32768) <= a <= 3329 * 32768,
    ensures
        r == mont_reduce_spec(a as int),
        -3329 <= r <= 3329,
        (r * 65536 - a) % 3329 == 0,
{
    proof {
        lemma_mont_reduce_spec_props(a as int);
    }
    let prod: i64 = (a as i64) * QINV;
    let low: i64 = prod & 0xFFFF;
    proof {
        assert(prod & 0xFFFF == prod % 65536 && 0 <= prod % 65536 < 65536) by (bit_vector);
    }
    proof {
        assert((low & 0x8000) << 1 == if low >= 32768 {
            65536int
        } else {
            0int
        }) by (bit_vector)
            requires
                0 <= low < 65536,
        ;
    }
    let t: i64 = low - ((low & 0x8000) << 1);
    proof {
        assert(t == mont_t(a as int));
    }
    let m: i64 = (a as i64) - t * 3329;
    let r64: i64 = m >> 16;
    proof {
        assert(m >> 16 == m / 65536) by (bit_vector);
    }
    r64 as i16
}

/// The exact value of the Barrett reduction of a: the representative of
/// a modulo q with the smallest magnitude.
pub open spec fn barrett_reduce_spec(a: int) -> int {
    a - ((20159 * a + 33554432) / 67108864) * 3329
}

/// The Barrett reduction of a is congruent to a modulo q and has
/// magnitude at most (q - 1) / 2, for any 16-bit signed a.
pub proof fn lemma_barrett_reduce_spec_props(a: int)
    requires
        -32768 <= a <= 32767,
    ensures
        -1664 <= barrett_reduce_spec(a) <= 1664,
        (a - barrett_reduce_spec(a)) % 3329 == 0,
{
    let s = 20159 * a + 33554432;
    let t = s / 67108864;
    lemma_fundamental_div_mod(s, 67108864);
    lemma_mod_bound(s, 67108864);
    let rem = s % 67108864;
    let r = barrett_reduce_spec(a);
    assert(r * 67108864 == -447 * a - 3329 * 33554432 + 3329 * rem) by (nonlinear_arith)
        requires
            s == 67108864 * t + rem,
            s == 20159 * a + 33554432,
            r == a - t * 3329,
    ;
    assert(-1664 * 67108864 <= r * 67108864 <= 1664 * 67108864) by (nonlinear_arith)
        requires
            r * 67108864 == -447 * a - 3329 * 33554432 + 3329 * rem,
            -32768 <= a <= 32767,
            0 <= rem < 67108864,
    ;
    assert(-1664 <= r <= 1664) by (nonlinear_arith)
        requires
            -1664 * 67108864 <= r * 67108864 <= 1664 * 67108864,
    ;
    assert(a - r == t * 3329);
    lemma_mod_multiples_basic(t, 3329);
}

/// Barrett reduction: returns r == a (mod q) with |r| <= (q - 1) / 2.
pub fn barrett_reduce(a: i16) -> (r: i16)
    ensures
        r == barrett_reduce_spec(a as int),
        -1664 <= r <= 1664,
        (a - r) % 3329 == 0,
{
    proof {
        lemma_barrett_reduce_spec_props(a as int);
    }
    let s: i32 = 20159 * (a as i32) + 0x200_0000;
    let t: i32 = s >> 26;
    proof {
        assert(s >> 26 == s / 67108864) by (bit_vector);
        lemma_fundamental_div_mod(s as int, 67108864);
        lemma_mod_bound(s as int, 67108864);
        assert(-10 <= t <= 10) by (nonlinear_arith)
            requires
                s == 67108864 * t + s % 67108864,
                0 <= s % 67108864 < 67108864,
                -627015680 <= s <= 694104385,
        ;
    }
    let r32: i32 = (a as i32) - t * 3329;
    r32 as i16
}

/// Conditional subtraction of q: maps [0, 2q) to [0, q), branch-free.
pub fn csubq(a: i16) -> (r: i16)
    requires
        0 <= a < 2 * 3329,
    ensures
        r == if a < 3329 {
            a as int
        } else {
            a - 3329
        },
{
    let m: i16 = a - Q16;
    proof {
        assert(m + ((m >> 15) & 3329) == if m < 0 {
            m + 3329
        } else {
            m as int
        }) by (bit_vector)
            requires
                -3329 <= m < 3329,
        ;
    }
    let r: i16 = m + ((m >> 15) & Q16);
    r
}

} // verus!
