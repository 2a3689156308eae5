//! Forward and inverse number-theoretic transform over R_q, and the
//! base multiplication used for pointwise products in the NTT domain.
//!
//! Both transforms are specified exactly: the contract of `ntt` (resp.
//! `invntt`) states that the coefficients after the call are the layered
//! butterfly transform of the coefficients before it, with every
//! multiplication going through the Montgomery reduction.

use vstd::prelude::*;

verus! {

use crate::reduce::{
    barrett_reduce, barrett_reduce_spec, lemma_mont_reduce_spec_props, mont_reduce_spec,
    montgomery_reduce,
};

/// The 128 twiddle factors: powers of the primitive 256th root of unity
/// 17 modulo q, in bit-reversed order and carrying the Montgomery factor.
pub const ZETAS: [i16; 128] = [
    -1044, -758, -359, -1517, 1493, 1422, 287, 202, -171, 622, 1577, 182, 962, -1202, -1474, 1468,
    573, -1325, 264, 383, -829, 1458, -1602, -130, -681, 1017, 732, 608, -1542, 411, -205, -1571,
    1223, 652, -552, 1015, -1293, 1491, -282, -1544, 516, -8, -320, -666, -1618, -1162, 126, 1469,
    -853, -90, -271, 830, 107, -1421, -247, -951, -398, 961, -1508, -725, 448, -1065, 677, -1275,
    -1103, 430, 555, 843, -1251, 871, 1550, 105, 422, 587, 177, -235, -291, -460, 1574, 1653, -246,
    778, 1159, -147, -777, 1483, -602, 1119, -1590, 644, -872, 349, 418, 329, -156, -75, 817, 1097,
    603, 610, 1322, -1285, -1465, 384, -1215, -136, 1218, -1335, -874, 220, -1187, -1659, -1185,
    -1530, -1278, 794, -1510, -854, -870, 478, -108, -308, 996, 991, 958, -1460, 1522, 1628,
];

/// Every twiddle factor has magnitude below q/2.
pub open spec fn zeta_bounded(j: int) -> bool {
    -1665 <= ZETAS[j] <= 1665
}

pub proof fn lemma_zetas_bounded()
    ensures
        forall|j: int| 0 <= j < 128 ==> #[trigger] zeta_bounded(j),
{
}

/// The coefficients of a polynomial as unbounded integers.
pub open spec fn to_ints(s: Seq<i16>) -> Seq<int> {
    s.map_values(|x: i16| x as int)
}


/// The coefficients of an integer sequence as 16-bit values; the inverse
/// of `to_ints` on sequences whose entries fit.
pub open spec fn to_i16s(s: Seq<int>) -> Seq<i16> {
    Seq::new(s.len(), |i: int| s[i] as i16)
}

/// The value of a Montgomery-reduced product.
pub open spec fn fqmul_spec(a: int, b: int) -> int {
    mont_reduce_spec(a * b)
}

/// Multiplication in R_q followed by Montgomery reduction.
pub fn fqmul(a: i16, b: i16) -> (r: i16)
    requires
        -(3329 * 32768) <= a * b <= 3329 * 32768,
    ensures
        r == fqmul_spec(a as int, b as int),
        -3329 <= r <= 3329,
        (r * 65536 - a * b) % 3329 == 0,
{
    montgomery_reduce((a as i32) * (b as i32))
}

/// One forward butterfly layer of width `len`: index i in the lower half
/// of a block becomes s[i] + zeta * s[i + len], index i in the upper half
/// becomes s[i - len] - zeta * s[i], with zeta taken in increasing table
/// order and all products Montgomery-reduced.
pub open spec fn ntt_layer_spec(s: Seq<int>, len: int) -> Seq<int> {
    Seq::new(
        s.len(),
        |i: int|
            {
                let z = ZETAS[128int / len + i / (2 * len)] as int;
                if i % (2 * len) < len {
                    s[i] + fqmul_spec(z, s[i + len])
                } else {
                    s[i - len] - fqmul_spec(z, s[i])
                }
            },
    )
}

/// The full forward transform: seven butterfly layers of halving width.
#[verifier::opaque]
pub open spec fn ntt_spec(s: Seq<int>) -> Seq<int> {
    ntt_layer_spec(
        ntt_layer_spec(
            ntt_layer_spec(
                ntt_layer_spec(ntt_layer_spec(ntt_layer_spec(ntt_layer_spec(s, 128), 64), 32), 16),
                8,
            ),
            4,
        ),
        2,
    )
}

/// One inverse (Gentleman-Sande) butterfly layer of width `len`: the lower
/// half of a block becomes the Barrett reduction of the pair sum, the upper
/// half becomes zeta times the pair difference, with zeta taken in
/// decreasing table order.
pub open spec fn invntt_layer_spec(s: Seq<int>, len: int) -> Seq<int> {
    Seq::new(
        s.len(),
        |i: int|
            {
                let z = ZETAS[2int * (128int / len) - 1 - i / (2 * len)] as int;
                if i % (2 * len) < len {
                    barrett_reduce_spec(s[i] + s[i + len])
                } else {
                    fqmul_spec(z, s[i] - s[i - len])
                }
            },
    )
}

/// The full inverse transform: seven butterfly layers of doubling width,
/// then every coefficient is multiplied by 1441 == mont^2 / 128, which
/// cancels the Montgomery factors accumulated on the way.
#[verifier::opaque]
pub open spec fn invntt_spec(s: Seq<int>) -> Seq<int> {
    let t = invntt_layer_spec(
        invntt_layer_spec(
            invntt_layer_spec(
                invntt_layer_spec(
                    invntt_layer_spec(invntt_layer_spec(invntt_layer_spec(s, 2), 4), 8), 16,
                ),
                32,
            ),
            64,
        ),
        128,
    );
    Seq::new(t.len(), |i: int| fqmul_spec(t[i], 1441))
}

/// The widths a butterfly layer can have.
pub open spec fn valid_len(len: int) -> bool {
    len == 2 || len == 4 || len == 8 || len == 16 || len == 32 || len == 64 || len == 128
}

/// One forward layer, in place. Coefficient magnitudes grow by at most q.
#[verifier::loop_isolation(false)]
#[verifier::rlimit(60)]
fn ntt_layer(r: &mut Vec<i16>, len: usize, bound: i16)
    requires
        old(r)@.len() == 256,
        valid_len(len as int),
        0 < bound <= 32767 - 3329,
        forall|i: int| 0 <= i < 256 ==> -bound <= #[trigger] old(r)@[i] <= bound,
    ensures
        final(r)@.len() == 256,
        to_ints(final(r)@) == ntt_layer_spec(to_ints(old(r)@), len as int),
        forall|i: int| 0 <= i < 256 ==> -(bound + 3329) <= #[trigger] final(r)@[i] <= bound + 3329,
{
    proof {
        lemma_zetas_bounded();
    }
    let ghost orig = to_ints(old(r)@);
    let ghost spec_out = ntt_layer_spec(orig, len as int);
    let blocks: usize = 128 / len;
    proof {
        assert(blocks * (2 * len) == 256) by (nonlinear_arith)
            requires
                valid_len(len as int),
                blocks == 128int / (len as int),
        ;
    }
    let mut b: usize = 0;
    while b < blocks
        invariant
            r@.len() == 256,
            0 <= b <= blocks,
            blocks == 128int / (len as int),
            blocks * (2 * len) == 256,
            forall|i: int|
                0 <= i < 256 && i < b * (2 * len) ==> #[trigger] r@[i] as int == spec_out[i],
            forall|i: int| b * (2 * len) <= i < 256 ==> #[trigger] r@[i] == old(r)@[i],
            forall|i: int|
                0 <= i < 256 ==> -(bound + 3329) <= #[trigger] r@[i] <= bound + 3329,
        decreases blocks - b,
    {
        proof {
            assert(b * (2 * len) + 2 * len == (b + 1) * (2 * len) && (b + 1) * (2 * len) <= blocks
                * (2 * len)) by (nonlinear_arith)
                requires
                    b < blocks,
                    0 < len,
            ;
        }
        let start: usize = b * (2 * len);
        proof {
            assert(zeta_bounded(blocks + b));
        }
        let zeta: i16 = ZETAS[blocks + b];
        let mut j: usize = 0;
        while j < len
            invariant
                r@.len() == 256,
                0 <= j <= len,
                start == b * (2 * len),
                start + 2 * len <= 256,
                forall|i: int|
                    0 <= i < 256 && i < start ==> #[trigger] r@[i] as int == spec_out[i],
                forall|i: int|
                    start <= i < start + j ==> #[trigger] r@[i] as int == spec_out[i],
                forall|i: int|
                    start + len <= i < start + len + j ==> #[trigger] r@[i] as int == spec_out[i],
                forall|i: int|
                    start + j <= i < start + len ==> #[trigger] r@[i] == old(r)@[i],
                forall|i: int|
                    start + len + j <= i < 256 ==> #[trigger] r@[i] == old(r)@[i],
                forall|i: int|
                    0 <= i < 256 ==> -(bound + 3329) <= #[trigger] r@[i] <= bound + 3329,
            decreases len - j,
        {
            let idx: usize = start + j;
            proof {
                assert(-(3329 * 32768) <= zeta * r@[idx + len] <= 3329 * 32768) by (nonlinear_arith)
                    requires
                        -1665 <= zeta <= 1665,
                        -32768 <= r@[idx + len] <= 32767,
                ;
            }
            let t: i16 = fqmul(zeta, r[idx + len]);
            let rj: i16 = r[idx];
            r.set(idx + len, rj - t);
            r.set(idx, rj + t);
            proof {
                let i = idx as int;
                assert(i % (2 * len) == j && i / (2 * len) == b as int) by (nonlinear_arith)
                    requires
                        i == b * (2 * len) + j,
                        0 <= j < len,
                        0 < len,
                ;
                assert((i + len) % (2 * len) == j + len && (i + len) / (2 * len) == b as int)
                    by (nonlinear_arith)
                    requires
                        i == b * (2 * len) + j,
                        0 <= j < len,
                        0 < len,
                ;
                assert(r@[i] as int == spec_out[i]);
                assert(r@[i + len] as int == spec_out[i + len]);
            }
            j += 1;
        }
        b += 1;
    }
    proof {
        assert forall|i: int| 0 <= i < 256 implies to_ints(r@)[i] == spec_out[i] by {
            assert(r@[i] as int == spec_out[i]);
        }
        assert(to_ints(r@) =~= spec_out);
    }
}

/// In-place forward number-theoretic transform on 256 coefficients.
///
/// The result is exactly the seven-layer butterfly transform of the
/// input; each coefficient grows in magnitude by at most 7q.
pub fn ntt(r: &mut Vec<i16>)
    requires
        old(r)@.len() == 256,
        forall|i: int| 0 <= i < 256 ==> -9464 <= #[trigger] old(r)@[i] <= 9464,
    ensures
        final(r)@.len() == 256,
        to_ints(final(r)@) == ntt_spec(to_ints(old(r)@)),
        forall|i: int| 0 <= i < 256 ==> -32767 <= #[trigger] final(r)@[i] <= 32767,
{
    proof {
        reveal(ntt_spec);
    }
    ntt_layer(r, 128, 9464);
    ntt_layer(r, 64, 9464 + 3329);
    ntt_layer(r, 32, 9464 + 2 * 3329);
    ntt_layer(r, 16, 9464 + 3 * 3329);
    ntt_layer(r, 8, 9464 + 4 * 3329);
    ntt_layer(r, 4, 9464 + 5 * 3329);
    ntt_layer(r, 2, 9464 + 6 * 3329);
}

/// One inverse layer, in place. All coefficients end bounded by q.
#[verifier::loop_isolation(false)]
#[verifier::rlimit(60)]
fn invntt_layer(r: &mut Vec<i16>, len: usize)
    requires
        old(r)@.len() == 256,
        valid_len(len as int),
        forall|i: int| 0 <= i < 256 ==> -16383 <= #[trigger] old(r)@[i] <= 16383,
    ensures
        final(r)@.len() == 256,
        to_ints(final(r)@) == invntt_layer_spec(to_ints(old(r)@), len as int),
        forall|i: int| 0 <= i < 256 ==> -3329 <= #[trigger] final(r)@[i] <= 3329,
{
    proof {
        lemma_zetas_bounded();
    }
    let ghost orig = to_ints(old(r)@);
    let ghost spec_out = invntt_layer_spec(orig, len as int);
    let blocks: usize = 128 / len;
    proof {
        assert(blocks * (2 * len) == 256) by (nonlinear_arith)
            requires
                valid_len(len as int),
                blocks == 128int / (len as int),
        ;
    }
    let mut b: usize = 0;
    while b < blocks
        invariant
            r@.len() == 256,
            0 <= b <= blocks,
            blocks == 128int / (len as int),
            blocks * (2 * len) == 256,
            forall|i: int|
                0 <= i < 256 && i < b * (2 * len) ==> #[trigger] r@[i] as int == spec_out[i],
            forall|i: int| b * (2 * len) <= i < 256 ==> #[trigger] r@[i] == old(r)@[i],
            forall|i: int|
                0 <= i < 256 && i < b * (2 * len) ==> -3329 <= #[trigger] r@[i] <= 3329,
        decreases blocks - b,
    {
        proof {
            assert(b * (2 * len) + 2 * len == (b + 1) * (2 * len) && (b + 1) * (2 * len) <= blocks
                * (2 * len)) by (nonlinear_arith)
                requires
                    b < blocks,
                    0 < len,
            ;
            assert(2 * blocks - 1 - b < 128);
            assert(zeta_bounded(2 * blocks as int - 1 - b));
        }
        let start: usize = b * (2 * len);
        let zeta: i16 = ZETAS[2 * blocks - 1 - b];
        let mut j: usize = 0;
        while j < len
            invariant
                r@.len() == 256,
                0 <= j <= len,
                start == b * (2 * len),
                start + 2 * len <= 256,
                forall|i: int|
                    0 <= i < 256 && i < start ==> #[trigger] r@[i] as int == spec_out[i],
                forall|i: int|
                    start <= i < start + j ==> #[trigger] r@[i] as int == spec_out[i],
                forall|i: int|
                    start + len <= i < start + len + j ==> #[trigger] r@[i] as int == spec_out[i],
                forall|i: int|
                    start + j <= i < start + len ==> #[trigger] r@[i] == old(r)@[i],
                forall|i: int|
                    start + len + j <= i < 256 ==> #[trigger] r@[i] == old(r)@[i],
                forall|i: int|
                    0 <= i < 256 && (i < start || (start + j <= i < start + len) || (start + len
                        <= i < start + len + j) || i >= start + len + j || true) ==> -16383
                        <= #[trigger] r@[i] <= 16383,
                forall|i: int|
                    0 <= i < 256 && (i < start + j || (start + len <= i < start + len + j)) ==> -3329
                        <= #[trigger] r@[i] <= 3329,
            decreases len - j,
        {
            let idx: usize = start + j;
            let t: i16 = r[idx];
            let sum: i16 = t + r[idx + len];
            r.set(idx, barrett_reduce(sum));
            let diff: i16 = r[idx + len] - t;
            proof {
                assert(-(3329 * 32768) <= zeta * diff <= 3329 * 32768) by (nonlinear_arith)
                    requires
                        -1665 <= zeta <= 1665,
                        -32768 <= diff <= 32767,
                ;
            }
            r.set(idx + len, fqmul(zeta, diff));
            proof {
                let i = idx as int;
                assert(i % (2 * len) == j && i / (2 * len) == b as int) by (nonlinear_arith)
                    requires
                        i == b * (2 * len) + j,
                        0 <= j < len,
                        0 < len,
                ;
                assert((i + len) % (2 * len) == j + len && (i + len) / (2 * len) == b as int)
                    by (nonlinear_arith)
                    requires
                        i == b * (2 * len) + j,
                        0 <= j < len,
                        0 < len,
                ;
                assert(r@[i] as int == spec_out[i]);
                assert(r@[i + len] as int == spec_out[i + len]);
            }
            j += 1;
        }
        b += 1;
    }
    proof {
        assert forall|i: int| 0 <= i < 256 implies to_ints(r@)[i] == spec_out[i] by {
            assert(r@[i] as int == spec_out[i]);
        }
        assert(to_ints(r@) =~= spec_out);
    }
}

/// In-place inverse number-theoretic transform on 256 coefficients.
///
/// The result is exactly the seven-layer inverse butterfly transform of
/// the input followed by the multiplication by 1441; every coefficient
/// of the result has magnitude at most q.
pub fn invntt(r: &mut Vec<i16>)
    requires
        old(r)@.len() == 256,
        forall|i: int| 0 <= i < 256 ==> -16383 <= #[trigger] old(r)@[i] <= 16383,
    ensures
        final(r)@.len() == 256,
        to_ints(final(r)@) == invntt_spec(to_ints(old(r)@)),
        forall|i: int| 0 <= i < 256 ==> -3329 <= #[trigger] final(r)@[i] <= 3329,
{
    proof {
        reveal(invntt_spec);
    }
    invntt_layer(r, 2);
    invntt_layer(r, 4);
    invntt_layer(r, 8);
    invntt_layer(r, 16);
    invntt_layer(r, 32);
    invntt_layer(r, 64);
    invntt_layer(r, 128);
    let ghost t = to_ints(r@);
    let mut i: usize = 0;
    while i < 256
        invariant
            r@.len() == 256,
            0 <= i <= 256,
            forall|k: int| 0 <= k < i ==> #[trigger] r@[k] as int == fqmul_spec(t[k], 1441),
            forall|k: int| i <= k < 256 ==> #[trigger] r@[k] as int == t[k],
            forall|k: int| 0 <= k < 256 ==> -3329 <= #[trigger] r@[k] <= 3329,
        decreases 256 - i,
    {
        let c: i16 = r[i];
        r.set(i, fqmul(c, 1441));
        i += 1;
    }
    proof {
        let spec_out = invntt_spec(to_ints(old(r)@));
        assert forall|k: int| 0 <= k < 256 implies to_ints(r@)[k] == spec_out[k] by {
            assert(spec_out[k] == fqmul_spec(t[k], 1441));
            assert(r@[k] as int == fqmul_spec(t[k], 1441));
        }
        assert(to_ints(r@) =~= spec_out);
    }
}

/// The two coefficients of the product of the degree-one polynomials
/// (a0 + a1 X) and (b0 + b1 X) modulo X^2 - zeta, with all products
/// Montgomery-reduced.
pub open spec fn basemul_spec0(a0: int, a1: int, b0: int, b1: int, zeta: int) -> int {
    fqmul_spec(fqmul_spec(a1, b1), zeta) + fqmul_spec(a0, b0)
}

pub open spec fn basemul_spec1(a0: int, a1: int, b0: int, b1: int) -> int {
    fqmul_spec(a0, b1) + fqmul_spec(a1, b0)
}

/// Multiplication of two degree-one polynomials modulo X^2 - zeta, the
/// base case of multiplication in the NTT domain.
pub fn basemul(a: [i16; 2], b: [i16; 2], zeta: i16) -> (r: [i16; 2])
    requires
        -1665 <= zeta <= 1665,
        -(3329 * 32768) <= a[0] * b[0] <= 3329 * 32768,
        -(3329 * 32768) <= a[1] * b[1] <= 3329 * 32768,
        -(3329 * 32768) <= a[0] * b[1] <= 3329 * 32768,
        -(3329 * 32768) <= a[1] * b[0] <= 3329 * 32768,
    ensures
        r[0] == basemul_spec0(a[0] as int, a[1] as int, b[0] as int, b[1] as int, zeta as int),
        r[1] == basemul_spec1(a[0] as int, a[1] as int, b[0] as int, b[1] as int),
        -6658 <= r[0] <= 6658,
        -6658 <= r[1] <= 6658,
{
    let m: i16 = fqmul(a[1], b[1]);
    proof {
        assert(-(3329 * 32768) <= m * zeta <= 3329 * 32768) by (nonlinear_arith)
            requires
                -3329 <= m <= 3329,
                -1665 <= zeta <= 1665,
        ;
    }
    let r0: i16 = fqmul(m, zeta) + fqmul(a[0], b[0]);
    let r1: i16 = fqmul(a[0], b[1]) + fqmul(a[1], b[0]);
    [r0, r1]
}

} // verus!
