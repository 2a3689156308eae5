//! Polynomials of R_q: 256 signed 16-bit coefficients, with the packed
//! 12-bit serialization, the lossy d-bit compression codecs, and
//! coefficient-wise arithmetic.

use vstd::prelude::*;

verus! {

use crate::ntt::{invntt, invntt_spec, ntt, ntt_spec, to_ints};
use vstd::arithmetic::div_mod::{
    lemma_fundamental_div_mod,
    lemma_fundamental_div_mod_converse,
    lemma_mod_add_multiples_vanish,
    lemma_mod_bound,
    lemma_mod_multiples_basic,
    lemma_small_div_converse,
    lemma_small_mod,
};

/// A polynomial of R_q. The three usage disciplines (normal, reduced,
/// NTT domain) share this one representation; contracts track the
/// coefficient bounds each discipline guarantees.
#[derive(Debug)]
pub struct Poly {
    pub coeffs: Vec<i16>,
}

impl View for Poly {
    type V = Seq<i16>;

    open spec fn view(&self) -> Seq<i16> {
        self.coeffs@
    }
}

/// A polynomial always holds exactly 256 coefficients.
pub open spec fn poly_wf(p: Poly) -> bool {
    p@.len() == 256
}

/// Coefficients lie in the window (-q, q), as required before packing.
pub open spec fn coeffs_normal(s: Seq<i16>) -> bool {
    forall|i: int| 0 <= i < s.len() ==> -3329 < #[trigger] s[i] < 3329
}

/// Coefficients lie in [0, q).
pub open spec fn coeffs_reduced(s: Seq<i16>) -> bool {
    forall|i: int| 0 <= i < s.len() ==> 0 <= #[trigger] s[i] < 3329
}

/// The representative in [0, q) of a coefficient in (-q, q).
pub open spec fn pos_repr(c: i16) -> int {
    if c < 0 {
        c + 3329
    } else {
        c as int
    }
}

/// Maps a coefficient in (-q, q) to its representative in [0, q),
/// branch-free.
pub fn positive_repr(p: i16) -> (r: u16)
    requires
        -3329 < p < 3329,
    ensures
        r == pos_repr(p),
        r < 3329,
{
    proof {
        assert(p + ((p >> 15) & 3329) == if p < 0 {
            p + 3329
        } else {
            p as int
        }) by (bit_vector)
            requires
                -3329 < p < 3329,
        ;
    }
    let r: i16 = p + ((p >> 15) & 3329);
    r as u16
}

/// The packed 12-bit encoding: coefficient pair (c0, c1), reduced to
/// [0, q), becomes the three bytes c0 mod 2^8, c0 div 2^8 + 2^4 (c1 mod
/// 2^4), c1 div 2^4.
pub open spec fn poly_to_bytes_spec(s: Seq<i16>) -> Seq<u8> {
    Seq::new(
        384,
        |j: int|
            {
                let t0 = pos_repr(s[2 * (j / 3)]);
                let t1 = pos_repr(s[2 * (j / 3) + 1]);
                if j % 3 == 0 {
                    (t0 % 256) as u8
                } else if j % 3 == 1 {
                    (t0 / 256 + (t1 % 16) * 16) as u8
                } else {
                    (t1 / 16) as u8
                }
            },
    )
}

/// The 12-bit decoding: byte triple (b0, b1, b2) becomes the coefficient
/// pair (b0 + 2^8 (b1 mod 2^4), b1 div 2^4 + 2^4 b2), each in [0, 2^12).
pub open spec fn poly_from_bytes_spec(b: Seq<u8>) -> Seq<i16> {
    Seq::new(
        256,
        |i: int|
            {
                let b0 = b[3 * (i / 2)] as int;
                let b1 = b[3 * (i / 2) + 1] as int;
                let b2 = b[3 * (i / 2) + 2] as int;
                if i % 2 == 0 {
                    (b0 + (b1 % 16) * 256) as i16
                } else {
                    (b1 / 16 + b2 * 16) as i16
                }
            },
    )
}

/// Decoding inverts encoding on every polynomial whose coefficients lie
/// in [0, q).
pub proof fn lemma_poly_bytes_round_trip(s: Seq<i16>)
    requires
        s.len() == 256,
        coeffs_reduced(s),
    ensures
        poly_from_bytes_spec(poly_to_bytes_spec(s)) == s,
{
    let b = poly_to_bytes_spec(s);
    assert forall|i: int| 0 <= i < 256 implies poly_from_bytes_spec(b)[i] == s[i] by {
        let h = i / 2;
        assert(i == 2 * h || i == 2 * h + 1);
        assert(3 * h / 3 == h && (3 * h + 1) / 3 == h && (3 * h + 2) / 3 == h && 3 * h % 3 == 0 && (
        3 * h + 1) % 3 == 1 && (3 * h + 2) % 3 == 2) by (nonlinear_arith);
        assert(2 * (2 * h) / 2 == 2 * h) by (nonlinear_arith);
        let t0 = pos_repr(s[2 * h]) as u16;
        let t1 = pos_repr(s[2 * h + 1]) as u16;
        assert(b[3 * h] == t0 % 256 && b[3 * h + 1] == t0 / 256 + (t1 % 16) * 16 && b[3 * h + 2]
            == t1 / 16);
        assert(t0 % 256 + ((t0 / 256 + (t1 % 16) * 16) % 16) * 256 == t0 && (t0 / 256 + (t1 % 16)
            * 16) / 16 + (t1 / 16) * 16 == t1) by (bit_vector)
            requires
                t0 < 3329,
                t1 < 3329,
        ;
    }
    assert(poly_from_bytes_spec(b) =~= s);
}


/// The d-bit quantization of a coefficient: round((u * 2^d) / q) mod 2^d,
/// rounding half up, where u is the representative in [0, q) and m = 2^d.
pub open spec fn compress_coeff(c: i16, m: int) -> int {
    ((pos_repr(c) * m + 1664) / 3329) % m
}

/// The d-bit dequantization: round((v * q) / 2^d), rounding half up.
pub open spec fn decompress_coeff(v: int, m: int) -> int {
    (v * 3329 + m / 2) / m
}

/// 4-bit compression: byte j packs coefficients 2j (low nibble) and
/// 2j + 1 (high nibble).
pub open spec fn poly_compress4_spec(s: Seq<i16>) -> Seq<u8> {
    Seq::new(
        128,
        |j: int| (compress_coeff(s[2 * j], 16) + compress_coeff(s[2 * j + 1], 16) * 16) as u8,
    )
}

/// 4-bit decompression, the approximate inverse of `poly_compress4_spec`.
pub open spec fn poly_decompress4_spec(b: Seq<u8>) -> Seq<i16> {
    Seq::new(
        256,
        |i: int|
            if i % 2 == 0 {
                decompress_coeff(b[i / 2] as int % 16, 16) as i16
            } else {
                decompress_coeff(b[i / 2] as int / 16, 16) as i16
            },
    )
}

/// The five bytes that pack the eight 5-bit values t0..t7, in
/// little-endian bit order.
pub open spec fn pack5(t0: int, t1: int, t2: int, t3: int, t4: int, t5: int, t6: int, t7: int, m: int) -> int {
    if m == 0 {
        t0 + (t1 % 8) * 32
    } else if m == 1 {
        t1 / 8 + t2 * 4 + (t3 % 2) * 128
    } else if m == 2 {
        t3 / 2 + (t4 % 16) * 16
    } else if m == 3 {
        t4 / 16 + t5 * 2 + (t6 % 4) * 64
    } else {
        t6 / 4 + t7 * 8
    }
}

/// 5-bit compression: each group of eight coefficients packs into five
/// bytes.
pub open spec fn poly_compress5_spec(s: Seq<i16>) -> Seq<u8> {
    Seq::new(
        160,
        |j: int|
            {
                let g = j / 5;
                pack5(
                    compress_coeff(s[8 * g], 32),
                    compress_coeff(s[8 * g + 1], 32),
                    compress_coeff(s[8 * g + 2], 32),
                    compress_coeff(s[8 * g + 3], 32),
                    compress_coeff(s[8 * g + 4], 32),
                    compress_coeff(s[8 * g + 5], 32),
                    compress_coeff(s[8 * g + 6], 32),
                    compress_coeff(s[8 * g + 7], 32),
                    j % 5,
                ) as u8
            },
    )
}

/// The 5-bit value at position l of a five-byte group (b0..b4).
pub open spec fn extract5(b0: int, b1: int, b2: int, b3: int, b4: int, l: int) -> int {
    if l == 0 {
        b0 % 32
    } else if l == 1 {
        (b0 / 32 + b1 * 8) % 32
    } else if l == 2 {
        (b1 / 4) % 32
    } else if l == 3 {
        (b1 / 128 + b2 * 2) % 32
    } else if l == 4 {
        (b2 / 16 + b3 * 16) % 32
    } else if l == 5 {
        (b3 / 2) % 32
    } else if l == 6 {
        (b3 / 64 + b4 * 4) % 32
    } else {
        (b4 / 8) % 32
    }
}

/// 5-bit decompression, the approximate inverse of `poly_compress5_spec`.
pub open spec fn poly_decompress5_spec(b: Seq<u8>) -> Seq<i16> {
    Seq::new(
        256,
        |i: int|
            {
                let g = i / 8;
                decompress_coeff(
                    extract5(
                        b[5 * g] as int,
                        b[5 * g + 1] as int,
                        b[5 * g + 2] as int,
                        b[5 * g + 3] as int,
                        b[5 * g + 4] as int,
                        i % 8,
                    ),
                    32,
                ) as i16
            },
    )
}


/// The distance between a and b modulo q, measured to the nearest
/// multiple of q (the "centered" distance).
pub open spec fn centered_dist(a: int, b: int) -> int {
    let d = (a - b) % 3329;
    if d > 1664 {
        3329 - d
    } else {
        d
    }
}

/// Quantizing to d bits and back moves a coefficient by at most
/// ceil(q / 2^(d+1)) in centered distance: 105 for d = 4, 53 for d = 5.
pub proof fn lemma_compress_coeff_error(c: i16, m: int)
    requires
        -3329 < c < 3329,
        m == 16 || m == 32,
    ensures
        centered_dist(decompress_coeff(compress_coeff(c, m), m), pos_repr(c)) <= 1664int / m + 1,
{
    let u = pos_repr(c);
    let x = u * m + 1664;
    let q1 = x / 3329;
    let rem1 = x % 3329;
    lemma_fundamental_div_mod(x, 3329);
    lemma_mod_bound(x, 3329);
    assert(0 <= u * m <= 3328 * m) by (nonlinear_arith)
        requires
            0 <= u <= 3328,
            0 < m,
    ;
    assert(0 <= q1 <= m) by (nonlinear_arith)
        requires
            x == 3329 * q1 + rem1,
            0 <= rem1 < 3329,
            1664 <= x <= 3328 * m + 1664,
            16 <= m,
    ;
    let cc = compress_coeff(c, m);
    if q1 < m {
        lemma_small_mod(q1 as nat, m as nat);
        assert(cc == q1);
        let y = q1 * 3329 + m / 2;
        let v = y / m;
        let rem2 = y % m;
        lemma_fundamental_div_mod(y, m);
        lemma_mod_bound(y, m);
        assert(decompress_coeff(cc, m) == v);
        assert((u - v) * m == rem1 - 1664 - m / 2 + rem2) by (nonlinear_arith)
            requires
                x == 3329 * q1 + rem1,
                x == u * m + 1664,
                y == q1 * 3329 + m / 2,
                y == m * v + rem2,
        ;
        assert(-(1664int / m + 1) <= u - v <= 1664int / m + 1) by (nonlinear_arith)
            requires
                (u - v) * m == rem1 - 1664 - m / 2 + rem2,
                0 <= rem1 < 3329,
                0 <= rem2 < m,
                m == 16 || m == 32,
        ;
        if v >= u {
            lemma_small_mod((v - u) as nat, 3329nat);
        } else {
            lemma_mod_add_multiples_vanish(v - u, 3329);
            lemma_small_mod((v - u + 3329) as nat, 3329nat);
        }
    } else {
        // the rounded value wraps to zero: u is within 1664/m of q
        assert(q1 == m);
        assert(rem1 < 1664 && u * m >= 3329 * m - 1664) by (nonlinear_arith)
            requires
                x == 3329 * m + rem1,
                x == u * m + 1664,
                0 <= rem1 < 3329,
                u < 3329,
                16 <= m,
        ;
        assert(3329 * m - u * m == (3329 - u) * m) by (nonlinear_arith);
        assert(3329 - u <= 1664int / m) by (nonlinear_arith)
            requires
                (3329 - u) * m <= 1664,
                m == 16 || m == 32,
        ;
        lemma_mod_multiples_basic(1, m);
        assert(cc == 0);
        lemma_small_div_converse(m / 2, m);
        assert(decompress_coeff(0, m) == 0);
        lemma_mod_add_multiples_vanish(-u, 3329);
        lemma_small_mod((3329 - u) as nat, 3329nat);
        assert(centered_dist(0, u) == 3329 - u);
    }
}

/// Quantized values are fixed points: compressing a decompressed d-bit
/// value gives that value back.
pub proof fn lemma_compress_coeff_idempotent(v: int, m: int)
    requires
        0 <= v < m,
        m == 16 || m == 32,
    ensures
        0 <= decompress_coeff(v, m) < 3329,
        compress_coeff(decompress_coeff(v, m) as i16, m) == v,
{
    let y = v * 3329 + m / 2;
    let c = y / m;
    let rem2 = y % m;
    lemma_fundamental_div_mod(y, m);
    lemma_mod_bound(y, m);
    assert(0 <= c < 3329) by (nonlinear_arith)
        requires
            y == m * c + rem2,
            0 <= rem2 < m,
            y == v * 3329 + m / 2,
            0 <= v < m,
            m == 16 || m == 32,
    ;
    let x = c * m + 1664;
    assert(x == v * 3329 + (1664 + m / 2 - rem2)) by (nonlinear_arith)
        requires
            y == m * c + rem2,
            y == v * 3329 + m / 2,
            x == c * m + 1664,
    ;
    lemma_fundamental_div_mod_converse(x, 3329, v, 1664 + m / 2 - rem2);
    lemma_small_mod(v as nat, m as nat);
    assert(compress_coeff(c as i16, m) == v);
}

/// The eight 5-bit extractions undo the five-byte packing.
proof fn lemma_pack5_extract5(t0: u16, t1: u16, t2: u16, t3: u16, t4: u16, t5: u16, t6: u16, t7: u16)
    requires
        t0 < 32,
        t1 < 32,
        t2 < 32,
        t3 < 32,
        t4 < 32,
        t5 < 32,
        t6 < 32,
        t7 < 32,
    ensures
        (t0 + (t1 % 8) * 32) % 32 == t0 as int,
        ((t0 + (t1 % 8) * 32) / 32 + (t1 / 8 + t2 * 4 + (t3 % 2) * 128) * 8) % 32 == t1 as int,
        ((t1 / 8 + t2 * 4 + (t3 % 2) * 128) / 4) % 32 == t2 as int,
        ((t1 / 8 + t2 * 4 + (t3 % 2) * 128) / 128 + (t3 / 2 + (t4 % 16) * 16) * 2) % 32 == t3 as int,
        ((t3 / 2 + (t4 % 16) * 16) / 16 + (t4 / 16 + t5 * 2 + (t6 % 4) * 64) * 16) % 32 == t4 as int,
        ((t4 / 16 + t5 * 2 + (t6 % 4) * 64) / 2) % 32 == t5 as int,
        ((t4 / 16 + t5 * 2 + (t6 % 4) * 64) / 64 + (t6 / 4 + t7 * 8) * 4) % 32 == t6 as int,
        ((t6 / 4 + t7 * 8) / 8) % 32 == t7 as int,
{
    assert((t0 + (t1 % 8) * 32) % 32 == t0 as int && ((t0 + (t1 % 8) * 32) / 32 + (t1 / 8 + t2 * 4
        + (t3 % 2) * 128) * 8) % 32 == t1 as int && ((t1 / 8 + t2 * 4 + (t3 % 2) * 128) / 4) % 32
        == t2 as int && ((t1 / 8 + t2 * 4 + (t3 % 2) * 128) / 128 + (t3 / 2 + (t4 % 16) * 16) * 2)
        % 32 == t3 as int && ((t3 / 2 + (t4 % 16) * 16) / 16 + (t4 / 16 + t5 * 2 + (t6 % 4) * 64)
        * 16) % 32 == t4 as int && ((t4 / 16 + t5 * 2 + (t6 % 4) * 64) / 2) % 32 == t5 as int && ((
    t4 / 16 + t5 * 2 + (t6 % 4) * 64) / 64 + (t6 / 4 + t7 * 8) * 4) % 32 == t6 as int && ((t6 / 4
        + t7 * 8) / 8) % 32 == t7 as int) by (bit_vector)
        requires
            t0 < 32,
            t1 < 32,
            t2 < 32,
            t3 < 32,
            t4 < 32,
            t5 < 32,
            t6 < 32,
            t7 < 32,
    ;
}

/// The five-byte packing undoes the eight 5-bit extractions.
proof fn lemma_extract5_pack5(b0: u16, b1: u16, b2: u16, b3: u16, b4: u16)
    requires
        b0 < 256,
        b1 < 256,
        b2 < 256,
        b3 < 256,
        b4 < 256,
    ensures
        b0 % 32 + (((b0 / 32 + b1 * 8) % 32) % 8) * 32 == b0 as int,
        ((b0 / 32 + b1 * 8) % 32) / 8 + ((b1 / 4) % 32) * 4 + (((b1 / 128 + b2 * 2) % 32) % 2)
            * 128 == b1 as int,
        ((b1 / 128 + b2 * 2) % 32) / 2 + (((b2 / 16 + b3 * 16) % 32) % 16) * 16 == b2 as int,
        ((b2 / 16 + b3 * 16) % 32) / 16 + ((b3 / 2) % 32) * 2 + (((b3 / 64 + b4 * 4) % 32) % 4)
            * 64 == b3 as int,
        ((b3 / 64 + b4 * 4) % 32) / 4 + ((b4 / 8) % 32) * 8 == b4 as int,
{
    assert(b0 % 32 + (((b0 / 32 + b1 * 8) % 32) % 8) * 32 == b0 as int && ((b0 / 32 + b1 * 8) % 32)
        / 8 + ((b1 / 4) % 32) * 4 + (((b1 / 128 + b2 * 2) % 32) % 2) * 128 == b1 as int && ((b1
        / 128 + b2 * 2) % 32) / 2 + (((b2 / 16 + b3 * 16) % 32) % 16) * 16 == b2 as int && ((b2
        / 16 + b3 * 16) % 32) / 16 + ((b3 / 2) % 32) * 2 + (((b3 / 64 + b4 * 4) % 32) % 4) * 64
        == b3 as int && ((b3 / 64 + b4 * 4) % 32) / 4 + ((b4 / 8) % 32) * 8 == b4 as int)
        by (bit_vector)
        requires
            b0 < 256,
            b1 < 256,
            b2 < 256,
            b3 < 256,
            b4 < 256,
    ;
}

/// Compressing then decompressing moves every coefficient by at most
/// ceil(q / 2^(d+1)) in centered distance, for both codecs.
#[verifier::rlimit(100)]
pub proof fn lemma_poly_compress_error(s: Seq<i16>, i: int)
    requires
        s.len() == 256,
        coeffs_normal(s),
        0 <= i < 256,
    ensures
        centered_dist(
            poly_decompress4_spec(poly_compress4_spec(s))[i] as int,
            pos_repr(s[i]),
        ) <= 105,
        centered_dist(
            poly_decompress5_spec(poly_compress5_spec(s))[i] as int,
            pos_repr(s[i]),
        ) <= 53,
{
    lemma_compress_coeff_error(s[i], 16);
    lemma_compress_coeff_error(s[i], 32);
    // the 4-bit codec: byte i/2 holds the nibbles of coefficients
    // 2(i/2) and 2(i/2) + 1
    let b4 = poly_compress4_spec(s);
    let h = i / 2;
    assert(i == 2 * h || i == 2 * h + 1);
    let c0 = compress_coeff(s[2 * h], 16);
    let c1 = compress_coeff(s[2 * h + 1], 16);
    lemma_mod_bound(pos_repr(s[2 * h]) * 16 + 1664, 3329);
    lemma_mod_bound((pos_repr(s[2 * h]) * 16 + 1664) / 3329, 16);
    lemma_mod_bound((pos_repr(s[2 * h + 1]) * 16 + 1664) / 3329, 16);
    assert(0 <= c0 < 16 && 0 <= c1 < 16);
    assert(b4[h] == c0 + c1 * 16);
    lemma_fundamental_div_mod_converse(c0 + c1 * 16, 16, c1, c0);
    assert(b4[h] as int % 16 == c0 && b4[h] as int / 16 == c1);
    lemma_decompress_coeff_bounds(c0, 16);
    lemma_decompress_coeff_bounds(c1, 16);
    assert(poly_decompress4_spec(b4)[i] as int == decompress_coeff(compress_coeff(s[i], 16), 16));
    // the 5-bit codec: group i/8 packs coefficients 8(i/8) .. 8(i/8)+7
    let b5 = poly_compress5_spec(s);
    let g = i / 8;
    let t0 = compress_coeff(s[8 * g], 32);
    let t1 = compress_coeff(s[8 * g + 1], 32);
    let t2 = compress_coeff(s[8 * g + 2], 32);
    let t3 = compress_coeff(s[8 * g + 3], 32);
    let t4 = compress_coeff(s[8 * g + 4], 32);
    let t5 = compress_coeff(s[8 * g + 5], 32);
    let t6 = compress_coeff(s[8 * g + 6], 32);
    let t7 = compress_coeff(s[8 * g + 7], 32);
    lemma_compress_coeff_in_range(s[8 * g], 32);
    lemma_compress_coeff_in_range(s[8 * g + 1], 32);
    lemma_compress_coeff_in_range(s[8 * g + 2], 32);
    lemma_compress_coeff_in_range(s[8 * g + 3], 32);
    lemma_compress_coeff_in_range(s[8 * g + 4], 32);
    lemma_compress_coeff_in_range(s[8 * g + 5], 32);
    lemma_compress_coeff_in_range(s[8 * g + 6], 32);
    lemma_compress_coeff_in_range(s[8 * g + 7], 32);
    assert((5 * g) / 5 == g && (5 * g + 1) / 5 == g && (5 * g + 2) / 5 == g && (5 * g + 3) / 5 == g
        && (5 * g + 4) / 5 == g && (5 * g) % 5 == 0 && (5 * g + 1) % 5 == 1 && (5 * g + 2) % 5 == 2
        && (5 * g + 3) % 5 == 3 && (5 * g + 4) % 5 == 4) by (nonlinear_arith);
    lemma_pack5_extract5(t0 as u16, t1 as u16, t2 as u16, t3 as u16, t4 as u16, t5 as u16,
        t6 as u16, t7 as u16);
    assert(extract5(b5[5 * g] as int, b5[5 * g + 1] as int, b5[5 * g + 2] as int,
        b5[5 * g + 3] as int, b5[5 * g + 4] as int, i % 8) == compress_coeff(s[i], 32));
    lemma_decompress_coeff_bounds(compress_coeff(s[i], 32), 32);
    assert(poly_decompress5_spec(b5)[i] as int == decompress_coeff(compress_coeff(s[i], 32), 32));
}

/// A compressed coefficient is a d-bit value.
pub proof fn lemma_compress_coeff_in_range(c: i16, m: int)
    requires
        m == 16 || m == 32,
    ensures
        0 <= compress_coeff(c, m) < m,
{
    lemma_mod_bound((pos_repr(c) * m + 1664) / 3329, m);
}

/// A decompressed d-bit value lies in [0, q).
pub proof fn lemma_decompress_coeff_bounds(v: int, m: int)
    requires
        0 <= v < m,
        m == 16 || m == 32,
    ensures
        0 <= decompress_coeff(v, m) < 3329,
{
    let y = v * 3329 + m / 2;
    lemma_fundamental_div_mod(y, m);
    lemma_mod_bound(y, m);
    assert(0 <= y / m < 3329) by (nonlinear_arith)
        requires
            y == m * (y / m) + y % m,
            0 <= y % m < m,
            y == v * 3329 + m / 2,
            0 <= v < m,
            m == 16 || m == 32,
    ;
}

/// Compression is idempotent: compressing a decompressed buffer gives
/// the buffer back, for both codecs.
#[verifier::rlimit(100)]
pub proof fn lemma_poly_compress_idempotent(b4: Seq<u8>, b5: Seq<u8>)
    requires
        b4.len() == 128,
        b5.len() == 160,
    ensures
        poly_compress4_spec(poly_decompress4_spec(b4)) == b4,
        poly_compress5_spec(poly_decompress5_spec(b5)) == b5,
{
    let s4 = poly_decompress4_spec(b4);
    assert forall|j: int| 0 <= j < 128 implies poly_compress4_spec(s4)[j] == b4[j] by {
        let v0 = b4[j] as int % 16;
        let v1 = b4[j] as int / 16;
        lemma_mod_bound(b4[j] as int, 16);
        assert((2 * j) / 2 == j && (2 * j + 1) / 2 == j && (2 * j) % 2 == 0 && (2 * j + 1) % 2 == 1)
            by (nonlinear_arith);
        lemma_compress_coeff_idempotent(v0, 16);
        lemma_compress_coeff_idempotent(v1, 16);
        assert(s4[2 * j] == decompress_coeff(v0, 16) as i16);
        assert(s4[2 * j + 1] == decompress_coeff(v1, 16) as i16);
        lemma_fundamental_div_mod(b4[j] as int, 16);
    }
    assert(poly_compress4_spec(s4) =~= b4);
    let s5 = poly_decompress5_spec(b5);
    assert forall|j: int| 0 <= j < 160 implies poly_compress5_spec(s5)[j] == b5[j] by {
        let g = j / 5;
        assert(0 <= g < 32);
        let c0 = b5[5 * g] as int;
        let c1 = b5[5 * g + 1] as int;
        let c2 = b5[5 * g + 2] as int;
        let c3 = b5[5 * g + 3] as int;
        let c4 = b5[5 * g + 4] as int;
        assert((8 * g) / 8 == g && (8 * g + 1) / 8 == g && (8 * g + 2) / 8 == g && (8 * g + 3) / 8
            == g && (8 * g + 4) / 8 == g && (8 * g + 5) / 8 == g && (8 * g + 6) / 8 == g && (8 * g
            + 7) / 8 == g && (8 * g) % 8 == 0 && (8 * g + 1) % 8 == 1 && (8 * g + 2) % 8 == 2 && (8
            * g + 3) % 8 == 3 && (8 * g + 4) % 8 == 4 && (8 * g + 5) % 8 == 5 && (8 * g + 6) % 8
            == 6 && (8 * g + 7) % 8 == 7) by (nonlinear_arith);
        lemma_mod_bound(c0 / 32 + c1 * 8, 32);
        lemma_mod_bound(c0, 32);
        lemma_mod_bound(c1 / 4, 32);
        lemma_mod_bound(c1 / 128 + c2 * 2, 32);
        lemma_mod_bound(c2 / 16 + c3 * 16, 32);
        lemma_mod_bound(c3 / 2, 32);
        lemma_mod_bound(c3 / 64 + c4 * 4, 32);
        lemma_mod_bound(c4 / 8, 32);
        lemma_compress_coeff_idempotent(extract5(c0, c1, c2, c3, c4, 0), 32);
        lemma_compress_coeff_idempotent(extract5(c0, c1, c2, c3, c4, 1), 32);
        lemma_compress_coeff_idempotent(extract5(c0, c1, c2, c3, c4, 2), 32);
        lemma_compress_coeff_idempotent(extract5(c0, c1, c2, c3, c4, 3), 32);
        lemma_compress_coeff_idempotent(extract5(c0, c1, c2, c3, c4, 4), 32);
        lemma_compress_coeff_idempotent(extract5(c0, c1, c2, c3, c4, 5), 32);
        lemma_compress_coeff_idempotent(extract5(c0, c1, c2, c3, c4, 6), 32);
        lemma_compress_coeff_idempotent(extract5(c0, c1, c2, c3, c4, 7), 32);
        lemma_extract5_pack5(c0 as u16, c1 as u16, c2 as u16, c3 as u16, c4 as u16);
    }
    assert(poly_compress5_spec(s5) =~= b5);
}


/// The bit of a message byte selected by the coefficient index, as the
/// polynomial coefficient 0 or (q + 1) / 2.
pub open spec fn msg_bit(b: int, l: int) -> int {
    if l == 0 {
        b % 2
    } else if l == 1 {
        (b / 2) % 2
    } else if l == 2 {
        (b / 4) % 2
    } else if l == 3 {
        (b / 8) % 2
    } else if l == 4 {
        (b / 16) % 2
    } else if l == 5 {
        (b / 32) % 2
    } else if l == 6 {
        (b / 64) % 2
    } else {
        (b / 128) % 2
    }
}

/// A 32-byte message as a polynomial: coefficient i is bit i of the
/// message, scaled to 0 or (q + 1) / 2 == 1665.
pub open spec fn poly_from_msg_spec(msg: Seq<u8>) -> Seq<i16> {
    Seq::new(256, |i: int| (msg_bit(msg[i / 8] as int, i % 8) * 1665) as i16)
}

/// A polynomial as a 32-byte message: bit i is the 1-bit quantization of
/// coefficient i, which is 1 exactly when the coefficient is closer to
/// (q + 1) / 2 than to 0 modulo q.
pub open spec fn poly_to_msg_spec(s: Seq<i16>) -> Seq<u8> {
    Seq::new(
        32,
        |j: int|
            (compress_coeff(s[8 * j], 2) + compress_coeff(s[8 * j + 1], 2) * 2 + compress_coeff(
                s[8 * j + 2],
                2,
            ) * 4 + compress_coeff(s[8 * j + 3], 2) * 8 + compress_coeff(s[8 * j + 4], 2) * 16
                + compress_coeff(s[8 * j + 5], 2) * 32 + compress_coeff(s[8 * j + 6], 2) * 64
                + compress_coeff(s[8 * j + 7], 2) * 128) as u8,
    )
}


/// The noise polynomial drawn from SHAKE-256 keyed by seed and nonce:
/// eta * 64 stream bytes fed to the centered binomial distribution.
pub open spec fn noise_poly_spec(seed: Seq<u8>, nonce: u8, eta: int) -> Seq<i16> {
    let b = Seq::new(
        (eta * 64) as nat,
        |i: int| crate::symmetric::shake256_stream(seed + seq![nonce], i),
    );
    if eta == 3 {
        crate::cbd::cbd3_spec(b)
    } else {
        crate::cbd::cbd2_spec(b)
    }
}

/// Every coefficient Barrett-reduced.
pub open spec fn reduced_coeffs(s: Seq<i16>) -> Seq<i16> {
    Seq::new(s.len(), |i: int| crate::reduce::barrett_reduce_spec(s[i] as int) as i16)
}

impl PartialEq for Poly {
    /// Two polynomials are equal when their coefficient sequences are.
    fn eq(&self, other: &Poly) -> (r: bool) {
        if self.coeffs.len() != other.coeffs.len() {
            return false;
        }
        let mut i: usize = 0;
        while i < self.coeffs.len()
            invariant
                0 <= i <= self.coeffs@.len(),
                self.coeffs@.len() == other.coeffs@.len(),
                forall|k: int| 0 <= k < i ==> self.coeffs@[k] == other.coeffs@[k],
            decreases self.coeffs@.len() - i,
        {
            if self.coeffs[i] != other.coeffs[i] {
                return false;
            }
            i += 1;
        }
        proof {
            assert(self.coeffs@ =~= other.coeffs@);
        }
        true
    }
}

impl vstd::std_specs::cmp::PartialEqSpecImpl for Poly {
    open spec fn obeys_eq_spec() -> bool {
        true
    }

    open spec fn eq_spec(&self, other: &Poly) -> bool {
        self.coeffs@ == other.coeffs@
    }
}

impl Poly {
    /// The zero polynomial.
    pub fn zero() -> (r: Poly)
        ensures
            r@.len() == 256,
            forall|i: int| 0 <= i < 256 ==> #[trigger] r@[i] == 0,
    {
        let mut coeffs: Vec<i16> = Vec::new();
        let mut i: usize = 0;
        while i < 256
            invariant
                coeffs@.len() == i,
                0 <= i <= 256,
                forall|k: int| 0 <= k < i ==> #[trigger] coeffs@[k] == 0,
            decreases 256 - i,
        {
            coeffs.push(0);
            i += 1;
        }
        Poly { coeffs }
    }


    /// Compress and pack: 4 bits per coefficient into 128 bytes, or 5
    /// bits per coefficient into 160 bytes, chosen by the output length.
    #[verifier::loop_isolation(false)]
    pub fn compress_into(&self, out: &mut Vec<u8>)
        requires
            self@.len() == 256,
            coeffs_normal(self@),
            old(out)@.len() == 128 || old(out)@.len() == 160,
        ensures
            final(out)@.len() == old(out)@.len(),
            old(out)@.len() == 128 ==> final(out)@ == poly_compress4_spec(self@),
            old(out)@.len() == 160 ==> final(out)@ == poly_compress5_spec(self@),
    {
        if out.len() == 128 {
            let ghost spec_out = poly_compress4_spec(self@);
            let mut j: usize = 0;
            while j < 128
                invariant
                    out@.len() == 128,
                    0 <= j <= 128,
                    forall|k: int| 0 <= k < j ==> #[trigger] out@[k] == spec_out[k],
                decreases 128 - j,
            {
                let u0: u32 = positive_repr(self.coeffs[2 * j]) as u32;
                let u1: u32 = positive_repr(self.coeffs[2 * j + 1]) as u32;
                let c0: u32 = ((u0 * 16 + 1664) / 3329) % 16;
                let c1: u32 = ((u1 * 16 + 1664) / 3329) % 16;
                proof {
                    assert((2 * j) / 2 == j as int && (2 * j + 1) / 2 == j as int)
                        by (nonlinear_arith);
                }
                out.set(j, (c0 + c1 * 16) as u8);
                j += 1;
            }
            proof {
                assert(out@ =~= spec_out);
            }
        } else {
            let ghost spec_out = poly_compress5_spec(self@);
            let mut g: usize = 0;
            while g < 32
                invariant
                    out@.len() == 160,
                    0 <= g <= 32,
                    forall|k: int| 0 <= k < 5 * g ==> #[trigger] out@[k] == spec_out[k],
                decreases 32 - g,
            {
                let t0: u32 = ((positive_repr(self.coeffs[8 * g]) as u32 * 32 + 1664) / 3329) % 32;
                let t1: u32 = ((positive_repr(self.coeffs[8 * g + 1]) as u32 * 32 + 1664) / 3329)
                    % 32;
                let t2: u32 = ((positive_repr(self.coeffs[8 * g + 2]) as u32 * 32 + 1664) / 3329)
                    % 32;
                let t3: u32 = ((positive_repr(self.coeffs[8 * g + 3]) as u32 * 32 + 1664) / 3329)
                    % 32;
                let t4: u32 = ((positive_repr(self.coeffs[8 * g + 4]) as u32 * 32 + 1664) / 3329)
                    % 32;
                let t5: u32 = ((positive_repr(self.coeffs[8 * g + 5]) as u32 * 32 + 1664) / 3329)
                    % 32;
                let t6: u32 = ((positive_repr(self.coeffs[8 * g + 6]) as u32 * 32 + 1664) / 3329)
                    % 32;
                let t7: u32 = ((positive_repr(self.coeffs[8 * g + 7]) as u32 * 32 + 1664) / 3329)
                    % 32;
                proof {
                    assert((5 * g) / 5 == g as int && (5 * g + 1) / 5 == g as int && (5 * g + 2) / 5
                        == g as int && (5 * g + 3) / 5 == g as int && (5 * g + 4) / 5 == g as int
                        && (5 * g) % 5 == 0 && (5 * g + 1) % 5 == 1 && (5 * g + 2) % 5 == 2 && (5
                        * g + 3) % 5 == 3 && (5 * g + 4) % 5 == 4) by (nonlinear_arith);
                }
                out.set(5 * g, (t0 + (t1 % 8) * 32) as u8);
                out.set(5 * g + 1, (t1 / 8 + t2 * 4 + (t3 % 2) * 128) as u8);
                out.set(5 * g + 2, (t3 / 2 + (t4 % 16) * 16) as u8);
                out.set(5 * g + 3, (t4 / 16 + t5 * 2 + (t6 % 4) * 64) as u8);
                out.set(5 * g + 4, (t6 / 4 + t7 * 8) as u8);
                g += 1;
            }
            proof {
                assert(out@ =~= spec_out);
            }
        }
    }

    /// Unpack and decompress, the approximate inverse of `compress_into`;
    /// the input length chooses the 4-bit or the 5-bit codec. All result
    /// coefficients lie in [0, q).
    #[verifier::loop_isolation(false)]
    pub fn decompress(buf: &Vec<u8>) -> (r: Poly)
        requires
            buf@.len() == 128 || buf@.len() == 160,
        ensures
            r@.len() == 256,
            buf@.len() == 128 ==> r@ == poly_decompress4_spec(buf@),
            buf@.len() == 160 ==> r@ == poly_decompress5_spec(buf@),
            coeffs_reduced(r@),
    {
        let mut poly = Poly::zero();
        if buf.len() == 128 {
            let ghost spec_out = poly_decompress4_spec(buf@);
            let mut j: usize = 0;
            while j < 128
                invariant
                    poly@.len() == 256,
                    0 <= j <= 128,
                    forall|k: int| 0 <= k < 2 * j ==> #[trigger] poly@[k] == spec_out[k],
                    forall|k: int| 0 <= k < 2 * j ==> 0 <= #[trigger] poly@[k] < 3329,
                decreases 128 - j,
            {
                let b: u32 = buf[j] as u32;
                let a0: u32 = ((b % 16) * 3329 + 8) / 16;
                let a1: u32 = ((b / 16) * 3329 + 8) / 16;
                proof {
                    assert((2 * j) / 2 == j as int && (2 * j + 1) / 2 == j as int && (2 * j) % 2
                        == 0 && (2 * j + 1) % 2 == 1) by (nonlinear_arith);
                }
                poly.coeffs.set(2 * j, a0 as i16);
                poly.coeffs.set(2 * j + 1, a1 as i16);
                j += 1;
            }
            proof {
                assert(poly@ =~= spec_out);
            }
        } else {
            let ghost spec_out = poly_decompress5_spec(buf@);
            let mut g: usize = 0;
            while g < 32
                invariant
                    poly@.len() == 256,
                    0 <= g <= 32,
                    forall|k: int| 0 <= k < 8 * g ==> #[trigger] poly@[k] == spec_out[k],
                    forall|k: int| 0 <= k < 8 * g ==> 0 <= #[trigger] poly@[k] < 3329,
                decreases 32 - g,
            {
                let b0: u32 = buf[5 * g] as u32;
                let b1: u32 = buf[5 * g + 1] as u32;
                let b2: u32 = buf[5 * g + 2] as u32;
                let b3: u32 = buf[5 * g + 3] as u32;
                let b4: u32 = buf[5 * g + 4] as u32;
                proof {
                    assert((8 * g) / 8 == g as int && (8 * g + 1) / 8 == g as int && (8 * g + 2) / 8
                        == g as int && (8 * g + 3) / 8 == g as int && (8 * g + 4) / 8 == g as int
                        && (8 * g + 5) / 8 == g as int && (8 * g + 6) / 8 == g as int && (8 * g + 7)
                        / 8 == g as int && (8 * g) % 8 == 0 && (8 * g + 1) % 8 == 1 && (8 * g + 2)
                        % 8 == 2 && (8 * g + 3) % 8 == 3 && (8 * g + 4) % 8 == 4 && (8 * g + 5) % 8
                        == 5 && (8 * g + 6) % 8 == 6 && (8 * g + 7) % 8 == 7) by (nonlinear_arith);
                }
                poly.coeffs.set(8 * g, (((b0 % 32) * 3329 + 16) / 32) as i16);
                poly.coeffs.set(8 * g + 1, ((((b0 / 32 + b1 * 8) % 32) * 3329 + 16) / 32) as i16);
                poly.coeffs.set(8 * g + 2, ((((b1 / 4) % 32) * 3329 + 16) / 32) as i16);
                poly.coeffs.set(8 * g + 3, ((((b1 / 128 + b2 * 2) % 32) * 3329 + 16) / 32) as i16);
                poly.coeffs.set(8 * g + 4, ((((b2 / 16 + b3 * 16) % 32) * 3329 + 16) / 32) as i16);
                poly.coeffs.set(8 * g + 5, ((((b3 / 2) % 32) * 3329 + 16) / 32) as i16);
                poly.coeffs.set(8 * g + 6, ((((b3 / 64 + b4 * 4) % 32) * 3329 + 16) / 32) as i16);
                poly.coeffs.set(8 * g + 7, ((((b4 / 8) % 32) * 3329 + 16) / 32) as i16);
                g += 1;
            }
            proof {
                assert(poly@ =~= spec_out);
            }
        }
        poly
    }


    /// Coefficient-wise sum, without reduction.
    pub fn add(&self, rhs: &Poly) -> (r: Poly)
        requires
            self@.len() == 256,
            rhs@.len() == 256,
            forall|i: int| 0 <= i < 256 ==> -32768 <= #[trigger] (self@[i] + rhs@[i]) <= 32767,
        ensures
            r@.len() == 256,
            forall|i: int| 0 <= i < 256 ==> #[trigger] r@[i] == self@[i] + rhs@[i],
    {
        let mut out = Poly::zero();
        let mut i: usize = 0;
        while i < 256
            invariant
                out@.len() == 256,
                0 <= i <= 256,
                self@.len() == 256,
                rhs@.len() == 256,
                forall|k: int| 0 <= k < 256 ==> -32768 <= #[trigger] (self@[k] + rhs@[k]) <= 32767,
                forall|k: int| 0 <= k < i ==> #[trigger] out@[k] == self@[k] + rhs@[k],
            decreases 256 - i,
        {
            out.coeffs.set(i, self.coeffs[i] + rhs.coeffs[i]);
            i += 1;
        }
        out
    }

    /// Coefficient-wise difference, without reduction.
    pub fn sub(&self, rhs: &Poly) -> (r: Poly)
        requires
            self@.len() == 256,
            rhs@.len() == 256,
            forall|i: int| 0 <= i < 256 ==> -32768 <= #[trigger] (self@[i] - rhs@[i]) <= 32767,
        ensures
            r@.len() == 256,
            forall|i: int| 0 <= i < 256 ==> #[trigger] r@[i] == self@[i] - rhs@[i],
    {
        let mut out = Poly::zero();
        let mut i: usize = 0;
        while i < 256
            invariant
                out@.len() == 256,
                0 <= i <= 256,
                self@.len() == 256,
                rhs@.len() == 256,
                forall|k: int| 0 <= k < 256 ==> -32768 <= #[trigger] (self@[k] - rhs@[k]) <= 32767,
                forall|k: int| 0 <= k < i ==> #[trigger] out@[k] == self@[k] - rhs@[k],
            decreases 256 - i,
        {
            out.coeffs.set(i, self.coeffs[i] - rhs.coeffs[i]);
            i += 1;
        }
        out
    }

    /// Coefficient-wise sum in place, without reduction.
    pub fn add_assign(&mut self, rhs: &Poly)
        requires
            old(self)@.len() == 256,
            rhs@.len() == 256,
            forall|i: int|
                0 <= i < 256 ==> -32768 <= #[trigger] (old(self)@[i] + rhs@[i]) <= 32767,
        ensures
            final(self)@.len() == 256,
            forall|i: int| 0 <= i < 256 ==> #[trigger] final(self)@[i] == old(self)@[i] + rhs@[i],
    {
        let mut i: usize = 0;
        while i < 256
            invariant
                self@.len() == 256,
                0 <= i <= 256,
                rhs@.len() == 256,
                forall|k: int| i <= k < 256 ==> #[trigger] self@[k] == old(self)@[k],
                forall|k: int|
                    0 <= k < 256 ==> -32768 <= #[trigger] (old(self)@[k] + rhs@[k]) <= 32767,
                forall|k: int| 0 <= k < i ==> #[trigger] self@[k] == old(self)@[k] + rhs@[k],
            decreases 256 - i,
        {
            let c: i16 = self.coeffs[i];
            self.coeffs.set(i, c + rhs.coeffs[i]);
            i += 1;
        }
    }

    /// Coefficient-wise difference in place, without reduction.
    pub fn sub_assign(&mut self, rhs: &Poly)
        requires
            old(self)@.len() == 256,
            rhs@.len() == 256,
            forall|i: int|
                0 <= i < 256 ==> -32768 <= #[trigger] (old(self)@[i] - rhs@[i]) <= 32767,
        ensures
            final(self)@.len() == 256,
            forall|i: int| 0 <= i < 256 ==> #[trigger] final(self)@[i] == old(self)@[i] - rhs@[i],
    {
        let mut i: usize = 0;
        while i < 256
            invariant
                self@.len() == 256,
                0 <= i <= 256,
                rhs@.len() == 256,
                forall|k: int| i <= k < 256 ==> #[trigger] self@[k] == old(self)@[k],
                forall|k: int|
                    0 <= k < 256 ==> -32768 <= #[trigger] (old(self)@[k] - rhs@[k]) <= 32767,
                forall|k: int| 0 <= k < i ==> #[trigger] self@[k] == old(self)@[k] - rhs@[k],
            decreases 256 - i,
        {
            let c: i16 = self.coeffs[i];
            self.coeffs.set(i, c - rhs.coeffs[i]);
            i += 1;
        }
    }

    /// Forward NTT of this polynomial, in place.
    pub fn ntt(&mut self)
        requires
            old(self)@.len() == 256,
            forall|i: int| 0 <= i < 256 ==> -9464 <= #[trigger] old(self)@[i] <= 9464,
        ensures
            final(self)@.len() == 256,
            to_ints(final(self)@) == ntt_spec(to_ints(old(self)@)),
            forall|i: int| 0 <= i < 256 ==> -32767 <= #[trigger] final(self)@[i] <= 32767,
    {
        crate::ntt::ntt(&mut self.coeffs);
    }

    /// Inverse NTT of this polynomial, in place.
    pub fn invntt(&mut self)
        requires
            old(self)@.len() == 256,
            forall|i: int| 0 <= i < 256 ==> -16383 <= #[trigger] old(self)@[i] <= 16383,
        ensures
            final(self)@.len() == 256,
            to_ints(final(self)@) == invntt_spec(to_ints(old(self)@)),
            forall|i: int| 0 <= i < 256 ==> -3329 <= #[trigger] final(self)@[i] <= 3329,
    {
        crate::ntt::invntt(&mut self.coeffs);
    }

    /// Expand a 32-byte message into a polynomial: bit i of the message
    /// becomes coefficient i, scaled to 0 or (q + 1) / 2.
    #[verifier::loop_isolation(false)]
    pub fn from_msg(msg: &Vec<u8>) -> (r: Poly)
        requires
            msg@.len() == 32,
        ensures
            r@.len() == 256,
            r@ == poly_from_msg_spec(msg@),
            forall|i: int| 0 <= i < 256 ==> 0 <= #[trigger] r@[i] <= 1665,
    {
        let ghost spec_out = poly_from_msg_spec(msg@);
        let mut poly = Poly::zero();
        let mut j: usize = 0;
        while j < 32
            invariant
                poly@.len() == 256,
                0 <= j <= 32,
                forall|k: int| 0 <= k < 8 * j ==> #[trigger] poly@[k] == spec_out[k],
                forall|k: int| 0 <= k < 8 * j ==> 0 <= #[trigger] poly@[k] <= 1665,
            decreases 32 - j,
        {
            let b: u16 = msg[j] as u16;
            proof {
                assert((8 * j) / 8 == j as int && (8 * j + 1) / 8 == j as int && (8 * j + 2) / 8
                    == j as int && (8 * j + 3) / 8 == j as int && (8 * j + 4) / 8 == j as int && (8
                    * j + 5) / 8 == j as int && (8 * j + 6) / 8 == j as int && (8 * j + 7) / 8
                    == j as int && (8 * j) % 8 == 0 && (8 * j + 1) % 8 == 1 && (8 * j + 2) % 8 == 2
                    && (8 * j + 3) % 8 == 3 && (8 * j + 4) % 8 == 4 && (8 * j + 5) % 8 == 5 && (8
                    * j + 6) % 8 == 6 && (8 * j + 7) % 8 == 7) by (nonlinear_arith);
            }
            poly.coeffs.set(8 * j, ((b % 2) * 1665) as i16);
            poly.coeffs.set(8 * j + 1, (((b / 2) % 2) * 1665) as i16);
            poly.coeffs.set(8 * j + 2, (((b / 4) % 2) * 1665) as i16);
            poly.coeffs.set(8 * j + 3, (((b / 8) % 2) * 1665) as i16);
            poly.coeffs.set(8 * j + 4, (((b / 16) % 2) * 1665) as i16);
            poly.coeffs.set(8 * j + 5, (((b / 32) % 2) * 1665) as i16);
            poly.coeffs.set(8 * j + 6, (((b / 64) % 2) * 1665) as i16);
            poly.coeffs.set(8 * j + 7, (((b / 128) % 2) * 1665) as i16);
            j += 1;
        }
        proof {
            assert(poly@ =~= spec_out);
        }
        poly
    }

    /// Quantize each coefficient to one bit and pack into 32 bytes; the
    /// bit is set exactly when the coefficient is nearer to (q + 1) / 2
    /// than to 0 modulo q.
    #[verifier::loop_isolation(false)]
    pub fn to_msg(&self) -> (r: Vec<u8>)
        requires
            self@.len() == 256,
            coeffs_normal(self@),
        ensures
            r@.len() == 32,
            r@ == poly_to_msg_spec(self@),
    {
        let ghost spec_out = poly_to_msg_spec(self@);
        let mut out: Vec<u8> = Vec::new();
        let mut j: usize = 0;
        while j < 32
            invariant
                out@.len() == j,
                0 <= j <= 32,
                forall|k: int| 0 <= k < j ==> #[trigger] out@[k] == spec_out[k],
            decreases 32 - j,
        {
            proof {
                assert((8 * j) / 8 == j as int) by (nonlinear_arith);
            }
            let mut byte: u16 = 0;
            let b0: u16 = ((((positive_repr(self.coeffs[8 * j]) as u32 * 2 + 1664) / 3329) % 2) as u16);
            let b1: u16 = ((((positive_repr(self.coeffs[8 * j + 1]) as u32 * 2 + 1664) / 3329) % 2) as u16);
            let b2: u16 = ((((positive_repr(self.coeffs[8 * j + 2]) as u32 * 2 + 1664) / 3329) % 2) as u16);
            let b3: u16 = ((((positive_repr(self.coeffs[8 * j + 3]) as u32 * 2 + 1664) / 3329) % 2) as u16);
            let b4: u16 = ((((positive_repr(self.coeffs[8 * j + 4]) as u32 * 2 + 1664) / 3329) % 2) as u16);
            let b5: u16 = ((((positive_repr(self.coeffs[8 * j + 5]) as u32 * 2 + 1664) / 3329) % 2) as u16);
            let b6: u16 = ((((positive_repr(self.coeffs[8 * j + 6]) as u32 * 2 + 1664) / 3329) % 2) as u16);
            let b7: u16 = ((((positive_repr(self.coeffs[8 * j + 7]) as u32 * 2 + 1664) / 3329) % 2) as u16);
            byte = b0 + b1 * 2 + b2 * 4 + b3 * 8 + b4 * 16 + b5 * 32 + b6 * 64 + b7 * 128;
            out.push(byte as u8);
            j += 1;
        }
        proof {
            assert(out@ =~= spec_out);
        }
        out
    }



    /// Multiply every coefficient by 2^16 modulo q (one Montgomery
    /// reduction of c * 2^32): restores the factor 2^(-16) that a
    /// pointwise NTT-domain product introduced.
    #[verifier::loop_isolation(false)]
    pub fn to_mont(&mut self)
        requires
            old(self)@.len() == 256,
        ensures
            final(self)@.len() == 256,
            forall|i: int|
                0 <= i < 256 ==> #[trigger] final(self)@[i] as int == crate::ntt::fqmul_spec(
                    old(self)@[i] as int,
                    1353,
                ),
            forall|i: int| 0 <= i < 256 ==> -3329 <= #[trigger] final(self)@[i] <= 3329,
    {
        let mut i: usize = 0;
        while i < 256
            invariant
                self@.len() == 256,
                0 <= i <= 256,
                forall|j: int| i <= j < 256 ==> #[trigger] self@[j] == old(self)@[j],
                forall|j: int|
                    0 <= j < i ==> #[trigger] self@[j] as int == crate::ntt::fqmul_spec(
                        old(self)@[j] as int,
                        1353,
                    ),
                forall|j: int| 0 <= j < i ==> -3329 <= #[trigger] self@[j] <= 3329,
            decreases 256 - i,
        {
            let c: i16 = self.coeffs[i];
            proof {
                assert(-(3329 * 32768) <= c * 1353 <= 3329 * 32768) by (nonlinear_arith)
                    requires
                        -32768 <= c <= 32767,
                ;
            }
            self.coeffs.set(i, crate::ntt::fqmul(c, 1353));
            i += 1;
        }
    }

    /// Barrett-reduce every coefficient into [-(q-1)/2, (q-1)/2].
    #[verifier::loop_isolation(false)]
    pub fn reduce(&mut self)
        requires
            old(self)@.len() == 256,
        ensures
            final(self)@.len() == 256,
            final(self)@ == reduced_coeffs(old(self)@),
            forall|i: int| 0 <= i < 256 ==> -1664 <= #[trigger] final(self)@[i] <= 1664,
    {
        let mut i: usize = 0;
        while i < 256
            invariant
                self@.len() == 256,
                0 <= i <= 256,
                forall|j: int| i <= j < 256 ==> #[trigger] self@[j] == old(self)@[j],
                forall|j: int| 0 <= j < i ==> #[trigger] self@[j] == reduced_coeffs(old(self)@)[j],
                forall|j: int| 0 <= j < i ==> -1664 <= #[trigger] self@[j] <= 1664,
            decreases 256 - i,
        {
            let c: i16 = self.coeffs[i];
            self.coeffs.set(i, crate::reduce::barrett_reduce(c));
            i += 1;
        }
        proof {
            assert(self@ =~= reduced_coeffs(old(self)@));
        }
    }

    /// Sample a noise polynomial: squeeze eta * 64 bytes from SHAKE-256
    /// keyed by the seed and a nonce, then apply the centered binomial
    /// distribution with parameter eta.
    pub fn from_noise_eta(seed: &Vec<u8>, nonce: u8, eta: usize) -> (r: Poly)
        requires
            seed@.len() == 32,
            eta == 2 || eta == 3,
        ensures
            r@.len() == 256,
            r@ == noise_poly_spec(seed@, nonce, eta as int),
            forall|i: int| 0 <= i < 256 ==> -3 <= #[trigger] r@[i] <= 3,
    {
        let mut ext: Vec<u8> = Vec::new();
        let mut i: usize = 0;
        while i < 32
            invariant
                ext@.len() == i,
                0 <= i <= 32,
                seed@.len() == 32,
                forall|j: int| 0 <= j < i ==> #[trigger] ext@[j] == seed@[j],
            decreases 32 - i,
        {
            ext.push(seed[i]);
            i += 1;
        }
        ext.push(nonce);
        proof {
            assert(ext@ =~= seed@ + seq![nonce]);
        }
        let bytes = crate::symmetric::shake256(ext.as_slice(), eta * 64);
        proof {
            assert(bytes@ =~= Seq::new(
                (eta * 64) as nat,
                |j: int| crate::symmetric::shake256_stream(seed@ + seq![nonce], j),
            ));
        }
        crate::cbd::poly_cbd_eta1(&bytes, eta)
    }

    /// Serialize into 384 bytes, 12 bits per coefficient, after reducing
    /// each coefficient to [0, q).
    #[verifier::loop_isolation(false)]
    pub fn to_bytes(&self, out: &mut Vec<u8>)
        requires
            self@.len() == 256,
            coeffs_normal(self@),
            old(out)@.len() == 384,
        ensures
            final(out)@ == poly_to_bytes_spec(self@),
    {
        let ghost spec_out = poly_to_bytes_spec(self@);
        let mut i: usize = 0;
        while i < 128
            invariant
                out@.len() == 384,
                0 <= i <= 128,
                forall|j: int| 0 <= j < 3 * i ==> #[trigger] out@[j] == spec_out[j],
            decreases 128 - i,
        {
            let t0: u16 = positive_repr(self.coeffs[2 * i]);
            let t1: u16 = positive_repr(self.coeffs[2 * i + 1]);
            let b0: u8 = t0 as u8;
            let b1: u8 = ((t0 >> 8) | (t1 << 4)) as u8;
            let b2: u8 = (t1 >> 4) as u8;
            proof {
                assert(t0 as u8 == t0 % 256 && ((t0 >> 8) | (t1 << 4)) as u8 == t0 / 256 + (t1
                    % 16) * 16 && (t1 >> 4) as u8 == t1 / 16) by (bit_vector)
                    requires
                        0 <= t0 < 3329,
                        0 <= t1 < 3329,
                ;
                assert((3 * i) / 3 == i as int && (3 * i + 1) / 3 == i as int && (3 * i + 2) / 3
                    == i as int && (3 * i) % 3 == 0 && (3 * i + 1) % 3 == 1 && (3 * i + 2) % 3 == 2)
                    by (nonlinear_arith);
            }
            out.set(3 * i, b0);
            out.set(3 * i + 1, b1);
            out.set(3 * i + 2, b2);
            i += 1;
        }
        proof {
            assert(out@ =~= spec_out);
        }
    }

    /// Deserialize 384 bytes into a polynomial with coefficients in
    /// [0, 2^12); values at or above q are accepted and left to later
    /// arithmetic to reduce.
    #[verifier::loop_isolation(false)]
    pub fn from_bytes(input: &Vec<u8>) -> (r: Poly)
        requires
            input@.len() == 384,
        ensures
            r@.len() == 256,
            r@ == poly_from_bytes_spec(input@),
            forall|i: int| 0 <= i < 256 ==> 0 <= #[trigger] r@[i] < 4096,
    {
        let ghost spec_out = poly_from_bytes_spec(input@);
        let mut poly = Poly::zero();
        let mut i: usize = 0;
        while i < 128
            invariant
                poly@.len() == 256,
                0 <= i <= 128,
                forall|k: int| 0 <= k < 2 * i ==> #[trigger] poly@[k] == spec_out[k],
                forall|k: int| 0 <= k < 2 * i ==> 0 <= #[trigger] poly@[k] < 4096,
                forall|k: int| 2 * i <= k < 256 ==> #[trigger] poly@[k] == 0,
            decreases 128 - i,
        {
            let b0: u8 = input[3 * i];
            let b1: u8 = input[3 * i + 1];
            let b2: u8 = input[3 * i + 2];
            let c0: i16 = (b0 as i16) | (((b1 as i16) << 8) & 0xFFF);
            let c1: i16 = ((b1 >> 4) as i16) | (((b2 as i16) << 4) & 0xFFF);
            proof {
                assert((b0 as i16) | (((b1 as i16) << 8) & 0xFFF) == b0 + (b1 % 16) * 256 && ((b1
                    >> 4) as i16) | (((b2 as i16) << 4) & 0xFFF) == b1 / 16 + b2 * 16)
                    by (bit_vector);
                assert((3 * i) / 3 == i as int && (2 * i) / 2 == i as int && (2 * i + 1) / 2
                    == i as int && (2 * i) % 2 == 0 && (2 * i + 1) % 2 == 1) by (nonlinear_arith);
            }
            poly.coeffs.set(2 * i, c0);
            poly.coeffs.set(2 * i + 1, c1);
            i += 1;
        }
        proof {
            assert(poly@ =~= spec_out);
        }
        poly
    }
}

} // verus!
