//! Centered binomial noise: each coefficient is a difference of two
//! small bit sums read from a uniformly random byte string.

use vstd::prelude::*;

verus! {

use crate::poly::Poly;

/// Coefficient k of the eta = 2 distribution: bits 4k and 4k + 1 of the
/// byte string, summed, minus bits 4k + 2 and 4k + 3 summed. Each
/// coefficient lies in [-2, 2].
pub open spec fn cbd2_coeff(b: Seq<u8>, k: int) -> int {
    let t = b[k / 2] as int;
    if k % 2 == 0 {
        (t % 2 + (t / 2) % 2) - ((t / 4) % 2 + (t / 8) % 2)
    } else {
        ((t / 16) % 2 + (t / 32) % 2) - ((t / 64) % 2 + (t / 128) % 2)
    }
}

/// The eta = 2 noise polynomial of a 128-byte string.
pub open spec fn cbd2_spec(b: Seq<u8>) -> Seq<i16> {
    Seq::new(256, |k: int| cbd2_coeff(b, k) as i16)
}

/// Coefficient k of the eta = 3 distribution: bits 6k .. 6k + 2 of the
/// byte string, summed, minus bits 6k + 3 .. 6k + 5 summed, reading the
/// bytes of each 3-byte group little-endian. Each coefficient lies in
/// [-3, 3].
pub open spec fn cbd3_coeff(b: Seq<u8>, k: int) -> int {
    let g = k / 4;
    let t = b[3 * g] as int + b[3 * g + 1] as int * 256 + b[3 * g + 2] as int * 65536;
    let l = k % 4;
    if l == 0 {
        (t % 2 + (t / 2) % 2 + (t / 4) % 2) - ((t / 8) % 2 + (t / 16) % 2 + (t / 32) % 2)
    } else if l == 1 {
        ((t / 64) % 2 + (t / 128) % 2 + (t / 256) % 2) - ((t / 512) % 2 + (t / 1024) % 2 + (t
            / 2048) % 2)
    } else if l == 2 {
        ((t / 4096) % 2 + (t / 8192) % 2 + (t / 16384) % 2) - ((t / 32768) % 2 + (t / 65536) % 2 + (
        t / 131072) % 2)
    } else {
        ((t / 262144) % 2 + (t / 524288) % 2 + (t / 1048576) % 2) - ((t / 2097152) % 2 + (t
            / 4194304) % 2 + (t / 8388608) % 2)
    }
}

/// The eta = 3 noise polynomial of a 192-byte string.
pub open spec fn cbd3_spec(b: Seq<u8>) -> Seq<i16> {
    Seq::new(256, |k: int| cbd3_coeff(b, k) as i16)
}

/// Sample an eta = 2 centered binomial polynomial from 128 uniform
/// bytes; every coefficient lies in [-2, 2].
#[verifier::loop_isolation(false)]
pub fn cbd2(input: &Vec<u8>) -> (r: Poly)
    requires
        input@.len() == 128,
    ensures
        r@.len() == 256,
        r@ == cbd2_spec(input@),
        forall|i: int| 0 <= i < 256 ==> -2 <= #[trigger] r@[i] <= 2,
{
    let ghost spec_out = cbd2_spec(input@);
    let mut poly = Poly::zero();
    let mut j: usize = 0;
    while j < 128
        invariant
            poly@.len() == 256,
            0 <= j <= 128,
            forall|k: int| 0 <= k < 2 * j ==> #[trigger] poly@[k] == spec_out[k],
            forall|k: int| 0 <= k < 2 * j ==> -2 <= #[trigger] poly@[k] <= 2,
        decreases 128 - j,
    {
        let t: u16 = input[j] as u16;
        let c0: i16 = ((t % 2 + (t / 2) % 2) as i16) - (((t / 4) % 2 + (t / 8) % 2) as i16);
        let c1: i16 = (((t / 16) % 2 + (t / 32) % 2) as i16) - (((t / 64) % 2 + (t / 128)
            % 2) as i16);
        proof {
            assert((2 * j) / 2 == j as int && (2 * j + 1) / 2 == j as int && (2 * j) % 2 == 0 && (2
                * j + 1) % 2 == 1) by (nonlinear_arith);
        }
        poly.coeffs.set(2 * j, c0);
        poly.coeffs.set(2 * j + 1, c1);
        j += 1;
    }
    proof {
        assert(poly@ =~= spec_out);
    }
    poly
}

/// Sample an eta = 3 centered binomial polynomial from 192 uniform
/// bytes; every coefficient lies in [-3, 3].
#[verifier::loop_isolation(false)]
pub fn cbd3(input: &Vec<u8>) -> (r: Poly)
    requires
        input@.len() == 192,
    ensures
        r@.len() == 256,
        r@ == cbd3_spec(input@),
        forall|i: int| 0 <= i < 256 ==> -3 <= #[trigger] r@[i] <= 3,
{
    let ghost spec_out = cbd3_spec(input@);
    let mut poly = Poly::zero();
    let mut g: usize = 0;
    while g < 64
        invariant
            poly@.len() == 256,
            0 <= g <= 64,
            forall|k: int| 0 <= k < 4 * g ==> #[trigger] poly@[k] == spec_out[k],
            forall|k: int| 0 <= k < 4 * g ==> -3 <= #[trigger] poly@[k] <= 3,
        decreases 64 - g,
    {
        let t: u32 = input[3 * g] as u32 + (input[3 * g + 1] as u32) * 256 + (input[3 * g
            + 2] as u32) * 65536;
        let c0: i16 = ((t % 2 + (t / 2) % 2 + (t / 4) % 2) as i16) - (((t / 8) % 2 + (t / 16) % 2
            + (t / 32) % 2) as i16);
        let c1: i16 = (((t / 64) % 2 + (t / 128) % 2 + (t / 256) % 2) as i16) - (((t / 512) % 2 + (
        t / 1024) % 2 + (t / 2048) % 2) as i16);
        let c2: i16 = (((t / 4096) % 2 + (t / 8192) % 2 + (t / 16384) % 2) as i16) - (((t / 32768)
            % 2 + (t / 65536) % 2 + (t / 131072) % 2) as i16);
        let c3: i16 = (((t / 262144) % 2 + (t / 524288) % 2 + (t / 1048576) % 2) as i16) - (((t
            / 2097152) % 2 + (t / 4194304) % 2 + (t / 8388608) % 2) as i16);
        proof {
            assert((4 * g) / 4 == g as int && (4 * g + 1) / 4 == g as int && (4 * g + 2) / 4
                == g as int && (4 * g + 3) / 4 == g as int && (4 * g) % 4 == 0 && (4 * g + 1) % 4
                == 1 && (4 * g + 2) % 4 == 2 && (4 * g + 3) % 4 == 3) by (nonlinear_arith);
        }
        poly.coeffs.set(4 * g, c0);
        poly.coeffs.set(4 * g + 1, c1);
        poly.coeffs.set(4 * g + 2, c2);
        poly.coeffs.set(4 * g + 3, c3);
        g += 1;
    }
    proof {
        assert(poly@ =~= spec_out);
    }
    poly
}

/// The noise polynomial drawn for a given eta: by the eta = 3
/// distribution for K = 2's first noise, else by eta = 2.
pub fn poly_cbd_eta1(input: &Vec<u8>, eta: usize) -> (r: Poly)
    requires
        eta == 2 || eta == 3,
        input@.len() == eta * 64,
    ensures
        r@.len() == 256,
        eta == 2 ==> r@ == cbd2_spec(input@),
        eta == 3 ==> r@ == cbd3_spec(input@),
        forall|i: int| 0 <= i < 256 ==> -3 <= #[trigger] r@[i] <= 3,
{
    if eta == 3 {
        cbd3(input)
    } else {
        cbd2(input)
    }
}

} // verus!
