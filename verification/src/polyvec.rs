//! Length-K vectors of polynomials: elementwise arithmetic, the packed
//! serialization, the 10/11-bit ciphertext codecs, and the pointwise
//! inner product in the NTT domain.

use vstd::prelude::*;

verus! {

use crate::ntt::{
    basemul, basemul_spec0, basemul_spec1, invntt_spec, lemma_zetas_bounded, ntt_spec, to_ints,
    zeta_bounded, ZETAS,
};
use crate::poly::{coeffs_normal, poly_from_bytes_spec, poly_to_bytes_spec, Poly};
use crate::reduce::{barrett_reduce, barrett_reduce_spec};

/// A vector of K polynomials, K in {2, 3, 4}.
#[derive(Debug)]
pub struct PolyVec {
    pub vec: Vec<Poly>,
}

impl View for PolyVec {
    type V = Seq<Seq<i16>>;

    open spec fn view(&self) -> Seq<Seq<i16>> {
        Seq::new(self.vec@.len(), |i: int| self.vec@[i]@)
    }
}


impl PartialEq for PolyVec {
    /// Two vectors are equal when they hold equal polynomials in order.
    fn eq(&self, other: &PolyVec) -> (r: bool) {
        if self.vec.len() != other.vec.len() {
            proof {
                assert(self@.len() != other@.len());
            }
            return false;
        }
        let mut i: usize = 0;
        while i < self.vec.len()
            invariant
                0 <= i <= self.vec@.len(),
                self.vec@.len() == other.vec@.len(),
                forall|t: int| 0 <= t < i ==> self.vec@[t]@ == other.vec@[t]@,
            decreases self.vec@.len() - i,
        {
            if !(self.vec[i] == other.vec[i]) {
                proof {
                    assert(self.vec@[i as int]@ != other.vec@[i as int]@);
                    assert(self@[i as int] == self.vec@[i as int]@);
                    assert(other@[i as int] == other.vec@[i as int]@);
                    assert(self@[i as int] != other@[i as int]);
                }
                return false;
            }
            i += 1;
        }
        proof {
            assert forall|t: int| 0 <= t < self@.len() implies self@[t] == other@[t] by {
                assert(self.vec@[t]@ == other.vec@[t]@);
            }
            assert(self@ =~= other@);
        }
        true
    }
}

impl vstd::std_specs::cmp::PartialEqSpecImpl for PolyVec {
    open spec fn obeys_eq_spec() -> bool {
        true
    }

    open spec fn eq_spec(&self, other: &PolyVec) -> bool {
        self@ == other@
    }
}

/// A well-formed vector of k polynomials of 256 coefficients each.
pub open spec fn polyvec_wf(v: PolyVec, k: int) -> bool {
    &&& v@.len() == k
    &&& forall|i: int| 0 <= i < k ==> #[trigger] v@[i].len() == 256
}

/// The concatenation of the packed encodings of the k polynomials.
pub open spec fn polyvec_to_bytes_spec(v: Seq<Seq<i16>>) -> Seq<u8> {
    Seq::new(v.len() * 384, |j: int| poly_to_bytes_spec(v[j / 384])[j % 384])
}

/// The decoding of k consecutive 384-byte packed polynomials.
pub open spec fn polyvec_from_bytes_spec(b: Seq<u8>, k: int) -> Seq<Seq<i16>> {
    Seq::new(k as nat, |i: int| poly_from_bytes_spec(b.subrange(384 * i, 384 * i + 384)))
}

impl PolyVec {
    /// A vector of k zero polynomials.
    pub fn zero(k: usize) -> (r: PolyVec)
        requires
            2 <= k <= 4,
        ensures
            polyvec_wf(r, k as int),
            forall|i: int, j: int| 0 <= i < k && 0 <= j < 256 ==> r@[i][j] == 0,
    {
        let mut vec: Vec<Poly> = Vec::new();
        let mut i: usize = 0;
        while i < k
            invariant
                vec@.len() == i,
                0 <= i <= k,
                forall|t: int| 0 <= t < i ==> #[trigger] vec@[t]@.len() == 256,
                forall|t: int, j: int| 0 <= t < i && 0 <= j < 256 ==> #[trigger] vec@[t]@[j] == 0,
            decreases k - i,
        {
            vec.push(Poly::zero());
            i += 1;
        }
        PolyVec { vec }
    }

    /// Serialize the k polynomials into k * 384 bytes, in index order.
    #[verifier::loop_isolation(false)]
    pub fn to_bytes(&self, out: &mut Vec<u8>)
        requires
            2 <= self@.len() <= 4,
            polyvec_wf(*self, self@.len() as int),
            forall|i: int| 0 <= i < self@.len() ==> coeffs_normal(#[trigger] self@[i]),
            old(out)@.len() == self@.len() * 384,
        ensures
            final(out)@ == polyvec_to_bytes_spec(self@),
    {
        let ghost spec_out = polyvec_to_bytes_spec(self@);
        let k = self.vec.len();
        let mut i: usize = 0;
        while i < k
            invariant
                out@.len() == k * 384,
                0 <= i <= k,
                forall|j: int| 0 <= j < 384 * i ==> #[trigger] out@[j] == spec_out[j],
            decreases k - i,
        {
            let mut tmp: Vec<u8> = Vec::new();
            let mut t: usize = 0;
            while t < 384
                invariant
                    tmp@.len() == t,
                    0 <= t <= 384,
                decreases 384 - t,
            {
                tmp.push(0);
                t += 1;
            }
            proof {
                assert(384 * i + 384 <= 384 * k) by (nonlinear_arith)
                    requires
                        i < k,
                ;
            }
            proof {
                assert(self@[i as int] == self.vec@[i as int]@);
                assert(coeffs_normal(self@[i as int]));
            }
            self.vec[i].to_bytes(&mut tmp);
            let mut j: usize = 0;
            while j < 384
                invariant
                    out@.len() == k * 384,
                    0 <= j <= 384,
                    i < k,
                    tmp@ == poly_to_bytes_spec(self@[i as int]),
                    forall|l: int| 0 <= l < 384 * i + j ==> #[trigger] out@[l] == spec_out[l],
                decreases 384 - j,
            {
                proof {
                    assert((384 * i + j) / 384 == i as int && (384 * i + j) % 384 == j as int)
                        by (nonlinear_arith)
                        requires
                            0 <= j < 384,
                            0 <= i,
                    ;
                }
                out.set(384 * i + j, tmp[j]);
                j += 1;
            }
            i += 1;
        }
        proof {
            assert(out@ =~= spec_out);
        }
    }

    /// Deserialize k * 384 bytes into a vector of k polynomials.
    #[verifier::loop_isolation(false)]
    pub fn from_bytes(input: &Vec<u8>, k: usize) -> (r: PolyVec)
        requires
            2 <= k <= 4,
            input@.len() == k * 384,
        ensures
            polyvec_wf(r, k as int),
            r@ == polyvec_from_bytes_spec(input@, k as int),
            forall|i: int, j: int| 0 <= i < k && 0 <= j < 256 ==> 0 <= #[trigger] r@[i][j] < 4096,
    {
        let ghost spec_out = polyvec_from_bytes_spec(input@, k as int);
        let mut vec: Vec<Poly> = Vec::new();
        let mut i: usize = 0;
        while i < k
            invariant
                vec@.len() == i,
                0 <= i <= k,
                forall|t: int| 0 <= t < i ==> #[trigger] vec@[t]@ == spec_out[t],
                forall|t: int, j: int| 0 <= t < i && 0 <= j < 256 ==> 0 <= #[trigger] vec@[t]@[j] < 4096,
            decreases k - i,
        {
            let mut chunk: Vec<u8> = Vec::new();
            let mut j: usize = 0;
            while j < 384
                invariant
                    chunk@.len() == j,
                    0 <= j <= 384,
                    i < k,
                    forall|l: int| 0 <= l < j ==> #[trigger] chunk@[l] == input@[384 * i + l],
                decreases 384 - j,
            {
                chunk.push(input[384 * i + j]);
                j += 1;
            }
            proof {
                assert(chunk@ =~= input@.subrange(384 * (i as int), 384 * (i as int) + 384));
            }
            vec.push(Poly::from_bytes(&chunk));
            i += 1;
        }
        let r = PolyVec { vec };
        proof {
            assert(r@ =~= spec_out);
        }
        r
    }

    /// Elementwise sum of two vectors, without reduction.
    pub fn add(&self, rhs: &PolyVec) -> (r: PolyVec)
        requires
            2 <= self@.len() <= 4,
            polyvec_wf(*self, self@.len() as int),
            polyvec_wf(*rhs, self@.len() as int),
            forall|i: int, j: int|
                0 <= i < self@.len() && 0 <= j < 256 ==> -32768 <= #[trigger] (self@[i][j]
                    + rhs@[i][j]) <= 32767,
        ensures
            polyvec_wf(r, self@.len() as int),
            forall|i: int, j: int|
                0 <= i < self@.len() && 0 <= j < 256 ==> #[trigger] r@[i][j] == self@[i][j]
                    + rhs@[i][j],
    {
        let k = self.vec.len();
        let mut vec: Vec<Poly> = Vec::new();
        let mut i: usize = 0;
        while i < k
            invariant
                vec@.len() == i,
                0 <= i <= k,
                k == self@.len(),
                polyvec_wf(*self, k as int),
                polyvec_wf(*rhs, k as int),
                forall|t: int, j: int|
                    0 <= t < k && 0 <= j < 256 ==> -32768 <= #[trigger] (self@[t][j] + rhs@[t][j])
                        <= 32767,
                forall|t: int| 0 <= t < i ==> #[trigger] vec@[t]@.len() == 256,
                forall|t: int, j: int|
                    0 <= t < i && 0 <= j < 256 ==> #[trigger] vec@[t]@[j] == self@[t][j] + rhs@[t][j],
            decreases k - i,
        {
            proof {
                assert(self@[i as int] == self.vec@[i as int]@);
                assert(rhs@[i as int] == rhs.vec@[i as int]@);
            }
            vec.push(self.vec[i].add(&rhs.vec[i]));
            i += 1;
        }
        PolyVec { vec }
    }

    /// Forward NTT of every polynomial in the vector, in place.
    pub fn ntt(&mut self)
        requires
            2 <= old(self)@.len() <= 4,
            polyvec_wf(*old(self), old(self)@.len() as int),
            forall|i: int, j: int|
                0 <= i < old(self)@.len() && 0 <= j < 256 ==> -9464 <= #[trigger] old(self)@[i][j] <= 9464,
        ensures
            polyvec_wf(*final(self), old(self)@.len() as int),
            forall|i: int|
                0 <= i < old(self)@.len() ==> to_ints(#[trigger] final(self)@[i]) == ntt_spec(
                    to_ints(old(self)@[i]),
                ),
            forall|i: int, j: int|
                0 <= i < old(self)@.len() && 0 <= j < 256 ==> -32767 <= #[trigger] final(self)@[i][j] <= 32767,
    {
        let k = self.vec.len();
        let mut out: Vec<Poly> = Vec::new();
        let mut i: usize = 0;
        while i < k
            invariant
                self@ == old(self)@.skip(i as int),
                out@.len() == i,
                0 <= i <= k,
                k - i == self.vec.len(),
                i + self@.len() == k,
                polyvec_wf(*old(self), k as int),
                forall|t: int, j: int|
                    0 <= t < k && 0 <= j < 256 ==> -9464 <= #[trigger] old(self)@[t][j] <= 9464,
                forall|t: int| 0 <= t < i ==> #[trigger] out@[t]@.len() == 256,
                forall|t: int|
                    0 <= t < i ==> to_ints(#[trigger] out@[t]@) == ntt_spec(to_ints(old(self)@[t])),
                forall|t: int, j: int| 0 <= t < i && 0 <= j < 256 ==> -32767 <= #[trigger] out@[t]@[j] <= 32767,
            decreases k - i,
        {
            let ghost prev = self@;
            let ghost prevec = self.vec@;
            let mut p = self.vec.remove(0);
            proof {
                assert(prev[0] == old(self)@[i as int]);
                assert(p@ == old(self)@[i as int]);
                assert forall|l: int| 0 <= l < self@.len() implies self@[l] == old(self)@[i + 1
                    + l] by {
                    assert(self.vec@[l] == prevec.subrange(1, prevec.len() as int)[l]);
                    assert(self.vec@[l] == prevec[l + 1]);
                    assert(self@[l] == prev[l + 1]);
                }
                assert(self@ =~= old(self)@.skip(i as int + 1));
            }
            p.ntt();
            out.push(p);
            i += 1;
        }
        self.vec = out;
    }

    /// Inverse NTT of every polynomial in the vector, in place.
    pub fn invntt(&mut self)
        requires
            2 <= old(self)@.len() <= 4,
            polyvec_wf(*old(self), old(self)@.len() as int),
            forall|i: int, j: int|
                0 <= i < old(self)@.len() && 0 <= j < 256 ==> -16383 <= #[trigger] old(self)@[i][j] <= 16383,
        ensures
            polyvec_wf(*final(self), old(self)@.len() as int),
            forall|i: int|
                0 <= i < old(self)@.len() ==> to_ints(#[trigger] final(self)@[i]) == invntt_spec(
                    to_ints(old(self)@[i]),
                ),
            forall|i: int, j: int|
                0 <= i < old(self)@.len() && 0 <= j < 256 ==> -3329 <= #[trigger] final(self)@[i][j] <= 3329,
    {
        let k = self.vec.len();
        let mut out: Vec<Poly> = Vec::new();
        let mut i: usize = 0;
        while i < k
            invariant
                self@ == old(self)@.skip(i as int),
                out@.len() == i,
                0 <= i <= k,
                k - i == self.vec.len(),
                polyvec_wf(*old(self), k as int),
                forall|t: int, j: int|
                    0 <= t < k && 0 <= j < 256 ==> -16383 <= #[trigger] old(self)@[t][j] <= 16383,
                forall|t: int| 0 <= t < i ==> #[trigger] out@[t]@.len() == 256,
                forall|t: int|
                    0 <= t < i ==> to_ints(#[trigger] out@[t]@) == invntt_spec(
                        to_ints(old(self)@[t]),
                    ),
                forall|t: int, j: int| 0 <= t < i && 0 <= j < 256 ==> -3329 <= #[trigger] out@[t]@[j] <= 3329,
            decreases k - i,
        {
            let ghost prev = self@;
            let ghost prevec = self.vec@;
            let mut p = self.vec.remove(0);
            proof {
                assert(prev[0] == old(self)@[i as int]);
                assert(p@ == old(self)@[i as int]);
                assert forall|l: int| 0 <= l < self@.len() implies self@[l] == old(self)@[i + 1
                    + l] by {
                    assert(self.vec@[l] == prevec.subrange(1, prevec.len() as int)[l]);
                    assert(self.vec@[l] == prevec[l + 1]);
                    assert(self@[l] == prev[l + 1]);
                }
                assert(self@ =~= old(self)@.skip(i as int + 1));
            }
            p.invntt();
            out.push(p);
            i += 1;
        }
        self.vec = out;
    }

    /// Compress and pack the vector: 10 bits per coefficient (320 bytes
    /// per polynomial) for K in {2, 3}, 11 bits (352 bytes per
    /// polynomial) for K = 4.
    #[verifier::loop_isolation(false)]
    #[verifier::rlimit(60)]
    pub fn compress_into(&self, out: &mut Vec<u8>)
        requires
            2 <= self@.len() <= 4,
            polyvec_wf(*self, self@.len() as int),
            forall|i: int| 0 <= i < self@.len() ==> coeffs_normal(#[trigger] self@[i]),
            self@.len() == 4 ==> old(out)@.len() == 4 * 352,
            self@.len() < 4 ==> old(out)@.len() == self@.len() * 320,
        ensures
            final(out)@.len() == old(out)@.len(),
            self@.len() == 4 ==> final(out)@ == polyvec_compress11_spec(self@),
            self@.len() < 4 ==> final(out)@ == polyvec_compress10_spec(self@),
    {
        let k = self.vec.len();
        if k == 4 {
            let ghost spec_out = polyvec_compress11_spec(self@);
            let mut p: usize = 0;
            while p < k
                invariant
                    out@.len() == k * 352,
                    0 <= p <= k,
                    forall|l: int| 0 <= l < 352 * p ==> #[trigger] out@[l] == spec_out[l],
                decreases k - p,
            {
                let mut g: usize = 0;
                while g < 32
                    invariant
                        out@.len() == k * 352,
                        0 <= g <= 32,
                        p < k,
                        forall|l: int| 0 <= l < 352 * p + 11 * g ==> #[trigger] out@[l] == spec_out[l],
                    decreases 32 - g,
                {
                    proof {
                        assert(self@[p as int] == self.vec@[p as int]@);
                        assert(coeffs_normal(self@[p as int]));
                        assert(352 * p + 11 * g + 11 <= 352 * k) by (nonlinear_arith)
                            requires
                                p < k,
                                g < 32,
                        ;
                    }
                    let t0: u32 = ((crate::poly::positive_repr(self.vec[p].coeffs[8 * g]) as u32
                        * 2048 + 1664) / 3329) % 2048;
                    let t1: u32 = ((crate::poly::positive_repr(self.vec[p].coeffs[8 * g + 1]) as u32
                        * 2048 + 1664) / 3329) % 2048;
                    let t2: u32 = ((crate::poly::positive_repr(self.vec[p].coeffs[8 * g + 2]) as u32
                        * 2048 + 1664) / 3329) % 2048;
                    let t3: u32 = ((crate::poly::positive_repr(self.vec[p].coeffs[8 * g + 3]) as u32
                        * 2048 + 1664) / 3329) % 2048;
                    let t4: u32 = ((crate::poly::positive_repr(self.vec[p].coeffs[8 * g + 4]) as u32
                        * 2048 + 1664) / 3329) % 2048;
                    let t5: u32 = ((crate::poly::positive_repr(self.vec[p].coeffs[8 * g + 5]) as u32
                        * 2048 + 1664) / 3329) % 2048;
                    let t6: u32 = ((crate::poly::positive_repr(self.vec[p].coeffs[8 * g + 6]) as u32
                        * 2048 + 1664) / 3329) % 2048;
                    let t7: u32 = ((crate::poly::positive_repr(self.vec[p].coeffs[8 * g + 7]) as u32
                        * 2048 + 1664) / 3329) % 2048;
                    let o: usize = 352 * p + 11 * g;
                    proof {
                        assert forall|m: int| 0 <= m < 11 implies #[trigger] ((o + m) / 352) == p as int && ((o
                            + m) % 352) / 11 == g as int && ((o + m) % 352) % 11 == m by {
                            assert((352 * p + (11 * g + m)) / 352 == p as int && (352 * p + (11 * g
                                + m)) % 352 == 11 * g + m && (11 * g + m) / 11 == g as int && (11
                                * g + m) % 11 == m) by (nonlinear_arith)
                                requires
                                    0 <= m < 11,
                                    0 <= g < 32,
                                    0 <= p,
                            ;
                        }
                        assert((8 * g) / 8 == g as int) by (nonlinear_arith);
                    }
                    out.set(o, (t0 % 256) as u8);
                    out.set(o + 1, (t0 / 256 + (t1 % 32) * 8) as u8);
                    out.set(o + 2, (t1 / 32 + (t2 % 4) * 64) as u8);
                    out.set(o + 3, ((t2 / 4) % 256) as u8);
                    out.set(o + 4, (t2 / 1024 + (t3 % 128) * 2) as u8);
                    out.set(o + 5, (t3 / 128 + (t4 % 16) * 16) as u8);
                    out.set(o + 6, (t4 / 16 + (t5 % 2) * 128) as u8);
                    out.set(o + 7, ((t5 / 2) % 256) as u8);
                    out.set(o + 8, (t5 / 512 + (t6 % 64) * 4) as u8);
                    out.set(o + 9, (t6 / 64 + (t7 % 8) * 32) as u8);
                    out.set(o + 10, (t7 / 8) as u8);
                    g += 1;
                }
                p += 1;
            }
            proof {
                assert(out@ =~= spec_out);
            }
        } else {
            let ghost spec_out = polyvec_compress10_spec(self@);
            let mut p: usize = 0;
            while p < k
                invariant
                    out@.len() == k * 320,
                    0 <= p <= k,
                    forall|l: int| 0 <= l < 320 * p ==> #[trigger] out@[l] == spec_out[l],
                decreases k - p,
            {
                let mut g: usize = 0;
                while g < 64
                    invariant
                        out@.len() == k * 320,
                        0 <= g <= 64,
                        p < k,
                        forall|l: int| 0 <= l < 320 * p + 5 * g ==> #[trigger] out@[l] == spec_out[l],
                    decreases 64 - g,
                {
                    proof {
                        assert(self@[p as int] == self.vec@[p as int]@);
                        assert(coeffs_normal(self@[p as int]));
                        assert(320 * p + 5 * g + 5 <= 320 * k) by (nonlinear_arith)
                            requires
                                p < k,
                                g < 64,
                        ;
                    }
                    let t0: u32 = ((crate::poly::positive_repr(self.vec[p].coeffs[4 * g]) as u32
                        * 1024 + 1664) / 3329) % 1024;
                    let t1: u32 = ((crate::poly::positive_repr(self.vec[p].coeffs[4 * g + 1]) as u32
                        * 1024 + 1664) / 3329) % 1024;
                    let t2: u32 = ((crate::poly::positive_repr(self.vec[p].coeffs[4 * g + 2]) as u32
                        * 1024 + 1664) / 3329) % 1024;
                    let t3: u32 = ((crate::poly::positive_repr(self.vec[p].coeffs[4 * g + 3]) as u32
                        * 1024 + 1664) / 3329) % 1024;
                    let o: usize = 320 * p + 5 * g;
                    proof {
                        assert forall|m: int| 0 <= m < 5 implies #[trigger] ((o + m) / 320) == p as int && ((o
                            + m) % 320) / 5 == g as int && ((o + m) % 320) % 5 == m by {
                            assert((320 * p + (5 * g + m)) / 320 == p as int && (320 * p + (5 * g
                                + m)) % 320 == 5 * g + m && (5 * g + m) / 5 == g as int && (5 * g
                                + m) % 5 == m) by (nonlinear_arith)
                                requires
                                    0 <= m < 5,
                                    0 <= g < 64,
                                    0 <= p,
                            ;
                        }
                        assert((4 * g) / 4 == g as int) by (nonlinear_arith);
                    }
                    out.set(o, (t0 % 256) as u8);
                    out.set(o + 1, (t0 / 256 + (t1 % 64) * 4) as u8);
                    out.set(o + 2, (t1 / 64 + (t2 % 16) * 16) as u8);
                    out.set(o + 3, (t2 / 16 + (t3 % 4) * 64) as u8);
                    out.set(o + 4, (t3 / 4) as u8);
                    g += 1;
                }
                p += 1;
            }
            proof {
                assert(out@ =~= spec_out);
            }
        }
    }

    /// Unpack and decompress k polynomials from the 10-bit (k in {2, 3})
    /// or 11-bit (k = 4) ciphertext codec; every coefficient of the
    /// result lies in [0, q).
    #[verifier::loop_isolation(false)]
    #[verifier::rlimit(100)]
    #[verifier::spinoff_prover]
    pub fn decompress(buf: &Vec<u8>, k: usize) -> (r: PolyVec)
        requires
            2 <= k <= 4,
            k == 4 ==> buf@.len() == 4 * 352,
            k < 4 ==> buf@.len() == k * 320,
        ensures
            polyvec_wf(r, k as int),
            k == 4 ==> r@ == polyvec_decompress11_spec(buf@, k as int),
            k < 4 ==> r@ == polyvec_decompress10_spec(buf@, k as int),
            forall|i: int, j: int| 0 <= i < k && 0 <= j < 256 ==> 0 <= #[trigger] r@[i][j] < 3329,
    {
        let mut rv = PolyVec::zero(k);
        if k == 4 {
            let ghost spec_out = polyvec_decompress11_spec(buf@, k as int);
            let mut p: usize = 0;
            while p < k
                invariant
                    polyvec_wf(rv, k as int),
                    0 <= p <= k,
                    forall|t: int| 0 <= t < p ==> #[trigger] rv@[t] == spec_out[t],
                    forall|t: int, j: int|
                        0 <= t < p && 0 <= j < 256 ==> 0 <= #[trigger] rv@[t][j] < 3329,
                decreases k - p,
            {
                let mut poly = Poly::zero();
                let mut g: usize = 0;
                while g < 32
                    invariant
                        poly@.len() == 256,
                        0 <= g <= 32,
                        p < k,
                        forall|j: int| 0 <= j < 8 * g ==> #[trigger] poly@[j] == spec_out[p as int][j],
                        forall|j: int| 0 <= j < 8 * g ==> 0 <= #[trigger] poly@[j] < 3329,
                    decreases 32 - g,
                {
                    let o: usize = 352 * p + 11 * g;
                    proof {
                        assert(352 * p + 11 * g + 11 <= 352 * k) by (nonlinear_arith)
                            requires
                                p < k,
                                g < 32,
                        ;
                        assert forall|m: int| 0 <= m < 8 implies #[trigger] ((8 * g + m) / 8) == g as int && (8
                            * g + m) % 8 == m by {
                            assert((8 * g + m) / 8 == g as int && (8 * g + m) % 8 == m)
                                by (nonlinear_arith)
                                requires
                                    0 <= m < 8,
                                    0 <= g,
                            ;
                        }
                    }
                    let b0: u32 = buf[o] as u32;
                    let b1: u32 = buf[o + 1] as u32;
                    let b2: u32 = buf[o + 2] as u32;
                    let b3: u32 = buf[o + 3] as u32;
                    let b4: u32 = buf[o + 4] as u32;
                    let b5: u32 = buf[o + 5] as u32;
                    let b6: u32 = buf[o + 6] as u32;
                    let b7: u32 = buf[o + 7] as u32;
                    let b8: u32 = buf[o + 8] as u32;
                    let b9: u32 = buf[o + 9] as u32;
                    let b10: u32 = buf[o + 10] as u32;
                    poly.coeffs.set(8 * g, ((((b0 + b1 * 256) % 2048) * 3329 + 1024) / 2048) as i16);
                    poly.coeffs.set(
                        8 * g + 1,
                        ((((b1 / 8 + b2 * 32) % 2048) * 3329 + 1024) / 2048) as i16,
                    );
                    poly.coeffs.set(
                        8 * g + 2,
                        ((((b2 / 64 + b3 * 4 + b4 * 1024) % 2048) * 3329 + 1024) / 2048) as i16,
                    );
                    poly.coeffs.set(
                        8 * g + 3,
                        ((((b4 / 2 + b5 * 128) % 2048) * 3329 + 1024) / 2048) as i16,
                    );
                    poly.coeffs.set(
                        8 * g + 4,
                        ((((b5 / 16 + b6 * 16) % 2048) * 3329 + 1024) / 2048) as i16,
                    );
                    poly.coeffs.set(
                        8 * g + 5,
                        ((((b6 / 128 + b7 * 2 + b8 * 512) % 2048) * 3329 + 1024) / 2048) as i16,
                    );
                    poly.coeffs.set(
                        8 * g + 6,
                        ((((b8 / 4 + b9 * 64) % 2048) * 3329 + 1024) / 2048) as i16,
                    );
                    poly.coeffs.set(
                        8 * g + 7,
                        ((((b9 / 32 + b10 * 8) % 2048) * 3329 + 1024) / 2048) as i16,
                    );
                    g += 1;
                }
                proof {
                    assert(poly@ =~= spec_out[p as int]);
                }
                let ghost oldview = rv@;
                rv.vec.set(p, poly);
                proof {
                    assert(rv@[p as int] == spec_out[p as int]);
                    assert forall|t: int| 0 <= t < k && t != p implies rv@[t] == oldview[t] by {
                        assert(rv.vec@[t] == rv.vec@[t]);
                    }
                    assert(rv@.len() == k);
                    assert(rv@[p as int].len() == 256);
                    assert forall|t: int| 0 <= t < k implies #[trigger] rv@[t].len() == 256 by {
                        if t != p {
                            assert(rv@[t] == oldview[t]);
                        }
                    }
                    assert(polyvec_wf(rv, k as int));
                    assert forall|t: int, j: int| 0 <= t <= p && 0 <= j < 256 implies 0
                        <= #[trigger] rv@[t][j] < 3329 by {
                        if t != p {
                            assert(rv@[t] == oldview[t]);
                            assert(0 <= oldview[t][j] < 3329);
                        }
                    }
                    assert forall|t: int| 0 <= t <= p implies #[trigger] rv@[t] == spec_out[t] by {
                        if t != p {
                            assert(rv@[t] == oldview[t]);
                            assert(oldview[t] == spec_out[t]);
                        }
                    }
                }
                p += 1;
            }
            proof {
                assert(rv@ =~= spec_out);
            }
        } else {
            let ghost spec_out = polyvec_decompress10_spec(buf@, k as int);
            let mut p: usize = 0;
            while p < k
                invariant
                    polyvec_wf(rv, k as int),
                    0 <= p <= k,
                    k < 4,
                    forall|t: int| 0 <= t < p ==> #[trigger] rv@[t] == spec_out[t],
                    forall|t: int, j: int|
                        0 <= t < p && 0 <= j < 256 ==> 0 <= #[trigger] rv@[t][j] < 3329,
                decreases k - p,
            {
                let mut poly = Poly::zero();
                let mut g: usize = 0;
                while g < 64
                    invariant
                        poly@.len() == 256,
                        0 <= g <= 64,
                        p < k,
                        forall|j: int| 0 <= j < 4 * g ==> #[trigger] poly@[j] == spec_out[p as int][j],
                        forall|j: int| 0 <= j < 4 * g ==> 0 <= #[trigger] poly@[j] < 3329,
                    decreases 64 - g,
                {
                    let o: usize = 320 * p + 5 * g;
                    proof {
                        assert(320 * p + 5 * g + 5 <= 320 * k) by (nonlinear_arith)
                            requires
                                p < k,
                                g < 64,
                        ;
                        assert forall|m: int| 0 <= m < 4 implies #[trigger] ((4 * g + m) / 4) == g as int && (4
                            * g + m) % 4 == m by {
                            assert((4 * g + m) / 4 == g as int && (4 * g + m) % 4 == m)
                                by (nonlinear_arith)
                                requires
                                    0 <= m < 4,
                                    0 <= g,
                            ;
                        }
                    }
                    let b0: u32 = buf[o] as u32;
                    let b1: u32 = buf[o + 1] as u32;
                    let b2: u32 = buf[o + 2] as u32;
                    let b3: u32 = buf[o + 3] as u32;
                    let b4: u32 = buf[o + 4] as u32;
                    poly.coeffs.set(4 * g, ((((b0 + b1 * 256) % 1024) * 3329 + 512) / 1024) as i16);
                    poly.coeffs.set(
                        4 * g + 1,
                        ((((b1 / 4 + b2 * 64) % 1024) * 3329 + 512) / 1024) as i16,
                    );
                    poly.coeffs.set(
                        4 * g + 2,
                        ((((b2 / 16 + b3 * 16) % 1024) * 3329 + 512) / 1024) as i16,
                    );
                    poly.coeffs.set(
                        4 * g + 3,
                        ((((b3 / 64 + b4 * 4) % 1024) * 3329 + 512) / 1024) as i16,
                    );
                    g += 1;
                }
                proof {
                    assert(poly@ =~= spec_out[p as int]);
                }
                let ghost oldview = rv@;
                rv.vec.set(p, poly);
                proof {
                    assert(rv@[p as int] == spec_out[p as int]);
                    assert forall|t: int| 0 <= t < k && t != p implies rv@[t] == oldview[t] by {
                        assert(rv.vec@[t] == rv.vec@[t]);
                    }
                    assert(rv@.len() == k);
                    assert(rv@[p as int].len() == 256);
                    assert forall|t: int| 0 <= t < k implies #[trigger] rv@[t].len() == 256 by {
                        if t != p {
                            assert(rv@[t] == oldview[t]);
                        }
                    }
                    assert(polyvec_wf(rv, k as int));
                    assert forall|t: int, j: int| 0 <= t <= p && 0 <= j < 256 implies 0
                        <= #[trigger] rv@[t][j] < 3329 by {
                        if t != p {
                            assert(rv@[t] == oldview[t]);
                            assert(0 <= oldview[t][j] < 3329);
                        }
                    }
                    assert forall|t: int| 0 <= t <= p implies #[trigger] rv@[t] == spec_out[t] by {
                        if t != p {
                            assert(rv@[t] == oldview[t]);
                            assert(oldview[t] == spec_out[t]);
                        }
                    }
                }
                p += 1;
            }
            proof {
                assert(rv@ =~= spec_out);
            }
        }
        rv
    }


    /// Barrett-reduce every coefficient of every polynomial.
    pub fn reduce(&mut self)
        requires
            polyvec_wf(*old(self), old(self)@.len() as int),
        ensures
            polyvec_wf(*final(self), old(self)@.len() as int),
            final(self)@.len() == old(self)@.len(),
            forall|i: int|
                0 <= i < old(self)@.len() ==> #[trigger] final(self)@[i]
                    == crate::poly::reduced_coeffs(old(self)@[i]),
            forall|i: int, j: int|
                0 <= i < old(self)@.len() && 0 <= j < 256 ==> -1664 <= #[trigger] final(self)@[i][j] <= 1664,
    {
        let k = self.vec.len();
        let mut out: Vec<Poly> = Vec::new();
        let mut i: usize = 0;
        while i < k
            invariant
                self@ == old(self)@.skip(i as int),
                out@.len() == i,
                0 <= i <= k,
                k - i == self.vec.len(),
                polyvec_wf(*old(self), k as int),
                forall|t: int| 0 <= t < i ==> #[trigger] out@[t]@.len() == 256,
                forall|t: int|
                    0 <= t < i ==> #[trigger] out@[t]@ == crate::poly::reduced_coeffs(
                        old(self)@[t],
                    ),
                forall|t: int, j: int|
                    0 <= t < i && 0 <= j < 256 ==> -1664 <= #[trigger] out@[t]@[j] <= 1664,
            decreases k - i,
        {
            let ghost prev = self@;
            let ghost prevec = self.vec@;
            let mut p = self.vec.remove(0);
            proof {
                assert(prev[0] == old(self)@[i as int]);
                assert(p@ == old(self)@[i as int]);
                assert forall|l: int| 0 <= l < self@.len() implies self@[l] == old(self)@[i + 1
                    + l] by {
                    assert(self.vec@[l] == prevec.subrange(1, prevec.len() as int)[l]);
                    assert(self.vec@[l] == prevec[l + 1]);
                    assert(self@[l] == prev[l + 1]);
                }
                assert(self@ =~= old(self)@.skip(i as int + 1));
            }
            p.reduce();
            out.push(p);
            i += 1;
        }
        self.vec = out;
    }

    /// The pointwise product of corresponding degree-one pairs of two
    /// polynomials in the NTT domain.
    #[verifier::loop_isolation(false)]
    #[verifier::rlimit(100)]
    #[verifier::spinoff_prover]
    pub fn basemul_on_poly(a: &Poly, b: &Poly) -> (r: Poly)
        requires
            a@.len() == 256,
            b@.len() == 256,
            forall|i: int| 0 <= i < 256 ==> 0 <= #[trigger] a@[i] < 4096,
            forall|i: int| 0 <= i < 256 ==> -26631 <= #[trigger] b@[i] <= 26631,
        ensures
            r@.len() == 256,
            forall|i: int| 0 <= i < 256 ==> #[trigger] r@[i] as int == basemul_poly_spec(a@, b@)[i],
            forall|i: int| 0 <= i < 256 ==> -6658 <= #[trigger] r@[i] <= 6658,
    {
        proof {
            lemma_zetas_bounded();
        }
        let ghost spec_out = basemul_poly_spec(a@, b@);
        let mut out = Poly::zero();
        let mut blk: usize = 0;
        while blk < 64
            invariant
                out@.len() == 256,
                0 <= blk <= 64,
                forall|i: int| 0 <= i < 4 * blk ==> #[trigger] out@[i] as int == spec_out[i],
                forall|i: int| 0 <= i < 4 * blk ==> -6658 <= #[trigger] out@[i] <= 6658,
            decreases 64 - blk,
        {
            proof {
                assert(zeta_bounded(64 + blk));
                assert forall|m: int| 0 <= m < 4 implies #[trigger] ((4 * blk + m) / 4) == blk as int && (4 * blk
                    + m) % 4 == m && (4 * blk + m) - ((4 * blk + m) % 2) == 4 * blk + (m - m % 2) by {
                    assert((4 * blk + m) / 4 == blk as int && (4 * blk + m) % 4 == m && (4 * blk
                        + m) % 2 == m % 2) by (nonlinear_arith)
                        requires
                            0 <= m < 4,
                            0 <= blk,
                    ;
                }
                assert forall|x: int, y: int|
                    0 <= x < 4096 && -26631 <= y <= 26631 implies -(3329 * 32768) <= #[trigger] (x
                    * y) <= 3329 * 32768 by {
                    assert(-(3329 * 32768) <= x * y <= 3329 * 32768) by (nonlinear_arith)
                        requires
                            0 <= x < 4096,
                            -26631 <= y <= 26631,
                    ;
                }
            }
            let zeta: i16 = ZETAS[64 + blk];
            let r0 = basemul(
                [a.coeffs[4 * blk], a.coeffs[4 * blk + 1]],
                [b.coeffs[4 * blk], b.coeffs[4 * blk + 1]],
                zeta,
            );
            let r1 = basemul(
                [a.coeffs[4 * blk + 2], a.coeffs[4 * blk + 3]],
                [b.coeffs[4 * blk + 2], b.coeffs[4 * blk + 3]],
                -zeta,
            );
            out.coeffs.set(4 * blk, r0[0]);
            out.coeffs.set(4 * blk + 1, r0[1]);
            out.coeffs.set(4 * blk + 2, r1[0]);
            out.coeffs.set(4 * blk + 3, r1[1]);
            blk += 1;
        }
        out
    }

    /// The inner product of this vector and another, both in the NTT
    /// domain: the sum of the pointwise products of corresponding
    /// polynomials, Barrett-reduced at the end.
    #[verifier::loop_isolation(false)]
    pub fn pointwise_acc(&self, other: &PolyVec) -> (r: Poly)
        requires
            2 <= self@.len() <= 4,
            polyvec_wf(*self, self@.len() as int),
            polyvec_wf(*other, self@.len() as int),
            forall|t: int, i: int|
                0 <= t < self@.len() && 0 <= i < 256 ==> 0 <= #[trigger] self@[t][i] < 4096,
            forall|t: int, i: int|
                0 <= t < self@.len() && 0 <= i < 256 ==> -26631 <= #[trigger] other@[t][i] <= 26631,
        ensures
            r@.len() == 256,
            forall|i: int| 0 <= i < 256 ==> #[trigger] r@[i] as int == pointwise_acc_spec(self@, other@)[i],
            forall|i: int| 0 <= i < 256 ==> -1664 <= #[trigger] r@[i] <= 1664,
    {
        proof {
            reveal(pointwise_acc_spec);
        }
        let k = self.vec.len();
        proof {
            assert(self@[0] == self.vec@[0]@);
            assert(other@[0] == other.vec@[0]@);
        }
        let mut acc = PolyVec::basemul_on_poly(&self.vec[0], &other.vec[0]);
        let mut t: usize = 1;
        while t < k
            invariant
                acc@.len() == 256,
                1 <= t <= k,
                forall|i: int|
                    0 <= i < 256 ==> #[trigger] acc@[i] as int == pointwise_acc_prefix(
                        self@,
                        other@,
                        t as int,
                    )[i],
                forall|i: int| 0 <= i < 256 ==> -6658 * t <= #[trigger] acc@[i] <= 6658 * t,
            decreases k - t,
        {
            proof {
                assert(self@[t as int] == self.vec@[t as int]@);
                assert(other@[t as int] == other.vec@[t as int]@);
            }
            let cur = PolyVec::basemul_on_poly(&self.vec[t], &other.vec[t]);
            let ghost prev = acc@;
            acc.add_assign(&cur);
            t += 1;
            proof {
                assert forall|i: int| 0 <= i < 256 implies acc@[i] as int == pointwise_acc_prefix(
                    self@,
                    other@,
                    t as int,
                )[i] by {
                    assert(acc@[i] == prev[i] + cur@[i]);
                }
            }
        }
        let mut out = Poly::zero();
        let mut i: usize = 0;
        while i < 256
            invariant
                out@.len() == 256,
                0 <= i <= 256,
                acc@.len() == 256,
                forall|j: int| 0 <= j < 256 ==> -26632 <= #[trigger] acc@[j] <= 26632,
                forall|j: int|
                    0 <= j < 256 ==> #[trigger] acc@[j] as int == pointwise_acc_prefix(
                        self@,
                        other@,
                        k as int,
                    )[j],
                forall|j: int|
                    0 <= j < i ==> #[trigger] out@[j] as int == pointwise_acc_spec(self@, other@)[j],
                forall|j: int| 0 <= j < i ==> -1664 <= #[trigger] out@[j] <= 1664,
            decreases 256 - i,
        {
            out.coeffs.set(i, barrett_reduce(acc.coeffs[i]));
            i += 1;
        }
        out
    }
}

/// Decoding inverts encoding on every vector whose polynomials have
/// coefficients in [0, q).
pub proof fn lemma_polyvec_bytes_round_trip(v: Seq<Seq<i16>>)
    requires
        2 <= v.len() <= 4,
        forall|i: int| 0 <= i < v.len() ==> (#[trigger] v[i]).len() == 256,
        forall|i: int| 0 <= i < v.len() ==> crate::poly::coeffs_reduced(#[trigger] v[i]),
    ensures
        polyvec_from_bytes_spec(polyvec_to_bytes_spec(v), v.len() as int) == v,
{
    let b = polyvec_to_bytes_spec(v);
    let k = v.len() as int;
    assert forall|i: int| 0 <= i < k implies polyvec_from_bytes_spec(b, k)[i] == v[i] by {
        assert forall|l: int| 0 <= l < 384 implies b.subrange(384 * i, 384 * i + 384)[l]
            == poly_to_bytes_spec(v[i])[l] by {
            assert((384 * i + l) / 384 == i && (384 * i + l) % 384 == l) by (nonlinear_arith)
                requires
                    0 <= l < 384,
                    0 <= i,
            ;
        }
        assert(b.subrange(384 * i, 384 * i + 384) =~= poly_to_bytes_spec(v[i]));
        crate::poly::lemma_poly_bytes_round_trip(v[i]);
    }
    assert(polyvec_from_bytes_spec(b, k) =~= v);
}

/// The five bytes that pack four 10-bit values, in little-endian bit
/// order.
pub open spec fn pack10(t0: int, t1: int, t2: int, t3: int, m: int) -> int {
    if m == 0 {
        t0 % 256
    } else if m == 1 {
        t0 / 256 + (t1 % 64) * 4
    } else if m == 2 {
        t1 / 64 + (t2 % 16) * 16
    } else if m == 3 {
        t2 / 16 + (t3 % 4) * 64
    } else {
        t3 / 4
    }
}

/// The 10-bit value at position l of a five-byte group.
pub open spec fn extract10(b0: int, b1: int, b2: int, b3: int, b4: int, l: int) -> int {
    if l == 0 {
        (b0 + b1 * 256) % 1024
    } else if l == 1 {
        (b1 / 4 + b2 * 64) % 1024
    } else if l == 2 {
        (b2 / 16 + b3 * 16) % 1024
    } else {
        (b3 / 64 + b4 * 4) % 1024
    }
}

/// The eleven bytes that pack eight 11-bit values, in little-endian bit
/// order.
pub open spec fn pack11(t0: int, t1: int, t2: int, t3: int, t4: int, t5: int, t6: int, t7: int, m: int) -> int {
    if m == 0 {
        t0 % 256
    } else if m == 1 {
        t0 / 256 + (t1 % 32) * 8
    } else if m == 2 {
        t1 / 32 + (t2 % 4) * 64
    } else if m == 3 {
        (t2 / 4) % 256
    } else if m == 4 {
        t2 / 1024 + (t3 % 128) * 2
    } else if m == 5 {
        t3 / 128 + (t4 % 16) * 16
    } else if m == 6 {
        t4 / 16 + (t5 % 2) * 128
    } else if m == 7 {
        (t5 / 2) % 256
    } else if m == 8 {
        t5 / 512 + (t6 % 64) * 4
    } else if m == 9 {
        t6 / 64 + (t7 % 8) * 32
    } else {
        t7 / 8
    }
}

/// The 11-bit value at position l of an eleven-byte group.
pub open spec fn extract11(
    b0: int,
    b1: int,
    b2: int,
    b3: int,
    b4: int,
    b5: int,
    b6: int,
    b7: int,
    b8: int,
    b9: int,
    b10: int,
    l: int,
) -> int {
    if l == 0 {
        (b0 + b1 * 256) % 2048
    } else if l == 1 {
        (b1 / 8 + b2 * 32) % 2048
    } else if l == 2 {
        (b2 / 64 + b3 * 4 + b4 * 1024) % 2048
    } else if l == 3 {
        (b4 / 2 + b5 * 128) % 2048
    } else if l == 4 {
        (b5 / 16 + b6 * 16) % 2048
    } else if l == 5 {
        (b6 / 128 + b7 * 2 + b8 * 512) % 2048
    } else if l == 6 {
        (b8 / 4 + b9 * 64) % 2048
    } else {
        (b9 / 32 + b10 * 8) % 2048
    }
}

/// 10-bit compression of a k-vector: each polynomial contributes 320
/// bytes, four coefficients packed per five bytes.
pub open spec fn polyvec_compress10_spec(v: Seq<Seq<i16>>) -> Seq<u8> {
    Seq::new(
        v.len() * 320,
        |j: int|
            {
                let p = j / 320;
                let g = (j % 320) / 5;
                pack10(
                    crate::poly::compress_coeff(v[p][4 * g], 1024),
                    crate::poly::compress_coeff(v[p][4 * g + 1], 1024),
                    crate::poly::compress_coeff(v[p][4 * g + 2], 1024),
                    crate::poly::compress_coeff(v[p][4 * g + 3], 1024),
                    (j % 320) % 5,
                ) as u8
            },
    )
}

/// 10-bit decompression of k * 320 bytes.
pub open spec fn polyvec_decompress10_spec(b: Seq<u8>, k: int) -> Seq<Seq<i16>> {
    Seq::new(
        k as nat,
        |p: int|
            Seq::new(
                256,
                |i: int|
                    {
                        let o = 320 * p + 5 * (i / 4);
                        crate::poly::decompress_coeff(
                            extract10(
                                b[o] as int,
                                b[o + 1] as int,
                                b[o + 2] as int,
                                b[o + 3] as int,
                                b[o + 4] as int,
                                i % 4,
                            ),
                            1024,
                        ) as i16
                    },
            ),
    )
}

/// 11-bit compression of a k-vector: each polynomial contributes 352
/// bytes, eight coefficients packed per eleven bytes.
pub open spec fn polyvec_compress11_spec(v: Seq<Seq<i16>>) -> Seq<u8> {
    Seq::new(
        v.len() * 352,
        |j: int|
            {
                let p = j / 352;
                let g = (j % 352) / 11;
                pack11(
                    crate::poly::compress_coeff(v[p][8 * g], 2048),
                    crate::poly::compress_coeff(v[p][8 * g + 1], 2048),
                    crate::poly::compress_coeff(v[p][8 * g + 2], 2048),
                    crate::poly::compress_coeff(v[p][8 * g + 3], 2048),
                    crate::poly::compress_coeff(v[p][8 * g + 4], 2048),
                    crate::poly::compress_coeff(v[p][8 * g + 5], 2048),
                    crate::poly::compress_coeff(v[p][8 * g + 6], 2048),
                    crate::poly::compress_coeff(v[p][8 * g + 7], 2048),
                    (j % 352) % 11,
                ) as u8
            },
    )
}

/// 11-bit decompression of k * 352 bytes.
pub open spec fn polyvec_decompress11_spec(b: Seq<u8>, k: int) -> Seq<Seq<i16>> {
    Seq::new(
        k as nat,
        |p: int|
            Seq::new(
                256,
                |i: int|
                    {
                        let o = 352 * p + 11 * (i / 8);
                        crate::poly::decompress_coeff(
                            extract11(
                                b[o] as int,
                                b[o + 1] as int,
                                b[o + 2] as int,
                                b[o + 3] as int,
                                b[o + 4] as int,
                                b[o + 5] as int,
                                b[o + 6] as int,
                                b[o + 7] as int,
                                b[o + 8] as int,
                                b[o + 9] as int,
                                b[o + 10] as int,
                                i % 8,
                            ),
                            2048,
                        ) as i16
                    },
            ),
    )
}

/// The product of the degree-one pairs of two polynomials in the NTT
/// domain, block by block, with the block twiddles taken from the upper
/// half of the table and sign-flipped on odd pairs.
pub open spec fn basemul_poly_spec(a: Seq<i16>, b: Seq<i16>) -> Seq<int> {
    Seq::new(
        256,
        |i: int|
            {
                let blk = i / 4;
                let z = if i % 4 < 2 {
                    ZETAS[64 + blk] as int
                } else {
                    -(ZETAS[64 + blk] as int)
                };
                let base = i - (i % 2);
                if i % 2 == 0 {
                    basemul_spec0(
                        a[base] as int,
                        a[base + 1] as int,
                        b[base] as int,
                        b[base + 1] as int,
                        z,
                    )
                } else {
                    basemul_spec1(a[base] as int, a[base + 1] as int, b[base] as int, b[base + 1] as int)
                }
            },
    )
}

/// The running elementwise sum of the first n pointwise products.
pub open spec fn pointwise_acc_prefix(av: Seq<Seq<i16>>, bv: Seq<Seq<i16>>, n: int) -> Seq<int>
    decreases n,
{
    if n <= 1 {
        basemul_poly_spec(av[0], bv[0])
    } else {
        let prev = pointwise_acc_prefix(av, bv, n - 1);
        let cur = basemul_poly_spec(av[n - 1], bv[n - 1]);
        Seq::new(256, |i: int| prev[i] + cur[i])
    }
}

/// The inner product of two vectors in the NTT domain: the sum of the
/// pointwise products, Barrett-reduced coefficient by coefficient.
#[verifier::opaque]
pub open spec fn pointwise_acc_spec(av: Seq<Seq<i16>>, bv: Seq<Seq<i16>>) -> Seq<int> {
    Seq::new(256, |i: int| barrett_reduce_spec(pointwise_acc_prefix(av, bv, av.len() as int)[i]))
}


} // verus!
