//! The INDCPA public-key encryption scheme: uniform matrix sampling by
//! rejection from SHAKE-128, key generation, encryption and decryption.

use vstd::prelude::*;

verus! {

use crate::ntt::{invntt_spec, ntt_spec, to_i16s, to_ints};
use crate::params::{kyber_eta1, valid_k};
use crate::poly::{
    coeffs_normal, noise_poly_spec, poly_compress4_spec, poly_compress5_spec,
    poly_decompress4_spec, poly_decompress5_spec, poly_from_msg_spec, poly_to_msg_spec,
    reduced_coeffs, Poly,
};
use crate::polyvec::{
    pointwise_acc_spec, polyvec_compress10_spec, polyvec_compress11_spec,
    polyvec_decompress10_spec, polyvec_decompress11_spec, polyvec_from_bytes_spec,
    polyvec_to_bytes_spec, polyvec_wf, PolyVec,
};
use crate::symmetric::{hash_g, sha3_512_spec, shake128_stream, XofState};

/// The accepted 12-bit candidates among the first `triples` byte
/// triples: each triple yields the two candidates
/// b0 + 2^8 (b1 mod 2^4) and b1 div 2^4 + 2^4 b2, and a candidate is
/// kept exactly when it is below q.
pub open spec fn rej_accepted(input: Seq<u8>, triples: int) -> Seq<i16>
    decreases triples,
{
    if triples <= 0 {
        Seq::empty()
    } else {
        let prev = rej_accepted(input, triples - 1);
        let p = 3 * (triples - 1);
        let v0 = input[p] as int + (input[p + 1] as int % 16) * 256;
        let v1 = input[p + 1] as int / 16 + input[p + 2] as int * 16;
        let w0 = if v0 < 3329 {
            prev.push(v0 as i16)
        } else {
            prev
        };
        if v1 < 3329 {
            w0.push(v1 as i16)
        } else {
            w0
        }
    }
}

/// Every accepted candidate lies in [0, q).
pub proof fn lemma_rej_accepted_bounds(input: Seq<u8>, t: int)
    requires
        3 * t <= input.len(),
    ensures
        forall|i: int|
            0 <= i < rej_accepted(input, t).len() ==> 0 <= #[trigger] rej_accepted(input, t)[i]
                < 3329,
    decreases t,
{
    if t > 0 {
        lemma_rej_accepted_bounds(input, t - 1);
        let prev = rej_accepted(input, t - 1);
        let p = 3 * (t - 1);
        let v0 = input[p] as int + (input[p + 1] as int % 16) * 256;
        let v1 = input[p + 1] as int / 16 + input[p + 2] as int * 16;
        assert(0 <= v0 < 4096 && 0 <= v1 < 4096);
        assert forall|i: int| 0 <= i < rej_accepted(input, t).len() implies 0 <= #[trigger]
            rej_accepted(input, t)[i] < 3329 by {
            if i < prev.len() {
                assert(rej_accepted(input, t)[i] == prev[i]);
            }
        }
    }
}

/// The accepted sequence grows monotonically with the number of triples
/// read, earlier entries staying in place, and holds values in [0, q).
pub proof fn lemma_rej_accepted_props(input: Seq<u8>, t1: int, t2: int)
    requires
        0 <= t1 <= t2,
        3 * t2 <= input.len(),
    ensures
        rej_accepted(input, t1).len() <= rej_accepted(input, t2).len(),
        forall|i: int|
            0 <= i < rej_accepted(input, t1).len() ==> #[trigger] rej_accepted(input, t2)[i]
                == rej_accepted(input, t1)[i],
        forall|i: int|
            0 <= i < rej_accepted(input, t2).len() ==> 0 <= #[trigger] rej_accepted(input, t2)[i]
                < 3329,
    decreases t2 - t1,
{
    lemma_rej_accepted_bounds(input, t2);
    if t1 < t2 {
        lemma_rej_accepted_props(input, t1, t2 - 1);
    }
}

/// The accepted candidates of a concatenation split at a triple
/// boundary: those of the first part followed by those of the second.
pub proof fn lemma_rej_accepted_append(a: Seq<u8>, b: Seq<u8>, t: int)
    requires
        a.len() % 3 == 0,
        0 <= t <= b.len() / 3,
    ensures
        rej_accepted(a + b, a.len() as int / 3 + t) == rej_accepted(a, a.len() as int / 3) + rej_accepted(b, t),
    decreases t,
{
    let al = a.len() as int;
    if t == 0 {
        lemma_rej_accepted_prefix(a, b, al / 3);
        assert(rej_accepted(a + b, al / 3 + 0) =~= rej_accepted(a, al / 3) + rej_accepted(b, 0));
    } else {
        lemma_rej_accepted_append(a, b, t - 1);
        let p = 3 * (al / 3 + t - 1);
        assert(p == al + 3 * (t - 1) && p + 2 < al + b.len()) by (nonlinear_arith)
            requires
                al % 3 == 0,
                al >= 0,
                p == 3 * (al / 3 + t - 1),
                1 <= t <= b.len() / 3,
        ;
        assert((a + b)[p] == b[3 * (t - 1)] && (a + b)[p + 1] == b[3 * (t - 1) + 1] && (a + b)[p
            + 2] == b[3 * (t - 1) + 2]);
        assert(rej_accepted(a + b, al / 3 + t) =~= rej_accepted(a, al / 3) + rej_accepted(b, t));
    }
}

/// Reading only triples inside the first part, the second part of a
/// concatenation is irrelevant.
pub proof fn lemma_rej_accepted_prefix(a: Seq<u8>, b: Seq<u8>, t: int)
    requires
        0 <= 3 * t <= a.len(),
    ensures
        rej_accepted(a + b, t) == rej_accepted(a, t),
    decreases t,
{
    if t > 0 {
        lemma_rej_accepted_prefix(a, b, t - 1);
        assert(rej_accepted(a + b, t) =~= rej_accepted(a, t));
    } else {
        assert(rej_accepted(a + b, t) =~= rej_accepted(a, t));
    }
}

/// Run rejection sampling over the complete byte triples of `input`,
/// writing accepted values into r[offset..] until r is full or the
/// input is exhausted. Returns how many values were written: the whole
/// accepted sequence if it fits, else exactly enough to fill r.
#[verifier::loop_isolation(false)]
pub fn rej_uniform(input: &Vec<u8>, r: &mut Vec<i16>, offset: usize) -> (ctr: usize)
    requires
        offset <= old(r)@.len(),
        old(r)@.len() <= 256,
        input@.len() <= 65536,
    ensures
        final(r)@.len() == old(r)@.len(),
        ctr <= old(r)@.len() - offset,
        ({
            let acc = rej_accepted(input@, input@.len() as int / 3);
            &&& ctr == if acc.len() <= old(r)@.len() - offset {
                acc.len() as int
            } else {
                old(r)@.len() - offset
            }
            &&& forall|i: int| 0 <= i < offset ==> final(r)@[i] == old(r)@[i]
            &&& forall|i: int|
                offset <= i < offset + ctr ==> #[trigger] final(r)@[i] == acc[i - offset]
            &&& forall|i: int|
                offset + ctr <= i < old(r)@.len() ==> #[trigger] final(r)@[i] == old(r)@[i]
            &&& forall|i: int| offset <= i < offset + ctr ==> 0 <= #[trigger] final(r)@[i] < 3329
        }),
{
    let cap: usize = r.len() - offset;
    let ghost total = input@.len() as int / 3;
    let ghost accall = rej_accepted(input@, total);
    let mut ctr: usize = 0;
    let mut pos: usize = 0;
    while ctr < cap && pos + 3 <= input.len()
        invariant
            r@.len() == old(r)@.len(),
            0 <= ctr <= cap,
            0 <= pos,
            pos % 3 == 0,
            pos <= input@.len(),
            ({
                let acc = rej_accepted(input@, pos as int / 3);
                &&& ctr == if acc.len() <= cap {
                    acc.len() as int
                } else {
                    cap as int
                }
                &&& forall|i: int|
                    offset <= i < offset + ctr ==> #[trigger] r@[i] == acc[i - offset]
            }),
            forall|i: int| 0 <= i < offset ==> r@[i] == old(r)@[i],
            forall|i: int| offset + ctr <= i < old(r)@.len() ==> #[trigger] r@[i] == old(r)@[i],
            forall|i: int| offset <= i < offset + ctr ==> 0 <= #[trigger] r@[i] < 3329,
        decreases input@.len() - pos,
    {
        let ghost t0 = pos as int / 3;
        let ghost accprev = rej_accepted(input@, t0);
        proof {
            assert((pos + 3) as int / 3 == t0 + 1 && 3 * t0 == pos) by (nonlinear_arith)
                requires
                    pos % 3 == 0,
                    t0 == pos as int / 3,
                    pos >= 0,
            ;
            lemma_rej_accepted_props(input@, t0, t0 + 1);
        }
        let v0: i16 = (input[pos] as u16 + (input[pos + 1] as u16 % 16) * 256) as i16;
        let v1: i16 = (input[pos + 1] as u16 / 16 + input[pos + 2] as u16 * 16) as i16;
        pos += 3;
        if v0 < 3329 {
            r.set(offset + ctr, v0);
            ctr += 1;
        }
        if ctr < cap && v1 < 3329 {
            r.set(offset + ctr, v1);
            ctr += 1;
        }
        proof {
            let accnow = rej_accepted(input@, pos as int / 3);
            assert(pos as int / 3 == t0 + 1);
            assert(accnow.len() <= accprev.len() + 2);
        }
    }
    proof {
        let accend = rej_accepted(input@, pos as int / 3);
        lemma_rej_accepted_props(input@, pos as int / 3, total);
        if ctr < cap {
            // input exhausted: every complete triple was read
            assert(pos as int / 3 == total) by (nonlinear_arith)
                requires
                    pos % 3 == 0,
                    pos <= input@.len(),
                    input@.len() as int - pos < 3,
                    total == input@.len() as int / 3,
                    pos >= 0,
            ;
        } else {
            // r was filled: the accepted prefix already covers it
            assert(accall.len() >= accend.len());
        }
    }
    ctr
}

/// The first n bytes of the SHAKE-128 stream for an absorbed input.
pub open spec fn xof_prefix(ext: Seq<u8>, n: int) -> Seq<u8> {
    Seq::new(n as nat, |i: int| shake128_stream(ext, i))
}

/// s is the uniform polynomial drawn from the first n stream bytes: the
/// first 256 accepted rejection-sampling candidates.
pub open spec fn uniform_sample_ok(ext: Seq<u8>, n: int, s: Seq<i16>) -> bool {
    let acc = rej_accepted(xof_prefix(ext, n), n / 3);
    acc.len() >= 256 && s == acc.take(256)
}

/// The first 16632 stream bytes (the bounded number of squeezes) hold
/// fewer than 256 candidates below q; the probability of this is
/// negligible.
pub open spec fn stream_exhausted(ext: Seq<u8>) -> bool {
    rej_accepted(xof_prefix(ext, 16632), 16632int / 3).len() < 256
}

/// s is the uniform polynomial of the XOF stream for ext: the first 256
/// accepted candidates of some sufficient prefix, unless even the
/// bounded maximum of squeezed bytes holds fewer than 256.
pub open spec fn matrix_stream_ok(ext: Seq<u8>, s: Seq<i16>) -> bool {
    (exists|n: int| 672 <= n <= 16632 && #[trigger] uniform_sample_ok(ext, n, s))
        || stream_exhausted(ext)
}

/// Sample a uniform polynomial by rejection from SHAKE-128 seeded with
/// seed, x, y: squeeze four blocks, then one more at a time while fewer
/// than 256 candidates have been accepted, up to the statistical bound.
#[verifier::loop_isolation(false)]
pub fn gen_uniform_poly(seed: &Vec<u8>, x: u8, y: u8) -> (r: Poly)
    requires
        seed@.len() == 32,
    ensures
        r@.len() == 256,
        forall|i: int| 0 <= i < 256 ==> 0 <= #[trigger] r@[i] < 3329,
        matrix_stream_ok(seed@ + seq![x, y], r@),
{
    let ghost ext = seed@ + seq![x, y];
    let mut xof = XofState::new();
    xof.absorb(seed, x, y);
    let buf = xof.squeeze(672);
    proof {
        assert(buf@ =~= xof_prefix(ext, 672));
    }
    let mut poly = Poly::zero();
    let mut sampled = rej_uniform(&buf, &mut poly.coeffs, 0);
    let mut blocks: usize = 0;
    while sampled < 256 && blocks < 95
        invariant
            poly@.len() == 256,
            0 <= sampled <= 256,
            0 <= blocks <= 95,
            xof.absorbed,
            xof.input@ == ext,
            xof.pos == 672 + 168 * blocks,
            ({
                let acc = rej_accepted(xof_prefix(ext, xof.pos as int), xof.pos as int / 3);
                &&& sampled == if acc.len() <= 256 {
                    acc.len() as int
                } else {
                    256int
                }
                &&& forall|i: int| 0 <= i < sampled ==> #[trigger] poly@[i] == acc[i]
            }),
            forall|i: int| 0 <= i < 256 ==> 0 <= #[trigger] poly@[i] < 3329,
        decreases 95 - blocks,
    {
        let ghost oldpos = xof.pos as int;
        let ghost oldacc = rej_accepted(xof_prefix(ext, oldpos), oldpos / 3);
        let blk = xof.squeeze(168);
        proof {
            assert(xof_prefix(ext, oldpos + 168) =~= xof_prefix(ext, oldpos) + blk@);
            lemma_rej_accepted_append(xof_prefix(ext, oldpos), blk@, 56);
        }
        let ghost oldsampled = sampled as int;
        let added = rej_uniform(&blk, &mut poly.coeffs, sampled);
        sampled += added;
        blocks += 1;
        proof {
            let accblk = rej_accepted(blk@, 56);
            let newacc = rej_accepted(xof_prefix(ext, xof.pos as int), xof.pos as int / 3);
            assert(xof.pos as int / 3 == oldpos / 3 + 56);
            assert(newacc == oldacc + accblk);
            assert(oldsampled == oldacc.len());
            assert forall|i: int| 0 <= i < sampled implies #[trigger] poly@[i] == newacc[i] by {
                if i < oldsampled {
                    assert(poly@[i] == oldacc[i]);
                    assert(newacc[i] == oldacc[i]);
                } else {
                    assert(poly@[i] == accblk[i - oldsampled]);
                    assert(newacc[i] == accblk[i - oldacc.len()]);
                }
            }
        }
    }
    proof {
        let acc = rej_accepted(xof_prefix(ext, xof.pos as int), xof.pos as int / 3);
        if sampled == 256 {
            assert(acc.len() >= 256);
            assert(poly@ =~= acc.take(256));
            assert(uniform_sample_ok(ext, xof.pos as int, poly@));
            assert(672 <= xof.pos <= 16632);
        } else {
            assert(blocks == 95 && xof.pos == 16632);
            assert(acc.len() < 256);
            assert(stream_exhausted(ext));
        }
    }
    poly
}

/// The absorbed input that seeds matrix entry (i, j): the seed, then the
/// indices in the order chosen by the transposed flag.
pub open spec fn matrix_ext(seed: Seq<u8>, transposed: bool, i: int, j: int) -> Seq<u8> {
    if transposed {
        seed + seq![i as u8, j as u8]
    } else {
        seed + seq![j as u8, i as u8]
    }
}

/// Matrix entry (i, j) is the uniform polynomial of its own XOF stream.
pub open spec fn matrix_entry_ok(
    seed: Seq<u8>,
    transposed: bool,
    i: int,
    j: int,
    s: Seq<i16>,
) -> bool {
    matrix_stream_ok(matrix_ext(seed, transposed, i, j), s)
}

/// Generate the K x K public matrix (or its transpose) from the public
/// seed by rejection sampling, one SHAKE-128 stream per entry.
#[verifier::loop_isolation(false)]
pub fn gen_matrix(seed: &Vec<u8>, transposed: bool, k: usize) -> (m: Vec<PolyVec>)
    requires
        seed@.len() == 32,
        valid_k(k),
    ensures
        m@.len() == k,
        forall|i: int| 0 <= i < k ==> polyvec_wf(#[trigger] m@[i], k as int),
        forall|i: int, j: int|
            0 <= i < k && 0 <= j < k ==> matrix_entry_ok(
                seed@,
                transposed,
                i,
                j,
                #[trigger] m@[i]@[j],
            ),
        forall|i: int, j: int, c: int|
            0 <= i < k && 0 <= j < k && 0 <= c < 256 ==> 0 <= #[trigger] m@[i]@[j][c] < 3329,
{
    let mut m: Vec<PolyVec> = Vec::new();
    let mut i: usize = 0;
    while i < k
        invariant
            m@.len() == i,
            0 <= i <= k,
            forall|t: int| 0 <= t < i ==> polyvec_wf(#[trigger] m@[t], k as int),
            forall|t: int, j: int|
                0 <= t < i && 0 <= j < k ==> matrix_entry_ok(
                    seed@,
                    transposed,
                    t,
                    j,
                    #[trigger] m@[t]@[j],
                ),
            forall|t: int, j: int, c: int|
                0 <= t < i && 0 <= j < k && 0 <= c < 256 ==> 0 <= #[trigger] m@[t]@[j][c] < 3329,
        decreases k - i,
    {
        let mut row: Vec<Poly> = Vec::new();
        let mut j: usize = 0;
        while j < k
            invariant
                row@.len() == j,
                0 <= j <= k,
                i < k,
                forall|t: int| 0 <= t < j ==> (#[trigger] row@[t]@).len() == 256,
                forall|t: int|
                    0 <= t < j ==> matrix_entry_ok(seed@, transposed, i as int, t, row@[t]@),
                forall|t: int, c: int|
                    0 <= t < j && 0 <= c < 256 ==> 0 <= #[trigger] row@[t]@[c] < 3329,
            decreases k - j,
        {
            let p = if transposed {
                gen_uniform_poly(seed, i as u8, j as u8)
            } else {
                gen_uniform_poly(seed, j as u8, i as u8)
            };
            row.push(p);
            j += 1;
        }
        let pv = PolyVec { vec: row };
        proof {
            assert(polyvec_wf(pv, k as int));
        }
        m.push(pv);
        i += 1;
    }
    m
}


/// The eta of the first noise distribution for a given K.
pub open spec fn eta1_of(k: int) -> int {
    if k == 2 {
        3int
    } else {
        2int
    }
}

/// The i-th noise polynomial, transformed to the NTT domain and
/// Barrett-reduced, exactly as key generation and encryption compute it.
pub open spec fn noise_ntt_spec(nseed: Seq<u8>, nonce: int, eta: int) -> Seq<i16> {
    reduced_coeffs(to_i16s(ntt_spec(to_ints(noise_poly_spec(nseed, nonce as u8, eta)))))
}

/// The secret-key bytes determined by a keypair seed: the packed,
/// Barrett-reduced NTT of the K noise polynomials drawn from the noise
/// seed (the second half of SHA3-512 of the seed).
pub open spec fn sk_bytes_spec(seed: Seq<u8>, k: int) -> Seq<u8> {
    let nseed = sha3_512_spec(seed).skip(32);
    polyvec_to_bytes_spec(Seq::new(k as nat, |i: int| noise_ntt_spec(nseed, i, eta1_of(k))))
}

/// The v component of a ciphertext, which is a function of the public
/// key, message and coins alone: the inner product of the unpacked
/// public vector with the NTT of the encryption noise, brought back from
/// the NTT domain, plus the second noise polynomial and the message
/// polynomial, Barrett-reduced.
pub open spec fn enc_v_spec(pk: Seq<u8>, msg: Seq<u8>, coins: Seq<u8>, k: int) -> Seq<i16> {
    let that = polyvec_from_bytes_spec(pk.take(k * 384), k);
    let rhat = Seq::new(k as nat, |i: int| noise_ntt_spec(coins, i, eta1_of(k)));
    let w = invntt_spec(pointwise_acc_spec(that, rhat));
    let e2 = noise_poly_spec(coins, (2 * k) as u8, 2);
    let mp = poly_from_msg_spec(msg);
    reduced_coeffs(Seq::new(256, |i: int| (w[i] + e2[i] + mp[i]) as i16))
}

/// The message recovered from a ciphertext: v minus the inner product of
/// the unpacked secret vector with the NTT of the decompressed u,
/// Barrett-reduced and quantized to one bit per coefficient.
pub open spec fn dec_msg_spec(sk: Seq<u8>, ct: Seq<u8>, k: int) -> Seq<u8> {
    let pvlen = if k == 4 {
        4 * 352int
    } else {
        k * 320
    };
    let u = if k == 4 {
        polyvec_decompress11_spec(ct.take(pvlen), k)
    } else {
        polyvec_decompress10_spec(ct.take(pvlen), k)
    };
    let v = if k == 4 {
        poly_decompress5_spec(ct.skip(pvlen))
    } else {
        poly_decompress4_spec(ct.skip(pvlen))
    };
    let shat = polyvec_from_bytes_spec(sk, k);
    let uhat = Seq::new(k as nat, |i: int| reduced_coeffs(to_i16s(ntt_spec(to_ints(u[i])))));
    let w = invntt_spec(pointwise_acc_spec(shat, uhat));
    poly_to_msg_spec(reduced_coeffs(Seq::new(256, |i: int| (v[i] - w[i]) as i16)))
}

/// Copy a range of a byte vector.
#[verifier::loop_isolation(false)]
pub(crate) fn copy_range(src: &Vec<u8>, start: usize, len: usize) -> (r: Vec<u8>)
    requires
        start + len <= src@.len(),
    ensures
        r@ == src@.subrange(start as int, start as int + len as int),
{
    let srclen: usize = src.len();
    let mut r: Vec<u8> = Vec::new();
    let mut i: usize = 0;
    while i < len
        invariant
            r@.len() == i,
            0 <= i <= len,
            srclen == src@.len(),
            forall|j: int| 0 <= j < i ==> #[trigger] r@[j] == src@[start + j],
        decreases len - i,
    {
        r.push(src[start + i]);
        i += 1;
    }
    proof {
        assert(r@ =~= src@.subrange(start as int, start as int + len as int));
    }
    r
}

/// Append one byte vector to another.
#[verifier::loop_isolation(false)]
fn append_bytes(dst: &mut Vec<u8>, src: &Vec<u8>)
    requires
        old(dst)@.len() + src@.len() <= usize::MAX,
    ensures
        final(dst)@ == old(dst)@ + src@,
{
    let mut i: usize = 0;
    while i < src.len()
        invariant
            0 <= i <= src@.len(),
            dst@.len() == old(dst)@.len() + i,
            forall|j: int| 0 <= j < old(dst)@.len() ==> #[trigger] dst@[j] == old(dst)@[j],
            forall|j: int| old(dst)@.len() <= j < old(dst)@.len() + i ==> #[trigger] dst@[j] == src@[j - old(dst)@.len()],
        decreases src@.len() - i,
    {
        dst.push(src[i]);
        i += 1;
    }
    proof {
        assert(dst@ =~= old(dst)@ + src@);
    }
}

/// A zero-filled byte vector.
fn zero_bytes(n: usize) -> (r: Vec<u8>)
    ensures
        r@.len() == n,
{
    let mut r: Vec<u8> = Vec::new();
    let mut i: usize = 0;
    while i < n
        invariant
            r@.len() == i,
            0 <= i <= n,
        decreases n - i,
    {
        r.push(0);
        i += 1;
    }
    r
}

/// Draw the K noise polynomials with nonces base, base + 1, ... and
/// return them NTT-transformed and Barrett-reduced.
#[verifier::loop_isolation(false)]
fn noise_vec_ntt(nseed: &Vec<u8>, k: usize, eta: usize, base: usize) -> (r: PolyVec)
    requires
        nseed@.len() == 32,
        valid_k(k),
        eta == 2 || eta == 3,
        base + k <= 8,
    ensures
        polyvec_wf(r, k as int),
        forall|i: int|
            0 <= i < k ==> #[trigger] r@[i] == noise_ntt_spec(
                nseed@,
                base + i,
                eta as int,
            ),
        forall|i: int, j: int|
            0 <= i < k && 0 <= j < 256 ==> -1664 <= #[trigger] r@[i][j] <= 1664,
{
    let mut vec: Vec<Poly> = Vec::new();
    let mut i: usize = 0;
    while i < k
        invariant
            vec@.len() == i,
            0 <= i <= k,
            forall|t: int| 0 <= t < i ==> #[trigger] vec@[t]@.len() == 256,
            forall|t: int|
                0 <= t < i ==> #[trigger] vec@[t]@ == noise_poly_spec(
                    nseed@,
                    (base + t) as u8,
                    eta as int,
                ),
            forall|t: int, j: int| 0 <= t < i && 0 <= j < 256 ==> -3 <= #[trigger] vec@[t]@[j] <= 3,
        decreases k - i,
    {
        vec.push(Poly::from_noise_eta(nseed, (base + i) as u8, eta));
        i += 1;
    }
    let mut pv = PolyVec { vec };
    pv.ntt();
    pv.reduce();
    proof {
        assert forall|t: int| 0 <= t < k implies pv@[t] == noise_ntt_spec(
            nseed@,
            base + t,
            eta as int,
        ) by {
            let noise = noise_poly_spec(nseed@, (base + t) as u8, eta as int);
            let x = ntt_spec(to_ints(noise));
            assert(pv@[t] == reduced_coeffs(to_i16s(x)));
        }
    }
    pv
}



/// The i-th public polynomial: the inner product of matrix row i with
/// the secret vector (in the NTT domain), brought back to the Montgomery
/// scale, plus the i-th error polynomial, Barrett-reduced.
pub open spec fn t_hat_spec(arow: Seq<Seq<i16>>, shat: Seq<Seq<i16>>, ehat: Seq<i16>) -> Seq<i16> {
    let pa = pointwise_acc_spec(arow, shat);
    reduced_coeffs(
        Seq::new(256, |j: int| (crate::ntt::fqmul_spec(pa[j], 1353) + ehat[j]) as i16),
    )
}

/// The public-key body packs t = A s + e for the matrix that the public
/// seed's XOF streams determine, with the secret and error vectors drawn
/// from the noise seed.
pub open spec fn keypair_pk_ok(seed: Seq<u8>, k: int, pk: Seq<u8>) -> bool {
    let pseed = sha3_512_spec(seed).take(32);
    let nseed = sha3_512_spec(seed).skip(32);
    let shat = Seq::new(k as nat, |i: int| noise_ntt_spec(nseed, i, eta1_of(k)));
    let ehat = Seq::new(k as nat, |i: int| noise_ntt_spec(nseed, k + i, eta1_of(k)));
    exists|amat: Seq<Seq<Seq<i16>>>|
        {
            &&& amat.len() == k
            &&& (forall|i: int| 0 <= i < k ==> (#[trigger] amat[i]).len() == k)
            &&& (forall|i: int, j: int|
                0 <= i < k && 0 <= j < k ==> matrix_entry_ok(
                    pseed,
                    false,
                    i,
                    j,
                    #[trigger] amat[i][j],
                ))
            &&& pk.take(k * 384) == polyvec_to_bytes_spec(
                Seq::new(k as nat, |i: int| t_hat_spec(amat[i], shat, ehat[i])),
            )
        }
}

/// INDCPA key generation: expand the seed with SHA3-512 into a public
/// seed and a noise seed, sample the public matrix and the secret and
/// error vectors, and return (pk, sk) where pk packs the public vector
/// t = A s + e (in the NTT domain, Barrett-reduced) followed by the
/// public seed, and sk packs the reduced NTT of the secret vector.
#[verifier::loop_isolation(false)]
#[verifier::rlimit(100)]
#[verifier::spinoff_prover]
pub fn indcpa_keypair(seed: &Vec<u8>, k: usize) -> (keys: (Vec<u8>, Vec<u8>))
    requires
        valid_k(k),
        seed@.len() == 32,
    ensures
        keys.0@.len() == k * 384 + 32,
        keys.1@.len() == k * 384,
        keys.0@.skip((k * 384) as int) == sha3_512_spec(seed@).take(32),
        keys.1@ == sk_bytes_spec(seed@, k as int),
        keypair_pk_ok(seed@, k as int, keys.0@),
{
    let g = hash_g(seed.as_slice());
    let publicseed = copy_range(&g, 0, 32);
    let noiseseed = copy_range(&g, 32, 32);
    proof {
        assert(publicseed@ =~= sha3_512_spec(seed@).take(32));
        assert(noiseseed@ =~= sha3_512_spec(seed@).skip(32));
    }
    let a = gen_matrix(&publicseed, false, k);
    let eta1 = kyber_eta1(k);
    let spkv = noise_vec_ntt(&noiseseed, k, eta1, 0);
    let e = noise_vec_ntt(&noiseseed, k, eta1, k);
    // t_i = barrett(mont(<A_i, s>) + e_i)
    let ghost amat = Seq::new(k as nat, |i: int| a@[i]@);
    let mut tvec: Vec<Poly> = Vec::new();
    let mut i: usize = 0;
    while i < k
        invariant
            tvec@.len() == i,
            0 <= i <= k,
            forall|t: int| 0 <= t < i ==> #[trigger] tvec@[t]@.len() == 256,
            forall|t: int, j: int|
                0 <= t < i && 0 <= j < 256 ==> -1664 <= #[trigger] tvec@[t]@[j] <= 1664,
            forall|t: int| 0 <= t < i ==> #[trigger] tvec@[t]@ == t_hat_spec(amat[t], spkv@, e@[t]),
        decreases k - i,
    {
        let mut ti = a[i].pointwise_acc(&spkv);
        let ghost pa = pointwise_acc_spec(amat[i as int], spkv@);
        proof {
            assert(amat[i as int] == a@[i as int]@);
        }
        ti.to_mont();
        let ghost tm = ti@;
        proof {
            assert forall|j: int| 0 <= j < 256 implies #[trigger] tm[j] as int
                == crate::ntt::fqmul_spec(pa[j], 1353) by {
                assert(tm[j] as int == crate::ntt::fqmul_spec(
                    pointwise_acc_spec(a@[i as int]@, spkv@)[j],
                    1353,
                ));
            }
        }
        proof {
            assert(e@[i as int] == e.vec@[i as int]@);
        }
        ti.add_assign(&e.vec[i]);
        let ghost tsum = ti@;
        ti.reduce();
        proof {
            assert forall|j: int| 0 <= j < 256 implies tsum[j] == (crate::ntt::fqmul_spec(
                pa[j],
                1353,
            ) + e@[i as int][j]) as i16 by {
                assert(tsum[j] == tm[j] + e@[i as int][j]);
                assert(-3329 <= tm[j] <= 3329);
            }
            assert(tsum =~= Seq::new(
                256,
                |j: int| (crate::ntt::fqmul_spec(pa[j], 1353) + e@[i as int][j]) as i16,
            ));
            assert(ti@ == t_hat_spec(amat[i as int], spkv@, e@[i as int]));
        }
        tvec.push(ti);
        i += 1;
    }
    let that = PolyVec { vec: tvec };
    let mut pk = zero_bytes(k * 384);
    that.to_bytes(&mut pk);
    append_bytes(&mut pk, &publicseed);
    let mut sk = zero_bytes(k * 384);
    spkv.to_bytes(&mut sk);
    proof {
        assert(pk@.skip((k * 384) as int) =~= publicseed@);
        let nseed = sha3_512_spec(seed@).skip(32);
        let shat = Seq::new(k as nat, |t: int| noise_ntt_spec(nseed, t, eta1_of(k as int)));
        let ehat = Seq::new(
            k as nat,
            |t: int| noise_ntt_spec(nseed, k + t, eta1_of(k as int)),
        );
        assert(spkv@ =~= shat);
        assert(e@ =~= ehat);
        assert forall|t: int| 0 <= t < k implies that@[t] == t_hat_spec(amat[t], shat, ehat[t]) by {
            assert(that@[t] == tvec@[t]@);
            assert(tvec@[t]@ == t_hat_spec(amat[t], spkv@, e@[t]));
        }
        assert(that@ =~= Seq::new(k as nat, |t: int| t_hat_spec(amat[t], shat, ehat[t])));
        assert(pk@.take((k * 384) as int) =~= polyvec_to_bytes_spec(that@));
        assert(pk@.take((k * 384) as int) == polyvec_to_bytes_spec(
            Seq::new(k as nat, |t: int| t_hat_spec(amat[t], shat, ehat[t])),
        ));
        let pseed = sha3_512_spec(seed@).take(32);
        assert(pseed == publicseed@);
        assert(amat.len() == k as int);
        assert forall|t: int| 0 <= t < k implies (#[trigger] amat[t]).len() == k by {
            assert(amat[t] == a@[t]@);
        }
        assert forall|t: int, j: int| 0 <= t < k && 0 <= j < k implies matrix_entry_ok(
            pseed,
            false,
            t,
            j,
            #[trigger] amat[t][j],
        ) by {
            assert(matrix_entry_ok(publicseed@, false, t, j, a@[t]@[j]));
            assert(amat[t][j] == a@[t]@[j]);
        }
        assert(keypair_pk_ok(seed@, k as int, pk@));
    }
    (pk, sk)
}


/// The i-th ciphertext vector polynomial: the inner product of
/// transposed-matrix row i with the NTT of the encryption noise, brought
/// back from the NTT domain, plus the i-th second-noise polynomial,
/// Barrett-reduced.
pub open spec fn u_poly_spec(arow: Seq<Seq<i16>>, rhat: Seq<Seq<i16>>, coins: Seq<u8>, k: int, i: int) -> Seq<i16> {
    let w = invntt_spec(pointwise_acc_spec(arow, rhat));
    let e1 = noise_poly_spec(coins, (k + i) as u8, 2);
    reduced_coeffs(Seq::new(256, |j: int| (w[j] + e1[j]) as i16))
}

/// The ciphertext's vector part packs u = A^T r + e1 for the transposed
/// matrix that the public seed's XOF streams determine.
pub open spec fn enc_u_ok(pk: Seq<u8>, coins: Seq<u8>, k: int, ct: Seq<u8>) -> bool {
    let pseed = pk.skip(k * 384);
    let rhat = Seq::new(k as nat, |i: int| noise_ntt_spec(coins, i, eta1_of(k)));
    exists|amat: Seq<Seq<Seq<i16>>>|
        {
            &&& amat.len() == k
            &&& (forall|i: int| 0 <= i < k ==> (#[trigger] amat[i]).len() == k)
            &&& (forall|i: int, j: int|
                0 <= i < k && 0 <= j < k ==> matrix_entry_ok(
                    pseed,
                    true,
                    i,
                    j,
                    #[trigger] amat[i][j],
                ))
            &&& ct.take(if k == 4 { 4 * 352int } else { k * 320 }) == (if k == 4 {
                polyvec_compress11_spec(
                    Seq::new(k as nat, |i: int| u_poly_spec(amat[i], rhat, coins, k, i)),
                )
            } else {
                polyvec_compress10_spec(
                    Seq::new(k as nat, |i: int| u_poly_spec(amat[i], rhat, coins, k, i)),
                )
            })
        }
}

/// INDCPA encryption: unpack the public key, sample the transposed
/// matrix and the encryption noise from the coins, and return the
/// ciphertext compress(u) || compress(v). The v component is pinned
/// exactly; u depends on the sampled matrix, which each entry's stream
/// determines.
#[verifier::loop_isolation(false)]
#[verifier::rlimit(100)]
#[verifier::spinoff_prover]
pub fn indcpa_enc(pk: &Vec<u8>, msg: &Vec<u8>, coins: &Vec<u8>, k: usize) -> (ct: Vec<u8>)
    requires
        valid_k(k),
        pk@.len() == k * 384 + 32,
        msg@.len() == 32,
        coins@.len() == 32,
    ensures
        k == 4 ==> ct@.len() == 4 * 352 + 160int,
        k < 4 ==> ct@.len() == k * 320 + 128,
        k == 4 ==> ct@.skip(4 * 352int) == poly_compress5_spec(enc_v_spec(pk@, msg@, coins@, 4)),
        k < 4 ==> ct@.skip((k * 320) as int) == poly_compress4_spec(
            enc_v_spec(pk@, msg@, coins@, k as int),
        ),
        enc_u_ok(pk@, coins@, k as int, ct@),
{
    proof {
        reveal(pointwise_acc_spec);
    }
    let pkpoly = copy_range(pk, 0, k * 384);
    let publicseed = copy_range(pk, k * 384, 32);
    let that = PolyVec::from_bytes(&pkpoly, k);
    proof {
        assert(pkpoly@ =~= pk@.take((k * 384) as int));
    }
    let at = gen_matrix(&publicseed, true, k);
    let eta1 = kyber_eta1(k);
    let rhat = noise_vec_ntt(coins, k, eta1, 0);
    // u_i = barrett(invntt(<At_i, r>) + e1_i)
    let ghost amat = Seq::new(k as nat, |i: int| at@[i]@);
    let mut uvec: Vec<Poly> = Vec::new();
    let mut i: usize = 0;
    while i < k
        invariant
            uvec@.len() == i,
            0 <= i <= k,
            forall|t: int| 0 <= t < i ==> #[trigger] uvec@[t]@.len() == 256,
            forall|t: int, j: int|
                0 <= t < i && 0 <= j < 256 ==> -1664 <= #[trigger] uvec@[t]@[j] <= 1664,
            forall|t: int|
                0 <= t < i ==> #[trigger] uvec@[t]@ == u_poly_spec(
                    amat[t],
                    rhat@,
                    coins@,
                    k as int,
                    t,
                ),
        decreases k - i,
    {
        let mut ui = at[i].pointwise_acc(&rhat);
        let ghost pau = pointwise_acc_spec(amat[i as int], rhat@);
        proof {
            assert(amat[i as int] == at@[i as int]@);
            assert forall|j: int| 0 <= j < 256 implies to_ints(ui@)[j] == pau[j] by {
                assert(ui@[j] as int == pointwise_acc_spec(at@[i as int]@, rhat@)[j]);
            }
            assert(to_ints(ui@) =~= pau);
        }
        ui.invntt();
        let ghost wu = invntt_spec(pau);
        let ghost uinv = ui@;
        proof {
            assert(to_ints(uinv) == wu);
            assert forall|j: int| 0 <= j < 256 implies #[trigger] uinv[j] as int == wu[j] by {
                assert(to_ints(uinv)[j] == uinv[j] as int);
            }
        }
        let e1i = Poly::from_noise_eta(coins, (k + i) as u8, 2);
        ui.add_assign(&e1i);
        let ghost usum = ui@;
        ui.reduce();
        proof {
            let e1s = noise_poly_spec(coins@, (k + i) as u8, 2);
            assert forall|j: int| 0 <= j < 256 implies usum[j] == (wu[j] + e1s[j]) as i16 by {
                assert(uinv[j] as int == wu[j]);
                assert(-3329 <= uinv[j] <= 3329);
                assert(usum[j] == uinv[j] + e1s[j]);
            }
            assert(usum =~= Seq::new(256, |j: int| (wu[j] + e1s[j]) as i16));
            assert(ui@ == u_poly_spec(amat[i as int], rhat@, coins@, k as int, i as int));
        }
        uvec.push(ui);
        i += 1;
    }
    let u = PolyVec { vec: uvec };
    proof {
        let rh = Seq::new(k as nat, |t: int| noise_ntt_spec(coins@, t, eta1_of(k as int)));
        assert(rhat@ =~= rh);
        assert forall|t: int| 0 <= t < k implies u@[t] == u_poly_spec(
            amat[t],
            rh,
            coins@,
            k as int,
            t,
        ) by {
            assert(u@[t] == uvec@[t]@);
        }
        assert(u@ =~= Seq::new(
            k as nat,
            |t: int| u_poly_spec(amat[t], rh, coins@, k as int, t),
        ));
    }
    // v = barrett(invntt(<t, r>) + e2 + msg)
    let ghost rh = Seq::new(k as nat, |t: int| noise_ntt_spec(coins@, t, eta1_of(k as int)));
    proof {
        assert(rhat@ =~= rh);
    }
    let mut v = that.pointwise_acc(&rhat);
    let ghost pa = pointwise_acc_spec(that@, rh);
    proof {
        assert forall|t: int| 0 <= t < 256 implies to_ints(v@)[t] == pa[t] by {
            assert(v@[t] as int == pointwise_acc_spec(that@, rhat@)[t]);
        }
        assert(to_ints(v@) =~= pa);
    }
    v.invntt();
    let ghost w = invntt_spec(pa);
    let ghost vinv = v@;
    proof {
        assert(to_ints(vinv) == w);
        assert forall|t: int| 0 <= t < 256 implies #[trigger] vinv[t] as int == w[t] by {
            assert(to_ints(vinv)[t] == vinv[t] as int);
        }
    }
    let e2 = Poly::from_noise_eta(coins, (2 * k) as u8, 2);
    v.add_assign(&e2);
    let mp = Poly::from_msg(msg);
    v.add_assign(&mp);
    let ghost vsum = v@;
    v.reduce();
    proof {
        let vspec = enc_v_spec(pk@, msg@, coins@, k as int);
        let e2s = noise_poly_spec(coins@, (2 * k) as u8, 2);
        let mps = poly_from_msg_spec(msg@);
        assert forall|t: int| 0 <= t < 256 implies vsum[t] == (w[t] + e2s[t] + mps[t]) as i16 by {
            assert(vinv[t] as int == w[t]);
            assert(-3329 <= vinv[t] <= 3329);
            assert(vsum[t] == vinv[t] + e2s[t] + mps[t]);
        }
        assert(vsum =~= Seq::new(256, |t: int| (w[t] + e2s[t] + mps[t]) as i16));
        assert(v@ == vspec);
    }
    let vlen: usize = if k == 4 {
        160
    } else {
        128
    };
    let ulen: usize = if k == 4 {
        4 * 352
    } else {
        k * 320
    };
    let mut ct = zero_bytes(ulen);
    u.compress_into(&mut ct);
    let ghost ubytes = ct@;
    let mut vbytes = zero_bytes(vlen);
    v.compress_into(&mut vbytes);
    append_bytes(&mut ct, &vbytes);
    proof {
        assert(ct@.skip(ulen as int) =~= vbytes@);
        // the vector part packs u for the sampled transposed matrix
        let rh = Seq::new(k as nat, |t: int| noise_ntt_spec(coins@, t, eta1_of(k as int)));
        let uspec = Seq::new(k as nat, |t: int| u_poly_spec(amat[t], rh, coins@, k as int, t));
        assert(u@ == uspec);
        assert(ct@.take(ulen as int) =~= ubytes);
        if k == 4 {
            assert(ct@.take(4 * 352int) == polyvec_compress11_spec(uspec));
        } else {
            assert(ct@.take((k * 320) as int) == polyvec_compress10_spec(uspec));
        }
        let pseed = pk@.skip((k * 384) as int);
        assert(pseed == publicseed@);
        assert(amat.len() == k as int);
        assert forall|t: int| 0 <= t < k implies (#[trigger] amat[t]).len() == k by {
            assert(amat[t] == at@[t]@);
        }
        assert forall|t: int, j: int| 0 <= t < k && 0 <= j < k implies matrix_entry_ok(
            pseed,
            true,
            t,
            j,
            #[trigger] amat[t][j],
        ) by {
            assert(matrix_entry_ok(publicseed@, true, t, j, at@[t]@[j]));
            assert(amat[t][j] == at@[t]@[j]);
        }
        assert(enc_u_ok(pk@, coins@, k as int, ct@));
    }
    ct
}

/// INDCPA decryption: decompress the ciphertext into (u, v), unpack the
/// secret vector, and recover the message as the 1-bit quantization of
/// v minus the inner product of the secret with the NTT of u.
#[verifier::loop_isolation(false)]
#[verifier::rlimit(100)]
#[verifier::spinoff_prover]
pub fn indcpa_dec(sk: &Vec<u8>, ct: &Vec<u8>, k: usize) -> (msg: Vec<u8>)
    requires
        valid_k(k),
        sk@.len() == k * 384,
        k == 4 ==> ct@.len() == 4 * 352 + 160int,
        k < 4 ==> ct@.len() == k * 320 + 128,
    ensures
        msg@.len() == 32,
        msg@ == dec_msg_spec(sk@, ct@, k as int),
{
    proof {
        reveal(pointwise_acc_spec);
    }
    let ulen: usize = if k == 4 {
        4 * 352
    } else {
        k * 320
    };
    let vlen: usize = if k == 4 {
        160
    } else {
        128
    };
    let c1 = copy_range(ct, 0, ulen);
    let c2 = copy_range(ct, ulen, vlen);
    proof {
        assert(c1@ =~= ct@.take(ulen as int));
        assert(c2@ =~= ct@.skip(ulen as int));
    }
    let mut u = PolyVec::decompress(&c1, k);
    let v = Poly::decompress(&c2);
    let shat = PolyVec::from_bytes(sk, k);
    let ghost uspec0 = u@;
    u.ntt();
    u.reduce();
    let ghost uhat_entries = u@;
    let mut w = shat.pointwise_acc(&u);
    let ghost pa = pointwise_acc_spec(shat@, uhat_entries);
    proof {
        assert forall|t: int| 0 <= t < 256 implies to_ints(w@)[t] == pa[t] by {
            assert(w@[t] as int == pointwise_acc_spec(shat@, uhat_entries)[t]);
        }
        assert(to_ints(w@) =~= pa);
    }
    w.invntt();
    let ghost wspec = invntt_spec(pa);
    let ghost winv = w@;
    proof {
        assert(to_ints(winv) == wspec);
        assert forall|t: int| 0 <= t < 256 implies #[trigger] winv[t] as int == wspec[t] by {
            assert(to_ints(winv)[t] == winv[t] as int);
        }
    }
    let mut m = v.sub(&w);
    let ghost mdiff = m@;
    m.reduce();
    let out = m.to_msg();
    proof {
        let pvlen = ulen as int;
        let uspec = if k == 4 {
            polyvec_decompress11_spec(ct@.take(pvlen), k as int)
        } else {
            polyvec_decompress10_spec(ct@.take(pvlen), k as int)
        };
        assert(uspec0 == uspec);
        let uhat = Seq::new(
            k as nat,
            |i: int| reduced_coeffs(to_i16s(ntt_spec(to_ints(uspec[i])))),
        );
        assert forall|i: int| 0 <= i < k implies uhat_entries[i] == uhat[i] by {
            let x = ntt_spec(to_ints(uspec[i]));
            assert(uhat_entries[i] == reduced_coeffs(to_i16s(x)));
        }
        assert(uhat_entries =~= uhat);
        let vspec = if k == 4 {
            poly_decompress5_spec(ct@.skip(pvlen))
        } else {
            poly_decompress4_spec(ct@.skip(pvlen))
        };
        assert forall|t: int| 0 <= t < 256 implies mdiff[t] == (vspec[t] - wspec[t]) as i16 by {
            assert(winv[t] as int == wspec[t]);
            assert(-3329 <= winv[t] <= 3329);
            assert(mdiff[t] == v@[t] - winv[t]);
        }
        assert(mdiff =~= Seq::new(256, |i: int| (vspec[i] - wspec[i]) as i16));
        assert(m@ == reduced_coeffs(Seq::new(256, |i: int| (vspec[i] - wspec[i]) as i16)));
    }
    out
}


/// Serialize the public key: the packed polynomial vector followed by
/// the 32-byte seed of the public matrix.
#[verifier::loop_isolation(false)]
pub fn pack_pk(pk: &PolyVec, seed: &Vec<u8>, output: &mut Vec<u8>)
    requires
        2 <= pk@.len() <= 4,
        polyvec_wf(*pk, pk@.len() as int),
        forall|i: int| 0 <= i < pk@.len() ==> coeffs_normal(#[trigger] pk@[i]),
        seed@.len() == 32,
        old(output)@.len() == pk@.len() * 384 + 32,
    ensures
        final(output)@ == polyvec_to_bytes_spec(pk@) + seed@,
{
    let k = pk.vec.len();
    let mut tmp = zero_bytes(k * 384);
    pk.to_bytes(&mut tmp);
    let mut i: usize = 0;
    while i < k * 384
        invariant
            output@.len() == k * 384 + 32,
            tmp@.len() == k * 384,
            0 <= i <= k * 384,
            forall|j: int| 0 <= j < i ==> #[trigger] output@[j] == tmp@[j],
        decreases k * 384 - i,
    {
        output.set(i, tmp[i]);
        i += 1;
    }
    let mut j: usize = 0;
    while j < 32
        invariant
            output@.len() == k * 384 + 32,
            0 <= j <= 32,
            forall|l: int| 0 <= l < k * 384 ==> #[trigger] output@[l] == tmp@[l],
            forall|l: int| 0 <= l < j ==> #[trigger] output@[k * 384 + l] == seed@[l],
        decreases 32 - j,
    {
        output.set(k * 384 + j, seed[j]);
        j += 1;
    }
    proof {
        let spec = polyvec_to_bytes_spec(pk@) + seed@;
        assert forall|l: int| 0 <= l < k * 384 + 32 implies output@[l] == spec[l] by {
            if l >= k * 384 {
                assert(output@[k * 384 + (l - k * 384)] == seed@[l - k * 384]);
            }
        }
        assert(output@ =~= spec);
    }
}

/// Split a packed public key back into the polynomial vector and the
/// matrix seed.
pub fn unpack_pk(packed_pk: &Vec<u8>, k: usize) -> (r: (PolyVec, Vec<u8>))
    requires
        valid_k(k),
        packed_pk@.len() == k * 384 + 32,
    ensures
        polyvec_wf(r.0, k as int),
        r.0@ == polyvec_from_bytes_spec(packed_pk@.take((k * 384) as int), k as int),
        r.1@ == packed_pk@.skip((k * 384) as int),
{
    let body = copy_range(packed_pk, 0, k * 384);
    let seed = copy_range(packed_pk, k * 384, 32);
    proof {
        assert(body@ =~= packed_pk@.take((k * 384) as int));
        assert(seed@ =~= packed_pk@.skip((k * 384) as int));
    }
    let pv = PolyVec::from_bytes(&body, k);
    (pv, seed)
}


} // verus!
