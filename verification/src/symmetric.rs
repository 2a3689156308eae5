//! Thin facade over SHA3-256, SHA3-512, SHAKE-128 and SHAKE-256.
//!
//! Each primitive is deterministic, so its output is named by an
//! uninterpreted spec function of the input alone; the trusted wrappers
//! below are the only places where those names are tied to the outside
//! calls. `XofState` is the verified one-shot-absorb, many-shot-squeeze
//! state machine used for matrix generation.

use vstd::prelude::*;

verus! {

use digest::{ExtendableOutput, Update, XofReader};
use sha3::Digest;

/// The SHA3-256 digest (32 bytes) of a byte string.
pub uninterp spec fn sha3_256_spec(input: Seq<u8>) -> Seq<u8>;

/// The SHA3-512 digest (64 bytes) of a byte string.
pub uninterp spec fn sha3_512_spec(input: Seq<u8>) -> Seq<u8>;

/// Byte i of the unbounded SHAKE-128 output stream for a byte string.
pub uninterp spec fn shake128_stream(input: Seq<u8>, i: int) -> u8;

/// Byte i of the unbounded SHAKE-256 output stream for a byte string.
pub uninterp spec fn shake256_stream(input: Seq<u8>, i: int) -> u8;

/// Relies on sha3::Sha3_256 through digest::Digest::digest: the 32-byte
/// hash is a function of the input alone.
#[verifier::external_body]
pub fn hash_h(buffer: &[u8]) -> (r: Vec<u8>)
    ensures
        r@.len() == 32,
        r@ == sha3_256_spec(buffer@),
{
    sha3::Sha3_256::digest(buffer).to_vec()
}

/// Relies on sha3::Sha3_512 through digest::Digest::digest: the 64-byte
/// hash is a function of the input alone.
#[verifier::external_body]
pub fn hash_g(buffer: &[u8]) -> (r: Vec<u8>)
    ensures
        r@.len() == 64,
        r@ == sha3_512_spec(buffer@),
{
    sha3::Sha3_512::digest(buffer).to_vec()
}

/// Relies on sha3::Shake128 through digest's ExtendableOutput and
/// XofReader: SHAKE-128 is a deterministic extendable-output function,
/// and reading n bytes yields the first n bytes of its stream.
#[verifier::external_body]
pub fn shake128(input: &[u8], n: usize) -> (r: Vec<u8>)
    ensures
        r@.len() == n,
        forall|i: int| 0 <= i < n ==> r@[i] == shake128_stream(input@, i),
{
    let mut h = sha3::Shake128::default();
    h.update(input);
    let mut out = vec![0u8; n];
    h.finalize_xof().read(&mut out);
    out
}

/// Relies on sha3::Shake256 through digest's ExtendableOutput and
/// XofReader: SHAKE-256 is a deterministic extendable-output function,
/// and reading n bytes yields the first n bytes of its stream.
#[verifier::external_body]
pub fn shake256(input: &[u8], n: usize) -> (r: Vec<u8>)
    ensures
        r@.len() == n,
        forall|i: int| 0 <= i < n ==> r@[i] == shake256_stream(input@, i),
{
    let mut h = sha3::Shake256::default();
    h.update(input);
    let mut out = vec![0u8; n];
    h.finalize_xof().read(&mut out);
    out
}

/// A SHAKE-128 handle for matrix generation: absorbs a 34-byte input
/// (seed, then x at offset 32, then y at offset 33) exactly once, then
/// hands out successive bytes of the output stream.
pub struct XofState {
    /// The absorbed input bytes.
    pub input: Vec<u8>,
    /// How many stream bytes have been squeezed so far.
    pub pos: usize,
    /// Whether the one-shot absorb has happened.
    pub absorbed: bool,
    /// Whether squeezing has begun (after which absorbing is an error).
    pub squeezing: bool,
}

impl XofState {
    /// A fresh handle with nothing absorbed.
    pub fn new() -> (r: XofState)
        ensures
            r.input@ == Seq::<u8>::empty(),
            r.pos == 0,
            !r.absorbed,
            !r.squeezing,
    {
        XofState { input: Vec::new(), pos: 0, absorbed: false, squeezing: false }
    }

    /// Absorb seed, then x, then y. A second absorb, or one after
    /// squeezing has begun, is a caller error and is ruled out here.
    pub fn absorb(&mut self, data: &Vec<u8>, x: u8, y: u8)
        requires
            old(self).input@ == Seq::<u8>::empty(),
            !old(self).absorbed,
            !old(self).squeezing,
            data@.len() == 32,
        ensures
            final(self).input@ == data@ + seq![x, y],
            final(self).pos == old(self).pos,
            final(self).absorbed,
            !final(self).squeezing,
    {
        let mut buf: Vec<u8> = Vec::new();
        let mut i: usize = 0;
        while i < 32
            invariant
                buf@.len() == i,
                0 <= i <= 32,
                data@.len() == 32,
                forall|k: int| 0 <= k < i ==> #[trigger] buf@[k] == data@[k],
            decreases 32 - i,
        {
            buf.push(data[i]);
            i += 1;
        }
        buf.push(x);
        buf.push(y);
        proof {
            assert(buf@ =~= data@ + seq![x, y]);
        }
        self.input = buf;
        self.absorbed = true;
    }

    /// Squeeze the next n bytes of the stream: bytes pos .. pos + n of
    /// the SHAKE-128 output for the absorbed input.
    pub fn squeeze(&mut self, n: usize) -> (r: Vec<u8>)
        requires
            old(self).absorbed,
            old(self).pos + n <= usize::MAX,
        ensures
            r@.len() == n,
            forall|i: int|
                0 <= i < n ==> #[trigger] r@[i] == shake128_stream(
                    old(self).input@,
                    old(self).pos + i,
                ),
            final(self).input@ == old(self).input@,
            final(self).pos == old(self).pos + n,
            final(self).absorbed,
            final(self).squeezing,
    {
        let total: usize = self.pos + n;
        let full = shake128(self.input.as_slice(), total);
        let mut out: Vec<u8> = Vec::new();
        let mut i: usize = 0;
        while i < n
            invariant
                out@.len() == i,
                0 <= i <= n,
                full@.len() == total,
                total == self.pos + n,
                self.pos + n <= usize::MAX,
                forall|k: int|
                    0 <= k < total ==> #[trigger] full@[k] == shake128_stream(self.input@, k),
                forall|k: int|
                    0 <= k < i ==> #[trigger] out@[k] == shake128_stream(
                        self.input@,
                        self.pos + k,
                    ),
            decreases n - i,
        {
            out.push(full[self.pos + i]);
            i += 1;
        }
        self.pos = self.pos + n;
        self.squeezing = true;
        out
    }
}

} // verus!
