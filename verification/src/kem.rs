//! Key encapsulation over the INDCPA core. The enclosing
//! Fujisaki-Okamoto transform and the acquisition of randomness are
//! outside the core: callers supply seeds, messages and coins, and the
//! shared secret is the encapsulated message itself.

use vstd::prelude::*;

verus! {

use crate::indcpa::{
    copy_range, dec_msg_spec, enc_u_ok, enc_v_spec, indcpa_dec, indcpa_enc, indcpa_keypair,
    keypair_pk_ok, sk_bytes_spec,
};
use crate::poly::{poly_compress4_spec, poly_compress5_spec};
use crate::params::valid_k;
use crate::symmetric::sha3_512_spec;

/// A Kyber public key: the packed public vector followed by the public
/// seed.
pub struct PublicKey {
    pub bytes: Vec<u8>,
}

impl View for PublicKey {
    type V = Seq<u8>;

    open spec fn view(&self) -> Seq<u8> {
        self.bytes@
    }
}

/// A Kyber secret key: the packed secret vector.
pub struct SecretKey {
    pub bytes: Vec<u8>,
}

impl View for SecretKey {
    type V = Seq<u8>;

    open spec fn view(&self) -> Seq<u8> {
        self.bytes@
    }
}

/// A ciphertext: the compressed vector u followed by the compressed
/// polynomial v.
pub struct Ciphertext {
    pub bytes: Vec<u8>,
}

impl View for Ciphertext {
    type V = Seq<u8>;

    open spec fn view(&self) -> Seq<u8> {
        self.bytes@
    }
}

/// A 32-byte shared secret.
pub struct SharedSecret {
    pub bytes: Vec<u8>,
}

impl View for SharedSecret {
    type V = Seq<u8>;

    open spec fn view(&self) -> Seq<u8> {
        self.bytes@
    }
}

impl PublicKey {
    /// The key as bytes.
    pub fn as_bytes(&self) -> (r: &Vec<u8>)
        ensures
            r@ == self@,
    {
        &self.bytes
    }
}

impl SecretKey {
    /// The key as bytes.
    pub fn as_bytes(&self) -> (r: &Vec<u8>)
        ensures
            r@ == self@,
    {
        &self.bytes
    }
}

impl Ciphertext {
    /// The ciphertext as bytes.
    pub fn as_bytes(&self) -> (r: &Vec<u8>)
        ensures
            r@ == self@,
    {
        &self.bytes
    }
}

impl SharedSecret {
    /// The secret as bytes.
    pub fn as_bytes(&self) -> (r: &Vec<u8>)
        ensures
            r@ == self@,
    {
        &self.bytes
    }
}

/// Generate a keypair for security level K from a 32-byte seed.
pub fn keypair(seed: &Vec<u8>, k: usize) -> (r: (PublicKey, SecretKey))
    requires
        valid_k(k),
        seed@.len() == 32,
    ensures
        r.0@.len() == k * 384 + 32,
        r.1@.len() == k * 384,
        r.0@.skip((k * 384) as int) == sha3_512_spec(seed@).take(32),
        r.1@ == sk_bytes_spec(seed@, k as int),
        keypair_pk_ok(seed@, k as int, r.0@),
{
    let (pk, sk) = indcpa_keypair(seed, k);
    (PublicKey { bytes: pk }, SecretKey { bytes: sk })
}

/// Encapsulate a 32-byte message under a public key with the given
/// coins. The shared secret is the message itself; hashing it into a
/// session key belongs to the enclosing transform.
pub fn encaps(pk: &PublicKey, msg: &Vec<u8>, coins: &Vec<u8>, k: usize) -> (r: (
    Ciphertext,
    SharedSecret,
))
    requires
        valid_k(k),
        pk@.len() == k * 384 + 32,
        msg@.len() == 32,
        coins@.len() == 32,
    ensures
        k == 4 ==> r.0@.len() == 4 * 352 + 160int,
        k < 4 ==> r.0@.len() == k * 320 + 128,
        k == 4 ==> r.0@.skip(4 * 352int) == poly_compress5_spec(enc_v_spec(pk@, msg@, coins@, 4)),
        k < 4 ==> r.0@.skip((k * 320) as int) == poly_compress4_spec(
            enc_v_spec(pk@, msg@, coins@, k as int),
        ),
        enc_u_ok(pk@, coins@, k as int, r.0@),
        r.1@ == msg@,
{
    let ct = indcpa_enc(pk.as_bytes(), msg, coins, k);
    let ss = copy_range(msg, 0, 32);
    proof {
        assert(ss@ =~= msg@);
    }
    (Ciphertext { bytes: ct }, SharedSecret { bytes: ss })
}

/// Decapsulate a ciphertext with a secret key, recovering the shared
/// secret that `encaps` embedded.
pub fn decaps(sk: &SecretKey, ct: &Ciphertext, k: usize) -> (r: SharedSecret)
    requires
        valid_k(k),
        sk@.len() == k * 384,
        k == 4 ==> ct@.len() == 4 * 352 + 160int,
        k < 4 ==> ct@.len() == k * 320 + 128,
    ensures
        r@.len() == 32,
        r@ == dec_msg_spec(sk@, ct@, k as int),
{
    let msg = indcpa_dec(sk.as_bytes(), ct.as_bytes(), k);
    SharedSecret { bytes: msg }
}

} // verus!
