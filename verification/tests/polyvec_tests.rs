use kyber_core::poly::Poly;
use kyber_core::polyvec::PolyVec;
use rand::Rng;

fn random_poly() -> Poly {
    let mut rng = rand::thread_rng();
    let mut coeffs: Vec<i16> = vec![0i16; 256];
    for c in coeffs.iter_mut() {
        let v: i16 = rng.gen();
        *c = (v as u16 % 3329u16) as i16;
    }
    Poly { coeffs }
}

fn random_polyvec(k: usize) -> PolyVec {
    let mut vec = Vec::new();
    for _ in 0..k {
        vec.push(random_poly());
    }
    PolyVec { vec }
}

#[test]
fn test_to_from_bytes() {
    let pv = random_polyvec(3);
    let mut outbuf = vec![0u8; 3 * 384];

    pv.to_bytes(&mut outbuf);
    let pv2 = PolyVec::from_bytes(&outbuf, 3);
    assert_eq!(pv, pv2);
}

#[test]
fn test_vector_compress_round_trip() {
    // the 10-bit and 11-bit ciphertext codecs are idempotent after the
    // first application
    for k in [2usize, 3] {
        let pv = random_polyvec(k);
        let mut b = vec![0u8; k * 320];
        pv.compress_into(&mut b);
        let pv2 = PolyVec::decompress(&b, k);
        let mut b2 = vec![0u8; k * 320];
        pv2.compress_into(&mut b2);
        assert_eq!(b, b2);
    }
    let pv = random_polyvec(4);
    let mut b = vec![0u8; 4 * 352];
    pv.compress_into(&mut b);
    let pv2 = PolyVec::decompress(&b, 4);
    let mut b2 = vec![0u8; 4 * 352];
    pv2.compress_into(&mut b2);
    assert_eq!(b, b2);
}

#[test]
fn test_vector_compress_error_bounds() {
    fn s_mod_q(x: i16) -> i16 {
        let x = x % 3329;
        if x >= 1664 {
            x - 3329
        } else {
            x
        }
    }
    for k in [2usize, 3] {
        let pv = random_polyvec(k);
        let mut b = vec![0u8; k * 320];
        pv.compress_into(&mut b);
        let pv2 = PolyVec::decompress(&b, k);
        for (p, p2) in pv.vec.iter().zip(pv2.vec.iter()) {
            for (l, r) in p.coeffs.iter().zip(p2.coeffs.iter()) {
                assert!(s_mod_q(l - r).unsigned_abs() <= 2);
            }
        }
    }
}
