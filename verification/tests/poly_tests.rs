use kyber_core::poly::Poly;
use rand::Rng;

fn random_poly() -> Poly {
    let mut rng = rand::thread_rng();
    let mut coeffs: Vec<i16> = vec![0i16; 256];
    for c in coeffs.iter_mut() {
        let v: i16 = rng.gen();
        *c = (v as u16 % 3329u16) as i16;
    }
    Poly { coeffs }
}

fn s_mod_q(x: i16) -> i16 {
    const Q: i16 = 3329;
    let x = x % Q;
    if x >= (Q - 1) / 2 {
        x - Q
    } else {
        x
    }
}

#[test]
fn test_new() {
    let _ = Poly::zero();
    let _ = Poly::zero();
    let _ = Poly::zero();
}

#[test]
fn test_poly_compress_calls() {
    let poly = Poly::zero();
    let mut outbuf = vec![0u8; 128];
    poly.compress_into(&mut outbuf);

    let poly = Poly::zero();
    let mut outbuf = vec![0u8; 128];
    poly.compress_into(&mut outbuf);

    let poly = Poly::zero();
    let mut outbuf = vec![0u8; 160];
    poly.compress_into(&mut outbuf);
}

#[test]
fn test_compress_decompress_2() {
    let poly = random_poly();
    let mut outbuf = vec![0u8; 128];
    poly.compress_into(&mut outbuf);
    println!("{:x?}", outbuf);
    let poly2 = Poly::decompress(&outbuf);

    for (l, r) in poly.coeffs.iter().copied().zip(poly2.coeffs.iter().copied()) {
        const BOUND: u16 = (3329u16 + 1 << 4) >> 5;

        let diff = s_mod_q(l - r).unsigned_abs();
        assert!(diff < BOUND, "|{} - {} mod^± q| = {} > {}", l, r, diff, BOUND);
    }
}

#[test]
fn test_compress_decompress_4() {
    let poly = random_poly();
    let mut outbuf = vec![0u8; 160];
    poly.compress_into(&mut outbuf);
    println!("{:x?}", outbuf);
    let poly2 = Poly::decompress(&outbuf);

    for (l, r) in poly.coeffs.iter().copied().zip(poly2.coeffs.iter().copied()) {
        const BOUND: u16 = (3329u16 + 1 << 5) >> 6;

        let diff = s_mod_q(l - r).unsigned_abs();
        assert!(diff < BOUND, "|{} - {} mod^± q| = {} > {}", l, r, diff, BOUND);
    }
}

#[test]
fn test_arithmetic() {
    let zeros = Poly::zero();
    let random = Poly::zero();

    assert_eq!(random, random.add(&zeros));
    assert_eq!(random, random.sub(&zeros));
    assert_eq!(random, zeros.add(&random).sub(&random));
    assert_eq!(zeros, random.sub(&random));
    assert_eq!(random, random.sub(&zeros));
    assert_eq!(random, random.sub(&zeros));
}

#[test]
fn test_serialization() {
    let start = random_poly();
    let mut out = vec![0u8; 384];
    start.to_bytes(&mut out);
    let poly2 = Poly::from_bytes(&out);
    assert_eq!(start, poly2);
}

#[test]
fn test_compress_error_bounds() {
    // the centered distance after one compress/decompress round trip is
    // at most ceil(q / 2^(d+1)): 105 for the 4-bit codec, 53 for 5-bit
    for _ in 0..50 {
        let poly = random_poly();
        let mut b4 = vec![0u8; 128];
        poly.compress_into(&mut b4);
        let p4 = Poly::decompress(&b4);
        for (l, r) in poly.coeffs.iter().zip(p4.coeffs.iter()) {
            assert!(s_mod_q(l - r).unsigned_abs() <= 105);
        }
        let mut b5 = vec![0u8; 160];
        poly.compress_into(&mut b5);
        let p5 = Poly::decompress(&b5);
        for (l, r) in poly.coeffs.iter().zip(p5.coeffs.iter()) {
            assert!(s_mod_q(l - r).unsigned_abs() <= 53);
        }
    }
}

#[test]
fn test_compress_idempotent() {
    // decompress then compress returns the compressed bytes unchanged
    let mut rng = rand::thread_rng();
    for _ in 0..20 {
        let b4: Vec<u8> = (0..128).map(|_| rng.gen()).collect();
        let p = Poly::decompress(&b4);
        let mut again = vec![0u8; 128];
        p.compress_into(&mut again);
        assert_eq!(b4, again);

        let b5: Vec<u8> = (0..160).map(|_| rng.gen()).collect();
        let p = Poly::decompress(&b5);
        let mut again = vec![0u8; 160];
        p.compress_into(&mut again);
        assert_eq!(b5, again);
    }
}

#[test]
fn test_serialization_exact_bytes() {
    // coefficients (1, 2) pack as 0x01, 0x20, 0x00
    let mut coeffs = vec![0i16; 256];
    coeffs[0] = 1;
    coeffs[1] = 2;
    let p = Poly { coeffs };
    let mut out = vec![0u8; 384];
    p.to_bytes(&mut out);
    assert_eq!(out[0], 0x01);
    assert_eq!(out[1], 0x20);
    assert_eq!(out[2], 0x00);
    assert_eq!(&out[3..], &vec![0u8; 381][..]);
}

#[test]
fn test_msg_round_trip() {
    let mut rng = rand::thread_rng();
    for _ in 0..20 {
        let msg: Vec<u8> = (0..32).map(|_| rng.gen()).collect();
        let p = Poly::from_msg(&msg);
        assert_eq!(p.to_msg(), msg);
    }
}
