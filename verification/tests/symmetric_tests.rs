use kyber_core::cbd::{cbd2, cbd3};
use kyber_core::symmetric::{hash_g, hash_h, shake128, shake256, XofState};
use rand::Rng;

fn random_array(n: usize) -> Vec<u8> {
    let mut rng = rand::thread_rng();
    (0..n).map(|_| rng.gen()).collect()
}

#[test]
fn test_hashes() {
    let data = random_array(10);

    hash_h(&data[..]);
    hash_g(&data[..]);
}

#[test]
fn test_hash_lengths_and_determinism() {
    let data = random_array(32);
    let h1 = hash_h(&data[..]);
    let h2 = hash_h(&data[..]);
    assert_eq!(h1.len(), 32);
    assert_eq!(h1, h2);
    let g1 = hash_g(&data[..]);
    let g2 = hash_g(&data[..]);
    assert_eq!(g1.len(), 64);
    assert_eq!(g1, g2);
    assert_ne!(&g1[..32], &h1[..]);
}

#[test]
fn test_shake_prefix_consistency() {
    // a longer squeeze extends a shorter one byte for byte
    let data = random_array(34);
    let a = shake128(&data[..], 100);
    let b = shake128(&data[..], 300);
    assert_eq!(&a[..], &b[..100]);
    let c = shake256(&data[..], 100);
    let d = shake256(&data[..], 300);
    assert_eq!(&c[..], &d[..100]);
    assert_ne!(a, c);
}

#[test]
fn test_xof_state_matches_one_shot() {
    let seed = random_array(32);
    let mut xof = XofState::new();
    xof.absorb(&seed, 7, 9);
    let first = xof.squeeze(100);
    let second = xof.squeeze(68);
    let mut input = seed.clone();
    input.push(7);
    input.push(9);
    let whole = shake128(&input[..], 168);
    assert_eq!(&first[..], &whole[..100]);
    assert_eq!(&second[..], &whole[100..]);
}

#[test]
fn test_cbd2_known_values() {
    // byte 0x01: first coefficient 1, second 0; all-zero input gives 0
    let mut input = vec![0u8; 128];
    input[0] = 0x01;
    let p = cbd2(&input);
    assert_eq!(p.coeffs[0], 1);
    assert_eq!(p.coeffs[1], 0);
    assert_eq!(&p.coeffs[2..], &vec![0i16; 254][..]);

    // byte 0x0C: bits 2 and 3 set, first coefficient 0 - 2 = -2
    let mut input = vec![0u8; 128];
    input[0] = 0x0C;
    let p = cbd2(&input);
    assert_eq!(p.coeffs[0], -2);
}

#[test]
fn test_cbd3_known_values() {
    // first 3-byte group 0x07, 0, 0: bits 0..2 set, coefficient 3 - 0
    let mut input = vec![0u8; 192];
    input[0] = 0x07;
    let p = cbd3(&input);
    assert_eq!(p.coeffs[0], 3);
    assert_eq!(p.coeffs[1], 0);

    // bits 3..5 set: coefficient 0 - 3
    let mut input = vec![0u8; 192];
    input[0] = 0x38;
    let p = cbd3(&input);
    assert_eq!(p.coeffs[0], -3);
}

#[test]
fn test_cbd_ranges() {
    let input = random_array(128);
    let p = cbd2(&input);
    for c in p.coeffs.iter() {
        assert!(-2 <= *c && *c <= 2);
    }
    let input = random_array(192);
    let p = cbd3(&input);
    for c in p.coeffs.iter() {
        assert!(-3 <= *c && *c <= 3);
    }
}
