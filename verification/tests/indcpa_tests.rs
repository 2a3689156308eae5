use kyber_core::indcpa::{indcpa_dec, indcpa_enc, indcpa_keypair, pack_pk, rej_uniform, unpack_pk};
use kyber_core::poly::Poly;
use kyber_core::polyvec::PolyVec;
use rand::Rng;

fn random_poly() -> Poly {
    let mut rng = rand::thread_rng();
    let mut coeffs: Vec<i16> = vec![0i16; 256];
    for c in coeffs.iter_mut() {
        let v: i16 = rng.gen();
        *c = (v as u16 % 3329u16) as i16;
    }
    Poly { coeffs }
}

fn random_array(n: usize) -> Vec<u8> {
    let mut rng = rand::thread_rng();
    (0..n).map(|_| rng.gen()).collect()
}

#[test]
fn test_pack_unpack() {
    const K: usize = 3;
    let mut vec = Vec::new();
    for _ in 0..K {
        vec.push(random_poly());
    }
    let pk = PolyVec { vec };
    let seed = random_array(32);

    let mut output = vec![0u8; K * 384 + 32];
    pack_pk(&pk, &seed, &mut output);

    let (pk2, seed2) = unpack_pk(&output, K);

    assert_eq!(pk, pk2);
    assert_eq!(seed, seed2);
}

#[test]
fn test_rej_uniform_micro_vector() {
    // triples (0,0,0), (1,0,0), (ff,ff,ff): candidates 0, 0, 1, 0,
    // then 0xfff twice, both rejected
    let input = vec![0x00, 0x00, 0x00, 0x01, 0x00, 0x00, 0xFF, 0xFF, 0xFF];
    let mut r = vec![0i16; 3];
    let ctr = rej_uniform(&input, &mut r, 0);
    assert_eq!(ctr, 3);
    assert_eq!(r, vec![0, 0, 1]);

    let mut r = vec![-1i16; 8];
    let ctr = rej_uniform(&input, &mut r, 0);
    assert_eq!(ctr, 4);
    assert_eq!(&r[..4], &[0, 0, 1, 0]);
    assert_eq!(&r[4..], &[-1, -1, -1, -1]);
}

#[test]
fn test_rej_uniform_offset() {
    let input = vec![0x05, 0x00, 0x00];
    let mut r = vec![7i16; 4];
    let ctr = rej_uniform(&input, &mut r, 2);
    assert_eq!(ctr, 2);
    assert_eq!(r, vec![7, 7, 5, 0]);
}

#[test]
fn test_keypair_lengths() {
    for k in [2usize, 3, 4] {
        let seed = random_array(32);
        let (pk, sk) = indcpa_keypair(&seed, k);
        assert_eq!(pk.len(), k * 384 + 32);
        assert_eq!(sk.len(), k * 384);
    }
}

#[test]
fn test_keypair_deterministic() {
    let seed = random_array(32);
    let (pk1, sk1) = indcpa_keypair(&seed, 3);
    let (pk2, sk2) = indcpa_keypair(&seed, 3);
    assert_eq!(pk1, pk2);
    assert_eq!(sk1, sk2);
}

#[test]
fn test_enc_dec_round_trip_all_k() {
    for k in [2usize, 3, 4] {
        for _ in 0..3 {
            let seed = random_array(32);
            let msg = random_array(32);
            let coins = random_array(32);
            let (pk, sk) = indcpa_keypair(&seed, k);
            let ct = indcpa_enc(&pk, &msg, &coins, k);
            let recovered = indcpa_dec(&sk, &ct, k);
            assert_eq!(recovered, msg);
        }
    }
}
