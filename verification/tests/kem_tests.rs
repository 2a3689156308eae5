use kyber_core::kem::{decaps, encaps, keypair};
use rand::Rng;

fn random_array(n: usize) -> Vec<u8> {
    let mut rng = rand::thread_rng();
    (0..n).map(|_| rng.gen()).collect()
}

#[test]
fn test_kyber512_zero_seed() {
    // seed of 32 zero bytes at security level K = 2
    let seed = vec![0u8; 32];
    let (pk, sk) = keypair(&seed, 2);
    assert_eq!(pk.as_bytes().len(), 800);
    assert_eq!(sk.as_bytes().len(), 768);
    let msg = vec![0x55u8; 32];
    let coins = vec![0xAAu8; 32];
    let (ct, ss) = encaps(&pk, &msg, &coins, 2);
    assert_eq!(ct.as_bytes().len(), 768);
    assert_eq!(ss.as_bytes().len(), 32);
    let ss2 = decaps(&sk, &ct, 2);
    assert_eq!(ss.as_bytes(), ss2.as_bytes());
}

#[test]
fn test_kyber768_ones_seed() {
    // seed of 32 bytes 0x01 at security level K = 3, coins all 0x02
    let seed = vec![0x01u8; 32];
    let (pk, sk) = keypair(&seed, 3);
    assert_eq!(pk.as_bytes().len(), 1184);
    assert_eq!(sk.as_bytes().len(), 1152);
    let msg = vec![0x03u8; 32];
    let coins = vec![0x02u8; 32];
    let (ct, ss) = encaps(&pk, &msg, &coins, 3);
    assert_eq!(ct.as_bytes().len(), 1088);
    assert_eq!(ss.as_bytes().len(), 32);
    let ss2 = decaps(&sk, &ct, 3);
    assert_eq!(ss.as_bytes(), ss2.as_bytes());
}

#[test]
fn test_kyber1024_fixed_seed() {
    // a fixed test seed at security level K = 4
    let seed: Vec<u8> = (0u8..32).collect();
    let (pk, sk) = keypair(&seed, 4);
    assert_eq!(pk.as_bytes().len(), 1568);
    assert_eq!(sk.as_bytes().len(), 1536);
    let msg: Vec<u8> = (32u8..64).collect();
    let coins: Vec<u8> = (64u8..96).collect();
    let (ct, ss) = encaps(&pk, &msg, &coins, 4);
    assert_eq!(ct.as_bytes().len(), 1568);
    assert_eq!(ss.as_bytes().len(), 32);
    let ss2 = decaps(&sk, &ct, 4);
    assert_eq!(ss.as_bytes(), ss2.as_bytes());
}

#[test]
fn test_encaps_decaps_random() {
    for k in [2usize, 3, 4] {
        let seed = random_array(32);
        let msg = random_array(32);
        let coins = random_array(32);
        let (pk, sk) = keypair(&seed, k);
        let (ct, ss) = encaps(&pk, &msg, &coins, k);
        let ss2 = decaps(&sk, &ct, k);
        assert_eq!(ss.as_bytes(), ss2.as_bytes());
        assert_eq!(ss.as_bytes(), &msg);
    }
}
