use kyber_core::ntt::{basemul, fqmul, ZETAS};
use kyber_core::poly::Poly;
use kyber_core::reduce::{barrett_reduce, csubq, montgomery_reduce};
use rand::Rng;

const Q: i32 = 3329;

/// 2^16 mod q: the Montgomery factor that one forward-plus-inverse
/// transform leaves on every coefficient.
const MONT: i32 = 2285;

fn norm(x: i16) -> i16 {
    (((x as i32) % Q + Q) % Q) as i16
}

#[test]
fn test_montgomery_reduce_props() {
    let mut rng = rand::thread_rng();
    assert_eq!(montgomery_reduce(0), 0);
    for _ in 0..1000 {
        let a: i32 = rng.gen_range(-(Q * 32768)..=Q * 32768);
        let r = montgomery_reduce(a);
        assert!((r as i64 * 65536 - a as i64) % Q as i64 == 0);
        assert!(-Q <= r as i32 && r as i32 <= Q);
    }
}

#[test]
fn test_barrett_reduce_props() {
    let mut rng = rand::thread_rng();
    assert_eq!(barrett_reduce(3329), 0);
    assert_eq!(barrett_reduce(0), 0);
    for _ in 0..1000 {
        let a: i16 = rng.gen();
        let r = barrett_reduce(a);
        assert!((a as i32 - r as i32) % Q == 0);
        assert!(-1664 <= r && r <= 1664);
    }
}

#[test]
fn test_csubq() {
    assert_eq!(csubq(0), 0);
    assert_eq!(csubq(3328), 3328);
    assert_eq!(csubq(3329), 0);
    assert_eq!(csubq(6657), 3328);
}

#[test]
fn test_fqmul_is_montgomery_product() {
    let mut rng = rand::thread_rng();
    for _ in 0..1000 {
        let a: i16 = rng.gen_range(-3328..=3328);
        let b: i16 = rng.gen_range(-3328..=3328);
        let r = fqmul(a, b);
        assert!((r as i64 * 65536 - a as i64 * b as i64) % Q as i64 == 0);
    }
    // multiplying by 2^16 mod q cancels the Montgomery division exactly
    assert_eq!(norm(fqmul(MONT as i16, 1)), 1);
    assert_eq!(norm(fqmul(MONT as i16, 7)), 7);
}

#[test]
fn test_ntt_invntt_round_trip_unit_vector() {
    // the delta polynomial comes back scaled by the Montgomery factor
    let mut coeffs = vec![0i16; 256];
    coeffs[0] = 1;
    let mut p = Poly { coeffs };
    p.ntt();
    p.invntt();
    assert_eq!(norm(p.coeffs[0]), MONT as i16);
    for i in 1..256 {
        assert_eq!(norm(p.coeffs[i]), 0);
    }
}

#[test]
fn test_ntt_invntt_round_trip_random() {
    let mut rng = rand::thread_rng();
    for _ in 0..20 {
        let coeffs: Vec<i16> = (0..256).map(|_| rng.gen_range(0..3329)).collect();
        let orig = coeffs.clone();
        let mut p = Poly { coeffs };
        p.ntt();
        p.invntt();
        for i in 0..256 {
            let expect = ((orig[i] as i64 * MONT as i64) % Q as i64) as i16;
            assert_eq!(norm(p.coeffs[i]), expect);
        }
    }
}

#[test]
fn test_basemul_zero() {
    let r = basemul([0, 0], [0, 0], ZETAS[64]);
    assert_eq!(r, [0, 0]);
}

#[test]
fn test_basemul_congruence() {
    // (a0 + a1 X)(b0 + b1 X) mod (X^2 - z), with the Montgomery factor
    // 2^-16 on every product; 169 == 2^-16 mod q
    const RINV: i64 = 169;
    let qq = Q as i64;
    let mut rng = rand::thread_rng();
    for _ in 0..200 {
        let a = [rng.gen_range(0..3329i16), rng.gen_range(0..3329i16)];
        let b = [rng.gen_range(0..3329i16), rng.gen_range(0..3329i16)];
        let zm = ZETAS[64 + rng.gen_range(0..64usize)];
        let r = basemul(a, b, zm);
        let z = ((zm as i64 % qq + qq) % qq * RINV) % qq;
        let e0 = ((a[0] as i64 * b[0] as i64 % qq + a[1] as i64 * b[1] as i64 % qq * z % qq)
            % qq * RINV) % qq;
        let e1 = ((a[0] as i64 * b[1] as i64 + a[1] as i64 * b[0] as i64) % qq * RINV) % qq;
        assert_eq!((r[0] as i64 % qq + qq) % qq, e0);
        assert_eq!((r[1] as i64 % qq + qq) % qq, e1);
    }
}
