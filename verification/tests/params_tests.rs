use kyber_core::params::{
    kyber_eta1, kyber_indcpa_pkbytes, kyber_indcpa_skbytes, kyber_poly_compressed_bytes,
    kyber_polyvec_bytes, kyber_polyvec_compressed_bytes,
};

#[test]
fn test_derived_constants() {
    assert_eq!(kyber_polyvec_compressed_bytes(2), 640);
    assert_eq!(kyber_polyvec_compressed_bytes(3), 960);
    assert_eq!(kyber_polyvec_compressed_bytes(4), 1408);
    assert_eq!(kyber_poly_compressed_bytes(2), 128);
    assert_eq!(kyber_poly_compressed_bytes(3), 128);
    assert_eq!(kyber_poly_compressed_bytes(4), 160);
    assert_eq!(kyber_polyvec_bytes(2), 768);
    assert_eq!(kyber_polyvec_bytes(3), 1152);
    assert_eq!(kyber_polyvec_bytes(4), 1536);
    assert_eq!(kyber_eta1(2), 3);
    assert_eq!(kyber_eta1(3), 2);
    assert_eq!(kyber_eta1(4), 2);
    assert_eq!(kyber_indcpa_pkbytes(2), 800);
    assert_eq!(kyber_indcpa_pkbytes(3), 1184);
    assert_eq!(kyber_indcpa_pkbytes(4), 1568);
    assert_eq!(kyber_indcpa_skbytes(2), 768);
    assert_eq!(kyber_indcpa_skbytes(3), 1152);
    assert_eq!(kyber_indcpa_skbytes(4), 1536);
}
