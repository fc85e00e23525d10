use chaosregen::gf::{gf_inv, gf_mul, gf_pow};

#[test]
fn inverse_roundtrip() {
    for a in 1u8..=255 {
        let inv = gf_inv(a);
        assert_eq!(gf_mul(a, inv), 1, "{}", a);
    }
}

#[test]
fn gf_inverse_of_zero_is_zero() {
    assert_eq!(gf_inv(0), 0);
}

#[test]
fn gf_mul_known_products() {
    assert_eq!(gf_mul(0x57, 0x83), 0xc1);
    assert_eq!(gf_mul(0x57, 0x13), 0xfe);
    assert_eq!(gf_mul(0x57, 0x01), 0x57);
    assert_eq!(gf_mul(0x00, 0xff), 0x00);
}

#[test]
fn gf_mul_commutes_on_samples() {
    for a in [0u8, 1, 2, 3, 0x53, 0x80, 0xff] {
        for b in [0u8, 1, 7, 0x1b, 0xca, 0xfe] {
            assert_eq!(gf_mul(a, b), gf_mul(b, a));
        }
    }
}

#[test]
fn gf_known_inverses() {
    assert_eq!(gf_inv(0x53), 0xca);
    assert_eq!(gf_inv(3), 0xf6);
    assert_eq!(gf_inv(1), 1);
}

#[test]
fn gf_pow_values() {
    assert_eq!(gf_pow(2, 8), 0x1b);
    assert_eq!(gf_pow(0x57, 0), 1);
    assert_eq!(gf_pow(3, 255), 1);
    assert_eq!(gf_pow(0, 5), 0);
    assert_eq!(gf_pow(3, 2), 5);
}
