use chaosregen::arith::Arithmetic;
use chaosregen::masks::{prng_mask, Masks, PHI_SEED, PI_SEED};
use chaosregen::pass::{forward_pass, inverse_pass, swap_pairs, xor_in_place};

#[test]
fn forward_pass_even_length_swaps_pairs() {
    let mut data = vec![1u8, 2];
    let zeros = vec![0u8; 2];
    forward_pass(&mut data, &zeros, &zeros, &zeros, Arithmetic::Modular, 0);
    assert_eq!(data, vec![245, 251]);
}

#[test]
fn forward_pass_odd_length_keeps_order() {
    let mut data = vec![1u8, 2, 3];
    let zeros = vec![0u8; 3];
    forward_pass(&mut data, &zeros, &zeros, &zeros, Arithmetic::Modular, 0);
    assert_eq!(data, vec![251, 245, 239]);
}

#[test]
fn forward_pass_field_mode() {
    let mut data = vec![1u8, 2];
    let zeros = vec![0u8; 2];
    forward_pass(&mut data, &zeros, &zeros, &zeros, Arithmetic::Field, 0);
    assert_eq!(data, vec![6, 3]);
}

#[test]
fn forward_pass_applies_masks() {
    let mut data = vec![0u8, 0];
    forward_pass(&mut data, &[1, 0], &[0, 0x10], &[0xff, 0], Arithmetic::Modular, 0);
    // 1 -> 251, 0 -> 0; phi gives [251, 0x10]; swap [0x10, 251]; logistic [0xef, 251]
    assert_eq!(data, vec![0xef, 251]);
}

#[test]
fn pass_round_trip_all_params() {
    let n = 777;
    let data: Vec<u8> = (0..n).map(|i| (i * 37 % 256) as u8).collect();
    let pi = prng_mask(PI_SEED, n);
    let phi = prng_mask(PHI_SEED, n);
    let lg: Vec<u8> = (0..n).map(|i| (i % 7) as u8).collect();
    for (arith, params) in [(Arithmetic::Modular, 3), (Arithmetic::Field, 1)] {
        for p in 0..params {
            for len in [n, n - 1] {
                let mut z = data[..len].to_vec();
                forward_pass(&mut z, &pi[..len], &phi[..len], &lg[..len], arith, p);
                assert_ne!(z, data[..len].to_vec());
                inverse_pass(&mut z, &pi[..len], &phi[..len], &lg[..len], arith, p);
                assert_eq!(z, data[..len].to_vec());
            }
        }
    }
}

#[test]
fn xor_and_swap_helpers() {
    let mut d = vec![1u8, 2, 3, 4];
    xor_in_place(&mut d, &[1, 1, 1, 1]);
    assert_eq!(d, vec![0, 3, 2, 5]);
    swap_pairs(&mut d);
    assert_eq!(d, vec![3, 0, 5, 2]);
    let mut odd = vec![1u8, 2, 3];
    swap_pairs(&mut odd);
    assert_eq!(odd, vec![1, 2, 3]);
}

#[test]
fn masks_are_reproducible() {
    let a = prng_mask(PI_SEED, 64);
    let b = prng_mask(PI_SEED, 64);
    assert_eq!(a.len(), 64);
    assert_eq!(a, b);
    assert_ne!(a, prng_mask(PHI_SEED, 64));
    let m = Masks::new(64, vec![7u8; 64]);
    assert_eq!(m.pi, a);
    assert_eq!(m.phi, prng_mask(PHI_SEED, 64));
    assert_eq!(m.logistic, vec![7u8; 64]);
    assert!(prng_mask(PI_SEED, 0).is_empty());
}
