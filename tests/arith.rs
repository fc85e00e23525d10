use chaosregen::arith::{
    modular_forward, modular_inverse, modular_inverse_map, Arithmetic, PRIME_FIRST, PRIME_SECOND,
    PRIME_THIRD,
};

#[test]
fn modular_inverse_map_finds_first_candidate() {
    assert_eq!(modular_inverse_map(1, 251, 257), 214);
    assert_eq!(modular_inverse_map(0, 251, 257), 0);
    assert_eq!(modular_inverse_map(251, 251, 257), 1);
    // 2 * c mod 3 never reaches 255
    assert_eq!(modular_inverse_map(255, 2, 3), 0);
}

#[test]
fn modular_step_round_trips_every_byte() {
    for p in [PRIME_FIRST, PRIME_SECOND, PRIME_THIRD] {
        for x in 0u8..=255 {
            assert_eq!(modular_inverse(modular_forward(x, p), p), x, "p={} x={}", p, x);
        }
    }
}

#[test]
fn modular_step_is_a_bijection() {
    for p in [PRIME_FIRST, PRIME_SECOND, PRIME_THIRD] {
        let mut seen = [false; 256];
        for x in 0u8..=255 {
            let y = modular_forward(x, p) as usize;
            assert!(!seen[y]);
            seen[y] = true;
        }
    }
}

#[test]
fn modular_collision_bytes() {
    // 43 * 251 = 256 (mod 257): sent to 257 - 251 instead of colliding with 0
    assert_eq!((43u32 * 251) % 257, 256);
    assert_eq!(modular_forward(43, 251), 6);
    assert_eq!(modular_inverse(6, 251), 43);
    assert_eq!((241u32 * 241) % 257, 256);
    assert_eq!(modular_forward(241, 241), 16);
    assert_eq!(modular_inverse(16, 241), 241);
    assert_eq!((100u32 * 239) % 257, 256);
    assert_eq!(modular_forward(100, 239), 18);
    assert_eq!(modular_inverse(18, 239), 100);
    assert_eq!(modular_forward(0, 251), 0);
    assert_eq!(modular_inverse(0, 251), 0);
}

#[test]
fn modular_forward_values() {
    assert_eq!(modular_forward(1, 251), 251);
    assert_eq!(modular_forward(2, 251), 245);
    assert_eq!(modular_forward(3, 251), 239);
}

#[test]
fn strategy_budgets_and_params() {
    assert_eq!(Arithmetic::Modular.pass_budget(), 3);
    assert_eq!(Arithmetic::Field.pass_budget(), 1);
    assert_eq!(Arithmetic::Modular.param(0), 251);
    assert_eq!(Arithmetic::Modular.param(1), 241);
    assert_eq!(Arithmetic::Modular.param(2), 239);
    assert_eq!(Arithmetic::Field.param(0), 3);
}

#[test]
fn strategy_steps_round_trip() {
    for x in 0u8..=255 {
        let y = Arithmetic::Field.forward_step(x, 0);
        assert_eq!(Arithmetic::Field.inverse_step(y, 0), x);
        for i in 0..3 {
            let y = Arithmetic::Modular.forward_step(x, i);
            assert_eq!(Arithmetic::Modular.inverse_step(y, i), x);
        }
    }
    assert_eq!(Arithmetic::Field.forward_step(2, 0), 6);
}
