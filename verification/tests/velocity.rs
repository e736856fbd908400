use arcade_physics::collision::PROJECTILE_SPEED_BITS;
use arcade_physics::velocity::{Velocity, AMBIENT_SCROLL_BITS, INFINITY_BITS, SIGN_BIT, ZERO_BITS};

fn samples() -> Vec<f32> {
    let mut values = vec![
        0.0,
        -0.0,
        1.0,
        -1.0,
        3.0,
        -3.0,
        -4.0,
        2.0,
        0.07,
        -0.07,
        0.5,
        -0.5,
        -0.99,
        -1.01,
        1e-30,
        -1e-30,
        1e30,
        -1e30,
        f32::MIN_POSITIVE,
        -f32::MIN_POSITIVE,
        f32::MAX,
        f32::MIN,
        f32::INFINITY,
        f32::NEG_INFINITY,
        f32::NAN,
        -f32::NAN,
        f32::EPSILON,
        -f32::EPSILON,
    ];
    // The neighbours of minus one, of zero and of the infinities.
    for bits in [
        AMBIENT_SCROLL_BITS - 2,
        AMBIENT_SCROLL_BITS - 1,
        AMBIENT_SCROLL_BITS + 1,
        AMBIENT_SCROLL_BITS + 2,
        1,
        2,
        SIGN_BIT + 1,
        SIGN_BIT - 1,
        INFINITY_BITS - 1,
        INFINITY_BITS + 1,
        SIGN_BIT + INFINITY_BITS - 1,
        SIGN_BIT + INFINITY_BITS + 1,
        u32::MAX,
    ] {
        values.push(f32::from_bits(bits));
    }
    values
}

#[test]
fn named_patterns_decode_to_their_numbers() {
    assert_eq!(f32::from_bits(ZERO_BITS), 0.0);
    assert!(f32::from_bits(ZERO_BITS).is_sign_positive());
    assert_eq!(f32::from_bits(AMBIENT_SCROLL_BITS), -1.0);
    assert_eq!(f32::from_bits(PROJECTILE_SPEED_BITS), -10.0);
    assert_eq!(f32::from_bits(INFINITY_BITS), f32::INFINITY);
    assert_eq!(SIGN_BIT, (-0.0f32).to_bits());
    assert_eq!(Velocity::at_rest().to_bits(), 0.0f32.to_bits());
    assert_eq!(Velocity::scrolling().to_bits(), (-1.0f32).to_bits());
}

#[test]
fn bits_round_trip() {
    for v in samples() {
        assert_eq!(Velocity::from_bits(v.to_bits()).to_bits(), v.to_bits());
    }
}

#[test]
fn signum_agrees_with_single_precision() {
    for v in samples() {
        let expected = v.signum() as i32;
        assert_eq!(Velocity::from_bits(v.to_bits()).signum(), expected, "value {}", v);
    }
}

#[test]
fn signum_against_scroll_agrees_with_single_precision() {
    for v in samples() {
        let expected = (v + 1.0).signum() as i32;
        assert_eq!(
            Velocity::from_bits(v.to_bits()).signum_against_scroll(),
            expected,
            "value {}",
            v
        );
    }
}

#[test]
fn signum_of_chosen_values() {
    assert_eq!(Velocity::from_bits(3.0f32.to_bits()).signum(), 1);
    assert_eq!(Velocity::from_bits((-3.0f32).to_bits()).signum(), -1);
    assert_eq!(Velocity::from_bits(0.0f32.to_bits()).signum(), 1);
    assert_eq!(Velocity::from_bits((-0.0f32).to_bits()).signum(), -1);
    assert_eq!(Velocity::from_bits(f32::NAN.to_bits()).signum(), 0);
    assert_eq!(Velocity::from_bits((-1.0f32).to_bits()).signum_against_scroll(), 1);
    assert_eq!(Velocity::from_bits((-4.0f32).to_bits()).signum_against_scroll(), -1);
    assert_eq!(Velocity::from_bits(2.0f32.to_bits()).signum_against_scroll(), 1);
    assert_eq!(Velocity::from_bits(f32::NAN.to_bits()).signum_against_scroll(), 0);
}

#[test]
fn signum_agrees_on_a_sweep_of_patterns() {
    let mut bits: u32 = 0;
    loop {
        let v = f32::from_bits(bits);
        assert_eq!(Velocity::from_bits(bits).signum(), v.signum() as i32);
        assert_eq!(Velocity::from_bits(bits).signum_against_scroll(), (v + 1.0).signum() as i32);
        match bits.checked_add(0x0001_2345) {
            Some(next) => bits = next,
            None => break,
        }
    }
}

#[test]
fn truncation_agrees_with_single_precision() {
    for v in samples() {
        assert_eq!(Velocity::from_bits(v.to_bits()).truncate(), v as i32, "value {}", v);
    }
    for v in [
        0.999_999_94f32,
        1.0,
        1.5,
        1.999_999_9,
        2.0,
        -2.5,
        3.0,
        -4.0,
        -10.0,
        0.07,
        255.996,
        8_388_607.5,
        8_388_608.0,
        16_777_215.0,
        16_777_216.0,
        16_777_218.0,
        -33_554_432.0,
        2_147_483_520.0,
        2_147_483_648.0,
        -2_147_483_648.0,
        -2_147_483_904.0,
        4_294_967_296.0,
        1e20,
        -1e20,
    ] {
        assert_eq!(Velocity::from_bits(v.to_bits()).truncate(), v as i32, "value {}", v);
    }
}

#[test]
fn truncation_of_chosen_values() {
    assert_eq!(Velocity::from_bits(3.0f32.to_bits()).truncate(), 3);
    assert_eq!(Velocity::from_bits((-4.0f32).to_bits()).truncate(), -4);
    assert_eq!(Velocity::from_bits((-10.0f32).to_bits()).truncate(), -10);
    assert_eq!(Velocity::from_bits((-0.99f32).to_bits()).truncate(), 0);
    assert_eq!(Velocity::from_bits(2.9f32.to_bits()).truncate(), 2);
    assert_eq!(Velocity::from_bits((-2.9f32).to_bits()).truncate(), -2);
    assert_eq!(Velocity::from_bits(f32::NAN.to_bits()).truncate(), 0);
    assert_eq!(Velocity::from_bits(f32::INFINITY.to_bits()).truncate(), i32::MAX);
    assert_eq!(Velocity::from_bits(f32::NEG_INFINITY.to_bits()).truncate(), i32::MIN);
    assert_eq!(Velocity::from_bits(3e9f32.to_bits()).truncate(), i32::MAX);
    assert_eq!(Velocity::from_bits((-3e9f32).to_bits()).truncate(), i32::MIN);
}

#[test]
fn truncation_agrees_on_a_sweep_of_patterns() {
    let mut bits: u32 = 0;
    loop {
        let v = f32::from_bits(bits);
        assert_eq!(Velocity::from_bits(bits).truncate(), v as i32, "pattern {:#x}", bits);
        match bits.checked_add(0x0000_F123) {
            Some(next) => bits = next,
            None => break,
        }
    }
}
