use apple_speech::rounding::{
    round_dyadic, round_half_even, round_half_up, round_ratio, LEAD_32, LEAD_64,
};

#[test]
fn ties_go_to_the_even_integer() {
    assert_eq!(round_half_even(1, 2), 0);
    assert_eq!(round_half_even(3, 2), 2);
    assert_eq!(round_half_even(5, 2), 2);
    assert_eq!(round_half_even(7, 3), 2);
    assert_eq!(round_half_even(8, 3), 3);
}

#[test]
fn ties_go_upward() {
    assert_eq!(round_half_up(1, 2), 1);
    assert_eq!(round_half_up(5, 2), 3);
    assert_eq!(round_half_up(7, 3), 2);
    assert_eq!(round_half_up(0, 7), 0);
}

#[test]
fn quotients_are_rounded_as_doubles() {
    for num in 1..200u32 {
        for den in 1..200u32 {
            let (n, d) = round_ratio(num as u128, den as u128, LEAD_64);
            assert_eq!(n as f64 / d as f64, num as f64 / den as f64);
        }
    }
}

#[test]
fn products_are_rounded_as_floats() {
    for bits in (0x3f00_0000u32..0x3f80_0000).step_by(9_973) {
        let significand = (bits & 0x7f_ffff | 0x80_0000) as u128;
        let (n, d) = round_dyadic(significand * 32_767, 1 << 24, LEAD_32);
        assert_eq!(n as f32 / d as f32, f32::from_bits(bits) * 32_767.0);
    }
}
