use randr_info::numfmt::{i32_dec, u32_dec};

#[test]
fn zero_renders_as_single_digit() {
    assert_eq!(u32_dec(0).as_str(), "0");
    assert_eq!(i32_dec(0).as_str(), "0");
}

#[test]
fn multi_digit_values_render_without_leading_zeros() {
    assert_eq!(u32_dec(1080).as_str(), "1080");
    assert_eq!(u32_dec(1005).as_str(), "1005");
    assert_eq!(i32_dec(1920).as_str(), "1920");
}

#[test]
fn negative_values_carry_a_minus_sign() {
    assert_eq!(i32_dec(-1).as_str(), "-1");
    assert_eq!(i32_dec(-1920).as_str(), "-1920");
}

#[test]
fn extreme_values_render_exactly() {
    assert_eq!(u32_dec(u32::MAX).as_str(), "4294967295");
    assert_eq!(i32_dec(i32::MAX).as_str(), "2147483647");
    assert_eq!(i32_dec(i32::MIN).as_str(), "-2147483648");
}
