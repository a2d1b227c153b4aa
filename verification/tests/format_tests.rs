use uni_listen::abi::SwapInput;
use uni_listen::address::Address;
use uni_listen::decimal::{decimal_string, format_quantity};
use uni_listen::format::{format_side, format_swap};
use uni_listen::tokens::{TokenMetadata, TokenResolver};

fn token() -> [u8; 20] {
    [0x22; 20]
}

fn resolver_with_token(symbol: &str, decimals: u8) -> TokenResolver {
    let mut resolver = TokenResolver::new();
    resolver.insert(
        Address { bytes: token() },
        TokenMetadata { symbol: symbol.to_string(), decimals },
    );
    resolver
}

#[test]
fn quantity_drops_trailing_fractional_zeros() {
    assert_eq!(format_quantity(1_500_000, 6), "1.5");
}

#[test]
fn quantity_of_a_whole_amount_has_no_point() {
    assert_eq!(format_quantity(5_000_000_000_000_000_000, 18), "5");
}

#[test]
fn quantity_below_one_keeps_a_zero_integer_part() {
    assert_eq!(format_quantity(100, 18), "0.0000000000000001");
    assert_eq!(format_quantity(1, 6), "0.000001");
}

#[test]
fn quantity_at_scale_zero_is_the_integer() {
    assert_eq!(format_quantity(1234, 0), "1234");
    assert_eq!(format_quantity(0, 0), "0");
}

#[test]
fn quantity_of_zero_is_zero_at_any_scale() {
    assert_eq!(format_quantity(0, 18), "0");
    assert_eq!(format_quantity(0, 6), "0");
}

#[test]
fn quantity_keeps_every_significant_digit() {
    assert_eq!(format_quantity(1_234_567, 6), "1.234567");
    assert_eq!(
        format_quantity(u128::MAX, 6),
        "340282366920938463463374607431768.211455"
    );
}

#[test]
fn quantity_with_scale_beyond_the_digits_pads_with_zeros() {
    let expected = format!("0.{}5", "0".repeat(39));
    assert_eq!(format_quantity(5, 40), expected);
}

#[test]
fn decimal_string_is_the_raw_integer() {
    assert_eq!(decimal_string(0), "0");
    assert_eq!(decimal_string(12030), "12030");
}

#[test]
fn native_leg_scales_by_18_and_is_labelled_eth() {
    let resolver = TokenResolver::new();
    let side = format_side(5_000_000_000_000_000_000, &None, &resolver);
    assert_eq!(side, "5 ETH");
}

#[test]
fn token_leg_with_metadata_uses_symbol_and_decimals() {
    let resolver = resolver_with_token("TOKEN", 6);
    let side = format_side(1_500_000, &Some(Address { bytes: token() }), &resolver);
    assert_eq!(side, "1.5 TOKEN");
}

#[test]
fn token_leg_without_metadata_falls_back_to_raw_amount_and_address() {
    let resolver = TokenResolver::new();
    let side = format_side(1_500_000, &Some(Address { bytes: token() }), &resolver);
    assert_eq!(side, "1500000 0x2222222222222222222222222222222222222222");
}

#[test]
fn swap_line_has_the_fixed_shape() {
    let resolver = resolver_with_token("TOKEN", 6);
    let swap = SwapInput {
        origin_address: None,
        origin_amount: 5_000_000_000_000_000_000,
        destination_address: Some(Address { bytes: token() }),
        destination_amount: 1_500_000,
    };
    let line = format_swap(&swap, &resolver);
    assert_eq!(line, "Swap 5 ETH for 1.5 TOKEN");
}

#[test]
fn formatting_twice_is_byte_identical() {
    let resolver = resolver_with_token("TOKEN", 6);
    let swap = SwapInput {
        origin_address: None,
        origin_amount: 123_456_789_000_000_000,
        destination_address: Some(Address { bytes: token() }),
        destination_amount: 42,
    };
    let first = format_swap(&swap, &resolver);
    let second = format_swap(&swap, &resolver);
    assert_eq!(first.as_bytes(), second.as_bytes());
}
