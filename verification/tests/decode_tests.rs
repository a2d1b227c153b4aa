use uni_listen::abi::{decode_swap, SwapError};
use uni_listen::address::Address;
use uni_listen::chain::Uint256;
use uni_listen::methods::SwapMethod;

fn weth() -> [u8; 20] {
    [0x11; 20]
}

fn token() -> [u8; 20] {
    [0x22; 20]
}

fn other() -> [u8; 20] {
    [0x33; 20]
}

fn word(v: u128) -> Vec<u8> {
    let mut w = vec![0u8; 16];
    w.extend_from_slice(&v.to_be_bytes());
    w
}

fn address_word(a: [u8; 20]) -> Vec<u8> {
    let mut w = vec![0u8; 12];
    w.extend_from_slice(&a);
    w
}

/// Calldata for the native-origin schema: selector, amount bound, path
/// offset, recipient, deadline, then the path.
fn native_calldata(selector: [u8; 4], amount: Vec<u8>, path: &[[u8; 20]]) -> Vec<u8> {
    let mut data = selector.to_vec();
    data.extend_from_slice(&amount);
    data.extend_from_slice(&word(0x80));
    data.extend_from_slice(&address_word(other()));
    data.extend_from_slice(&word(1_700_000_000));
    data.extend_from_slice(&word(path.len() as u128));
    for a in path {
        data.extend_from_slice(&address_word(*a));
    }
    data
}

/// Calldata for the token-origin schema: selector, two amount bounds,
/// path offset, recipient, deadline, then the path.
fn token_calldata(
    selector: [u8; 4],
    amount0: Vec<u8>,
    amount1: Vec<u8>,
    path: &[[u8; 20]],
) -> Vec<u8> {
    let mut data = selector.to_vec();
    data.extend_from_slice(&amount0);
    data.extend_from_slice(&amount1);
    data.extend_from_slice(&word(0xa0));
    data.extend_from_slice(&address_word(other()));
    data.extend_from_slice(&word(1_700_000_000));
    data.extend_from_slice(&word(path.len() as u128));
    for a in path {
        data.extend_from_slice(&address_word(*a));
    }
    data
}

/// A 32-byte word holding 2^130, which exceeds the 128-bit amount range.
fn word_2_pow_130() -> Vec<u8> {
    let mut w = vec![0u8; 32];
    w[15] = 0x04;
    w
}

#[test]
fn decodes_exact_native_for_tokens() {
    let input = native_calldata([0x7f, 0xf3, 0x6a, 0xb5], word(100), &[weth(), token()]);
    let value = Uint256::from_u128(5_000_000_000_000_000_000);
    let swap = decode_swap(SwapMethod::ExactNativeForTokens, &input, value).unwrap();
    assert!(swap.origin_address.is_none());
    assert_eq!(swap.origin_amount, 5_000_000_000_000_000_000);
    assert_eq!(swap.destination_address, Some(Address { bytes: token() }));
    assert_eq!(swap.destination_amount, 100);
}

#[test]
fn decodes_exact_tokens_for_native() {
    let input = token_calldata([0x18, 0xcb, 0xaf, 0xe5], word(700), word(600), &[token(), weth()]);
    let swap = decode_swap(SwapMethod::ExactTokensForNative, &input, Uint256::from_u128(0))
        .unwrap();
    assert_eq!(swap.origin_address, Some(Address { bytes: token() }));
    assert_eq!(swap.origin_amount, 700);
    assert!(swap.destination_address.is_none());
    assert_eq!(swap.destination_amount, 600);
}

#[test]
fn decodes_tokens_for_exact_native_with_swapped_bounds() {
    // The first bound of an exact-destination method is the destination
    // amount, the second the origin maximum.
    let input = token_calldata([0x4a, 0x25, 0xd9, 0x4a], word(900), word(1000), &[token(), weth()]);
    let swap = decode_swap(SwapMethod::TokensForExactNative, &input, Uint256::from_u128(0))
        .unwrap();
    assert_eq!(swap.origin_amount, 1000);
    assert_eq!(swap.destination_amount, 900);
    assert_eq!(swap.origin_address, Some(Address { bytes: token() }));
    assert!(swap.destination_address.is_none());
}

#[test]
fn decodes_token_to_token_path_endpoints() {
    let input = token_calldata(
        [0x38, 0xed, 0x17, 0x39],
        word(41),
        word(42),
        &[token(), weth(), other()],
    );
    let swap = decode_swap(SwapMethod::ExactTokensForTokens, &input, Uint256::from_u128(0))
        .unwrap();
    assert_eq!(swap.origin_address, Some(Address { bytes: token() }));
    assert_eq!(swap.destination_address, Some(Address { bytes: other() }));
    assert_eq!(swap.origin_amount, 41);
    assert_eq!(swap.destination_amount, 42);
}

#[test]
fn amount_bound_of_2_pow_130_overflows() {
    let input = native_calldata([0x7f, 0xf3, 0x6a, 0xb5], word_2_pow_130(), &[weth(), token()]);
    let r = decode_swap(SwapMethod::ExactNativeForTokens, &input, Uint256::from_u128(1));
    assert_eq!(r.unwrap_err(), SwapError::AmountOverflow);
}

#[test]
fn paid_value_of_2_pow_130_overflows() {
    let input = native_calldata([0x7f, 0xf3, 0x6a, 0xb5], word(100), &[weth(), token()]);
    // 2^130 = 4 * 2^128: hi = 4.
    let value = Uint256 { hi: 4, lo: 0 };
    let r = decode_swap(SwapMethod::ExactNativeForTokens, &input, value);
    assert_eq!(r.unwrap_err(), SwapError::AmountOverflow);
}

#[test]
fn token_origin_bound_overflow_is_reported() {
    let input = token_calldata(
        [0x38, 0xed, 0x17, 0x39],
        word_2_pow_130(),
        word(1),
        &[token(), weth()],
    );
    let r = decode_swap(SwapMethod::ExactTokensForTokens, &input, Uint256::from_u128(0));
    assert_eq!(r.unwrap_err(), SwapError::AmountOverflow);
}

#[test]
fn truncated_calldata_is_malformed() {
    let mut input = native_calldata([0x7f, 0xf3, 0x6a, 0xb5], word(100), &[weth(), token()]);
    input.truncate(4 + 64);
    let r = decode_swap(SwapMethod::ExactNativeForTokens, &input, Uint256::from_u128(1));
    assert_eq!(r.unwrap_err(), SwapError::MalformedCalldata);
}

#[test]
fn empty_path_is_malformed() {
    let input = native_calldata([0x7f, 0xf3, 0x6a, 0xb5], word(100), &[]);
    let r = decode_swap(SwapMethod::ExactNativeForTokens, &input, Uint256::from_u128(1));
    assert_eq!(r.unwrap_err(), SwapError::MalformedCalldata);
}

#[test]
fn path_offset_past_the_end_is_malformed() {
    let mut data = vec![0x7f, 0xf3, 0x6a, 0xb5];
    data.extend_from_slice(&word(100));
    data.extend_from_slice(&word(0x4000));
    data.extend_from_slice(&address_word(other()));
    data.extend_from_slice(&word(1_700_000_000));
    let r = decode_swap(SwapMethod::ExactNativeForTokens, &data, Uint256::from_u128(1));
    assert_eq!(r.unwrap_err(), SwapError::MalformedCalldata);
}

#[test]
fn path_longer_than_the_buffer_is_malformed() {
    let mut data = vec![0x7f, 0xf3, 0x6a, 0xb5];
    data.extend_from_slice(&word(100));
    data.extend_from_slice(&word(0x80));
    data.extend_from_slice(&address_word(other()));
    data.extend_from_slice(&word(1_700_000_000));
    data.extend_from_slice(&word(3));
    data.extend_from_slice(&address_word(weth()));
    let r = decode_swap(SwapMethod::ExactNativeForTokens, &data, Uint256::from_u128(1));
    assert_eq!(r.unwrap_err(), SwapError::MalformedCalldata);
}

#[test]
fn malformed_check_precedes_overflow_check() {
    // Both the layout and an amount are bad: the layout decides.
    let input = native_calldata([0x7f, 0xf3, 0x6a, 0xb5], word_2_pow_130(), &[]);
    let r = decode_swap(SwapMethod::ExactNativeForTokens, &input, Uint256::from_u128(1));
    assert_eq!(r.unwrap_err(), SwapError::MalformedCalldata);
}
