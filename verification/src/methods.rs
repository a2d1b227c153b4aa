//! The closed set of six router swap methods and their 4-byte selectors.
//!
//! The selector table below is the specification of the classifier: each
//! method owns exactly one literal selector, the table is never derived at
//! runtime, and no other selector may alias one of the six.
use vstd::prelude::*;

verus! {

/// The six swap methods of the router that this crate understands, grouped
/// into a native-origin family (the paid asset is the chain's native
/// currency) and a token-origin family.
#[derive(Clone, Copy, PartialEq, Eq, Structural, Debug)]
pub enum SwapMethod {
    /// `swapExactETHForTokens`: pays an exact native amount for tokens.
    ExactNativeForTokens,
    /// `swapETHForExactTokens`: pays native currency for an exact token amount.
    NativeForExactTokens,
    /// `swapExactTokensForETH`: pays an exact token amount for native currency.
    ExactTokensForNative,
    /// `swapTokensForExactETH`: pays tokens for an exact native amount.
    TokensForExactNative,
    /// `swapExactTokensForTokens`: pays an exact token amount for tokens.
    ExactTokensForTokens,
    /// `swapTokensForExactTokens`: pays tokens for an exact token amount.
    TokensForExactTokens,
}

impl SwapMethod {
    /// The origin leg is the chain's native currency.
    pub open spec fn native_origin(self) -> bool {
        self == SwapMethod::ExactNativeForTokens || self == SwapMethod::NativeForExactTokens
    }

    /// The destination leg is the chain's native currency.
    pub open spec fn native_destination(self) -> bool {
        self == SwapMethod::ExactTokensForNative || self == SwapMethod::TokensForExactNative
    }

    /// The origin amount is the literal (exact) bound and the destination
    /// amount a minimum; otherwise the destination amount is exact and the
    /// origin amount a maximum.
    pub open spec fn exact_origin(self) -> bool {
        self == SwapMethod::ExactNativeForTokens || self == SwapMethod::ExactTokensForNative
            || self == SwapMethod::ExactTokensForTokens
    }
}

/// The 4-byte selector that identifies `m` in calldata, bit-exact.
pub open spec fn spec_selector(m: SwapMethod) -> Seq<u8> {
    match m {
        SwapMethod::ExactNativeForTokens => seq![0x7fu8, 0xf3u8, 0x6au8, 0xb5u8],
        SwapMethod::NativeForExactTokens => seq![0xfbu8, 0x3bu8, 0xdbu8, 0x41u8],
        SwapMethod::ExactTokensForNative => seq![0x18u8, 0xcbu8, 0xafu8, 0xe5u8],
        SwapMethod::TokensForExactNative => seq![0x4au8, 0x25u8, 0xd9u8, 0x4au8],
        SwapMethod::ExactTokensForTokens => seq![0x38u8, 0xedu8, 0x17u8, 0x39u8],
        SwapMethod::TokensForExactTokens => seq![0x88u8, 0x03u8, 0xdbu8, 0xeeu8],
    }
}

/// Whether `input` starts with the selector of `m`.
pub open spec fn selector_matches(input: Seq<u8>, m: SwapMethod) -> bool {
    input.len() >= 4 && input[0] == spec_selector(m)[0] && input[1] == spec_selector(m)[1]
        && input[2] == spec_selector(m)[2] && input[3] == spec_selector(m)[3]
}

/// Classification of raw calldata: the method whose selector equals the
/// first 4 bytes, or `None` when the input is shorter than a selector or
/// the selector is not one of the six.
pub open spec fn spec_classify(input: Seq<u8>) -> Option<SwapMethod> {
    if selector_matches(input, SwapMethod::ExactNativeForTokens) {
        Some(SwapMethod::ExactNativeForTokens)
    } else if selector_matches(input, SwapMethod::NativeForExactTokens) {
        Some(SwapMethod::NativeForExactTokens)
    } else if selector_matches(input, SwapMethod::ExactTokensForNative) {
        Some(SwapMethod::ExactTokensForNative)
    } else if selector_matches(input, SwapMethod::TokensForExactNative) {
        Some(SwapMethod::TokensForExactNative)
    } else if selector_matches(input, SwapMethod::ExactTokensForTokens) {
        Some(SwapMethod::ExactTokensForTokens)
    } else if selector_matches(input, SwapMethod::TokensForExactTokens) {
        Some(SwapMethod::TokensForExactTokens)
    } else {
        None
    }
}

/// Maps the first 4 bytes of `input` to the recognized swap method, or
/// `None` for anything else. Defensive by design: unknown selectors and
/// short inputs yield `None` rather than a failure, even though the block
/// filter is expected to remove them upstream.
pub fn classify(input: &[u8]) -> (r: Option<SwapMethod>)
    ensures
        r == spec_classify(input@),
{
    if input.len() < 4 {
        return None;
    }
    let s0 = input[0];
    let s1 = input[1];
    let s2 = input[2];
    let s3 = input[3];
    if s0 == 0x7f && s1 == 0xf3 && s2 == 0x6a && s3 == 0xb5 {
        Some(SwapMethod::ExactNativeForTokens)
    } else if s0 == 0xfb && s1 == 0x3b && s2 == 0xdb && s3 == 0x41 {
        Some(SwapMethod::NativeForExactTokens)
    } else if s0 == 0x18 && s1 == 0xcb && s2 == 0xaf && s3 == 0xe5 {
        Some(SwapMethod::ExactTokensForNative)
    } else if s0 == 0x4a && s1 == 0x25 && s2 == 0xd9 && s3 == 0x4a {
        Some(SwapMethod::TokensForExactNative)
    } else if s0 == 0x38 && s1 == 0xed && s2 == 0x17 && s3 == 0x39 {
        Some(SwapMethod::ExactTokensForTokens)
    } else if s0 == 0x88 && s1 == 0x03 && s2 == 0xdb && s3 == 0xee {
        Some(SwapMethod::TokensForExactTokens)
    } else {
        None
    }
}

/// Law: classification is total and injective on the selector table. Every
/// method's own selector classifies back to exactly that method, and no two
/// distinct methods share a selector.
pub proof fn lemma_classification_total_injective(m1: SwapMethod, m2: SwapMethod)
    ensures
        spec_classify(spec_selector(m1)) == Some(m1),
        m1 != m2 ==> spec_selector(m1) != spec_selector(m2),
{
    assert(spec_classify(spec_selector(m1)) == Some(m1)) by {
        assert(spec_selector(m1).len() == 4);
    };
    if m1 != m2 {
        assert(spec_selector(m1)[0] != spec_selector(m2)[0]);
    }
}

/// Law: classification answers `Some(m)` exactly on the inputs that carry
/// `m`'s selector, so the six selectors are the only bytes recognized.
pub proof fn lemma_classify_exact(input: Seq<u8>, m: SwapMethod)
    ensures
        spec_classify(input) == Some(m) <==> input.len() >= 4 && input.subrange(0, 4)
            == spec_selector(m),
{
    if input.len() >= 4 {
        if input.subrange(0, 4) == spec_selector(m) {
            assert(selector_matches(input, m)) by {
                assert(input[0] == input.subrange(0, 4)[0]);
                assert(input[1] == input.subrange(0, 4)[1]);
                assert(input[2] == input.subrange(0, 4)[2]);
                assert(input[3] == input.subrange(0, 4)[3]);
            };
        }
        if selector_matches(input, m) {
            assert(input.subrange(0, 4) =~= spec_selector(m));
        }
    }
}

} // verus!
