//! Decoding of swap calldata into a normalized swap description.
//!
//! Calldata is the 4-byte selector followed by 32-byte big-endian argument
//! words. Every recognized method carries one or two `uint256` amount
//! bounds, a dynamically-located `address[]` path, a recipient and a
//! deadline; the decoder reads the bounds and the path endpoints and builds
//! a [`SwapInput`] by the family rule: a native leg has no address and
//! takes the transaction's paid value, a token leg takes the first (origin)
//! or last (destination) address of the path.
//!
//! A byte layout that does not carry the expected schema is rejected as
//! [`SwapError::MalformedCalldata`]; an amount bound (or paid value) that
//! does not fit 128 bits is rejected as [`SwapError::AmountOverflow`].
//! Either way the error is scoped to the one transaction.
use vstd::prelude::*;
use crate::address::Address;
use crate::chain::Uint256;
use crate::methods::SwapMethod;

verus! {

/// What can go wrong with one transaction of a block; no variant aborts
/// the processing of the others.
#[derive(Clone, Copy, PartialEq, Eq, Structural, Debug)]
pub enum SwapError {
    /// The selector is not one of the six recognized methods.
    UnrecognizedSelector,
    /// The calldata does not carry the schema its selector promises.
    MalformedCalldata,
    /// An amount does not fit the 128-bit range used for display scaling.
    AmountOverflow,
    /// No metadata is on file for a token address; formatting falls back
    /// to the raw address and amount.
    MissingTokenMetadata,
}

/// A normalized swap description: one origin leg and one destination leg,
/// each an amount in the asset's smallest unit plus the token address —
/// `None` exactly when that leg is the chain's native currency.
#[derive(Clone, Copy, Debug)]
pub struct SwapInput {
    pub origin_address: Option<Address>,
    pub origin_amount: u128,
    pub destination_address: Option<Address>,
    pub destination_amount: u128,
}

/// The mathematical content of a [`SwapInput`].
pub ghost struct SwapView {
    pub origin_address: Option<Seq<u8>>,
    pub origin_amount: nat,
    pub destination_address: Option<Seq<u8>>,
    pub destination_amount: nat,
}

impl View for SwapInput {
    type V = SwapView;

    open spec fn view(&self) -> SwapView {
        SwapView {
            origin_address: match self.origin_address {
                Some(a) => Some(a@),
                None => None,
            },
            origin_amount: self.origin_amount as nat,
            destination_address: match self.destination_address {
                Some(a) => Some(a@),
                None => None,
            },
            destination_amount: self.destination_amount as nat,
        }
    }
}

/// `Ok` results taken to their views, errors kept.
pub open spec fn swap_result_view(r: Result<SwapInput, SwapError>) -> Result<SwapView, SwapError> {
    match r {
        Ok(s) => Ok(s@),
        Err(e) => Err(e),
    }
}

/// The value of `s` read as a big-endian integer.
pub open spec fn be_val(s: Seq<u8>) -> nat
    decreases s.len(),
{
    if s.len() == 0 {
        0
    } else {
        (be_val(s.drop_last()) * 256 + s.last()) as nat
    }
}

/// `256^k`.
pub open spec fn pow256(k: nat) -> nat
    decreases k,
{
    if k == 0 {
        1
    } else {
        256 * pow256((k - 1) as nat)
    }
}

/// One more than the largest amount that fits 128 bits: `256^16`.
pub open spec fn u128_bound() -> nat {
    0x100000000000000000000000000000000nat
}

/// A big-endian integer is below `256` to the power of its width.
pub proof fn lemma_be_val_bound(s: Seq<u8>)
    ensures
        be_val(s) < pow256(s.len()),
    decreases s.len(),
{
    if s.len() > 0 {
        lemma_be_val_bound(s.drop_last());
    }
}

/// `256^k` grows with `k`.
pub proof fn lemma_pow256_mono(a: nat, b: nat)
    requires
        a <= b,
    ensures
        pow256(a) <= pow256(b),
    decreases b,
{
    if a < b {
        lemma_pow256_mono(a, (b - 1) as nat);
        assert(pow256((b - 1) as nat) <= 256 * pow256((b - 1) as nat)) by (nonlinear_arith)
            requires
                pow256((b - 1) as nat) >= 0,
        ;
    }
}

/// `256^16` is the 128-bit bound.
pub proof fn lemma_pow256_16()
    ensures
        pow256(16) == u128_bound(),
{
    assert(pow256(0) == 1);
    assert(pow256(1) == 256);
    assert(pow256(2) == 0x10000);
    assert(pow256(3) == 0x1000000);
    assert(pow256(4) == 0x100000000);
    assert(pow256(5) == 0x10000000000);
    assert(pow256(6) == 0x1000000000000);
    assert(pow256(7) == 0x100000000000000);
    assert(pow256(8) == 0x10000000000000000);
    assert(pow256(9) == 0x1000000000000000000);
    assert(pow256(10) == 0x100000000000000000000);
    assert(pow256(11) == 0x10000000000000000000000);
    assert(pow256(12) == 0x1000000000000000000000000);
    assert(pow256(13) == 0x100000000000000000000000000);
    assert(pow256(14) == 0x10000000000000000000000000000);
    assert(pow256(15) == 0x1000000000000000000000000000000);
    assert(pow256(16) == 0x100000000000000000000000000000000nat);
}

/// A sequence of zero bytes has value zero.
pub proof fn lemma_be_val_all_zero(s: Seq<u8>)
    requires
        forall|i: int| 0 <= i < s.len() ==> s[i] == 0,
    ensures
        be_val(s) == 0,
    decreases s.len(),
{
    if s.len() > 0 {
        lemma_be_val_all_zero(s.drop_last());
    }
}

/// Leading zero bytes do not change a big-endian value.
pub proof fn lemma_be_val_zero_prefix(s: Seq<u8>, k: int)
    requires
        0 <= k <= s.len(),
        forall|i: int| 0 <= i < k ==> s[i] == 0,
    ensures
        be_val(s) == be_val(s.skip(k)),
    decreases s.len(),
{
    if s.len() == k {
        lemma_be_val_all_zero(s);
        assert(s.skip(k) =~= Seq::empty());
    } else {
        lemma_be_val_zero_prefix(s.drop_last(), k);
        assert(s.drop_last().skip(k) =~= s.skip(k).drop_last());
        assert(s.skip(k).last() == s.last());
    }
}

/// A nonzero byte at position `i` puts the value at or above
/// `256^(len - 1 - i)`.
pub proof fn lemma_be_val_nonzero_digit(s: Seq<u8>, i: int)
    requires
        0 <= i < s.len(),
        s[i] >= 1,
    ensures
        be_val(s) >= pow256((s.len() - 1 - i) as nat),
    decreases s.len(),
{
    if i == s.len() - 1 {
        lemma_be_val_bound(s.drop_last());
    } else {
        lemma_be_val_nonzero_digit(s.drop_last(), i);
        assert(be_val(s.drop_last()) * 256 >= pow256((s.len() - 2 - i) as nat) * 256)
            by (nonlinear_arith)
            requires
                be_val(s.drop_last()) >= pow256((s.len() - 2 - i) as nat),
        ;
    }
}

/// Reads the 32-byte big-endian word of `data` at `start` when it fits
/// 128 bits; answers `None` exactly when it does not.
fn be_u128_at(data: &Vec<u8>, start: usize) -> (r: Option<u128>)
    requires
        start + 32 <= data@.len(),
    ensures
        match r {
            Some(v) => v as nat == be_val(data@.subrange(start as int, start + 32)),
            None => be_val(data@.subrange(start as int, start + 32)) >= u128_bound(),
        },
{
    // Read for its contract alone: it pins the view's length at or below
    // `usize::MAX` for the index arithmetic below.
    let _dlen: usize = data.len();
    let ghost word = data@.subrange(start as int, start + 32);
    let mut i: usize = 0;
    while i < 16
        invariant
            i <= 16,
            start + 32 <= data@.len(),
            data@.len() <= usize::MAX,
            word == data@.subrange(start as int, start + 32),
            forall|j: int| 0 <= j < i ==> word[j] == 0,
        decreases 16 - i,
    {
        if data[start + i] != 0 {
            proof {
                lemma_be_val_nonzero_digit(word, i as int);
                lemma_pow256_mono(16, (32 - 1 - i) as nat);
                lemma_pow256_16();
            }
            return None;
        }
        i = i + 1;
    }
    let mut acc: u128 = 0;
    let mut k: usize = 16;
    while k < 32
        invariant
            16 <= k <= 32,
            start + 32 <= data@.len(),
            data@.len() <= usize::MAX,
            word == data@.subrange(start as int, start + 32),
            acc as nat == be_val(word.subrange(16, k as int)),
        decreases 32 - k,
    {
        proof {
            lemma_be_val_bound(word.subrange(16, k as int));
            lemma_pow256_mono((k - 16) as nat, 15);
            lemma_pow256_16();
        }
        acc = acc * 256 + (data[start + k] as u128);
        proof {
            assert(word.subrange(16, k + 1).drop_last() =~= word.subrange(16, k as int));
            assert(word.subrange(16, k + 1).last() == data@[start + k]);
        }
        k = k + 1;
    }
    proof {
        lemma_be_val_zero_prefix(word, 16);
        assert(word.skip(16) =~= word.subrange(16, 32));
    }
    Some(acc)
}

/// Copies the 20-byte address at `start` out of `data`.
fn read_address_at(data: &Vec<u8>, start: usize) -> (a: Address)
    requires
        start + 20 <= data@.len(),
    ensures
        a@ == data@.subrange(start as int, start + 20),
{
    // Read for its contract alone: it pins the view's length at or below
    // `usize::MAX` for the index arithmetic below.
    let _dlen: usize = data.len();
    let mut bytes: [u8; 20] = [0; 20];
    let mut i: usize = 0;
    while i < 20
        invariant
            i <= 20,
            start + 20 <= data@.len(),
            data@.len() <= usize::MAX,
            forall|j: int| 0 <= j < i ==> bytes@[j] == data@[start + j],
        decreases 20 - i,
    {
        bytes[i] = data[start + i];
        i = i + 1;
    }
    let a = Address { bytes };
    proof {
        assert(a@ =~= data@.subrange(start as int, start + 20));
    }
    a
}

/// The `address[]` found at byte offset `off` of the argument bytes
/// `args`: a length word followed by that many words, an address in the
/// low 20 bytes of each. `None` when the layout does not fit in `args` or
/// the path is empty (an empty path names no origin or destination token).
pub open spec fn spec_path(args: Seq<u8>, off: nat) -> Option<Seq<Seq<u8>>> {
    if off + 32 > args.len() {
        None
    } else {
        let l = be_val(args.subrange(off as int, off as int + 32));
        if l == 0 || off + 32 + 32 * l > args.len() {
            None
        } else {
            Some(
                Seq::new(
                    l as nat,
                    |i: int| args.subrange(
                        off as int + 32 + 32 * i + 12,
                        off as int + 32 + 32 * i + 32,
                    ),
                ),
            )
        }
    }
}

/// Reads the path whose offset word sits at byte `off_word_pos` of the
/// calldata `input` (an absolute position, at least 4), and hands back its
/// first and last address.
fn decode_path_endpoints(input: &Vec<u8>, off_word_pos: usize) -> (r: Option<(Address, Address)>)
    requires
        4 <= off_word_pos,
        off_word_pos + 32 <= input@.len(),
    ensures
        ({
            let args = input@.skip(4);
            let off = be_val(args.subrange(off_word_pos - 4, off_word_pos - 4 + 32));
            match spec_path(args, off) {
                None => r is None,
                Some(p) => r matches Some(ends) && ends.0@ == p.first() && ends.1@ == p.last(),
            }
        }),
{
    let ghost args = input@.skip(4);
    let arglen: usize = input.len() - 4;
    proof {
        assert(args.subrange(off_word_pos - 4, off_word_pos - 4 + 32) =~= input@.subrange(
            off_word_pos as int,
            off_word_pos + 32,
        ));
    }
    let ghost off = be_val(args.subrange(off_word_pos - 4, off_word_pos - 4 + 32));
    let off_w = match be_u128_at(input, off_word_pos) {
        Some(v) => v,
        None => {
            // The offset exceeds 128 bits, so it points past any real buffer.
            proof {
                lemma_pow256_16();
            }
            return None;
        },
    };
    if arglen < 32 || off_w > (arglen - 32) as u128 {
        return None;
    }
    let off_us: usize = off_w as usize;
    proof {
        assert(args.subrange(off as int, off as int + 32) =~= input@.subrange(
            4 + off_us,
            4 + off_us + 32,
        ));
    }
    // The length word of the path.
    let l_w = match be_u128_at(input, 4 + off_us) {
        Some(v) => v,
        None => {
            proof {
                lemma_pow256_16();
                assert(be_val(args.subrange(off as int, off as int + 32)) >= u128_bound());
            }
            return None;
        },
    };
    if l_w == 0 {
        return None;
    }
    let slack: usize = arglen - off_us - 32;
    if l_w > (slack / 32) as u128 {
        proof {
            assert(32 * (l_w as nat) > slack as nat) by (nonlinear_arith)
                requires
                    l_w as nat > (slack as nat) / 32,
            ;
        }
        return None;
    }
    let l_us: usize = l_w as usize;
    proof {
        assert(32 * (l_us as nat) <= slack as nat) by (nonlinear_arith)
            requires
                l_us as nat <= (slack as nat) / 32,
        ;
    }
    let first_pos: usize = 4 + off_us + 32 + 12;
    let last_pos: usize = 4 + off_us + 32 + 32 * (l_us - 1) + 12;
    let first = read_address_at(input, first_pos);
    let last = read_address_at(input, last_pos);
    proof {
        let p = spec_path(args, off).unwrap();
        assert(first@ =~= p.first());
        assert(last@ =~= p.last());
    }
    Some((first, last))
}

/// The swap that the calldata `input` (with paid native `value`) describes
/// under method `m`, by the family rule:
///
/// | family          | origin                   | destination              |
/// |-----------------|--------------------------|--------------------------|
/// | native to token | paid value, no address   | bound, last of path      |
/// | token to native | bound, first of path     | bound, no address        |
/// | token to token  | bound, first of path     | bound, last of path      |
///
/// For an exact-origin method the origin bound is the literal amount and
/// the destination bound a minimum; otherwise the destination bound is
/// literal and the origin bound a maximum. The decoder reports the bound
/// the schema defines for each slot, never settled amounts.
pub open spec fn spec_decode(m: SwapMethod, input: Seq<u8>, value: nat) -> Result<
    SwapView,
    SwapError,
> {
    if input.len() < 4 {
        Err(SwapError::MalformedCalldata)
    } else {
        let args = input.skip(4);
        if m.native_origin() {
            if args.len() < 128 {
                Err(SwapError::MalformedCalldata)
            } else {
                let amt = be_val(args.subrange(0, 32));
                let off = be_val(args.subrange(32, 64));
                match spec_path(args, off) {
                    None => Err(SwapError::MalformedCalldata),
                    Some(path) => {
                        if amt >= u128_bound() || value >= u128_bound() {
                            Err(SwapError::AmountOverflow)
                        } else {
                            Ok(
                                SwapView {
                                    origin_address: None,
                                    origin_amount: value,
                                    destination_address: Some(path.last()),
                                    destination_amount: amt,
                                },
                            )
                        }
                    },
                }
            }
        } else {
            if args.len() < 160 {
                Err(SwapError::MalformedCalldata)
            } else {
                let a0 = be_val(args.subrange(0, 32));
                let a1 = be_val(args.subrange(32, 64));
                let off = be_val(args.subrange(64, 96));
                match spec_path(args, off) {
                    None => Err(SwapError::MalformedCalldata),
                    Some(path) => {
                        let origin_amt = if m.exact_origin() {
                            a0
                        } else {
                            a1
                        };
                        let dest_amt = if m.exact_origin() {
                            a1
                        } else {
                            a0
                        };
                        if origin_amt >= u128_bound() || dest_amt >= u128_bound() {
                            Err(SwapError::AmountOverflow)
                        } else {
                            Ok(
                                SwapView {
                                    origin_address: Some(path.first()),
                                    origin_amount: origin_amt,
                                    destination_address: if m.native_destination() {
                                        None
                                    } else {
                                        Some(path.last())
                                    },
                                    destination_amount: dest_amt,
                                },
                            )
                        }
                    },
                }
            }
        }
    }
}

/// Decodes the calldata of a transaction already classified as method `m`
/// into the normalized swap description, or reports why this transaction
/// is skipped: `MalformedCalldata` when the bytes do not carry `m`'s
/// schema, `AmountOverflow` when an amount bound (or, for a native origin,
/// the paid value) exceeds 128 bits.
pub fn decode_swap(m: SwapMethod, input: &Vec<u8>, value: Uint256) -> (r: Result<
    SwapInput,
    SwapError,
>)
    ensures
        swap_result_view(r) == spec_decode(m, input@, value.as_nat()),
{
    if input.len() < 4 {
        return Err(SwapError::MalformedCalldata);
    }
    let ghost args = input@.skip(4);
    let arglen: usize = input.len() - 4;
    let native = match m {
        SwapMethod::ExactNativeForTokens => true,
        SwapMethod::NativeForExactTokens => true,
        SwapMethod::ExactTokensForNative => false,
        SwapMethod::TokensForExactNative => false,
        SwapMethod::ExactTokensForTokens => false,
        SwapMethod::TokensForExactTokens => false,
    };
    if native {
        if arglen < 128 {
            return Err(SwapError::MalformedCalldata);
        }
        let ends = match decode_path_endpoints(input, 36) {
            Some(e) => e,
            None => {
                proof {
                    assert(args.subrange(32, 64) =~= input@.subrange(36, 68));
                }
                return Err(SwapError::MalformedCalldata);
            },
        };
        proof {
            assert(args.subrange(32, 64) =~= input@.subrange(36, 68));
            assert(args.subrange(0, 32) =~= input@.subrange(4, 36));
        }
        let amt = match be_u128_at(input, 4) {
            Some(v) => v,
            None => {
                return Err(SwapError::AmountOverflow);
            },
        };
        if value.hi != 0 {
            proof {
                assert(value.as_nat() >= u128_bound()) by (nonlinear_arith)
                    requires
                        value.hi >= 1,
                        value.as_nat() == value.hi as nat * u128_bound() + value.lo as nat,
                ;
            }
            return Err(SwapError::AmountOverflow);
        }
        proof {
            lemma_be_val_bound(args.subrange(0, 32));
            lemma_pow256_16();
        }
        Ok(
            SwapInput {
                origin_address: None,
                origin_amount: value.lo,
                destination_address: Some(ends.1),
                destination_amount: amt,
            },
        )
    } else {
        if arglen < 160 {
            return Err(SwapError::MalformedCalldata);
        }
        let ends = match decode_path_endpoints(input, 68) {
            Some(e) => e,
            None => {
                proof {
                    assert(args.subrange(64, 96) =~= input@.subrange(68, 100));
                }
                return Err(SwapError::MalformedCalldata);
            },
        };
        proof {
            assert(args.subrange(64, 96) =~= input@.subrange(68, 100));
            assert(args.subrange(0, 32) =~= input@.subrange(4, 36));
            assert(args.subrange(32, 64) =~= input@.subrange(36, 68));
        }
        let w0 = match be_u128_at(input, 4) {
            Some(v) => v,
            None => {
                return Err(SwapError::AmountOverflow);
            },
        };
        let w1 = match be_u128_at(input, 36) {
            Some(v) => v,
            None => {
                proof {
                    lemma_be_val_bound(args.subrange(0, 32));
                    lemma_pow256_16();
                }
                return Err(SwapError::AmountOverflow);
            },
        };
        proof {
            lemma_be_val_bound(args.subrange(0, 32));
            lemma_be_val_bound(args.subrange(32, 64));
            lemma_pow256_16();
        }
        let exact_origin = match m {
            SwapMethod::ExactNativeForTokens => true,
            SwapMethod::NativeForExactTokens => false,
            SwapMethod::ExactTokensForNative => true,
            SwapMethod::TokensForExactNative => false,
            SwapMethod::ExactTokensForTokens => true,
            SwapMethod::TokensForExactTokens => false,
        };
        let native_dest = match m {
            SwapMethod::ExactNativeForTokens => false,
            SwapMethod::NativeForExactTokens => false,
            SwapMethod::ExactTokensForNative => true,
            SwapMethod::TokensForExactNative => true,
            SwapMethod::ExactTokensForTokens => false,
            SwapMethod::TokensForExactTokens => false,
        };
        let origin_amt: u128 = if exact_origin {
            w0
        } else {
            w1
        };
        let dest_amt: u128 = if exact_origin {
            w1
        } else {
            w0
        };
        Ok(
            SwapInput {
                origin_address: Some(ends.0),
                origin_amount: origin_amt,
                destination_address: if native_dest {
                    None
                } else {
                    Some(ends.1)
                },
                destination_amount: dest_amt,
            },
        )
    }
}

} // verus!
