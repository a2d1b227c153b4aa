//! Rendering of a decoded swap as one display line.
//!
//! The line reads `Swap {origin} for {destination}`, where each leg shows
//! its quantity and a label. A native leg is scaled by the native
//! currency's 18 decimal places and labelled `ETH`. A token leg whose
//! address has metadata on file is scaled by the token's decimals and
//! labelled with its symbol; one without metadata falls back to the raw
//! integer amount and the address itself in its normal hexadecimal form.
//!
//! Formatting has no state: the line is a function of the swap description
//! and the (read-only) metadata table alone.
use vstd::prelude::*;
use crate::abi::SwapInput;
use crate::abi::SwapView;
use crate::address::Address;
use crate::address::addr_opt_view;
use crate::address::spec_hex_string;
use crate::decimal::dec_chars;
use crate::decimal::decimal_string;
use crate::decimal::format_quantity;
use crate::decimal::spec_quantity;
use crate::tokens::TokenMetaView;
use crate::tokens::TokenResolver;

verus! {

/// The rendering of one swap leg: quantity, one space, label.
pub open spec fn spec_side(
    amount: nat,
    address: Option<Seq<u8>>,
    table: Map<Seq<u8>, TokenMetaView>,
) -> Seq<char> {
    match address {
        None => spec_quantity(amount, 18) + seq![' ', 'E', 'T', 'H'],
        Some(a) => if table.contains_key(a) {
            spec_quantity(amount, table[a].decimals as nat) + seq![' '] + table[a].symbol
        } else {
            dec_chars(amount) + seq![' '] + spec_hex_string(a)
        },
    }
}

/// The whole display line for one swap.
pub open spec fn spec_swap_line(s: SwapView, table: Map<Seq<u8>, TokenMetaView>) -> Seq<char> {
    seq!['S', 'w', 'a', 'p', ' '] + spec_side(s.origin_amount, s.origin_address, table) + seq![
        ' ',
        'f',
        'o',
        'r',
        ' ',
    ] + spec_side(s.destination_amount, s.destination_address, table)
}

/// Renders one leg of a swap against the metadata table.
pub fn format_side(amount: u128, address: &Option<Address>, resolver: &TokenResolver) -> (r:
    String)
    ensures
        r@ == spec_side(amount as nat, addr_opt_view(*address), resolver@),
{
    match address {
        None => {
            let mut out = format_quantity(amount, 18);
            proof {
                reveal_strlit(" ETH");
            }
            out.append(" ETH");
            proof {
                assert(" ETH"@ =~= seq![' ', 'E', 'T', 'H']);
            }
            out
        },
        Some(a) => {
            match resolver.resolve(a) {
                Ok(meta) => {
                    let mut out = format_quantity(amount, meta.decimals);
                    proof {
                        reveal_strlit(" ");
                    }
                    out.append(" ");
                    out.append(meta.symbol.as_str());
                    proof {
                        assert(" "@ =~= seq![' ']);
                    }
                    out
                },
                Err(_) => {
                    let mut out = decimal_string(amount);
                    proof {
                        reveal_strlit(" ");
                    }
                    out.append(" ");
                    let hex = a.hex_string();
                    out.append(hex.as_str());
                    proof {
                        assert(" "@ =~= seq![' ']);
                    }
                    out
                },
            }
        },
    }
}

/// Renders the whole display line `Swap {origin} for {destination}` for a
/// decoded swap. Pure: the same swap and table always yield the same line.
pub fn format_swap(input: &SwapInput, resolver: &TokenResolver) -> (r: String)
    ensures
        r@ == spec_swap_line(input@, resolver@),
{
    let mut out = String::new();
    proof {
        reveal_strlit("Swap ");
        reveal_strlit(" for ");
    }
    out.append("Swap ");
    let origin = format_side(input.origin_amount, &input.origin_address, resolver);
    out.append(origin.as_str());
    out.append(" for ");
    let destination = format_side(input.destination_amount, &input.destination_address, resolver);
    out.append(destination.as_str());
    proof {
        assert("Swap "@ =~= seq!['S', 'w', 'a', 'p', ' ']);
        assert(" for "@ =~= seq![' ', 'f', 'o', 'r', ' ']);
        assert(out@ =~= spec_swap_line(input@, resolver@));
    }
    out
}

/// Law: formatting is deterministic. Any two renderings of the same swap
/// description against the same table are identical, character for
/// character — there is no hidden state in the formatter.
pub proof fn lemma_format_deterministic(
    s: SwapView,
    table: Map<Seq<u8>, TokenMetaView>,
    a: Seq<char>,
    b: Seq<char>,
)
    requires
        a == spec_swap_line(s, table),
        b == spec_swap_line(s, table),
    ensures
        a == b,
{
}

} // verus!
