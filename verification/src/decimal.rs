//! Exact rendering of unsigned amounts as decimal (and of bytes as
//! hexadecimal) character strings.
//!
//! Quantities are shown as fixed-point decimals with no precision loss: the
//! digit string of the raw amount is padded to at least one digit more than
//! the scale, split before the last `decimals` digits, and the fractional
//! part is kept only up to its last nonzero digit. `1_500_000` at scale 6
//! therefore renders as `1.5`, and a whole amount renders with no point.
use vstd::prelude::*;

verus! {

/// The character for the digit value `v` (`v < 16`); hexadecimal digits are
/// lowercase. Values `10` and above never arise from decimal digits.
pub open spec fn digit_char(v: u8) -> char {
    if v == 0 {
        '0'
    } else if v == 1 {
        '1'
    } else if v == 2 {
        '2'
    } else if v == 3 {
        '3'
    } else if v == 4 {
        '4'
    } else if v == 5 {
        '5'
    } else if v == 6 {
        '6'
    } else if v == 7 {
        '7'
    } else if v == 8 {
        '8'
    } else if v == 9 {
        '9'
    } else if v == 10 {
        'a'
    } else if v == 11 {
        'b'
    } else if v == 12 {
        'c'
    } else if v == 13 {
        'd'
    } else if v == 14 {
        'e'
    } else {
        'f'
    }
}

/// The decimal digit values of `n`, most significant first; never empty,
/// and without leading zeros except for `n == 0` itself.
pub open spec fn dec_vals(n: nat) -> Seq<u8>
    decreases n,
{
    if n < 10 {
        seq![n as u8]
    } else {
        dec_vals(n / 10).push((n % 10) as u8)
    }
}

/// The decimal digit characters of `n`, most significant first.
pub open spec fn dec_chars(n: nat) -> Seq<char> {
    dec_vals(n).map_values(|v: u8| digit_char(v))
}

/// `s` left-padded with zero digits to length at least `l`.
pub open spec fn zero_pad(s: Seq<u8>, l: nat) -> Seq<u8> {
    if s.len() >= l {
        s
    } else {
        Seq::new((l - s.len()) as nat, |i: int| 0u8) + s
    }
}

/// `s` without its trailing zero digits.
pub open spec fn trim_trailing_zeros(s: Seq<u8>) -> Seq<u8>
    decreases s.len(),
{
    if s.len() > 0 && s.last() == 0 {
        trim_trailing_zeros(s.drop_last())
    } else {
        s
    }
}

/// The fixed-point decimal rendering of the raw amount `n` at scale
/// `decimals`: the quantity `n / 10^decimals` written with every digit above
/// the smallest nonzero unit and none below it.
pub open spec fn spec_quantity(n: nat, decimals: nat) -> Seq<char> {
    let raw = zero_pad(dec_vals(n), decimals + 1);
    let cut = raw.len() - decimals;
    let frac = trim_trailing_zeros(raw.skip(cut));
    if frac.len() == 0 {
        raw.take(cut).map_values(|v: u8| digit_char(v))
    } else {
        raw.take(cut).map_values(|v: u8| digit_char(v)) + seq!['.'] + frac.map_values(
            |v: u8| digit_char(v),
        )
    }
}

/// Every decimal digit value of `n` is below ten.
pub proof fn lemma_dec_vals_bounded(n: nat)
    ensures
        forall|i: int| 0 <= i < dec_vals(n).len() ==> dec_vals(n)[i] < 10,
    decreases n,
{
    if n >= 10 {
        lemma_dec_vals_bounded(n / 10);
        assert forall|i: int| 0 <= i < dec_vals(n).len() implies dec_vals(n)[i] < 10 by {
            if i < dec_vals(n / 10).len() {
                assert(dec_vals(n)[i] == dec_vals(n / 10)[i]);
            }
        }
    }
}

/// The one-character string for the digit value `v`.
pub fn digit_str(v: u8) -> (r: &'static str)
    requires
        v < 16,
    ensures
        r@ == seq![digit_char(v)],
{
    if v == 0 {
        proof {
            reveal_strlit("0");
        }
        assert("0"@ =~= seq![digit_char(0u8)]);
        "0"
    } else if v == 1 {
        proof {
            reveal_strlit("1");
        }
        assert("1"@ =~= seq![digit_char(1u8)]);
        "1"
    } else if v == 2 {
        proof {
            reveal_strlit("2");
        }
        assert("2"@ =~= seq![digit_char(2u8)]);
        "2"
    } else if v == 3 {
        proof {
            reveal_strlit("3");
        }
        assert("3"@ =~= seq![digit_char(3u8)]);
        "3"
    } else if v == 4 {
        proof {
            reveal_strlit("4");
        }
        assert("4"@ =~= seq![digit_char(4u8)]);
        "4"
    } else if v == 5 {
        proof {
            reveal_strlit("5");
        }
        assert("5"@ =~= seq![digit_char(5u8)]);
        "5"
    } else if v == 6 {
        proof {
            reveal_strlit("6");
        }
        assert("6"@ =~= seq![digit_char(6u8)]);
        "6"
    } else if v == 7 {
        proof {
            reveal_strlit("7");
        }
        assert("7"@ =~= seq![digit_char(7u8)]);
        "7"
    } else if v == 8 {
        proof {
            reveal_strlit("8");
        }
        assert("8"@ =~= seq![digit_char(8u8)]);
        "8"
    } else if v == 9 {
        proof {
            reveal_strlit("9");
        }
        assert("9"@ =~= seq![digit_char(9u8)]);
        "9"
    } else if v == 10 {
        proof {
            reveal_strlit("a");
        }
        assert("a"@ =~= seq![digit_char(10u8)]);
        "a"
    } else if v == 11 {
        proof {
            reveal_strlit("b");
        }
        assert("b"@ =~= seq![digit_char(11u8)]);
        "b"
    } else if v == 12 {
        proof {
            reveal_strlit("c");
        }
        assert("c"@ =~= seq![digit_char(12u8)]);
        "c"
    } else if v == 13 {
        proof {
            reveal_strlit("d");
        }
        assert("d"@ =~= seq![digit_char(13u8)]);
        "d"
    } else if v == 14 {
        proof {
            reveal_strlit("e");
        }
        assert("e"@ =~= seq![digit_char(14u8)]);
        "e"
    } else {
        proof {
            reveal_strlit("f");
        }
        assert("f"@ =~= seq![digit_char(15u8)]);
        "f"
    }
}

/// Appends the characters of the digit values in `vals` to `out`.
pub fn append_digit_chars(out: &mut String, vals: &Vec<u8>)
    requires
        forall|i: int| 0 <= i < vals@.len() ==> vals@[i] < 16,
    ensures
        final(out)@ == old(out)@ + vals@.map_values(|v: u8| digit_char(v)),
{
    let ghost start = out@;
    let mut i: usize = 0;
    while i < vals.len()
        invariant
            i <= vals@.len(),
            forall|j: int| 0 <= j < vals@.len() ==> vals@[j] < 16,
            out@ == start + vals@.take(i as int).map_values(|v: u8| digit_char(v)),
        decreases vals@.len() - i,
    {
        out.append(digit_str(vals[i]));
        proof {
            assert(vals@.take(i + 1).map_values(|v: u8| digit_char(v)) =~= vals@.take(
                i as int,
            ).map_values(|v: u8| digit_char(v)) + seq![digit_char(vals@[i as int])]);
        }
        i = i + 1;
    }
    proof {
        assert(vals@.take(vals@.len() as int) =~= vals@);
    }
}

/// Appends the decimal digit values of `n` to `v`, most significant first.
fn push_dec_vals(v: &mut Vec<u8>, n: u128)
    ensures
        final(v)@ == old(v)@ + dec_vals(n as nat),
    decreases n,
{
    if n >= 10 {
        push_dec_vals(v, n / 10);
    }
    v.push((n % 10) as u8);
    proof {
        assert(v@ =~= old(v)@ + dec_vals(n as nat));
    }
}

/// The decimal digit string of `n`, exactly as the digits of the integer.
pub fn decimal_string(n: u128) -> (s: String)
    ensures
        s@ == dec_chars(n as nat),
{
    let mut vals: Vec<u8> = Vec::new();
    push_dec_vals(&mut vals, n);
    let mut out = String::new();
    proof {
        assert(vals@ =~= dec_vals(n as nat));
        lemma_dec_vals_bounded(n as nat);
    }
    append_digit_chars(&mut out, &vals);
    proof {
        assert(out@ =~= dec_chars(n as nat));
    }
    out
}

/// Renders the raw amount `n` at scale `decimals` as a fixed-point decimal
/// string: no exponent notation, no digit of precision dropped, no trailing
/// fractional zeros, and no decimal point when the fraction is zero.
pub fn format_quantity(amount: u128, decimals: u8) -> (s: String)
    ensures
        s@ == spec_quantity(amount as nat, decimals as nat),
{
    let d: usize = decimals as usize;
    let mut digits: Vec<u8> = Vec::new();
    push_dec_vals(&mut digits, amount);
    let ghost dv = digits@;
    proof {
        assert(dv =~= dec_vals(amount as nat));
        lemma_dec_vals_bounded(amount as nat);
    }

    // Left-pad with zeros to at least `d + 1` digits.
    let need: usize = if digits.len() >= d + 1 {
        0
    } else {
        d + 1 - digits.len()
    };
    let mut raw: Vec<u8> = Vec::new();
    while raw.len() < need
        invariant
            raw@ =~= Seq::new(raw@.len(), |i: int| 0u8),
            raw@.len() <= need,
        decreases need - raw@.len(),
    {
        raw.push(0);
        proof {
            assert(raw@ =~= Seq::new(raw@.len(), |i: int| 0u8));
        }
    }
    raw.append(&mut digits);
    proof {
        assert(raw@ =~= zero_pad(dv, (d + 1) as nat));
    }
    let ghost rawv = raw@;
    proof {
        assert(forall|i: int| 0 <= i < rawv.len() ==> #[trigger] rawv[i] < 16);
    }

    // Split off the last `d` digits as the fractional part.
    let cut: usize = raw.len() - d;
    let mut frac = raw.split_off(cut);
    let ghost fracv = frac@;
    proof {
        assert(fracv =~= rawv.skip(cut as int));
        assert(raw@ =~= rawv.take(cut as int));
    }

    // Drop trailing zeros of the fraction.
    while frac.len() > 0 && frac[frac.len() - 1] == 0
        invariant
            trim_trailing_zeros(fracv) == trim_trailing_zeros(frac@),
        decreases frac@.len(),
    {
        let ghost before = frac@;
        frac.pop();
        proof {
            assert(frac@ =~= before.drop_last());
        }
    }
    proof {
        assert(trim_trailing_zeros(frac@) == frac@);
    }

    let mut out = String::new();
    proof {
        assert(forall|i: int| 0 <= i < raw@.len() ==> #[trigger] raw@[i] < 16);
        assert(forall|i: int| 0 <= i < fracv.len() ==> #[trigger] fracv[i] < 16);
        lemma_trim_trailing_zeros_prefix(fracv);
        assert forall|i: int| 0 <= i < frac@.len() implies #[trigger] frac@[i] < 16 by {
            assert(frac@[i] == fracv[i]);
        }
    }
    append_digit_chars(&mut out, &raw);
    if frac.len() > 0 {
        proof {
            reveal_strlit(".");
        }
        out.append(".");
        proof {
            assert("."@ =~= seq!['.']);
        }
        append_digit_chars(&mut out, &frac);
    }
    proof {
        assert(out@ =~= spec_quantity(amount as nat, decimals as nat));
    }
    out
}

/// Trimming trailing zeros yields a prefix of the digit string.
pub proof fn lemma_trim_trailing_zeros_prefix(s: Seq<u8>)
    ensures
        trim_trailing_zeros(s).len() <= s.len(),
        forall|i: int| 0 <= i < trim_trailing_zeros(s).len() ==> trim_trailing_zeros(s)[i] == s[i],
    decreases s.len(),
{
    if s.len() > 0 && s.last() == 0 {
        lemma_trim_trailing_zeros_prefix(s.drop_last());
        assert forall|i: int| 0 <= i < trim_trailing_zeros(s).len() implies trim_trailing_zeros(
            s,
        )[i] == s[i] by {
            assert(trim_trailing_zeros(s)[i] == trim_trailing_zeros(s.drop_last())[i]);
            assert(s.drop_last()[i] == s[i]);
        }
    }
}

} // verus!
