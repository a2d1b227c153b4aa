//! Token and contract addresses: 20 raw bytes, with hexadecimal parsing and
//! rendering.
//!
//! Hex strings are accepted in either letter case but always rendered with a
//! `0x` prefix and lowercase digits, the normal form that keys the token
//! metadata table. Parsing is case-insensitive by construction, so an
//! address written in mixed case in block data denotes the same 20 bytes as
//! its lowercase form.
use vstd::prelude::*;
use crate::decimal::digit_char;
use crate::decimal::digit_str;

verus! {

/// A 20-byte account or contract address.
#[derive(Clone, Copy, Eq, Debug)]
pub struct Address {
    pub bytes: [u8; 20],
}

impl View for Address {
    type V = Seq<u8>;

    open spec fn view(&self) -> Seq<u8> {
        self.bytes@
    }
}

impl PartialEq for Address {
    fn eq(&self, other: &Address) -> (r: bool)
        ensures
            r == (self@ == other@),
    {
        let mut i: usize = 0;
        while i < 20
            invariant
                i <= 20,
                forall|j: int| 0 <= j < i ==> self.bytes@[j] == other.bytes@[j],
            decreases 20 - i,
        {
            if self.bytes[i] != other.bytes[i] {
                return false;
            }
            i = i + 1;
        }
        proof {
            assert(self@ =~= other@);
        }
        true
    }
}

impl vstd::std_specs::cmp::PartialEqSpecImpl for Address {
    open spec fn obeys_eq_spec() -> bool {
        true
    }

    open spec fn eq_spec(&self, other: &Address) -> bool {
        self@ == other@
    }
}

/// The view of an optional address: the 20 bytes when one is there.
pub open spec fn addr_opt_view(a: Option<Address>) -> Option<Seq<u8>> {
    match a {
        Some(a) => Some(a@),
        None => None,
    }
}

/// Whether `c` is a hexadecimal digit in either letter case.
pub open spec fn is_hex_digit(c: char) -> bool {
    (48 <= c as u32 && c as u32 <= 57) || (97 <= c as u32 && c as u32 <= 102) || (65 <= c as u32
        && c as u32 <= 70)
}

/// The value of the hexadecimal digit `c`, letter case ignored; zero for a
/// character that is no hexadecimal digit.
pub open spec fn hex_digit_val(c: char) -> u8 {
    if 48 <= c as u32 && c as u32 <= 57 {
        (c as u32 - 48) as u8
    } else if 97 <= c as u32 && c as u32 <= 102 {
        (c as u32 - 87) as u8
    } else if 65 <= c as u32 && c as u32 <= 70 {
        (c as u32 - 55) as u8
    } else {
        0
    }
}

/// The 20 bytes that the 42-character hex string `s` denotes: a `0x` or
/// `0X` prefix followed by 40 hexadecimal digits of either case. Anything
/// else denotes no address.
pub open spec fn spec_parse_hex_address(s: Seq<char>) -> Option<Seq<u8>> {
    if s.len() == 42 && s[0] == '0' && (s[1] == 'x' || s[1] == 'X') && (forall|i: int|
        2 <= i < 42 ==> is_hex_digit(#[trigger] s[i])) {
        Some(
            Seq::new(
                20,
                |i: int| (16 * hex_digit_val(s[2 * i + 2]) + hex_digit_val(s[2 * i + 3])) as u8,
            ),
        )
    } else {
        None
    }
}

/// The normal hexadecimal form of `bytes`: lowercase, two digits per byte.
pub open spec fn hex_body(bytes: Seq<u8>) -> Seq<char>
    decreases bytes.len(),
{
    if bytes.len() == 0 {
        Seq::empty()
    } else {
        hex_body(bytes.drop_last()) + seq![
            digit_char((bytes.last() / 16) as u8),
            digit_char((bytes.last() % 16) as u8),
        ]
    }
}

/// The normal form of an address as a string: `0x` plus 40 lowercase digits.
pub open spec fn spec_hex_string(bytes: Seq<u8>) -> Seq<char> {
    seq!['0', 'x'] + hex_body(bytes)
}

/// The value of the hexadecimal digit `c`, or `None` when `c` is none.
fn hex_val(c: char) -> (r: Option<u8>)
    ensures
        r == if is_hex_digit(c) {
            Some(hex_digit_val(c))
        } else {
            None::<u8>
        },
{
    let u: u32 = c as u32;
    if 48 <= u && u <= 57 {
        Some((u - 48) as u8)
    } else if 97 <= u && u <= 102 {
        Some((u - 87) as u8)
    } else if 65 <= u && u <= 70 {
        Some((u - 55) as u8)
    } else {
        None
    }
}

impl Address {
    /// Reads an address from its hexadecimal string form, accepting either
    /// letter case: exactly the strings that denote 20 bytes are accepted.
    pub fn parse_hex(s: &str) -> (r: Option<Address>)
        ensures
            match r {
                Some(a) => spec_parse_hex_address(s@) == Some(a@),
                None => spec_parse_hex_address(s@) is None,
            },
    {
        if s.unicode_len() != 42 {
            return None;
        }
        let c0 = s.get_char(0);
        let c1 = s.get_char(1);
        if c0 != '0' || (c1 != 'x' && c1 != 'X') {
            return None;
        }
        let mut bytes: [u8; 20] = [0; 20];
        let mut i: usize = 0;
        while i < 20
            invariant
                i <= 20,
                s@.len() == 42,
                forall|k: int| 2 <= k < 2 + 2 * i ==> is_hex_digit(#[trigger] s@[k]),
                forall|j: int| 0 <= j < i ==> bytes@[j] == (16 * hex_digit_val(s@[2 * j + 2])
                    + hex_digit_val(s@[2 * j + 3])) as u8,
            decreases 20 - i,
        {
            let hi = s.get_char(2 + 2 * i);
            let lo = s.get_char(3 + 2 * i);
            let hv = match hex_val(hi) {
                Some(v) => v,
                None => {
                    return None;
                },
            };
            let lv = match hex_val(lo) {
                Some(v) => v,
                None => {
                    return None;
                },
            };
            bytes[i] = 16 * hv + lv;
            i = i + 1;
        }
        let a = Address { bytes };
        proof {
            let inner = Seq::new(
                20,
                |i: int| (16 * hex_digit_val(s@[2 * i + 2]) + hex_digit_val(s@[2 * i + 3])) as u8,
            );
            assert(a@ =~= inner);
        }
        Some(a)
    }

    /// The normal string form of this address: `0x` and 40 lowercase digits.
    pub fn hex_string(&self) -> (r: String)
        ensures
            r@ == spec_hex_string(self@),
    {
        let mut out = String::new();
        proof {
            reveal_strlit("0x");
        }
        out.append("0x");
        proof {
            assert(out@ =~= seq!['0', 'x']);
        }
        let mut i: usize = 0;
        while i < 20
            invariant
                i <= 20,
                out@ == seq!['0', 'x'] + hex_body(self.bytes@.take(i as int)),
            decreases 20 - i,
        {
            let b: u8 = self.bytes[i];
            out.append(digit_str(b / 16));
            out.append(digit_str(b % 16));
            proof {
                assert(self.bytes@.take(i + 1).drop_last() =~= self.bytes@.take(i as int));
                assert(out@ =~= seq!['0', 'x'] + hex_body(self.bytes@.take(i + 1)));
            }
            i = i + 1;
        }
        proof {
            assert(self.bytes@.take(20) =~= self.bytes@);
        }
        out
    }
}

/// The letter-case-folded code point of `c`: uppercase ASCII letters map to
/// their lowercase counterparts, everything else to itself.
pub open spec fn folded_code(c: char) -> int {
    if 65 <= c as u32 && c as u32 <= 90 {
        c as u32 + 32
    } else {
        c as u32 as int
    }
}

/// Law: hexadecimal address parsing ignores letter case. Two strings whose
/// characters agree up to ASCII case folding denote the same address, so an
/// address written in mixed case in block data resolves against a
/// lowercase-keyed table.
pub proof fn lemma_parse_hex_case_insensitive(s: Seq<char>, t: Seq<char>)
    requires
        s.len() == t.len(),
        forall|i: int| 0 <= i < s.len() ==> folded_code(s[i]) == folded_code(t[i]),
    ensures
        spec_parse_hex_address(s) == spec_parse_hex_address(t),
{
    if s.len() == 42 {
        assert forall|i: int| 0 <= i < 42 implies is_hex_digit(s[i]) == is_hex_digit(t[i])
            && hex_digit_val(s[i]) == hex_digit_val(t[i]) by {
            assert(folded_code(s[i]) == folded_code(t[i]));
        }
        assert(s[0] == '0' <==> t[0] == '0') by {
            vstd::utf8::char_u32_cast(s[0], s[0] as u32);
            vstd::utf8::char_u32_cast(t[0], t[0] as u32);
            assert(folded_code(s[0]) == folded_code(t[0]));
            assert('0' as u32 == 48);
        }
        assert((s[1] == 'x' || s[1] == 'X') <==> (t[1] == 'x' || t[1] == 'X')) by {
            vstd::utf8::char_u32_cast(s[1], s[1] as u32);
            vstd::utf8::char_u32_cast(t[1], t[1] as u32);
            assert(folded_code(s[1]) == folded_code(t[1]));
            assert('x' as u32 == 120);
            assert('X' as u32 == 88);
        }
        if spec_parse_hex_address(s) is Some && spec_parse_hex_address(t) is Some {
            let a = Seq::new(
                20,
                |i: int| (16 * hex_digit_val(s[2 * i + 2]) + hex_digit_val(s[2 * i + 3])) as u8,
            );
            let b = Seq::new(
                20,
                |i: int| (16 * hex_digit_val(t[2 * i + 2]) + hex_digit_val(t[2 * i + 3])) as u8,
            );
            assert(a =~= b);
        }
    }
}

} // verus!
