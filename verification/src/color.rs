//! Colours written as `#rrggbb`.
use vstd::prelude::*;

use crate::botid::{char_at_byte, char_index_at_byte, lemma_boundaries_ordered};
use crate::text::{chars_of, strip_leading, strip_leading_char};

verus! {

/// The value of a hexadecimal digit, either case.
pub open spec fn hex_digit_value(c: char) -> Option<nat> {
    let x = c as u32;
    if 48 <= x <= 57 {
        Some((x - 48) as nat)
    } else if 97 <= x <= 102 {
        Some((x - 87) as nat)
    } else if 65 <= x <= 70 {
        Some((x - 55) as nat)
    } else {
        None
    }
}

/// Every character of `s` is a hexadecimal digit.
pub open spec fn all_hex(s: Seq<char>) -> bool {
    forall|i: int| 0 <= i < s.len() ==> #[trigger] hex_digit_value(s[i]) is Some
}

/// The value of a sequence of hexadecimal digits.
pub open spec fn hex_value(s: Seq<char>) -> nat
    decreases s.len(),
{
    if s.len() == 0 {
        0
    } else {
        hex_value(s.drop_last()) * 16 + hex_digit_value(s.last())->0
    }
}

/// What `u8::from_str_radix(s, 16)` accepts: an optional `+`, then at least
/// one hexadecimal digit, denoting at most `255`.
pub open spec fn parse_hex_u8(s: Seq<char>) -> Option<u8> {
    let body = if s.len() > 0 && s[0] == '+' {
        s.drop_first()
    } else {
        s
    };
    if body.len() > 0 && all_hex(body) && hex_value(body) <= 255 {
        Some(hex_value(body) as u8)
    } else {
        None
    }
}

/// A colour channel: the byte a segment denotes, `0` when it denotes none.
pub open spec fn channel_value(seg: Seq<char>) -> u8 {
    match parse_hex_u8(seg) {
        Some(v) => v,
        None => 0,
    }
}

/// The colour text without its leading `#`s.
pub open spec fn hex_digits_part(hex: Seq<char>) -> Seq<char> {
    strip_leading(hex, '#')
}

/// Bytes 0, 2, 4 and 6 of the digits part start characters (or end the
/// text), so that the three two-byte channels can be cut out.
pub open spec fn hex_cuttable(hex: Seq<char>) -> bool {
    let h = hex_digits_part(hex);
    &&& char_at_byte(h, 2) is Some
    &&& char_at_byte(h, 4) is Some
    &&& char_at_byte(h, 6) is Some
}

/// The red, green and blue bytes: bytes `0..2`, `2..4` and `4..6` of the
/// digits part, each read as hexadecimal, `0` where that fails.
pub open spec fn hex_channels_spec(hex: Seq<char>) -> (u8, u8, u8) {
    let h = hex_digits_part(hex);
    let k2 = char_at_byte(h, 2)->0 as int;
    let k4 = char_at_byte(h, 4)->0 as int;
    let k6 = char_at_byte(h, 6)->0 as int;
    (
        channel_value(h.subrange(0, k2)),
        channel_value(h.subrange(k2, k4)),
        channel_value(h.subrange(k4, k6)),
    )
}

/// The value of a hexadecimal digit.
fn hex_digit(c: char) -> (r: Option<u8>)
    ensures
        r == (match hex_digit_value(c) {
            Some(v) => Some(v as u8),
            None => None::<u8>,
        }),
        r is Some ==> r->0 < 16,
{
    if '0' <= c && c <= '9' {
        Some((c as u32 - 48) as u8)
    } else if 'a' <= c && c <= 'f' {
        Some((c as u32 - 87) as u8)
    } else if 'A' <= c && c <= 'F' {
        Some((c as u32 - 55) as u8)
    } else {
        None
    }
}

/// The channel that characters `lo..hi` of `v` denote, at most two of them.
fn channel_of(v: &Vec<char>, lo: usize, hi: usize) -> (r: u8)
    requires
        lo <= hi <= v.len(),
        hi - lo <= 2,
    ensures
        r == channel_value(v@.subrange(lo as int, hi as int)),
{
    let ghost seg = v@.subrange(lo as int, hi as int);
    if hi == lo {
        return 0;
    }
    let first = v[lo];
    if hi - lo == 1 {
        assert(seg =~= seq![first]);
        assert(seq![first].drop_last() =~= Seq::<char>::empty());
        assert(seq![first].drop_first() =~= Seq::<char>::empty());
        assert(hex_value(Seq::<char>::empty()) == 0);
        assert(hex_value(seq![first]) == hex_digit_value(first)->0);
        assert(seq![first][0] == first);
        if first == '+' {
            return 0;
        }
        return match hex_digit(first) {
            Some(d) => d,
            None => 0,
        };
    }
    let second = v[lo + 1];
    assert(seg =~= seq![first, second]);
    assert(seq![first, second].drop_first() =~= seq![second]);
    assert(seq![second].drop_last() =~= Seq::<char>::empty());
    assert(seq![first, second].drop_last() =~= seq![first]);
    assert(seq![first].drop_last() =~= Seq::<char>::empty());
    assert(hex_value(Seq::<char>::empty()) == 0);
    assert(hex_value(seq![first]) == hex_digit_value(first)->0);
    assert(hex_value(seq![second]) == hex_digit_value(second)->0);
    assert(seq![second][0] == second);
    assert(seg[0] == first && seg[1] == second);
    if first == '+' {
        return match hex_digit(second) {
            Some(d) => d,
            None => 0,
        };
    }
    match (hex_digit(first), hex_digit(second)) {
        (Some(a), Some(b)) => {
            assert(all_hex(seg));
            assert(hex_value(seg) == a * 16 + b);
            a * 16 + b
        },
        (None, _) => {
            assert(!all_hex(seg) && seg[0] == first);
            0
        },
        (_, None) => {
            assert(!all_hex(seg) && seg[1] == second);
            0
        },
    }
}

/// The red, green and blue bytes of a colour written `#rrggbb` (leading
/// `#`s are skipped); a channel that is not two hexadecimal digits is `0`.
pub fn hex_channels(hex: &str) -> (r: (u8, u8, u8))
    requires
        hex_cuttable(hex@),
    ensures
        r == hex_channels_spec(hex@),
{
    let digits = strip_leading_char(hex, '#');
    let v = chars_of(digits.as_str());
    let ghost h = hex_digits_part(hex@);
    assert(v@ == h);
    proof {
        lemma_boundaries_ordered(h, 0, 2);
        lemma_boundaries_ordered(h, 2, 4);
        lemma_boundaries_ordered(h, 4, 6);
    }
    let k2 = match char_index_at_byte(&v, 2) {
        Some(k) => k,
        None => 0,
    };
    let k4 = match char_index_at_byte(&v, 4) {
        Some(k) => k,
        None => 0,
    };
    let k6 = match char_index_at_byte(&v, 6) {
        Some(k) => k,
        None => 0,
    };
    (channel_of(&v, 0, k2), channel_of(&v, k2, k4), channel_of(&v, k4, k6))
}

} // verus!
