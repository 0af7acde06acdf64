//! Hexadecimal digits in ASCII text, shared by the address codecs.
//!
//! Address text is specified as a sequence of ASCII bytes. `ascii` lifts such a
//! sequence to the characters of a `String`.

use vstd::prelude::*;
use vstd::utf8::*;

verus! {

pub const COLON: u8 = 0x3a;

pub const HYPHEN: u8 = 0x2d;

pub const SLASH: u8 = 0x2f;

/// Whether `c` is one of `0`-`9`, `A`-`F`, `a`-`f`.
pub open spec fn is_hex(c: u8) -> bool {
    (0x30 <= c <= 0x39) || (0x41 <= c <= 0x46) || (0x61 <= c <= 0x66)
}

/// Whether `c` is one of `0`-`9`, `A`-`F`.
pub open spec fn is_upper_hex(c: u8) -> bool {
    (0x30 <= c <= 0x39) || (0x41 <= c <= 0x46)
}

/// The number that the hexadecimal digit `c` stands for.
pub open spec fn hex_value(c: u8) -> int
    recommends
        is_hex(c),
{
    if c <= 0x39 {
        c - 0x30
    } else if c <= 0x46 {
        c - 0x41 + 10
    } else {
        c - 0x61 + 10
    }
}

/// The upper-case hexadecimal digit for `d`.
pub open spec fn upper_hex(d: int) -> u8
    recommends
        0 <= d < 16,
{
    if d < 10 {
        (0x30 + d) as u8
    } else {
        (0x41 + d - 10) as u8
    }
}

/// The decimal digit for `d`.
pub open spec fn decimal_digit(d: int) -> u8
    recommends
        0 <= d < 10,
{
    (0x30 + d) as u8
}

/// The characters of a text given by its ASCII bytes.
pub open spec fn ascii(s: Seq<u8>) -> Seq<char> {
    Seq::new(s.len(), |i: int| s[i] as char)
}

/// Whether every byte of `s` is an ASCII character.
pub open spec fn all_ascii(s: Seq<u8>) -> bool {
    forall|i: int| 0 <= i < s.len() ==> #[trigger] s[i] < 0x80
}

/// A string whose characters are `ascii(s)` has exactly the bytes `s`.
pub proof fn lemma_ascii_bytes(s: Seq<u8>)
    requires
        all_ascii(s),
    ensures
        is_ascii_chars(ascii(s)),
        encode_utf8(ascii(s)) == s,
{
    let c = ascii(s);
    assert(is_ascii_chars(c)) by {
        assert forall|i: int| 0 <= i < c.len() implies '\0' <= #[trigger] c[i] <= '\u{7f}' by {
            assert(s[i] < 0x80);
        }
    }
    is_ascii_chars_encode_utf8(c);
    assert(encode_utf8(c) =~= s) by {
        assert forall|i: int| 0 <= i < s.len() implies encode_utf8(c)[i] == s[i] by {
            assert(c[i] as u8 == encode_utf8(c)[i]);
            assert(s[i] < 0x80);
        }
    }
}

/// An upper-case digit reads back as the number it was made from.
pub proof fn lemma_upper_hex(d: int)
    requires
        0 <= d < 16,
    ensures
        is_upper_hex(upper_hex(d)),
        is_hex(upper_hex(d)),
        hex_value(upper_hex(d)) == d,
        upper_hex(d) < 0x80,
{
}

/// An upper-case digit is the digit of its own value.
pub proof fn lemma_upper_hex_of_value(c: u8)
    requires
        is_upper_hex(c),
    ensures
        upper_hex(hex_value(c)) == c,
        0 <= hex_value(c) < 16,
{
}

/// The value of a hexadecimal digit, or `None` for any other byte.
pub fn hex_digit(c: u8) -> (r: Option<u8>)
    ensures
        r == if is_hex(c) {
            Some(hex_value(c) as u8)
        } else {
            None::<u8>
        },
        r is Some ==> r->0 < 16,
{
    if 0x30 <= c && c <= 0x39 {
        Some(c - 0x30)
    } else if 0x61 <= c && c <= 0x66 {
        Some(c - 0x61 + 10)
    } else if 0x41 <= c && c <= 0x46 {
        Some(c - 0x41 + 10)
    } else {
        None
    }
}

/// The upper-case hexadecimal digit for `d`, as text.
pub fn upper_hex_str(d: u8) -> (r: &'static str)
    requires
        d < 16,
    ensures
        r@ == seq![upper_hex(d as int) as char],
{
    proof {
        reveal_strlit("0");
        reveal_strlit("1");
        reveal_strlit("2");
        reveal_strlit("3");
        reveal_strlit("4");
        reveal_strlit("5");
        reveal_strlit("6");
        reveal_strlit("7");
        reveal_strlit("8");
        reveal_strlit("9");
        reveal_strlit("A");
        reveal_strlit("B");
        reveal_strlit("C");
        reveal_strlit("D");
        reveal_strlit("E");
        reveal_strlit("F");
    }
    let r = if d == 0 {
        "0"
    } else if d == 1 {
        "1"
    } else if d == 2 {
        "2"
    } else if d == 3 {
        "3"
    } else if d == 4 {
        "4"
    } else if d == 5 {
        "5"
    } else if d == 6 {
        "6"
    } else if d == 7 {
        "7"
    } else if d == 8 {
        "8"
    } else if d == 9 {
        "9"
    } else if d == 10 {
        "A"
    } else if d == 11 {
        "B"
    } else if d == 12 {
        "C"
    } else if d == 13 {
        "D"
    } else if d == 14 {
        "E"
    } else {
        "F"
    };
    assert(r@ =~= seq![upper_hex(d as int) as char]);
    r
}

/// The decimal digit for `d`, as text.
pub fn decimal_digit_str(d: u8) -> (r: &'static str)
    requires
        d < 10,
    ensures
        r@ == seq![decimal_digit(d as int) as char],
{
    upper_hex_str(d)
}

} // verus!
