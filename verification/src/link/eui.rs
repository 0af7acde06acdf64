//! EUI-48 hardware addresses and their text form.

use crate::text::{
    all_ascii, ascii, hex_digit, hex_value, is_hex, is_upper_hex, lemma_upper_hex,
    lemma_upper_hex_of_value, upper_hex, upper_hex_str, COLON, HYPHEN,
};
use core::str::FromStr;
use vstd::prelude::*;
use vstd::string::*;

verus! {

/// A 48-bit hardware address, also called a MAC address.
#[derive(Debug, Clone, Copy, Eq, Hash)]
pub struct Eui48([u8; 6]);

/// The text was not six groups of two hexadecimal digits.
#[derive(Debug, Clone, Copy, PartialEq, Eq, Hash)]
pub struct Eui48ParseError(());

impl View for Eui48 {
    type V = Seq<u8>;

    closed spec fn view(&self) -> Seq<u8> {
        self.0@
    }
}

impl PartialEq for Eui48 {
    /// Two addresses are equal if their bytes are.
    fn eq(&self, other: &Self) -> (r: bool) {
        let r = self.0[0] == other.0[0] && self.0[1] == other.0[1] && self.0[2] == other.0[2]
            && self.0[3] == other.0[3] && self.0[4] == other.0[4] && self.0[5] == other.0[5];
        assert(r == (self@ =~= other@));
        r
    }
}

impl vstd::std_specs::cmp::PartialEqSpecImpl for Eui48 {
    open spec fn obeys_eq_spec() -> bool {
        true
    }

    open spec fn eq_spec(&self, other: &Self) -> bool {
        self@ == other@
    }
}

/// Whether `c` may stand between two groups: a colon or a hyphen.
pub open spec fn is_separator(c: u8) -> bool {
    c == COLON || c == HYPHEN
}

/// Whether place `k` of `s` holds what the text form has there: a separator
/// after every two digits.
pub open spec fn valid_at(s: Seq<u8>, k: int) -> bool {
    if k % 3 == 2 {
        is_separator(s[k])
    } else {
        is_hex(s[k])
    }
}

/// Whether `s` is the text of an address: six groups of two hexadecimal
/// digits, of either case, with a colon or a hyphen after each group but the
/// last.
pub open spec fn is_text(s: Seq<u8>) -> bool {
    &&& s.len() == 17
    &&& forall|k: int| 0 <= k < 17 ==> #[trigger] valid_at(s, k)
}

/// The byte that group `i` of the text `s` stands for.
pub open spec fn group_value(s: Seq<u8>, i: int) -> u8 {
    (hex_value(s[3 * i]) * 16 + hex_value(s[3 * i + 1])) as u8
}

/// The six bytes that the text `s` stands for.
pub open spec fn text_value(s: Seq<u8>) -> Seq<u8>
    recommends
        is_text(s),
{
    Seq::new(6, |i: int| group_value(s, i))
}

/// The six bytes that `s` stands for, if it is the text of an address.
pub open spec fn parse_spec(s: Seq<u8>) -> Option<Seq<u8>> {
    if is_text(s) {
        Some(text_value(s))
    } else {
        None
    }
}

/// The text of the address `bytes` in upper case with `sep` between the
/// groups.
pub open spec fn text_with(bytes: Seq<u8>, sep: u8) -> Seq<u8>
    recommends
        bytes.len() == 6,
{
    Seq::new(
        17,
        |k: int|
            if k % 3 == 2 {
                sep
            } else if k % 3 == 0 {
                upper_hex(bytes[k / 3] as int / 16)
            } else {
                upper_hex(bytes[k / 3] as int % 16)
            },
    )
}

/// Whether place `k` of `s` holds what the canonical form has there: a
/// hyphen after every two upper-case digits.
pub open spec fn canonical_at(s: Seq<u8>, k: int) -> bool {
    if k % 3 == 2 {
        s[k] == HYPHEN
    } else {
        is_upper_hex(s[k])
    }
}

/// Whether `s` is the text of an address in canonical form: upper case, with
/// hyphens.
pub open spec fn is_canonical(s: Seq<u8>) -> bool {
    &&& s.len() == 17
    &&& forall|k: int| 0 <= k < 17 ==> #[trigger] canonical_at(s, k)
}

/// How many bytes of its text `to_string` has written after `i` groups.
spec fn written(i: int) -> int {
    if i < 6 {
        3 * i
    } else {
        17
    }
}

impl Eui48 {
    /// The canonical text of the address: `XX-XX-XX-XX-XX-XX`.
    pub open spec fn text(self) -> Seq<u8> {
        text_with(self@, HYPHEN)
    }

    pub fn new(bytes: [u8; 6]) -> (r: Self)
        ensures
            r@ == bytes@,
    {
        Eui48(bytes)
    }

    /// The address held by the six bytes of `src`.
    pub fn from_bytes(src: &[u8]) -> (r: Self)
        requires
            src@.len() == 6,
        ensures
            r@ == src@,
    {
        let bytes = [src[0], src[1], src[2], src[3], src[4], src[5]];
        assert(bytes@ =~= src@);
        Eui48(bytes)
    }

    pub fn to_bytes(self) -> (r: [u8; 6])
        ensures
            r@ == self@,
    {
        self.0
    }

    /// Reads an address from text. Both `00-11-22-33-44-55` and
    /// `00:11:22:33:44:55` are accepted, in either case.
    pub fn parse(s: &str) -> (r: Result<Self, Eui48ParseError>)
        ensures
            r is Ok <==> is_text(s.spec_bytes()),
            r is Ok ==> Some(r->Ok_0@) == parse_spec(s.spec_bytes()),
    {
        let b = s.as_bytes();
        let n = b.len();
        let mut ans = [0u8; 6];
        let mut tmp: u8 = 0;
        let mut part_idx: usize = 0;
        let mut total_idx: usize = 0;
        let mut pos: usize = 0;
        loop
            invariant
                b@ == s.spec_bytes(),
                n == b@.len(),
                pos <= n,
                pos == 3 * total_idx + part_idx,
                total_idx <= 5,
                part_idx <= 2,
                forall|k: int| 0 <= k < pos ==> #[trigger] valid_at(b@, k),
                forall|i: int| 0 <= i < total_idx ==> #[trigger] ans@[i] == group_value(b@, i),
                part_idx == 0 ==> tmp == 0,
                part_idx == 1 ==> is_hex(b@[pos - 1]) && tmp == hex_value(b@[pos - 1]),
                part_idx == 2 ==> tmp == group_value(b@, total_idx as int),
            decreases n - pos,
        {
            if pos == n {
                if total_idx == 5 && part_idx == 2 {
                    ans[total_idx] = tmp;
                    assert(ans@ =~= text_value(b@));
                    return Ok(Eui48(ans));
                }
                return Err(Eui48ParseError(()));
            }
            let byte = b[pos];
            let digit = hex_digit(byte);
            if part_idx < 2 {
                match digit {
                    Some(d) => {
                        proof {
                            lemma_shift_digit(tmp, d);
                        }
                        tmp = (tmp << 4) | d;
                        part_idx += 1;
                    },
                    None => {
                        assert(!valid_at(b@, pos as int));
                        return Err(Eui48ParseError(()));
                    },
                }
            } else if (byte == COLON || byte == HYPHEN) && total_idx < 5 {
                ans[total_idx] = tmp;
                tmp = 0;
                total_idx += 1;
                part_idx = 0;
            } else {
                assert(pos < 17 ==> !valid_at(b@, pos as int));
                return Err(Eui48ParseError(()));
            }
            pos += 1;
        }
    }

    /// The canonical text of the address: upper case, with hyphens.
    pub fn to_string(&self) -> (r: String)
        ensures
            r@ == ascii(self.text()),
    {
        let mut out = String::new();
        let mut i: usize = 0;
        while i < 6
            invariant
                i <= 6,
                out@ == ascii(self.text()).subrange(0, written(i as int)),
            decreases 6 - i,
        {
            let byte = self.0[i];
            assert((3 * i) / 3 == i && (3 * i + 1) / 3 == i);
            out.append(upper_hex_str(byte / 16));
            out.append(upper_hex_str(byte % 16));
            if i < 5 {
                proof {
                    reveal_strlit("-");
                    assert('-' == HYPHEN as char);
                }
                out.append("-");
            }
            i += 1;
            assert(out@ =~= ascii(self.text()).subrange(0, written(i as int)));
        }
        assert(out@ =~= ascii(self.text()));
        out
    }
}

impl Eui48 {
    /// An address has six bytes, and reading its canonical text gives the
    /// address back.
    pub proof fn lemma_parse_text(self)
        ensures
            self@.len() == 6,
            parse_spec(self.text()) == Some(self@),
            all_ascii(self.text()),
    {
        lemma_parse_text_with(self@, HYPHEN);
    }
}

impl FromStr for Eui48 {
    type Err = Eui48ParseError;

    /// Reads an address as `Eui48::parse` does.
    fn from_str(s: &str) -> (r: Result<Self, Self::Err>)
        ensures
            r is Ok <==> is_text(s.spec_bytes()),
            r is Ok ==> Some(r->Ok_0@) == parse_spec(s.spec_bytes()),
    {
        Eui48::parse(s)
    }
}

proof fn lemma_shift_digit(t: u8, d: u8)
    by (bit_vector)
    requires
        t < 16,
        d < 16,
    ensures
        (t << 4) | d == t * 16 + d,
{
}

/// The text of an address, with either separator, reads back as that
/// address.
pub proof fn lemma_parse_text_with(bytes: Seq<u8>, sep: u8)
    requires
        bytes.len() == 6,
        is_separator(sep),
    ensures
        parse_spec(text_with(bytes, sep)) == Some(bytes),
        all_ascii(text_with(bytes, sep)),
{
    let s = text_with(bytes, sep);
    assert forall|k: int| 0 <= k < 17 implies #[trigger] valid_at(s, k) by {
        lemma_upper_hex(bytes[k / 3] as int / 16);
        lemma_upper_hex(bytes[k / 3] as int % 16);
    }
    assert forall|i: int| 0 <= i < 6 implies group_value(s, i) == bytes[i] by {
        lemma_upper_hex(bytes[i] as int / 16);
        lemma_upper_hex(bytes[i] as int % 16);
    }
    assert(text_value(s) =~= bytes);
    assert forall|k: int| 0 <= k < s.len() implies #[trigger] s[k] < 0x80 by {
        lemma_upper_hex(bytes[k / 3] as int / 16);
        lemma_upper_hex(bytes[k / 3] as int % 16);
    }
}

/// A text in canonical form is the text of the address it stands for.
pub proof fn lemma_text_of_canonical(s: Seq<u8>)
    requires
        is_canonical(s),
    ensures
        is_text(s),
        text_with(text_value(s), HYPHEN) == s,
{
    assert forall|k: int| 0 <= k < 17 implies #[trigger] valid_at(s, k) by {
        assert(canonical_at(s, k));
    }
    let t = text_with(text_value(s), HYPHEN);
    assert forall|k: int| 0 <= k < 17 implies t[k] == s[k] by {
        let i = k / 3;
        assert(canonical_at(s, k) && canonical_at(s, 3 * i) && canonical_at(s, 3 * i + 1));
        lemma_upper_hex_of_value(s[3 * i]);
        lemma_upper_hex_of_value(s[3 * i + 1]);
    }
    assert(t =~= s);
}

} // verus!
