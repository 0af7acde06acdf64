//! Reading the canonical text of an IPv6 address gives the address back.

use crate::net::ip::Address;
use crate::net::ip_text::{
    colon_from, colons_at, double_colon, group_number, groups, groups_or_empty, hex_text,
    is_digits, is_group, is_zero_run, join, lemma_colon_at, lemma_colon_from, lemma_double_colon,
    lemma_longest_zero_run, longest_zero_run, parse_spec, text_of, zeros,
};
use crate::text::{all_ascii, is_hex, is_upper_hex, lemma_upper_hex, COLON};
use vstd::prelude::*;

verus! {

/// Whether the bytes of `a` from `fa` on and those of `b` from `fb` on agree
/// on `len` places.
spec fn same_range(a: Seq<u8>, fa: int, b: Seq<u8>, fb: int, len: int) -> bool {
    forall|k: int| 0 <= k < len ==> #[trigger] a[fa + k] == b[fb + k]
}

proof fn lemma_number_ext(a: Seq<u8>, fa: int, b: Seq<u8>, fb: int, len: int)
    requires
        0 <= len,
        same_range(a, fa, b, fb, len),
    ensures
        group_number(a, fa, fa + len) == group_number(b, fb, fb + len),
        is_digits(a, fa, fa + len) == is_digits(b, fb, fb + len),
    decreases len,
{
    if len > 0 {
        assert(same_range(a, fa, b, fb, len - 1));
        lemma_number_ext(a, fa, b, fb, len - 1);
        assert(a[fa + (len - 1)] == b[fb + (len - 1)]);
    }
    if is_digits(a, fa, fa + len) {
        assert forall|k: int| fb <= k < fb + len implies is_hex(#[trigger] b[k]) by {
            assert(a[fa + (k - fb)] == b[fb + (k - fb)]);
            assert(is_hex(a[fa + (k - fb)]));
        }
    }
    if is_digits(b, fb, fb + len) {
        assert forall|k: int| fa <= k < fa + len implies is_hex(#[trigger] a[k]) by {
            assert(a[fa + (k - fa)] == b[fb + (k - fa)]);
            assert(is_hex(b[fb + (k - fa)]));
        }
    }
}

proof fn lemma_colon_ext(a: Seq<u8>, fa: int, b: Seq<u8>, fb: int, len: int)
    requires
        0 <= len,
        same_range(a, fa, b, fb, len),
    ensures
        colon_from(a, fa, fa + len) - fa == colon_from(b, fb, fb + len) - fb,
{
    lemma_colon_from(a, fa, fa + len);
    let c = colon_from(a, fa, fa + len) - fa;
    assert forall|k: int| fb <= k < fb + c implies b[k] != COLON by {
        assert(a[fa + (k - fb)] == b[fb + (k - fb)]);
    }
    if c < len {
        assert(a[fa + c] == b[fb + c]);
    }
    lemma_colon_at(b, fb, fb + c, fb + len);
}

/// What a range spells depends on the bytes in the range alone.
proof fn lemma_groups_ext(a: Seq<u8>, fa: int, b: Seq<u8>, fb: int, len: int)
    requires
        0 <= len,
        same_range(a, fa, b, fb, len),
    ensures
        groups(a, fa, fa + len) == groups(b, fb, fb + len),
    decreases len,
{
    lemma_colon_ext(a, fa, b, fb, len);
    lemma_colon_from(a, fa, fa + len);
    let c = colon_from(a, fa, fa + len) - fa;
    assert(same_range(a, fa, b, fb, c));
    lemma_number_ext(a, fa, b, fb, c);
    if is_group(a, fa, fa + c) && c < len {
        assert(same_range(a, fa + c + 1, b, fb + c + 1, len - c - 1)) by {
            assert forall|k: int| 0 <= k < len - c - 1 implies #[trigger] a[fa + c + 1 + k] == b[fb
                + c + 1 + k] by {
                assert(a[fa + (c + 1 + k)] == b[fb + (c + 1 + k)]);
            }
        }
        lemma_groups_ext(a, fa + c + 1, b, fb + c + 1, len - c - 1);
    }
}

/// A list, a colon and one more group spell the list with that group added.
proof fn lemma_groups_append(s: Seq<u8>, from: int, mid: int, to: int)
    requires
        from <= mid < to,
        groups(s, from, mid) is Some,
        s[mid] == COLON,
        is_group(s, mid + 1, to),
    ensures
        groups(s, from, to) == Some(
            groups(s, from, mid)->0.push(group_number(s, mid + 1, to) as u16),
        ),
    decreases mid - from,
{
    lemma_colon_from(s, from, mid);
    let c = colon_from(s, from, mid);
    let g = groups(s, from, mid)->0;
    let w = group_number(s, mid + 1, to) as u16;
    let v = group_number(s, from, c) as u16;
    if c >= mid {
        lemma_colon_at(s, from, mid, to);
        lemma_colon_at(s, mid + 1, to, to);
        assert(groups(s, mid + 1, to) == Some(seq![w]));
        assert(seq![v] + seq![w] =~= g.push(w));
    } else {
        lemma_colon_at(s, from, c, to);
        let rest = groups(s, c + 1, mid)->0;
        lemma_groups_append(s, c + 1, mid, to);
        assert(seq![v] + rest.push(w) =~= g.push(w));
    }
}

/// The digits of a 16-bit number are a group that spells the number.
proof fn lemma_hex_text(v: int)
    requires
        0 <= v < 0x1_0000,
    ensures
        v < 0x10 ==> hex_text(v).len() == 1,
        0x10 <= v < 0x100 ==> hex_text(v).len() == 2,
        0x100 <= v < 0x1000 ==> hex_text(v).len() == 3,
        0x1000 <= v ==> hex_text(v).len() == 4,
        forall|k: int| 0 <= k < hex_text(v).len() ==> is_upper_hex(#[trigger] hex_text(v)[k]),
        group_number(hex_text(v), 0, hex_text(v).len() as int) == v,
    decreases v,
{
    let h = hex_text(v);
    lemma_upper_hex(v % 16);
    if v < 16 {
        assert(group_number(h, 0, 0) == 0);
    } else {
        let g = hex_text(v / 16);
        lemma_hex_text(v / 16);
        let n = g.len() as int;
        assert(same_range(h, 0, g, 0, n));
        lemma_number_ext(h, 0, g, 0, n);
    }
}

/// What holds of the text of a list of segments: it is not empty, neither
/// begins nor ends with a colon, and holds no two colons in a row.
spec fn is_list_text(j: Seq<u8>) -> bool {
    &&& j.len() >= 1
    &&& j[0] != COLON
    &&& j[j.len() - 1] != COLON
    &&& forall|k: int| !#[trigger] colons_at(j, k)
    &&& all_ascii(j)
}

/// The text of a list of segments spells these segments.
proof fn lemma_join(segs: Seq<u16>, a: int, b: int)
    requires
        0 <= a < b <= segs.len(),
    ensures
        is_list_text(join(segs, a, b)),
        groups(join(segs, a, b), 0, join(segs, a, b).len() as int) == Some(segs.subrange(a, b)),
    decreases b - a,
{
    let j = join(segs, a, b);
    let h = hex_text(segs[b - 1] as int);
    lemma_hex_text(segs[b - 1] as int);
    let n = h.len() as int;
    assert forall|k: int| 0 <= k < n implies is_hex(#[trigger] h[k]) && h[k] != COLON && h[k]
        < 0x80 by {
        assert(is_upper_hex(h[k]));
    }
    if a + 1 == b {
        lemma_colon_at(j, 0, n, n);
        assert(seq![segs[a]] =~= segs.subrange(a, b));
        assert(is_digits(j, 0, n));
    } else {
        let j1 = join(segs, a, b - 1);
        lemma_join(segs, a, b - 1);
        let n1 = j1.len() as int;
        assert(same_range(j, 0, j1, 0, n1));
        lemma_groups_ext(j, 0, j1, 0, n1);
        assert(same_range(j, n1 + 1, h, 0, n));
        lemma_number_ext(j, n1 + 1, h, 0, n);
        assert(is_digits(h, 0, n));
        lemma_groups_append(j, 0, n1, n1 + 1 + n);
        assert(segs.subrange(a, b - 1).push(segs[b - 1]) =~= segs.subrange(a, b));
        assert forall|k: int| !#[trigger] colons_at(j, k) by {
            if 0 <= k && k + 1 < n1 {
                assert(!colons_at(j1, k));
            } else if k >= n1 && k + 1 < j.len() {
                assert(j[k + 1] == h[k - n1]);
            }
        }
        assert forall|k: int| 0 <= k < j.len() implies #[trigger] j[k] < 0x80 by {
            if k < n1 {
                assert(j1[k] < 0x80);
            } else if k > n1 {
                assert(j[k] == h[k - n1 - 1]);
            }
        }
        assert(j[j.len() - 1] == h[n - 1]);
    }
}

/// Reading the canonical text of eight segments gives the segments back.
pub proof fn lemma_parse_text_of(segs: Seq<u16>)
    requires
        segs.len() == 8,
    ensures
        parse_spec(text_of(segs)) == Some(segs),
        all_ascii(text_of(segs)),
{
    lemma_longest_zero_run(segs);
    let (start, len) = longest_zero_run(segs);
    let t = text_of(segs);
    assert(is_zero_run(segs, start, len));
    lemma_double_colon(t, 0);
    if len == 0 {
        lemma_join(segs, 0, 8);
        assert(segs.subrange(0, 8) =~= segs);
        if double_colon(t, 0) < t.len() {
            assert(colons_at(t, double_colon(t, 0)));
        }
    } else {
        let head = join(segs, 0, start);
        let tail = join(segs, start + len, 8);
        let p = head.len() as int;
        assert(t.len() == p + 2 + tail.len());
        assert(colons_at(t, p));
        if start > 0 {
            lemma_join(segs, 0, start);
        }
        if start + len < 8 {
            lemma_join(segs, start + len, 8);
        }
        let dc = double_colon(t, 0);
        if dc < p {
            assert(colons_at(t, dc));
            if dc + 1 < p {
                assert(colons_at(head, dc));
            }
        }
        assert(dc == p);
        if start > 0 {
            assert(same_range(t, 0, head, 0, p));
            lemma_groups_ext(t, 0, head, 0, p);
        }
        if start + len < 8 {
            assert(same_range(t, p + 2, tail, 0, tail.len() as int));
            lemma_groups_ext(t, p + 2, tail, 0, tail.len() as int);
        }
        let h = groups_or_empty(t, 0, p)->0;
        let g = groups_or_empty(t, p + 2, t.len() as int)->0;
        assert(h =~= segs.subrange(0, start));
        assert(g =~= segs.subrange(start + len, 8));
        assert(h + zeros(8 - h.len() - g.len()) + g =~= segs);
        assert forall|k: int| 0 <= k < t.len() implies #[trigger] t[k] < 0x80 by {
            if k < p {
                assert(head[k] < 0x80);
            } else if k >= p + 2 {
                assert(tail[k - p - 2] < 0x80);
            }
        }
    }
}

impl Address {
    /// Reading the canonical text of an address gives the address back.
    pub proof fn lemma_parse_text(self)
        ensures
            parse_spec(self.text()) == Some(self.spec_segments()),
            all_ascii(self.text()),
    {
        self.lemma_octets_of_segments(0);
        lemma_parse_text_of(self.spec_segments());
    }
}

} // verus!
