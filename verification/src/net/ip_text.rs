//! The text form of IPv6 addresses: groups of hexadecimal digits separated by
//! colons, with at most one `::` that stands for a run of zero segments.
//!
//! A text is a sequence of ASCII bytes. The specification speaks of a text
//! `s` and of ranges `from..to` of its places.

use crate::net::ip::{Address, Subnet};
use crate::text::{
    ascii, decimal_digit, decimal_digit_str, hex_digit, hex_value, is_hex, upper_hex,
    upper_hex_str, COLON, SLASH,
};
use core::str::FromStr;
use vstd::prelude::*;
use vstd::string::*;

verus! {

/// The text was not an IPv6 address.
#[derive(Debug, Clone, Copy, PartialEq, Eq, Hash)]
pub struct ParseAddressError(());

/// The place of the first colon of `s` in `from..to`, or `to` if there is
/// none.
pub open spec fn colon_from(s: Seq<u8>, from: int, to: int) -> int
    decreases to - from,
{
    if from >= to {
        from
    } else if s[from] == COLON {
        from
    } else {
        colon_from(s, from + 1, to)
    }
}

/// The number that the hexadecimal digits at `from..to` of `s` spell.
pub open spec fn group_number(s: Seq<u8>, from: int, to: int) -> int
    decreases to - from,
{
    if from >= to {
        0
    } else {
        group_number(s, from, to - 1) * 16 + hex_value(s[to - 1])
    }
}

/// Whether every place in `from..to` of `s` holds a hexadecimal digit.
pub open spec fn is_digits(s: Seq<u8>, from: int, to: int) -> bool {
    forall|k: int| from <= k < to ==> is_hex(#[trigger] s[k])
}

/// Whether `from..to` of `s` is one group: one to four hexadecimal digits.
pub open spec fn is_group(s: Seq<u8>, from: int, to: int) -> bool {
    1 <= to - from <= 4 && is_digits(s, from, to)
}

/// The segments that `from..to` of `s` spells as a list of one or more
/// groups with a single colon between each two, or `None` if it is no such
/// list.
pub open spec fn groups(s: Seq<u8>, from: int, to: int) -> Option<Seq<u16>>
    decreases to - from,
{
    let c = colon_from(s, from, to);
    if !is_group(s, from, c) {
        None
    } else if c < from || c >= to {
        Some(seq![group_number(s, from, c) as u16])
    } else {
        prepend(seq![group_number(s, from, c) as u16], groups(s, c + 1, to))
    }
}

/// `rest` with `done` put in front of it.
pub open spec fn prepend(done: Seq<u16>, rest: Option<Seq<u16>>) -> Option<Seq<u16>> {
    match rest {
        Some(r) => Some(done + r),
        None => None,
    }
}

/// As `groups`, but an empty range spells no segment at all.
pub open spec fn groups_or_empty(s: Seq<u8>, from: int, to: int) -> Option<Seq<u16>> {
    if from >= to {
        Some(Seq::empty())
    } else {
        groups(s, from, to)
    }
}

/// Whether `s` holds two colons in a row at place `k`.
pub open spec fn colons_at(s: Seq<u8>, k: int) -> bool {
    0 <= k && k + 1 < s.len() && s[k] == COLON && s[k + 1] == COLON
}

/// The first place at or after `from` where `s` holds two colons in a row,
/// or the length of `s` if there is none.
pub open spec fn double_colon(s: Seq<u8>, from: int) -> int
    decreases s.len() - from,
{
    if from + 1 >= s.len() {
        s.len() as int
    } else if colons_at(s, from) {
        from
    } else {
        double_colon(s, from + 1)
    }
}

/// `n` zero segments.
pub open spec fn zeros(n: int) -> Seq<u16> {
    Seq::new(n as nat, |i: int| 0u16)
}

/// The eight segments that the text `s` stands for, or `None` if `s` is not
/// the text of an address.
///
/// Without `::` the text is a list of exactly eight groups. With `::` the
/// lists before and after it (either may be empty) hold at most seven groups
/// together, and `::` stands for the zero segments that are missing.
pub open spec fn parse_spec(s: Seq<u8>) -> Option<Seq<u16>> {
    let p = double_colon(s, 0);
    if p >= s.len() {
        match groups(s, 0, s.len() as int) {
            Some(g) => if g.len() == 8 {
                Some(g)
            } else {
                None
            },
            None => None,
        }
    } else {
        match (groups_or_empty(s, 0, p), groups_or_empty(s, p + 2, s.len() as int)) {
            (Some(h), Some(t)) => if h.len() + t.len() <= 7 {
                Some(h + zeros(8 - h.len() - t.len()) + t)
            } else {
                None
            },
            _ => None,
        }
    }
}

pub proof fn lemma_colon_from(s: Seq<u8>, from: int, to: int)
    requires
        from <= to,
    ensures
        from <= colon_from(s, from, to) <= to,
        forall|k: int| from <= k < colon_from(s, from, to) ==> s[k] != COLON,
        colon_from(s, from, to) < to ==> s[colon_from(s, from, to)] == COLON,
    decreases to - from,
{
    if from < to && s[from] != COLON {
        lemma_colon_from(s, from + 1, to);
    }
}

/// The first colon is at `c` if no place before `c` holds one and `c` does,
/// or is the end.
pub proof fn lemma_colon_at(s: Seq<u8>, from: int, c: int, to: int)
    requires
        from <= c <= to,
        forall|k: int| from <= k < c ==> s[k] != COLON,
        c < to ==> s[c] == COLON,
    ensures
        colon_from(s, from, to) == c,
{
    lemma_colon_from(s, from, to);
}

pub proof fn lemma_double_colon(s: Seq<u8>, from: int)
    requires
        0 <= from <= s.len(),
    ensures
        from <= double_colon(s, from) <= s.len(),
        double_colon(s, from) < s.len() ==> colons_at(s, double_colon(s, from)),
        forall|k: int| from <= k < double_colon(s, from) ==> !#[trigger] colons_at(s, k),
    decreases s.len() - from,
{
    if from + 1 < s.len() && !colons_at(s, from) {
        lemma_double_colon(s, from + 1);
    }
}

/// A list of groups holds at least one group.
pub proof fn lemma_groups_len(s: Seq<u8>, from: int, to: int)
    ensures
        groups(s, from, to) is Some ==> groups(s, from, to)->0.len() >= 1,
{
}

/// A range that ends with a group and a colon at `pos` spells that group and
/// then what follows the colon.
proof fn lemma_groups_colon(s: Seq<u8>, from: int, pos: int, to: int)
    requires
        from <= pos < to,
        is_digits(s, from, pos),
        s[pos] == COLON,
    ensures
        groups(s, from, to) == if is_group(s, from, pos) {
            prepend(seq![group_number(s, from, pos) as u16], groups(s, pos + 1, to))
        } else {
            None
        },
{
    lemma_colon_at(s, from, pos, to);
}

/// A range of digits alone spells one group.
proof fn lemma_groups_last(s: Seq<u8>, from: int, to: int)
    requires
        from <= to,
        is_digits(s, from, to),
    ensures
        groups(s, from, to) == if is_group(s, from, to) {
            Some(seq![group_number(s, from, to) as u16])
        } else {
            None
        },
{
    lemma_colon_at(s, from, to, to);
}

/// A range whose first group holds a byte that is no digit, or more than
/// four digits, spells nothing.
proof fn lemma_groups_none(s: Seq<u8>, from: int, pos: int, to: int)
    requires
        from <= pos < to,
        forall|k: int| from <= k <= pos ==> s[k] != COLON,
        !is_hex(s[pos]) || pos - from >= 4,
    ensures
        groups(s, from, to) is None,
{
    lemma_colon_from(s, from, to);
    let c = colon_from(s, from, to);
    assert(c > pos);
    if is_group(s, from, c) {
        assert(is_hex(s[pos]));
    }
}

proof fn lemma_shift_digit(t: u16, d: u8)
    by (bit_vector)
    requires
        t < 4096,
        d < 16,
    ensures
        (t << 4) | (d as u16) == t * 16 + d,
{
}

proof fn lemma_group_number_bound(s: Seq<u8>, from: int, to: int)
    requires
        from <= to <= from + 4,
        is_digits(s, from, to),
    ensures
        to - from == 0 ==> group_number(s, from, to) == 0,
        to - from == 1 ==> 0 <= group_number(s, from, to) < 0x10,
        to - from == 2 ==> 0 <= group_number(s, from, to) < 0x100,
        to - from == 3 ==> 0 <= group_number(s, from, to) < 0x1000,
        to - from == 4 ==> 0 <= group_number(s, from, to) < 0x1_0000,
    decreases to - from,
{
    if from < to {
        lemma_group_number_bound(s, from, to - 1);
        assert(is_hex(s[to - 1]));
    }
}

impl Address {
    /// Reads an address from its text, such as `FE80::1234:5678`. Digits of
    /// either case are accepted.
    pub fn parse(s: &str) -> (r: Result<Address, ParseAddressError>)
        ensures
            r is Ok <==> parse_spec(s.spec_bytes()) is Some,
            r is Ok ==> Some(r->Ok_0.spec_segments()) == parse_spec(s.spec_bytes()),
    {
        let b = s.as_bytes();
        let n = b.len();
        let mut segments = [0u16; 8];
        let mut cur_num: u16 = 0;
        let mut cur_num_len: usize = 0;
        let mut is_start = true;
        let mut segment_idx: usize = 0;
        let mut pos: usize = 0;
        // Where `::` stands, or the end of the text. The scan learns it only
        // when it gets there; the proof speaks of it from the start.
        let ghost e = double_colon(b@, 0);
        // Where the group that is being read begins.
        let ghost mut gs: int = 0;
        proof {
            lemma_double_colon(b@, 0);
            assert(segments@.subrange(0, 0) + groups(b@, 0, e)->0 =~= groups(b@, 0, e)->0);
        }
        loop
            invariant_except_break
                0 <= gs <= pos <= e,
                is_start == (pos == 0),
                cur_num_len == pos - gs,
                is_digits(b@, gs, pos as int),
                cur_num == group_number(b@, gs, pos as int),
                gs > 0 ==> segment_idx >= 1 && (pos == gs ==> pos < n && b@[pos as int] != COLON),
                gs == 0 ==> segment_idx == 0,
                groups(b@, 0, e) == prepend(
                    segments@.subrange(0, segment_idx as int),
                    groups(b@, gs, e),
                ),
            invariant
                n == b@.len(),
                b@ == s.spec_bytes(),
                e == double_colon(b@, 0),
                e <= n,
                e < n ==> colons_at(b@, e),
                forall|k: int| 0 <= k < e ==> !#[trigger] colons_at(b@, k),
                cur_num_len <= 4,
                segment_idx <= 8,
            ensures
                e < n,
                pos == e + 2,
                groups_or_empty(b@, 0, e) == Some(segments@.subrange(0, segment_idx as int)),
            decreases n - pos,
        {
            proof {
                lemma_group_number_bound(b@, gs, pos as int);
            }
            if pos == n {
                if segment_idx == 7 {
                    proof {
                        lemma_groups_last(b@, gs, n as int);
                    }
                    segments[segment_idx] = cur_num;
                    let r = Address::from_segments(segments);
                    assert(groups(b@, 0, e)->0 =~= segments@);
                    return Ok(r);
                }
                proof {
                    lemma_groups_last(b@, gs, n as int);
                }
                return Err(ParseAddressError(()));
            }
            let byte = b[pos];
            match hex_digit(byte) {
                Some(digit) => {
                    if cur_num_len >= 4 {
                        proof {
                            lemma_groups_none(b@, gs, pos as int, e);
                        }
                        return Err(ParseAddressError(()));
                    }
                    proof {
                        lemma_shift_digit(cur_num, digit);
                    }
                    cur_num_len += 1;
                    cur_num = (cur_num << 4) | (digit as u16);
                    is_start = false;
                    pos += 1;
                },
                None => {
                    if byte != COLON {
                        proof {
                            lemma_groups_none(b@, gs, pos as int, e);
                        }
                        return Err(ParseAddressError(()));
                    }
                    let next_is_colon = pos + 1 < n && b[pos + 1] == COLON;
                    if (!next_is_colon && is_start) || pos + 1 >= n || segment_idx >= 8 {
                        proof {
                            lemma_groups_len(b@, gs, e);
                            if !colons_at(b@, pos as int) {
                                lemma_groups_colon(b@, gs, pos as int, e);
                                lemma_groups_len(b@, pos + 1, e);
                                if pos + 1 >= n {
                                    lemma_groups_last(b@, pos + 1, n as int);
                                }
                            }
                        }
                        return Err(ParseAddressError(()));
                    }
                    let ghost before = segments@.subrange(0, segment_idx as int);
                    if !is_start {
                        segments[segment_idx] = cur_num;
                        segment_idx += 1;
                    }
                    if next_is_colon {
                        proof {
                            assert(colons_at(b@, pos as int));
                            assert(e == pos);
                            if pos > 0 {
                                lemma_groups_last(b@, gs, pos as int);
                                assert(segments@.subrange(0, segment_idx as int) =~= before + seq![
                                    cur_num,
                                ]);
                            }
                        }
                        pos += 2;
                        break ;
                    }
                    proof {
                        lemma_groups_colon(b@, gs, pos as int, e);
                        assert(segments@.subrange(0, segment_idx as int) =~= before + seq![
                            cur_num,
                        ]);
                        let rest = groups(b@, pos + 1, e);
                        if rest is Some {
                            assert(before + (seq![cur_num] + rest->0) =~= (before + seq![cur_num])
                                + rest->0);
                        }
                        gs = pos + 1;
                    }
                    cur_num_len = 0;
                    cur_num = 0;
                    is_start = false;
                    pos += 1;
                },
            }
        }
        // The groups before `::` are read. The groups after it go behind them
        // for now and move to the end of the address when their number is
        // known.
        let omitted_idx_start = segment_idx;
        let ghost head = segments@.subrange(0, segment_idx as int);
        let ghost from = pos as int;
        is_start = true;
        cur_num_len = 0;
        cur_num = 0;
        proof {
            gs = from;
            if groups(b@, from, n as int) is Some {
                assert(Seq::<u16>::empty() + groups(b@, from, n as int)->0 =~= groups(
                    b@,
                    from,
                    n as int,
                )->0);
            }
        }
        loop
            invariant_except_break
                from <= gs <= pos <= n,
                is_start == (pos == from),
                cur_num_len == pos - gs,
                is_digits(b@, gs, pos as int),
                cur_num == group_number(b@, gs, pos as int),
                gs > from ==> (pos == gs ==> pos < n && b@[pos as int] != COLON),
                gs == from ==> segment_idx == omitted_idx_start,
                groups(b@, from, n as int) == prepend(
                    segments@.subrange(omitted_idx_start as int, segment_idx as int),
                    groups(b@, gs, n as int),
                ),
            invariant
                n == b@.len(),
                b@ == s.spec_bytes(),
                from == e + 2,
                e == double_colon(b@, 0),
                e < n,
                cur_num_len <= 4,
                omitted_idx_start <= segment_idx <= 8,
                segments@.subrange(0, omitted_idx_start as int) == head,
                groups_or_empty(b@, 0, e) == Some(head),
            ensures
                groups_or_empty(b@, from, n as int) == Some(
                    segments@.subrange(omitted_idx_start as int, segment_idx as int),
                ),
            decreases n - pos,
        {
            proof {
                lemma_group_number_bound(b@, gs, pos as int);
            }
            if pos == n {
                if !is_start {
                    proof {
                        lemma_groups_last(b@, gs, n as int);
                    }
                    if segment_idx >= 8 {
                        proof {
                            lemma_groups_len(b@, gs, n as int);
                        }
                        return Err(ParseAddressError(()));
                    }
                    let ghost before = segments@.subrange(
                        omitted_idx_start as int,
                        segment_idx as int,
                    );
                    segments[segment_idx] = cur_num;
                    segment_idx += 1;
                    proof {
                        assert(segments@.subrange(omitted_idx_start as int, segment_idx as int)
                            =~= before + seq![cur_num]);
                        assert(segments@.subrange(0, omitted_idx_start as int) =~= head);
                    }
                } else {
                    assert(segments@.subrange(omitted_idx_start as int, segment_idx as int)
                        =~= Seq::<u16>::empty());
                }
                break ;
            }
            let byte = b[pos];
            match hex_digit(byte) {
                Some(digit) => {
                    if cur_num_len >= 4 {
                        proof {
                            lemma_groups_none(b@, gs, pos as int, n as int);
                        }
                        return Err(ParseAddressError(()));
                    }
                    proof {
                        lemma_shift_digit(cur_num, digit);
                    }
                    cur_num_len += 1;
                    cur_num = (cur_num << 4) | (digit as u16);
                    is_start = false;
                    pos += 1;
                },
                None => {
                    if byte != COLON {
                        proof {
                            lemma_groups_none(b@, gs, pos as int, n as int);
                        }
                        return Err(ParseAddressError(()));
                    }
                    let next_is_colon = pos + 1 < n && b[pos + 1] == COLON;
                    if next_is_colon || pos + 1 >= n || is_start || segment_idx >= 8 {
                        proof {
                            lemma_groups_colon(b@, gs, pos as int, n as int);
                            lemma_groups_len(b@, pos + 1, n as int);
                            if pos + 1 >= n {
                                lemma_groups_last(b@, pos + 1, n as int);
                            } else if next_is_colon {
                                lemma_groups_colon(b@, pos + 1, pos + 1, n as int);
                            }
                        }
                        return Err(ParseAddressError(()));
                    }
                    let ghost before = segments@.subrange(
                        omitted_idx_start as int,
                        segment_idx as int,
                    );
                    segments[segment_idx] = cur_num;
                    segment_idx += 1;
                    proof {
                        lemma_groups_colon(b@, gs, pos as int, n as int);
                        assert(segments@.subrange(omitted_idx_start as int, segment_idx as int)
                            =~= before + seq![cur_num]);
                        assert(segments@.subrange(0, omitted_idx_start as int) =~= head);
                        let rest = groups(b@, pos + 1, n as int);
                        if rest is Some {
                            assert(before + (seq![cur_num] + rest->0) =~= (before + seq![cur_num])
                                + rest->0);
                        }
                        gs = pos + 1;
                    }
                    cur_num_len = 0;
                    cur_num = 0;
                    is_start = false;
                    pos += 1;
                },
            }
        }
        let ghost tail = segments@.subrange(omitted_idx_start as int, segment_idx as int);
        // `::` stands for one zero segment at least.
        if segment_idx >= 8 {
            return Err(ParseAddressError(()));
        }
        let n_omitted_segments = 8 - segment_idx;
        let ghost filled = segments@;
        let mut idx: usize = 8;
        while idx > omitted_idx_start + n_omitted_segments
            invariant
                omitted_idx_start <= segment_idx < 8,
                n_omitted_segments == 8 - segment_idx,
                omitted_idx_start + n_omitted_segments <= idx <= 8,
                filled.len() == 8,
                forall|j: int| 0 <= j < idx ==> segments@[j] == filled[j],
                forall|j: int| idx <= j < 8 ==> segments@[j] == filled[j - n_omitted_segments],
            decreases idx,
        {
            idx -= 1;
            segments[idx] = segments[idx - n_omitted_segments];
        }
        let mut idx: usize = omitted_idx_start;
        while idx < omitted_idx_start + n_omitted_segments
            invariant
                omitted_idx_start <= segment_idx < 8,
                n_omitted_segments == 8 - segment_idx,
                omitted_idx_start <= idx <= omitted_idx_start + n_omitted_segments,
                filled.len() == 8,
                forall|j: int| 0 <= j < omitted_idx_start ==> segments@[j] == filled[j],
                forall|j: int| omitted_idx_start <= j < idx ==> segments@[j] == 0,
                forall|j: int|
                    omitted_idx_start + n_omitted_segments <= j < 8 ==> segments@[j] == filled[j
                        - n_omitted_segments],
            decreases omitted_idx_start + n_omitted_segments - idx,
        {
            segments[idx] = 0;
            idx += 1;
        }
        proof {
            assert(segments@ =~= head + zeros(8 - head.len() - tail.len()) + tail);
        }
        Ok(Address::from_segments(segments))
    }
}

/// Whether the `len` segments of `segs` from `start` on are all zero.
pub open spec fn is_zero_run(segs: Seq<u16>, start: int, len: int) -> bool {
    &&& 0 <= start
    &&& 0 <= len
    &&& start + len <= segs.len()
    &&& forall|k: int| start <= k < start + len ==> #[trigger] segs[k] == 0
}

/// Whether the run of `len` zero segments from `start` on is the longest one
/// in `segs`, and the leftmost of that length. Where `segs` holds no zero at
/// all this is the empty run at place 0.
pub open spec fn is_longest_zero_run(segs: Seq<u16>, start: int, len: int) -> bool {
    &&& is_zero_run(segs, start, len)
    &&& forall|s2: int, l2: int| #[trigger]
        is_zero_run(segs, s2, l2) ==> l2 < len || (l2 == len && s2 >= start)
}

/// The start and the length of the longest run of zero segments in `segs`,
/// the leftmost one among several of that length.
pub open spec fn longest_zero_run(segs: Seq<u16>) -> (int, int) {
    choose|p: (int, int)| is_longest_zero_run(segs, p.0, p.1)
}

/// The number `v` in upper-case hexadecimal digits, without leading zeros.
pub open spec fn hex_text(v: int) -> Seq<u8>
    decreases v,
{
    if v < 16 {
        seq![upper_hex(v)]
    } else {
        hex_text(v / 16).push(upper_hex(v % 16))
    }
}

/// The segments `from..to` of `segs` as text, with a colon between each two.
pub open spec fn join(segs: Seq<u16>, from: int, to: int) -> Seq<u8>
    decreases to - from,
{
    if from >= to {
        Seq::empty()
    } else if from + 1 == to {
        hex_text(segs[from] as int)
    } else {
        join(segs, from, to - 1) + seq![COLON] + hex_text(segs[to - 1] as int)
    }
}

/// The canonical text of the address with the segments `segs`: the longest
/// run of zero segments, the leftmost among equals, is written `::`, and the
/// other segments are written in upper case without leading zeros.
pub open spec fn text_of(segs: Seq<u16>) -> Seq<u8>
    recommends
        segs.len() == 8,
{
    let (start, len) = longest_zero_run(segs);
    if len == 0 {
        join(segs, 0, 8)
    } else {
        join(segs, 0, start) + seq![COLON, COLON] + join(segs, start + len, 8)
    }
}

/// There is only one longest, leftmost run of zero segments.
pub proof fn lemma_longest_zero_run_unique(segs: Seq<u16>, start: int, len: int)
    requires
        is_longest_zero_run(segs, start, len),
    ensures
        longest_zero_run(segs) == (start, len),
{
    let p = longest_zero_run(segs);
    assert(is_longest_zero_run(segs, (start, len).0, (start, len).1));
    assert(is_longest_zero_run(segs, p.0, p.1));
    assert(is_zero_run(segs, start, len));
    assert(is_zero_run(segs, p.0, p.1));
}

/// What the search for the longest run knows after the first `idx` segments:
/// `best_len` from `best_idx` is the longest run among them, and the last
/// `cur_len` of them are the zero run that ends there.
spec fn scanned(segs: Seq<u16>, idx: int, best_idx: int, best_len: int, cur_len: int) -> bool {
    &&& 0 <= idx <= segs.len()
    &&& is_longest_zero_run(segs.subrange(0, idx), best_idx, best_len)
    &&& is_zero_run(segs.subrange(0, idx), idx - cur_len, cur_len)
    &&& cur_len < idx ==> segs[idx - cur_len - 1] != 0
}

/// One step of the search: taking segment `idx` into account.
proof fn lemma_scan_step(segs: Seq<u16>, idx: int, best_idx: int, best_len: int, cur_len: int)
    requires
        idx < segs.len(),
        scanned(segs, idx, best_idx, best_len, cur_len),
    ensures
        segs[idx] == 0 && cur_len + 1 > best_len ==> scanned(
            segs,
            idx + 1,
            idx - cur_len,
            cur_len + 1,
            cur_len + 1,
        ),
        segs[idx] == 0 && cur_len + 1 <= best_len ==> scanned(
            segs,
            idx + 1,
            best_idx,
            best_len,
            cur_len + 1,
        ),
        segs[idx] != 0 ==> scanned(segs, idx + 1, best_idx, best_len, 0),
{
    let p = segs.subrange(0, idx);
    let q = segs.subrange(0, idx + 1);
    let cur = if segs[idx] == 0 {
        cur_len + 1
    } else {
        0
    };
    let (b, l) = if segs[idx] == 0 && cur_len + 1 > best_len {
        (idx - cur_len, cur_len + 1)
    } else {
        (best_idx, best_len)
    };
    assert(is_zero_run(q, idx + 1 - cur, cur)) by {
        assert forall|k: int| idx + 1 - cur <= k < idx + 1 implies #[trigger] q[k] == 0 by {
            if k < idx {
                assert(p[k] == 0);
            }
        }
    }
    assert(is_zero_run(q, b, l)) by {
        assert forall|k: int| b <= k < b + l implies #[trigger] q[k] == 0 by {
            if k < idx {
                assert(p[k] == 0);
            }
        }
    }
    assert(is_zero_run(p, idx - cur_len, cur_len));
    assert(is_zero_run(p, best_idx, best_len));
    assert forall|s2: int, l2: int| #[trigger] is_zero_run(q, s2, l2) implies l2 < l || (l2 == l
        && s2 >= b) by {
        if s2 + l2 <= idx {
            assert(is_zero_run(p, s2, l2)) by {
                assert forall|k: int| s2 <= k < s2 + l2 implies #[trigger] p[k] == 0 by {
                    assert(q[k] == 0);
                }
            }
        } else {
            if l2 > cur {
                assert(q[idx - cur] == 0);
            }
        }
    }
}

/// Every list of segments has a longest run of zero segments.
pub proof fn lemma_longest_zero_run(segs: Seq<u16>)
    ensures
        is_longest_zero_run(segs, longest_zero_run(segs).0, longest_zero_run(segs).1),
{
    let r = lemma_scan(segs, segs.len() as int);
    assert(segs.subrange(0, segs.len() as int) =~= segs);
    lemma_longest_zero_run_unique(segs, r.0, r.1);
}

proof fn lemma_scan(segs: Seq<u16>, idx: int) -> (r: (int, int, int))
    requires
        0 <= idx <= segs.len(),
    ensures
        scanned(segs, idx, r.0, r.1, r.2),
    decreases idx,
{
    if idx == 0 {
        assert(is_zero_run(segs.subrange(0, 0), 0, 0));
        (0, 0, 0)
    } else {
        let r = lemma_scan(segs, idx - 1);
        lemma_scan_step(segs, idx - 1, r.0, r.1, r.2);
        if segs[idx - 1] == 0 {
            if r.2 + 1 > r.1 {
                (idx - 1 - r.2, r.2 + 1, r.2 + 1)
            } else {
                (r.0, r.1, r.2 + 1)
            }
        } else {
            (r.0, r.1, 0)
        }
    }
}

/// What `to_string` has written when it reaches segment `idx`.
spec fn written(segs: Seq<u16>, start: int, len: int, idx: int) -> Seq<u8> {
    if len > 0 && idx >= start + len {
        join(segs, 0, start) + seq![COLON, COLON] + join(segs, start + len, idx) + (if start + len
            < idx < 8 {
            seq![COLON]
        } else {
            Seq::empty()
        })
    } else {
        join(segs, 0, idx) + (if 0 < idx < 8 && !(len > 0 && idx == start) {
            seq![COLON]
        } else {
            Seq::empty()
        })
    }
}

/// The longest run of zero segments, the leftmost among equals.
fn find_zero_run(segments: &[u16; 8]) -> (r: (usize, usize))
    ensures
        is_longest_zero_run(segments@, r.0 as int, r.1 as int),
        r.0 + r.1 <= 8,
{
    let mut longest_idx: usize = 0;
    let mut longest_len: usize = 0;
    let mut cur_len: usize = 0;
    let mut idx: usize = 0;
    assert(is_zero_run(segments@.subrange(0, 0), 0, 0));
    while idx < 8
        invariant
            idx <= 8,
            cur_len <= idx,
            longest_idx + longest_len <= idx,
            scanned(segments@, idx as int, longest_idx as int, longest_len as int, cur_len as int),
        decreases 8 - idx,
    {
        proof {
            lemma_scan_step(
                segments@,
                idx as int,
                longest_idx as int,
                longest_len as int,
                cur_len as int,
            );
        }
        if segments[idx] == 0 {
            cur_len += 1;
            if cur_len > longest_len {
                longest_len = cur_len;
                longest_idx = idx + 1 - cur_len;
            }
        } else {
            cur_len = 0;
        }
        idx += 1;
    }
    assert(segments@.subrange(0, 8) =~= segments@);
    (longest_idx, longest_len)
}

/// Appends `v` in upper-case hexadecimal digits, without leading zeros.
fn push_hex(out: &mut String, v: u16)
    ensures
        final(out)@ == old(out)@ + ascii(hex_text(v as int)),
{
    proof {
        reveal_with_fuel(hex_text, 5);
    }
    if v >= 0x1000 {
        out.append(upper_hex_str((v / 0x1000) as u8));
    }
    if v >= 0x100 {
        out.append(upper_hex_str(((v / 0x100) % 16) as u8));
    }
    if v >= 0x10 {
        out.append(upper_hex_str(((v / 0x10) % 16) as u8));
    }
    out.append(upper_hex_str((v % 16) as u8));
    assert(out@ =~= old(out)@ + ascii(hex_text(v as int)));
}

impl Address {
    /// The canonical text of the address.
    pub open spec fn text(self) -> Seq<u8> {
        text_of(self.spec_segments())
    }

    /// The canonical text of the address, such as `2001:DB8::8:800:200C:417A`.
    pub fn to_string(&self) -> (r: String)
        ensures
            r@ == ascii(self.text()),
    {
        let segments = self.segments();
        let (longest_idx, longest_len) = find_zero_run(&segments);
        proof {
            lemma_longest_zero_run_unique(segments@, longest_idx as int, longest_len as int);
        }
        let ghost segs = segments@;
        let ghost start = longest_idx as int;
        let ghost len = longest_len as int;
        let mut out = String::new();
        let mut idx: usize = 0;
        assert(out@ =~= ascii(written(segs, start, len, 0)));
        assert(len == 0 ==> start == 0) by {
            assert(is_zero_run(segs, 0, 0));
        }
        while idx < 8
            invariant
                idx <= 8,
                len == 0 ==> start == 0,
                segs == segments@,
                start == longest_idx,
                len == longest_len,
                start + len <= 8,
                len > 0 ==> idx <= start || idx >= start + len,
                out@ == ascii(written(segs, start, len, idx as int)),
            decreases 8 - idx,
        {
            let ghost before = written(segs, start, len, idx as int);
            if idx == longest_idx && longest_len != 0 {
                proof {
                    reveal_strlit("::");
                    assert(':' == COLON as char);
                }
                out.append("::");
                idx += longest_len;
                assert(out@ =~= ascii(written(segs, start, len, idx as int)));
            } else {
                push_hex(&mut out, segments[idx]);
                let ghost group = hex_text(segs[idx as int] as int);
                assert(out@ =~= ascii(before + group));
                idx += 1;
                let ghost list_from = if len > 0 && idx > start + len {
                    start + len
                } else {
                    0
                };
                assert(join(segs, list_from, idx as int) =~= if idx - 1 > list_from {
                    join(segs, list_from, idx - 1) + seq![COLON] + group
                } else {
                    group
                });
                if idx != 8 && idx != longest_idx {
                    proof {
                        reveal_strlit(":");
                        assert(':' == COLON as char);
                    }
                    out.append(":");
                    assert(out@ =~= ascii(before + group + seq![COLON]));
                }
                assert(before + group + (if idx != 8 && idx != start {
                    seq![COLON]
                } else {
                    Seq::empty()
                }) =~= written(segs, start, len, idx as int));
            }
        }
        assert(written(segs, start, len, 8) =~= text_of(segs));
        out
    }
}

/// The number `n` in decimal digits, without leading zeros.
pub open spec fn decimal_text(n: int) -> Seq<u8>
    decreases n,
{
    if n < 10 {
        seq![decimal_digit(n)]
    } else {
        decimal_text(n / 10).push(decimal_digit(n % 10))
    }
}

/// Appends `n` in decimal digits, without leading zeros.
fn push_decimal(out: &mut String, n: u8)
    ensures
        final(out)@ == old(out)@ + ascii(decimal_text(n as int)),
{
    proof {
        reveal_with_fuel(decimal_text, 4);
    }
    if n >= 100 {
        out.append(decimal_digit_str(n / 100));
    }
    if n >= 10 {
        out.append(decimal_digit_str((n / 10) % 10));
    }
    out.append(decimal_digit_str(n % 10));
    assert(out@ =~= old(out)@ + ascii(decimal_text(n as int)));
}

impl Subnet {
    /// The text of the subnet: the canonical text of the network, a slash
    /// and the length of the prefix in decimal digits.
    pub open spec fn text(self) -> Seq<u8> {
        self.spec_network().text() + seq![SLASH] + decimal_text(self.spec_prefix() as int)
    }

    /// The text of the subnet, such as `FE80::/10`.
    pub fn to_string(&self) -> (r: String)
        ensures
            r@ == ascii(self.text()),
    {
        let mut out = self.network().to_string();
        proof {
            reveal_strlit("/");
            assert('/' == SLASH as char);
        }
        out.append("/");
        push_decimal(&mut out, self.prefix());
        assert(out@ =~= ascii(self.text()));
        out
    }
}

impl FromStr for Address {
    type Err = ParseAddressError;

    /// Reads an address as `Address::parse` does.
    fn from_str(s: &str) -> (r: Result<Self, Self::Err>)
        ensures
            r is Ok <==> parse_spec(s.spec_bytes()) is Some,
            r is Ok ==> Some(r->Ok_0.spec_segments()) == parse_spec(s.spec_bytes()),
    {
        Address::parse(s)
    }
}

} // verus!
