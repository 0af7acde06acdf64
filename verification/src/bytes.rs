//! Buffers that a packet view can borrow, and big-endian integer access.
//!
//! Every contract in this crate speaks of a buffer through its contents as a
//! `Seq<u8>`. Multi-byte integers are in network byte order.

use byteorder::{ByteOrder, NetworkEndian};
use vstd::prelude::*;

verus! {

/// A buffer whose bytes can be read.
pub trait AsBytes {
    /// The contents of the buffer.
    spec fn bytes(&self) -> Seq<u8>;

    fn as_bytes(&self) -> (r: &[u8])
        ensures
            r@ == self.bytes(),
    ;
}

/// A buffer whose bytes can also be overwritten in place. The length of the
/// buffer never changes.
pub trait AsBytesMut: AsBytes {
    fn as_bytes_mut(&mut self) -> (r: &mut [u8])
        ensures
            r@ == old(self).bytes(),
            final(self).bytes() == final(r)@,
    ;
}

impl<'a> AsBytes for &'a [u8] {
    open spec fn bytes(&self) -> Seq<u8> {
        (*self)@
    }

    fn as_bytes(&self) -> (r: &[u8]) {
        *self
    }
}

impl<'a> AsBytes for &'a mut [u8] {
    open spec fn bytes(&self) -> Seq<u8> {
        (*self)@
    }

    fn as_bytes(&self) -> (r: &[u8]) {
        &**self
    }
}

impl<'a> AsBytesMut for &'a mut [u8] {
    fn as_bytes_mut(&mut self) -> (r: &mut [u8]) {
        &mut **self
    }
}

impl AsBytes for Vec<u8> {
    open spec fn bytes(&self) -> Seq<u8> {
        self@
    }

    fn as_bytes(&self) -> (r: &[u8]) {
        self.as_slice()
    }
}

impl AsBytesMut for Vec<u8> {
    fn as_bytes_mut(&mut self) -> (r: &mut [u8]) {
        self.as_mut_slice()
    }
}

impl<const N: usize> AsBytes for [u8; N] {
    open spec fn bytes(&self) -> Seq<u8> {
        self@
    }

    fn as_bytes(&self) -> (r: &[u8]) {
        self.as_slice()
    }
}

/// `s` with the bytes from `at` on replaced by `t`; the length stays.
pub open spec fn splice(s: Seq<u8>, at: int, t: Seq<u8>) -> Seq<u8>
    recommends
        0 <= at,
        at + t.len() <= s.len(),
{
    s.subrange(0, at) + t + s.subrange(at + t.len(), s.len() as int)
}

/// The 16-bit integer that the first two bytes of `s` hold.
pub open spec fn be_u16(s: Seq<u8>) -> u16
    recommends
        s.len() >= 2,
{
    (s[0] as int * 0x100 + s[1] as int) as u16
}

/// The two bytes that hold `n`.
pub open spec fn u16_be(n: u16) -> Seq<u8> {
    seq![(n / 0x100) as u8, (n % 0x100) as u8]
}

/// The 24-bit integer that the first three bytes of `s` hold.
pub open spec fn be_u24(s: Seq<u8>) -> u32
    recommends
        s.len() >= 3,
{
    (s[0] as int * 0x1_0000 + s[1] as int * 0x100 + s[2] as int) as u32
}

/// The 64-bit integer that the first eight bytes of `s` hold.
pub open spec fn be_u64(s: Seq<u8>) -> u64
    recommends
        s.len() >= 8,
{
    (s[0] as u64) << 56 | (s[1] as u64) << 48 | (s[2] as u64) << 40 | (s[3] as u64) << 32 | (
    s[4] as u64) << 24 | (s[5] as u64) << 16 | (s[6] as u64) << 8 | (s[7] as u64)
}

/// The 128-bit integer that the first sixteen bytes of `s` hold.
pub open spec fn be_u128(s: Seq<u8>) -> u128
    recommends
        s.len() >= 16,
{
    (be_u64(s) as u128) << 64 | (be_u64(s.subrange(8, 16)) as u128)
}

/// The byte of `n` that big-endian order puts at place `i` of eight.
pub open spec fn u64_byte(n: u64, i: int) -> u8 {
    if i == 0 {
        (n >> 56) as u8
    } else if i == 1 {
        ((n >> 48) & 0xff) as u8
    } else if i == 2 {
        ((n >> 40) & 0xff) as u8
    } else if i == 3 {
        ((n >> 32) & 0xff) as u8
    } else if i == 4 {
        ((n >> 24) & 0xff) as u8
    } else if i == 5 {
        ((n >> 16) & 0xff) as u8
    } else if i == 6 {
        ((n >> 8) & 0xff) as u8
    } else {
        (n & 0xff) as u8
    }
}

/// The sixteen bytes that hold `n`.
pub open spec fn u128_be(n: u128) -> Seq<u8> {
    Seq::new(
        16,
        |i: int|
            if i < 8 {
                u64_byte((n >> 64) as u64, i)
            } else {
                u64_byte((n & 0xffff_ffff_ffff_ffff) as u64, i - 8)
            },
    )
}

/// Reading back the two bytes of `n` gives `n`.
pub proof fn lemma_be_u16_of_bytes(n: u16)
    ensures
        be_u16(u16_be(n)) == n,
{
}

/// Two bytes are the bytes of the integer they hold.
pub proof fn lemma_bytes_of_be_u16(s: Seq<u8>)
    requires
        s.len() == 2,
    ensures
        u16_be(be_u16(s)) == s,
{
    assert(u16_be(be_u16(s)) =~= s);
}

proof fn lemma_u64_bytes(n: u64)
    by (bit_vector)
    ensures
        (((n >> 56) as u8) as u64) << 56 | ((((n >> 48) & 0xff) as u8) as u64) << 48 | ((((n >> 40)
            & 0xff) as u8) as u64) << 40 | ((((n >> 32) & 0xff) as u8) as u64) << 32 | ((((n >> 24)
            & 0xff) as u8) as u64) << 24 | ((((n >> 16) & 0xff) as u8) as u64) << 16 | ((((n >> 8)
            & 0xff) as u8) as u64) << 8 | (((n & 0xff) as u8) as u64) == n,
{
}

proof fn lemma_u64_of_bytes(
    b0: u8,
    b1: u8,
    b2: u8,
    b3: u8,
    b4: u8,
    b5: u8,
    b6: u8,
    b7: u8,
    n: u64,
)
    by (bit_vector)
    requires
        n == (b0 as u64) << 56 | (b1 as u64) << 48 | (b2 as u64) << 40 | (b3 as u64) << 32 | (
        b4 as u64) << 24 | (b5 as u64) << 16 | (b6 as u64) << 8 | (b7 as u64),
    ensures
        (n >> 56) as u8 == b0,
        ((n >> 48) & 0xff) as u8 == b1,
        ((n >> 40) & 0xff) as u8 == b2,
        ((n >> 32) & 0xff) as u8 == b3,
        ((n >> 24) & 0xff) as u8 == b4,
        ((n >> 16) & 0xff) as u8 == b5,
        ((n >> 8) & 0xff) as u8 == b6,
        (n & 0xff) as u8 == b7,
{
}

proof fn lemma_u128_halves(n: u128)
    by (bit_vector)
    ensures
        (((n >> 64) as u64) as u128) << 64 | (((n & 0xffff_ffff_ffff_ffff) as u64) as u128) == n,
{
}

proof fn lemma_u128_of_halves(hi: u64, lo: u64, n: u128)
    by (bit_vector)
    requires
        n == (hi as u128) << 64 | (lo as u128),
    ensures
        (n >> 64) as u64 == hi,
        (n & 0xffff_ffff_ffff_ffff) as u64 == lo,
{
}

/// Reading back the sixteen bytes of `n` gives `n`.
pub proof fn lemma_be_u128_of_bytes(n: u128)
    ensures
        be_u128(u128_be(n)) == n,
{
    let s = u128_be(n);
    let hi = (n >> 64) as u64;
    let lo = (n & 0xffff_ffff_ffff_ffff) as u64;
    lemma_u64_bytes(hi);
    lemma_u64_bytes(lo);
    lemma_u128_halves(n);
    assert(be_u64(s) == hi);
    assert(be_u64(s.subrange(8, 16)) == lo);
}

/// Sixteen bytes are the bytes of the integer they hold.
pub proof fn lemma_bytes_of_be_u128(s: Seq<u8>)
    requires
        s.len() == 16,
    ensures
        u128_be(be_u128(s)) == s,
{
    let t = s.subrange(8, 16);
    let hi = be_u64(s);
    let lo = be_u64(t);
    let n = be_u128(s);
    lemma_u64_of_bytes(s[0], s[1], s[2], s[3], s[4], s[5], s[6], s[7], hi);
    lemma_u64_of_bytes(t[0], t[1], t[2], t[3], t[4], t[5], t[6], t[7], lo);
    lemma_u128_of_halves(hi, lo, n);
    assert(u128_be(n) =~= s);
}

/// Overwriting a range with what it already holds changes nothing.
pub proof fn lemma_splice_same(s: Seq<u8>, at: int, len: int)
    requires
        0 <= at,
        0 <= len,
        at + len <= s.len(),
    ensures
        splice(s, at, s.subrange(at, at + len)) == s,
{
    assert(splice(s, at, s.subrange(at, at + len)) =~= s);
}

/// After overwriting a range, the range holds what was written and every
/// range that does not overlap it holds what it held.
pub proof fn lemma_splice_read(s: Seq<u8>, at: int, t: Seq<u8>, from: int, to: int)
    requires
        0 <= at,
        at + t.len() <= s.len(),
        0 <= from <= to <= s.len(),
    ensures
        splice(s, at, t).len() == s.len(),
        splice(s, at, t).subrange(at, at + t.len()) == t,
        to <= at || at + t.len() <= from ==> splice(s, at, t).subrange(from, to) == s.subrange(
            from,
            to,
        ),
{
    let r = splice(s, at, t);
    assert(r.subrange(at, at + t.len()) =~= t);
    if to <= at || at + t.len() <= from {
        assert(r.subrange(from, to) =~= s.subrange(from, to));
    }
}

/// `byteorder::BigEndian::read_u16` (under its alias `NetworkEndian`): the
/// first two bytes of `buf`, the first one being the high byte. The outside
/// function panics on a shorter buffer, which `requires` leaves out.
#[verifier::external_body]
pub(crate) fn read_u16(buf: &[u8]) -> (r: u16)
    requires
        buf@.len() >= 2,
    ensures
        r == be_u16(buf@),
{
    NetworkEndian::read_u16(buf)
}

/// `byteorder::BigEndian::read_u24`: the first three bytes of `buf` as one
/// integer, the first byte being the highest. It panics on a shorter buffer.
#[verifier::external_body]
pub(crate) fn read_u24(buf: &[u8]) -> (r: u32)
    requires
        buf@.len() >= 3,
    ensures
        r == be_u24(buf@),
{
    NetworkEndian::read_u24(buf)
}

/// `byteorder::BigEndian::read_u128`: the first sixteen bytes of `buf` as one
/// integer, the first byte being the highest. It panics on a shorter buffer.
#[verifier::external_body]
pub(crate) fn read_u128(buf: &[u8]) -> (r: u128)
    requires
        buf@.len() >= 16,
    ensures
        r == be_u128(buf@),
{
    NetworkEndian::read_u128(buf)
}

/// `byteorder::BigEndian::write_u16`: puts the high byte of `n` at place 0 of
/// `buf` and the low byte at place 1, and leaves the rest of `buf` as it
/// was. It panics on a shorter buffer.
#[verifier::external_body]
pub(crate) fn write_u16(buf: &mut [u8], n: u16)
    requires
        old(buf)@.len() >= 2,
    ensures
        final(buf)@ == splice(old(buf)@, 0, u16_be(n)),
{
    NetworkEndian::write_u16(buf, n)
}

/// `byteorder::BigEndian::write_u128`: puts the sixteen bytes of `n`, highest
/// first, at the start of `buf`, and leaves the rest of `buf` as it was. It
/// panics on a shorter buffer.
#[verifier::external_body]
pub(crate) fn write_u128(buf: &mut [u8], n: u128)
    requires
        old(buf)@.len() >= 16,
    ensures
        final(buf)@ == splice(old(buf)@, 0, u128_be(n)),
{
    NetworkEndian::write_u128(buf, n)
}

/// Copies `src` over the bytes of `dst` from `at` on.
pub fn write_at(dst: &mut [u8], at: usize, src: &[u8])
    requires
        at + src@.len() <= old(dst)@.len(),
    ensures
        final(dst)@ == splice(old(dst)@, at as int, src@),
{
    let n = src.len();
    let total = dst.len();
    let mut i: usize = 0;
    while i < n
        invariant
            n == src@.len(),
            total == dst@.len(),
            total == old(dst)@.len(),
            i <= n,
            at + n <= total,
            dst@ == splice(old(dst)@, at as int, src@.subrange(0, i as int)),
        decreases n - i,
    {
        let ghost before = dst@;
        dst[at + i] = src[i];
        assert(dst@ =~= splice(old(dst)@, at as int, src@.subrange(0, i + 1))) by {
            assert(dst@ == before.update(at + i, src@[i as int]));
        }
        i += 1;
    }
    assert(src@.subrange(0, n as int) =~= src@);
}

} // verus!
