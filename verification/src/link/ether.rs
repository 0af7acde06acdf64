//! A view of an Ethernet II frame in a buffer.
//!
//! | bytes  | field               |
//! |--------|---------------------|
//! | 0..6   | destination address |
//! | 6..12  | source address      |
//! | 12..14 | ethertype           |
//! | 14..   | payload             |

use crate::bytes::{
    be_u16, lemma_be_u16_of_bytes, lemma_bytes_of_be_u16, lemma_splice_read, lemma_splice_same,
    read_u16, splice, u16_be, write_at, write_u16, AsBytes, AsBytesMut,
};
use crate::link::eui::Eui48 as Address;
use vstd::prelude::*;
use vstd::slice::slice_subrange;

verus! {

/// The length of the fixed header.
pub const HEADER_LEN: usize = 14;

/// The ethertype of IPv6.
pub const ETHERTYPE_IPV6: u16 = 0x86DD;

/// The protocol of a frame's payload. IEEE 802.3 lengths and 802.1Q tags are
/// not told apart from unknown protocols.
#[derive(Clone, Copy, Debug, PartialEq, Eq, Structural)]
pub enum Type {
    Ipv6,
    Unknown(u16),
}

impl From<u16> for Type {
    fn from(src: u16) -> (r: Type) {
        if src == ETHERTYPE_IPV6 {
            Type::Ipv6
        } else {
            Type::Unknown(src)
        }
    }
}

impl vstd::std_specs::convert::FromSpecImpl<u16> for Type {
    open spec fn obeys_from_spec() -> bool {
        true
    }

    open spec fn from_spec(src: u16) -> Type {
        Type::decode(src)
    }
}

impl Type {
    /// The protocol that the ethertype `src` names.
    pub open spec fn decode(src: u16) -> Type {
        if src == ETHERTYPE_IPV6 {
            Type::Ipv6
        } else {
            Type::Unknown(src)
        }
    }

    /// The ethertype of the protocol.
    pub open spec fn code(self) -> u16 {
        match self {
            Type::Ipv6 => ETHERTYPE_IPV6,
            Type::Unknown(others) => others,
        }
    }
}

impl From<Type> for u16 {
    fn from(src: Type) -> (r: u16) {
        match src {
            Type::Ipv6 => ETHERTYPE_IPV6,
            Type::Unknown(others) => others,
        }
    }
}

impl vstd::std_specs::convert::FromSpecImpl<Type> for u16 {
    open spec fn obeys_from_spec() -> bool {
        true
    }

    open spec fn from_spec(src: Type) -> u16 {
        src.code()
    }
}

/// The destination address in the frame `s`.
pub open spec fn dst_addr_of(s: Seq<u8>) -> Seq<u8> {
    s.subrange(0, 6)
}

/// The source address in the frame `s`.
pub open spec fn src_addr_of(s: Seq<u8>) -> Seq<u8> {
    s.subrange(6, 12)
}

/// The ethertype in the frame `s`.
pub open spec fn ethertype_of(s: Seq<u8>) -> Type {
    Type::decode(be_u16(s.subrange(12, 14)))
}

/// The payload of the frame `s`.
pub open spec fn payload_of(s: Seq<u8>) -> Seq<u8> {
    s.subrange(14, s.len() as int)
}

/// The frame `s` with the destination address `a`.
pub open spec fn with_dst_addr(s: Seq<u8>, a: Seq<u8>) -> Seq<u8> {
    splice(s, 0, a)
}

/// The frame `s` with the source address `a`.
pub open spec fn with_src_addr(s: Seq<u8>, a: Seq<u8>) -> Seq<u8> {
    splice(s, 6, a)
}

/// The frame `s` with the ethertype `ty`.
pub open spec fn with_ethertype(s: Seq<u8>, ty: Type) -> Seq<u8> {
    splice(s, 12, u16_be(ty.code()))
}

/// The frame that has the header of `s` and the payload `p`.
pub open spec fn with_payload(s: Seq<u8>, p: Seq<u8>) -> Seq<u8> {
    s.subrange(0, 14) + p
}

/// An Ethernet II frame in the buffer `T`.
pub struct Frame<T> {
    inner: T,
}

impl<T> Frame<T> {
    /// The buffer that the frame is viewed in.
    pub closed spec fn buffer(self) -> T {
        self.inner
    }

    /// Views `inner` as a frame. The length of the buffer is not looked at.
    pub fn new(inner: T) -> (r: Self)
        ensures
            r.buffer() == inner,
    {
        Self { inner }
    }

    pub fn into_inner(self) -> (r: T)
        ensures
            r == self.buffer(),
    {
        self.inner
    }
}

impl<T: AsBytes> View for Frame<T> {
    type V = Seq<u8>;

    /// The bytes of the frame.
    open spec fn view(&self) -> Seq<u8> {
        self.buffer().bytes()
    }
}

impl<T: AsBytes> Frame<T> {
    pub fn dst_addr(&self) -> (r: Address)
        requires
            self@.len() >= 6,
        ensures
            r@ == dst_addr_of(self@),
    {
        Address::from_bytes(slice_subrange(self.inner.as_bytes(), 0, 6))
    }

    pub fn src_addr(&self) -> (r: Address)
        requires
            self@.len() >= 12,
        ensures
            r@ == src_addr_of(self@),
    {
        Address::from_bytes(slice_subrange(self.inner.as_bytes(), 6, 12))
    }

    pub fn ethertype(&self) -> (r: Type)
        requires
            self@.len() >= 14,
        ensures
            r == ethertype_of(self@),
    {
        let ty = read_u16(slice_subrange(self.inner.as_bytes(), 12, 14));
        Type::from(ty)
    }
}

impl<'a> Frame<&'a [u8]> {
    /// What follows the header, for as long as the buffer is borrowed.
    pub fn payload(&self) -> (r: &'a [u8])
        requires
            self@.len() >= 14,
        ensures
            r@ == payload_of(self@),
    {
        let data: &'a [u8] = self.inner;
        slice_subrange(data, 14, data.len())
    }
}

impl<T: AsBytesMut> Frame<T> {
    pub fn set_dst_addr(&mut self, dst_addr: Address)
        requires
            old(self)@.len() >= 6,
        ensures
            final(self)@ == with_dst_addr(old(self)@, dst_addr@),
    {
        let bytes = dst_addr.to_bytes();
        write_at(self.inner.as_bytes_mut(), 0, bytes.as_slice());
    }

    pub fn set_src_addr(&mut self, src_addr: Address)
        requires
            old(self)@.len() >= 12,
        ensures
            final(self)@ == with_src_addr(old(self)@, src_addr@),
    {
        let bytes = src_addr.to_bytes();
        write_at(self.inner.as_bytes_mut(), 6, bytes.as_slice());
    }

    pub fn set_ethertype(&mut self, ty: Type)
        requires
            old(self)@.len() >= 14,
        ensures
            final(self)@ == with_ethertype(old(self)@, ty),
    {
        let data = self.inner.as_bytes_mut();
        let (_, field) = data.split_at_mut(12);
        write_u16(field, u16::from(ty));
        assert(data@ =~= with_ethertype(old(self)@, ty));
    }
}

impl<'a> Frame<&'a mut [u8]> {
    /// What follows the header, to be written in place.
    pub fn payload_mut(&mut self) -> (r: &mut [u8])
        requires
            old(self)@.len() >= 14,
        ensures
            r@ == payload_of(old(self)@),
            final(self)@ == with_payload(old(self)@, final(r)@),
    {
        let (_, payload) = self.inner.split_at_mut(14);
        payload
    }
}

/// Decoding an ethertype loses nothing: encoding gives the number back.
pub proof fn lemma_type_round_trip(v: u16, ty: Type)
    ensures
        Type::decode(v).code() == v,
        ty != Type::Unknown(ETHERTYPE_IPV6) ==> Type::decode(ty.code()) == ty,
{
}

/// Setting a field to the value it holds leaves the frame as it is.
pub proof fn lemma_set_current(s: Seq<u8>)
    requires
        s.len() >= 14,
    ensures
        with_dst_addr(s, dst_addr_of(s)) == s,
        with_src_addr(s, src_addr_of(s)) == s,
        with_ethertype(s, ethertype_of(s)) == s,
        with_payload(s, payload_of(s)) == s,
{
    lemma_splice_same(s, 0, 6);
    lemma_splice_same(s, 6, 6);
    lemma_splice_same(s, 12, 2);
    assert(with_payload(s, payload_of(s)) =~= s);
    lemma_bytes_of_be_u16(s.subrange(12, 14));
}

/// After the destination address is set, the frame holds it and every other
/// field is as it was.
pub proof fn lemma_with_dst_addr(s: Seq<u8>, a: Seq<u8>)
    requires
        s.len() >= 14,
        a.len() == 6,
    ensures
        with_dst_addr(s, a).len() == s.len(),
        dst_addr_of(with_dst_addr(s, a)) == a,
        src_addr_of(with_dst_addr(s, a)) == src_addr_of(s),
        ethertype_of(with_dst_addr(s, a)) == ethertype_of(s),
        payload_of(with_dst_addr(s, a)) == payload_of(s),
{
    lemma_splice_read(s, 0, a, 6, 12);
    lemma_splice_read(s, 0, a, 12, 14);
    lemma_splice_read(s, 0, a, 14, s.len() as int);
}

/// After the source address is set, the frame holds it and every other field
/// is as it was.
pub proof fn lemma_with_src_addr(s: Seq<u8>, a: Seq<u8>)
    requires
        s.len() >= 14,
        a.len() == 6,
    ensures
        with_src_addr(s, a).len() == s.len(),
        src_addr_of(with_src_addr(s, a)) == a,
        dst_addr_of(with_src_addr(s, a)) == dst_addr_of(s),
        ethertype_of(with_src_addr(s, a)) == ethertype_of(s),
        payload_of(with_src_addr(s, a)) == payload_of(s),
{
    lemma_splice_read(s, 6, a, 0, 6);
    lemma_splice_read(s, 6, a, 12, 14);
    lemma_splice_read(s, 6, a, 14, s.len() as int);
}

/// After the ethertype is set, the frame holds it and every other field is as
/// it was. The one ethertype that does not read back as itself is
/// `Unknown(0x86DD)`, which reads back as `Ipv6`.
pub proof fn lemma_with_ethertype(s: Seq<u8>, ty: Type)
    requires
        s.len() >= 14,
    ensures
        with_ethertype(s, ty).len() == s.len(),
        ethertype_of(with_ethertype(s, ty)) == Type::decode(ty.code()),
        dst_addr_of(with_ethertype(s, ty)) == dst_addr_of(s),
        src_addr_of(with_ethertype(s, ty)) == src_addr_of(s),
        payload_of(with_ethertype(s, ty)) == payload_of(s),
{
    let t = u16_be(ty.code());
    lemma_splice_read(s, 12, t, 0, 6);
    lemma_splice_read(s, 12, t, 6, 12);
    lemma_splice_read(s, 12, t, 14, s.len() as int);
    lemma_be_u16_of_bytes(ty.code());
}

/// After the payload is written, the frame holds the new payload and the
/// header is as it was.
pub proof fn lemma_with_payload(s: Seq<u8>, p: Seq<u8>)
    requires
        s.len() >= 14,
    ensures
        payload_of(with_payload(s, p)) == p,
        dst_addr_of(with_payload(s, p)) == dst_addr_of(s),
        src_addr_of(with_payload(s, p)) == src_addr_of(s),
        ethertype_of(with_payload(s, p)) == ethertype_of(s),
{
    let r = with_payload(s, p);
    assert(payload_of(r) =~= p);
    assert(dst_addr_of(r) =~= dst_addr_of(s));
    assert(src_addr_of(r) =~= src_addr_of(s));
    assert(r.subrange(12, 14) =~= s.subrange(12, 14));
}

} // verus!
