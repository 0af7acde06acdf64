//! IPv6 addresses, subnets and the fixed IPv6 header.

use crate::bytes::{
    be_u128, be_u16, be_u24, lemma_bytes_of_be_u128, read_u128, read_u16, read_u24, splice,
    u128_be, u16_be, write_u128, write_u16, AsBytes, AsBytesMut,
};
use vstd::slice::slice_subrange;
use vstd::prelude::*;

verus! {

/// An IPv6 address: 128 bits, seen either as eight 16-bit segments or as
/// sixteen octets, in network order.
#[derive(Clone, Copy, Debug, PartialEq, Eq, Structural)]
pub struct Address {
    repr: u128,
}

/// The eight segments of the 128-bit value `n`, highest first.
pub open spec fn segments_of(n: u128) -> Seq<u16> {
    seq![
        (n >> 112) as u16,
        ((n >> 96) & 0xffff) as u16,
        ((n >> 80) & 0xffff) as u16,
        ((n >> 64) & 0xffff) as u16,
        ((n >> 48) & 0xffff) as u16,
        ((n >> 32) & 0xffff) as u16,
        ((n >> 16) & 0xffff) as u16,
        (n & 0xffff) as u16,
    ]
}

/// The 128-bit value whose segments are `s`.
pub open spec fn value_of(s: Seq<u16>) -> u128
    recommends
        s.len() == 8,
{
    (s[0] as u128) << 112 | (s[1] as u128) << 96 | (s[2] as u128) << 80 | (s[3] as u128) << 64 | (
    s[4] as u128) << 48 | (s[5] as u128) << 32 | (s[6] as u128) << 16 | (s[7] as u128)
}

proof fn lemma_segments_bits(
    s0: u16,
    s1: u16,
    s2: u16,
    s3: u16,
    s4: u16,
    s5: u16,
    s6: u16,
    s7: u16,
    n: u128,
)
    by (bit_vector)
    requires
        n == (s0 as u128) << 112 | (s1 as u128) << 96 | (s2 as u128) << 80 | (s3 as u128) << 64 | (
        s4 as u128) << 48 | (s5 as u128) << 32 | (s6 as u128) << 16 | (s7 as u128),
    ensures
        (n >> 112) as u16 == s0,
        ((n >> 96) & 0xffff) as u16 == s1,
        ((n >> 80) & 0xffff) as u16 == s2,
        ((n >> 64) & 0xffff) as u16 == s3,
        ((n >> 48) & 0xffff) as u16 == s4,
        ((n >> 32) & 0xffff) as u16 == s5,
        ((n >> 16) & 0xffff) as u16 == s6,
        (n & 0xffff) as u16 == s7,
{
}

proof fn lemma_value_bits(n: u128)
    by (bit_vector)
    ensures
        (((n >> 112) as u16) as u128) << 112 | ((((n >> 96) & 0xffff) as u16) as u128) << 96 | ((((n
            >> 80) & 0xffff) as u16) as u128) << 80 | ((((n >> 64) & 0xffff) as u16) as u128) << 64
            | ((((n >> 48) & 0xffff) as u16) as u128) << 48 | ((((n >> 32) & 0xffff) as u16)
            as u128) << 32 | ((((n >> 16) & 0xffff) as u16) as u128) << 16 | (((n & 0xffff) as u16)
            as u128) == n,
{
}

proof fn lemma_octet_bits(n: u128)
    by (bit_vector)
    ensures
        (((n >> 64) as u64) >> 56) as u8 == (((n >> 112) as u16) >> 8) as u8,
        ((((n >> 64) as u64) >> 48) & 0xff) as u8 == (((n >> 112) as u16) & 0xff) as u8,
        ((((n >> 64) as u64) >> 40) & 0xff) as u8 == ((((n >> 96) & 0xffff) as u16) >> 8) as u8,
        ((((n >> 64) as u64) >> 32) & 0xff) as u8 == ((((n >> 96) & 0xffff) as u16) & 0xff) as u8,
        ((((n >> 64) as u64) >> 24) & 0xff) as u8 == ((((n >> 80) & 0xffff) as u16) >> 8) as u8,
        ((((n >> 64) as u64) >> 16) & 0xff) as u8 == ((((n >> 80) & 0xffff) as u16) & 0xff) as u8,
        ((((n >> 64) as u64) >> 8) & 0xff) as u8 == ((((n >> 64) & 0xffff) as u16) >> 8) as u8,
        (((n >> 64) as u64) & 0xff) as u8 == ((((n >> 64) & 0xffff) as u16) & 0xff) as u8,
        (((n & 0xffff_ffff_ffff_ffff) as u64) >> 56) as u8 == ((((n >> 48) & 0xffff) as u16)
            >> 8) as u8,
        ((((n & 0xffff_ffff_ffff_ffff) as u64) >> 48) & 0xff) as u8 == ((((n >> 48) & 0xffff)
            as u16) & 0xff) as u8,
        ((((n & 0xffff_ffff_ffff_ffff) as u64) >> 40) & 0xff) as u8 == ((((n >> 32) & 0xffff)
            as u16) >> 8) as u8,
        ((((n & 0xffff_ffff_ffff_ffff) as u64) >> 32) & 0xff) as u8 == ((((n >> 32) & 0xffff)
            as u16) & 0xff) as u8,
        ((((n & 0xffff_ffff_ffff_ffff) as u64) >> 24) & 0xff) as u8 == ((((n >> 16) & 0xffff)
            as u16) >> 8) as u8,
        ((((n & 0xffff_ffff_ffff_ffff) as u64) >> 16) & 0xff) as u8 == ((((n >> 16) & 0xffff)
            as u16) & 0xff) as u8,
        ((((n & 0xffff_ffff_ffff_ffff) as u64) >> 8) & 0xff) as u8 == (((n & 0xffff) as u16)
            >> 8) as u8,
        (((n & 0xffff_ffff_ffff_ffff) as u64) & 0xff) as u8 == (((n & 0xffff) as u16) & 0xff) as u8,
{
}

impl Address {
    /// The address as one 128-bit number.
    pub closed spec fn value(self) -> u128 {
        self.repr
    }

    /// The eight segments of the address, highest first.
    pub open spec fn spec_segments(self) -> Seq<u16> {
        segments_of(self.value())
    }

    /// The sixteen octets of the address, in network order.
    pub open spec fn spec_octets(self) -> Seq<u8> {
        u128_be(self.value())
    }

    /// The address with the segments `s`.
    pub closed spec fn of_segments(s: Seq<u16>) -> Address
        recommends
            s.len() == 8,
    {
        Address { repr: value_of(s) }
    }

    /// The address with the octets that the first sixteen bytes of `s` are.
    pub closed spec fn of_octets(s: Seq<u8>) -> Address
        recommends
            s.len() >= 16,
    {
        Address { repr: be_u128(s) }
    }

    /// The address `::`.
    pub fn unspecified() -> (r: Address)
        ensures
            r.spec_segments() == seq![0u16, 0u16, 0u16, 0u16, 0u16, 0u16, 0u16, 0u16],
    {
        Address::from_segments([0, 0, 0, 0, 0, 0, 0, 0])
    }

    /// The address `::1`.
    pub fn loopback() -> (r: Address)
        ensures
            r.spec_segments() == seq![0u16, 0u16, 0u16, 0u16, 0u16, 0u16, 0u16, 1u16],
    {
        Address::from_segments([0, 0, 0, 0, 0, 0, 0, 1])
    }

    pub fn from_segments(segments: [u16; 8]) -> (r: Address)
        ensures
            r == Address::of_segments(segments@),
            r.spec_segments() == segments@,
    {
        let repr = ((segments[0] as u128) << 112) | ((segments[1] as u128) << 96) | ((
        segments[2] as u128) << 80) | ((segments[3] as u128) << 64) | ((segments[4] as u128) << 48)
            | ((segments[5] as u128) << 32) | ((segments[6] as u128) << 16) | (segments[7] as u128);
        proof {
            lemma_segments_bits(
                segments[0],
                segments[1],
                segments[2],
                segments[3],
                segments[4],
                segments[5],
                segments[6],
                segments[7],
                repr,
            );
            assert(segments_of(repr) =~= segments@);
        }
        Address { repr }
    }

    /// The address held by the first sixteen bytes of `src`.
    pub fn from_bytes(src: &[u8]) -> (r: Address)
        requires
            src@.len() >= 16,
        ensures
            r == Address::of_octets(src@),
            r.spec_octets() == src@.subrange(0, 16),
    {
        let repr = read_u128(src);
        proof {
            let head = src@.subrange(0, 16);
            assert(head.subrange(8, 16) =~= src@.subrange(8, 16));
            assert(be_u128(head) == be_u128(src@));
            lemma_bytes_of_be_u128(head);
        }
        Address { repr }
    }

    pub fn segments(self) -> (r: [u16; 8])
        ensures
            r@ == self.spec_segments(),
    {
        let repr = self.repr;
        let r = [
            #[verifier::truncate]
            ((repr >> 112) as u16),
            #[verifier::truncate]
            (((repr >> 96) & 0xFFFF) as u16),
            #[verifier::truncate]
            (((repr >> 80) & 0xFFFF) as u16),
            #[verifier::truncate]
            (((repr >> 64) & 0xFFFF) as u16),
            #[verifier::truncate]
            (((repr >> 48) & 0xFFFF) as u16),
            #[verifier::truncate]
            (((repr >> 32) & 0xFFFF) as u16),
            #[verifier::truncate]
            (((repr >> 16) & 0xFFFF) as u16),
            #[verifier::truncate]
            ((repr & 0xFFFF) as u16),
        ];
        assert(r@ =~= segments_of(repr));
        r
    }

    pub fn octets(self) -> (r: [u8; 16])
        ensures
            r@ == self.spec_octets(),
    {
        let hi = #[verifier::truncate]
        ((self.repr >> 64) as u64);
        let lo = #[verifier::truncate]
        ((self.repr & 0xffff_ffff_ffff_ffff) as u64);
        let r = [
            #[verifier::truncate]
            ((hi >> 56) as u8),
            #[verifier::truncate]
            (((hi >> 48) & 0xff) as u8),
            #[verifier::truncate]
            (((hi >> 40) & 0xff) as u8),
            #[verifier::truncate]
            (((hi >> 32) & 0xff) as u8),
            #[verifier::truncate]
            (((hi >> 24) & 0xff) as u8),
            #[verifier::truncate]
            (((hi >> 16) & 0xff) as u8),
            #[verifier::truncate]
            (((hi >> 8) & 0xff) as u8),
            #[verifier::truncate]
            ((hi & 0xff) as u8),
            #[verifier::truncate]
            ((lo >> 56) as u8),
            #[verifier::truncate]
            (((lo >> 48) & 0xff) as u8),
            #[verifier::truncate]
            (((lo >> 40) & 0xff) as u8),
            #[verifier::truncate]
            (((lo >> 32) & 0xff) as u8),
            #[verifier::truncate]
            (((lo >> 24) & 0xff) as u8),
            #[verifier::truncate]
            (((lo >> 16) & 0xff) as u8),
            #[verifier::truncate]
            (((lo >> 8) & 0xff) as u8),
            #[verifier::truncate]
            ((lo & 0xff) as u8),
        ];
        assert(r@ =~= u128_be(self.repr));
        r
    }

    /// Segment `i` of an address is octets `2i` and `2i + 1`, high byte
    /// first.
    pub proof fn lemma_octets_of_segments(self, i: int)
        requires
            0 <= i < 8,
        ensures
            self.spec_segments().len() == 8,
            self.spec_octets().len() == 16,
            self.spec_octets()[2 * i] == (self.spec_segments()[i] >> 8) as u8,
            self.spec_octets()[2 * i + 1] == (self.spec_segments()[i] & 0xff) as u8,
    {
        lemma_octet_bits(self.repr);
    }

    /// Two addresses with the same segments are the same address.
    pub proof fn lemma_segments_injective(self, other: Address)
        requires
            self.spec_segments() == other.spec_segments(),
        ensures
            self == other,
    {
        lemma_value_bits(self.repr);
        lemma_value_bits(other.repr);
        let s = self.spec_segments();
        let t = other.spec_segments();
        assert(s[0] == t[0] && s[1] == t[1] && s[2] == t[2] && s[3] == t[3] && s[4] == t[4] && s[5]
            == t[5] && s[6] == t[6] && s[7] == t[7]);
    }

    /// Two addresses with the same octets are the same address.
    pub proof fn lemma_octets_injective(self, other: Address)
        requires
            self.spec_octets() == other.spec_octets(),
        ensures
            self == other,
    {
        crate::bytes::lemma_be_u128_of_bytes(self.repr);
        crate::bytes::lemma_be_u128_of_bytes(other.repr);
    }
}

impl From<[u8; 16]> for Address {
    #[inline]
    fn from(octets: [u8; 16]) -> (r: Address) {
        Address::from_bytes(octets.as_slice())
    }
}

impl vstd::std_specs::convert::FromSpecImpl<[u8; 16]> for Address {
    open spec fn obeys_from_spec() -> bool {
        true
    }

    open spec fn from_spec(octets: [u8; 16]) -> Address {
        Address::of_octets(octets@)
    }
}

impl From<[u16; 8]> for Address {
    #[inline]
    fn from(segments: [u16; 8]) -> (r: Address) {
        Address::from_segments(segments)
    }
}

impl vstd::std_specs::convert::FromSpecImpl<[u16; 8]> for Address {
    open spec fn obeys_from_spec() -> bool {
        true
    }

    open spec fn from_spec(segments: [u16; 8]) -> Address {
        Address::of_segments(segments@)
    }
}

/// The address made of eight segments has these segments, and the address
/// made of sixteen octets has these octets.
pub proof fn lemma_address_of(segments: Seq<u16>, octets: Seq<u8>)
    requires
        segments.len() == 8,
        octets.len() == 16,
    ensures
        Address::of_segments(segments).spec_segments() == segments,
        Address::of_octets(octets).spec_octets() == octets,
{
    let n = value_of(segments);
    lemma_segments_bits(
        segments[0],
        segments[1],
        segments[2],
        segments[3],
        segments[4],
        segments[5],
        segments[6],
        segments[7],
        n,
    );
    assert(segments_of(n) =~= segments);
    lemma_bytes_of_be_u128(octets);
}

/// The length of the fixed header.
pub const HEADER_LEN: usize = 40;

/// The protocol number of ICMPv6.
pub const PROTOCOL_ICMPV6: u8 = 0x3A;

/// The protocol of a packet's payload, as the next-header field names it.
#[derive(Debug, Copy, Clone, PartialEq, Eq, Structural)]
pub enum Protocol {
    Icmpv6,
    Unknown(u8),
}

impl Protocol {
    /// The protocol that the number `src` names.
    pub open spec fn decode(src: u8) -> Protocol {
        if src == PROTOCOL_ICMPV6 {
            Protocol::Icmpv6
        } else {
            Protocol::Unknown(src)
        }
    }

    /// The number of the protocol.
    pub open spec fn code(self) -> u8 {
        match self {
            Protocol::Icmpv6 => PROTOCOL_ICMPV6,
            Protocol::Unknown(others) => others,
        }
    }
}

impl From<u8> for Protocol {
    fn from(src: u8) -> (r: Protocol) {
        if src == PROTOCOL_ICMPV6 {
            Protocol::Icmpv6
        } else {
            Protocol::Unknown(src)
        }
    }
}

impl vstd::std_specs::convert::FromSpecImpl<u8> for Protocol {
    open spec fn obeys_from_spec() -> bool {
        true
    }

    open spec fn from_spec(src: u8) -> Protocol {
        Protocol::decode(src)
    }
}

impl From<Protocol> for u8 {
    fn from(src: Protocol) -> (r: u8) {
        match src {
            Protocol::Icmpv6 => PROTOCOL_ICMPV6,
            Protocol::Unknown(others) => others,
        }
    }
}

impl vstd::std_specs::convert::FromSpecImpl<Protocol> for u8 {
    open spec fn obeys_from_spec() -> bool {
        true
    }

    open spec fn from_spec(src: Protocol) -> u8 {
        src.code()
    }
}

/// Decoding a protocol number loses nothing: encoding gives the number back.
pub proof fn lemma_protocol_round_trip(v: u8, protocol: Protocol)
    ensures
        Protocol::decode(v).code() == v,
        protocol != Protocol::Unknown(PROTOCOL_ICMPV6) ==> Protocol::decode(protocol.code())
            == protocol,
{
}

/// The version in the header `s`: the high four bits of byte 0.
pub open spec fn version_of(s: Seq<u8>) -> u8 {
    s[0] >> 4
}

/// The traffic class in the header `s`: the low four bits of byte 0 and the
/// high four bits of byte 1.
pub open spec fn traffic_class_of(s: Seq<u8>) -> u8 {
    (s[0] & 0x0f) << 4 | s[1] >> 4
}

/// The flow label in the header `s`: the low twenty bits of bytes 1 to 3.
pub open spec fn flow_label_of(s: Seq<u8>) -> u32 {
    be_u24(s.subrange(1, 4)) & 0x000f_ffff
}

/// The length of the payload that the header `s` declares.
pub open spec fn payload_len_of(s: Seq<u8>) -> u16 {
    be_u16(s.subrange(4, 6))
}

/// The protocol of the payload that the header `s` names.
pub open spec fn next_header_of(s: Seq<u8>) -> Protocol {
    Protocol::decode(s[6])
}

/// The hop limit in the header `s`.
pub open spec fn hop_limit_of(s: Seq<u8>) -> u8 {
    s[7]
}

/// The octets of the source address in the header `s`.
pub open spec fn src_addr_of(s: Seq<u8>) -> Seq<u8> {
    s.subrange(8, 24)
}

/// The octets of the destination address in the header `s`.
pub open spec fn dst_addr_of(s: Seq<u8>) -> Seq<u8> {
    s.subrange(24, 40)
}

/// What follows the header in the packet `s`.
pub open spec fn payload_of(s: Seq<u8>) -> Seq<u8> {
    s.subrange(40, s.len() as int)
}

/// The packet `s` with the version `version`; the low four bits of byte 0
/// stay.
pub open spec fn with_version(s: Seq<u8>, version: u8) -> Seq<u8> {
    s.update(0, (s[0] & !0xf0u8) | ((version & 0x0f) << 4))
}

/// The packet `s` with the traffic class `traffic_class`; the high four bits
/// of byte 0 and the low four bits of byte 1 stay.
pub open spec fn with_traffic_class(s: Seq<u8>, traffic_class: u8) -> Seq<u8> {
    s.update(0, (s[0] & !0x0fu8) | ((traffic_class & 0xf0) >> 4)).update(
        1,
        (s[1] & !0xf0u8) | ((traffic_class & 0x0f) << 4),
    )
}

/// The packet `s` with the flow label `flow_label`; the high four bits of
/// byte 1 stay.
pub open spec fn with_flow_label(s: Seq<u8>, flow_label: u32) -> Seq<u8> {
    s.update(1, (s[1] & !0x0fu8) | (((flow_label & 0x0f_0000) >> 16) as u8)).update(
        2,
        ((flow_label & 0x00_ff00) >> 8) as u8,
    ).update(3, (flow_label & 0x00_00ff) as u8)
}

/// The packet `s` with the declared payload length `payload_len`.
pub open spec fn with_payload_len(s: Seq<u8>, payload_len: u16) -> Seq<u8> {
    splice(s, 4, u16_be(payload_len))
}

/// The packet `s` with the next header `protocol`.
pub open spec fn with_next_header(s: Seq<u8>, protocol: Protocol) -> Seq<u8> {
    s.update(6, protocol.code())
}

/// The packet `s` with the hop limit `hop_limit`.
pub open spec fn with_hop_limit(s: Seq<u8>, hop_limit: u8) -> Seq<u8> {
    s.update(7, hop_limit)
}

/// The packet `s` with the source address of the octets `a`.
pub open spec fn with_src_addr(s: Seq<u8>, a: Seq<u8>) -> Seq<u8> {
    splice(s, 8, a)
}

/// The packet `s` with the destination address of the octets `a`.
pub open spec fn with_dst_addr(s: Seq<u8>, a: Seq<u8>) -> Seq<u8> {
    splice(s, 24, a)
}

/// The packet that has the header of `s` and the payload `p`.
pub open spec fn with_payload(s: Seq<u8>, p: Seq<u8>) -> Seq<u8> {
    s.subrange(0, 40) + p
}

/// An IPv6 packet in the buffer `T`.
pub struct Packet<T> {
    inner: T,
}

impl<T> Packet<T> {
    /// The buffer that the packet is viewed in.
    pub closed spec fn buffer(self) -> T {
        self.inner
    }

    /// Views `inner` as a packet. The length of the buffer is not looked at.
    pub fn new(inner: T) -> (r: Self)
        ensures
            r.buffer() == inner,
    {
        Self { inner }
    }

    pub fn into_inner(self) -> (r: T)
        ensures
            r == self.buffer(),
    {
        self.inner
    }
}

impl<T: AsBytes> View for Packet<T> {
    type V = Seq<u8>;

    /// The bytes of the packet.
    open spec fn view(&self) -> Seq<u8> {
        self.buffer().bytes()
    }
}

proof fn lemma_traffic_class_bits(b0: u8, b1: u8, word: u16)
    by (bit_vector)
    requires
        word == b0 * 0x100 + b1,
    ensures
        (word & 0x0ff0) >> 4 == ((b0 & 0x0f) << 4 | b1 >> 4) as u16,
{
}

impl<T: AsBytes> Packet<T> {
    pub fn version(&self) -> (r: u8)
        requires
            self@.len() >= 1,
        ensures
            r == version_of(self@),
    {
        self.inner.as_bytes()[0] >> 4
    }

    pub fn traffic_class(&self) -> (r: u8)
        requires
            self@.len() >= 2,
        ensures
            r == traffic_class_of(self@),
    {
        let word = read_u16(slice_subrange(self.inner.as_bytes(), 0, 2));
        proof {
            lemma_traffic_class_bits(self@[0], self@[1], word);
        }
        ((word & 0x0ff0) >> 4) as u8
    }

    pub fn flow_label(&self) -> (r: u32)
        requires
            self@.len() >= 4,
        ensures
            r == flow_label_of(self@),
    {
        read_u24(slice_subrange(self.inner.as_bytes(), 1, 4)) & 0x000fffff
    }

    pub fn payload_len(&self) -> (r: u16)
        requires
            self@.len() >= 6,
        ensures
            r == payload_len_of(self@),
    {
        read_u16(slice_subrange(self.inner.as_bytes(), 4, 6))
    }

    pub fn next_header(&self) -> (r: Protocol)
        requires
            self@.len() >= 7,
        ensures
            r == next_header_of(self@),
    {
        Protocol::from(self.inner.as_bytes()[6])
    }

    pub fn hop_limit(&self) -> (r: u8)
        requires
            self@.len() >= 8,
        ensures
            r == hop_limit_of(self@),
    {
        self.inner.as_bytes()[7]
    }

    pub fn dst_addr(&self) -> (r: Address)
        requires
            self@.len() >= 40,
        ensures
            r.spec_octets() == dst_addr_of(self@),
    {
        let r = Address::from_bytes(slice_subrange(self.inner.as_bytes(), 24, 40));
        assert(self@.subrange(24, 40).subrange(0, 16) =~= self@.subrange(24, 40));
        r
    }

    pub fn src_addr(&self) -> (r: Address)
        requires
            self@.len() >= 24,
        ensures
            r.spec_octets() == src_addr_of(self@),
    {
        let r = Address::from_bytes(slice_subrange(self.inner.as_bytes(), 8, 24));
        assert(self@.subrange(8, 24).subrange(0, 16) =~= self@.subrange(8, 24));
        r
    }
}

impl<'a> Packet<&'a [u8]> {
    /// What follows the header, for as long as the buffer is borrowed.
    pub fn payload(&self) -> (r: &'a [u8])
        requires
            self@.len() >= 40,
        ensures
            r@ == payload_of(self@),
    {
        let data: &'a [u8] = self.inner;
        slice_subrange(data, HEADER_LEN, data.len())
    }
}

impl<T: AsBytesMut> Packet<T> {
    /// Sets the version, which has four bits.
    pub fn set_version(&mut self, version: u8)
        requires
            old(self)@.len() >= 4,
            version <= 0x0f,
        ensures
            final(self)@ == with_version(old(self)@, version),
    {
        let data = self.inner.as_bytes_mut();
        data[0] = (data[0] & !0xf0) | ((version & 0x0f) << 4);
    }

    pub fn set_traffic_class(&mut self, traffic_class: u8)
        requires
            old(self)@.len() >= 4,
        ensures
            final(self)@ == with_traffic_class(old(self)@, traffic_class),
    {
        let data = self.inner.as_bytes_mut();
        data[0] = (data[0] & !0x0f) | ((traffic_class & 0xf0) >> 4);
        data[1] = (data[1] & !0xf0) | ((traffic_class & 0x0f) << 4);
    }

    /// Sets the flow label, which has twenty bits.
    pub fn set_flow_label(&mut self, flow_label: u32)
        requires
            old(self)@.len() >= 4,
            flow_label <= 0x000f_ffff,
        ensures
            final(self)@ == with_flow_label(old(self)@, flow_label),
    {
        let data = self.inner.as_bytes_mut();
        data[1] = (data[1] & !0x0f) | #[verifier::truncate]
        (((flow_label & 0x0f0000) >> 16) as u8);
        data[2] = #[verifier::truncate]
        (((flow_label & 0x00ff00) >> 8) as u8);
        data[3] = #[verifier::truncate]
        ((flow_label & 0x0000ff) as u8);
    }

    pub fn set_payload_len(&mut self, payload_len: u16)
        requires
            old(self)@.len() >= 6,
        ensures
            final(self)@ == with_payload_len(old(self)@, payload_len),
    {
        let data = self.inner.as_bytes_mut();
        let (_, field) = data.split_at_mut(4);
        write_u16(field, payload_len);
        assert(data@ =~= with_payload_len(old(self)@, payload_len));
    }

    pub fn set_next_header(&mut self, protocol: Protocol)
        requires
            old(self)@.len() >= 7,
        ensures
            final(self)@ == with_next_header(old(self)@, protocol),
    {
        let data = self.inner.as_bytes_mut();
        data[6] = u8::from(protocol);
    }

    pub fn set_hop_limit(&mut self, hop_limit: u8)
        requires
            old(self)@.len() >= 8,
        ensures
            final(self)@ == with_hop_limit(old(self)@, hop_limit),
    {
        let data = self.inner.as_bytes_mut();
        data[7] = hop_limit;
    }

    pub fn set_dst_addr(&mut self, address: Address)
        requires
            old(self)@.len() >= 40,
        ensures
            final(self)@ == with_dst_addr(old(self)@, address.spec_octets()),
    {
        let data = self.inner.as_bytes_mut();
        let (_, field) = data.split_at_mut(24);
        write_u128(field, address.repr);
        assert(data@ =~= with_dst_addr(old(self)@, address.spec_octets()));
    }

    pub fn set_src_addr(&mut self, address: Address)
        requires
            old(self)@.len() >= 24,
        ensures
            final(self)@ == with_src_addr(old(self)@, address.spec_octets()),
    {
        let data = self.inner.as_bytes_mut();
        let (_, field) = data.split_at_mut(8);
        write_u128(field, address.repr);
        assert(data@ =~= with_src_addr(old(self)@, address.spec_octets()));
    }
}

impl<'a> Packet<&'a mut [u8]> {
    /// What follows the header, to be written in place.
    pub fn payload_mut(&mut self) -> (r: &mut [u8])
        requires
            old(self)@.len() >= 40,
        ensures
            r@ == payload_of(old(self)@),
            final(self)@ == with_payload(old(self)@, final(r)@),
    {
        let (_, payload) = self.inner.split_at_mut(HEADER_LEN);
        payload
    }
}

proof fn lemma_version_bits(b0: u8, version: u8)
    by (bit_vector)
    requires
        version <= 0x0f,
    ensures
        ((b0 & !0xf0u8) | ((version & 0x0f) << 4)) >> 4 == version,
        ((b0 & !0xf0u8) | ((version & 0x0f) << 4)) & 0x0f == b0 & 0x0f,
        (b0 & !0xf0u8) | (((b0 >> 4) & 0x0f) << 4) == b0,
{
}

proof fn lemma_traffic_class_set_bits(b0: u8, b1: u8, tc: u8)
    by (bit_vector)
    ensures
        ((b0 & !0x0fu8) | ((tc & 0xf0) >> 4)) >> 4 == b0 >> 4,
        (((b0 & !0x0fu8) | ((tc & 0xf0) >> 4)) & 0x0f) << 4 | ((b1 & !0xf0u8) | ((tc & 0x0f)
            << 4)) >> 4 == tc,
        ((b1 & !0xf0u8) | ((tc & 0x0f) << 4)) & 0x0f == b1 & 0x0f,
        (b0 & !0x0fu8) | ((((b0 & 0x0f) << 4 | b1 >> 4) & 0xf0) >> 4) == b0,
        (b1 & !0xf0u8) | ((((b0 & 0x0f) << 4 | b1 >> 4) & 0x0f) << 4) == b1,
{
}

proof fn lemma_flow_label_low_bits(b1: u8, c1: u8, b2: u8, b3: u8, x: u32, y: u32)
    by (bit_vector)
    requires
        b1 & 0x0f == c1 & 0x0f,
        x == b1 * 0x1_0000 + b2 * 0x100 + b3,
        y == c1 * 0x1_0000 + b2 * 0x100 + b3,
    ensures
        x & 0x000f_ffff == y & 0x000f_ffff,
{
}

proof fn lemma_flow_label_set_bits(b1: u8, fl: u32, x: u32)
    by (bit_vector)
    requires
        fl <= 0x000f_ffff,
        x == ((b1 & !0x0fu8) | (((fl & 0x0f_0000) >> 16) as u8)) * 0x1_0000 + (((fl & 0x00_ff00)
            >> 8) as u8) * 0x100 + ((fl & 0x00_00ff) as u8),
    ensures
        x & 0x000f_ffff == fl,
        ((b1 & !0x0fu8) | (((fl & 0x0f_0000) >> 16) as u8)) >> 4 == b1 >> 4,
{
}

proof fn lemma_flow_label_current_bits(b1: u8, b2: u8, b3: u8, x: u32)
    by (bit_vector)
    requires
        x == b1 * 0x1_0000 + b2 * 0x100 + b3,
    ensures
        (b1 & !0x0fu8) | ((((x & 0x000f_ffff) & 0x0f_0000) >> 16) as u8) == b1,
        (((x & 0x000f_ffff) & 0x00_ff00) >> 8) as u8 == b2,
        ((x & 0x000f_ffff) & 0x00_00ff) as u8 == b3,
{
}

/// After the version is set, the header holds it, and the traffic class,
/// the flow label and every byte after them are as they were.
pub proof fn lemma_with_version(s: Seq<u8>, version: u8)
    requires
        s.len() >= 4,
        version <= 0x0f,
    ensures
        with_version(s, version).len() == s.len(),
        version_of(with_version(s, version)) == version,
        traffic_class_of(with_version(s, version)) == traffic_class_of(s),
        flow_label_of(with_version(s, version)) == flow_label_of(s),
        with_version(s, version).subrange(4, s.len() as int) == s.subrange(4, s.len() as int),
{
    let r = with_version(s, version);
    lemma_version_bits(s[0], version);
    assert(r.subrange(1, 4) =~= s.subrange(1, 4));
    assert(r.subrange(4, s.len() as int) =~= s.subrange(4, s.len() as int));
}

/// After the traffic class is set, the header holds it, and the version, the
/// flow label and every byte after them are as they were.
pub proof fn lemma_with_traffic_class(s: Seq<u8>, traffic_class: u8)
    requires
        s.len() >= 4,
    ensures
        with_traffic_class(s, traffic_class).len() == s.len(),
        traffic_class_of(with_traffic_class(s, traffic_class)) == traffic_class,
        version_of(with_traffic_class(s, traffic_class)) == version_of(s),
        flow_label_of(with_traffic_class(s, traffic_class)) == flow_label_of(s),
        with_traffic_class(s, traffic_class).subrange(4, s.len() as int) == s.subrange(
            4,
            s.len() as int,
        ),
{
    let r = with_traffic_class(s, traffic_class);
    lemma_traffic_class_set_bits(s[0], s[1], traffic_class);
    lemma_flow_label_low_bits(
        r[1],
        s[1],
        s[2],
        s[3],
        be_u24(r.subrange(1, 4)),
        be_u24(s.subrange(1, 4)),
    );
    assert(r.subrange(4, s.len() as int) =~= s.subrange(4, s.len() as int));
}

/// After the flow label is set, the header holds it, and the version, the
/// traffic class and every byte after them are as they were.
pub proof fn lemma_with_flow_label(s: Seq<u8>, flow_label: u32)
    requires
        s.len() >= 4,
        flow_label <= 0x000f_ffff,
    ensures
        with_flow_label(s, flow_label).len() == s.len(),
        flow_label_of(with_flow_label(s, flow_label)) == flow_label,
        version_of(with_flow_label(s, flow_label)) == version_of(s),
        traffic_class_of(with_flow_label(s, flow_label)) == traffic_class_of(s),
        with_flow_label(s, flow_label).subrange(4, s.len() as int) == s.subrange(
            4,
            s.len() as int,
        ),
{
    let r = with_flow_label(s, flow_label);
    lemma_flow_label_set_bits(s[1], flow_label, be_u24(r.subrange(1, 4)));
    assert(r.subrange(4, s.len() as int) =~= s.subrange(4, s.len() as int));
}

/// Setting the version, the traffic class or the flow label to the value
/// that the header holds leaves the header as it is.
pub proof fn lemma_set_current_packed(s: Seq<u8>)
    requires
        s.len() >= 4,
    ensures
        with_version(s, version_of(s)) == s,
        with_traffic_class(s, traffic_class_of(s)) == s,
        with_flow_label(s, flow_label_of(s)) == s,
{
    lemma_version_bits(s[0], 0);
    lemma_version_bits_current(s[0]);
    lemma_traffic_class_set_bits(s[0], s[1], 0);
    lemma_flow_label_current_bits(s[1], s[2], s[3], be_u24(s.subrange(1, 4)));
    assert(with_version(s, version_of(s)) =~= s);
    assert(with_traffic_class(s, traffic_class_of(s)) =~= s);
    assert(with_flow_label(s, flow_label_of(s)) =~= s);
}

proof fn lemma_version_bits_current(b0: u8)
    by (bit_vector)
    ensures
        (b0 >> 4) & 0x0f == b0 >> 4,
{
}

/// The bits of an address that a prefix of `prefix` bits leaves to the
/// hosts: all but the first `prefix` bits.
pub open spec fn host_mask(prefix: u8) -> u128 {
    if prefix >= 128 {
        0
    } else {
        u128::MAX >> prefix
    }
}

/// Whether `network` and `prefix` make a subnet: the prefix has at most 128
/// bits, and every bit of `network` after the first `prefix` bits is zero.
pub open spec fn is_subnet(network: Address, prefix: u8) -> bool {
    prefix <= 128 && network.value() & host_mask(prefix) == 0
}

/// The network and the prefix length do not make a subnet.
#[derive(Debug, Clone, Copy, PartialEq, Eq, Hash)]
pub struct InvalidSubnet(());

/// A subnet such as `FE80::/10`: a network address and the length of its
/// prefix.
#[derive(Clone, Copy, Debug, PartialEq, Eq)]
pub struct Subnet {
    network: Address,
    prefix: u8,
}

proof fn lemma_no_host_bits(v: u128)
    by (bit_vector)
    ensures
        v & 0 == 0,
{
}

proof fn lemma_multicast_network(v: u128)
    by (bit_vector)
    requires
        v >> 112 == 0xff00 && v & 0xffff_ffff_ffff_ffff_ffff_ffff_ffff == 0,
    ensures
        v & (0xffff_ffff_ffff_ffff_ffff_ffff_ffff_ffffu128 >> 8u8) == 0,
{
}

proof fn lemma_link_local_network(v: u128)
    by (bit_vector)
    requires
        v >> 112 == 0xfe80 && v & 0xffff_ffff_ffff_ffff_ffff_ffff_ffff == 0,
    ensures
        v & (0xffff_ffff_ffff_ffff_ffff_ffff_ffff_ffffu128 >> 10u8) == 0,
{
}

proof fn lemma_low_segments_zero(v: u128)
    by (bit_vector)
    requires
        (v >> 96) & 0xffff == 0,
        (v >> 80) & 0xffff == 0,
        (v >> 64) & 0xffff == 0,
        (v >> 48) & 0xffff == 0,
        (v >> 32) & 0xffff == 0,
        (v >> 16) & 0xffff == 0,
        v & 0xffff == 0,
    ensures
        v & 0xffff_ffff_ffff_ffff_ffff_ffff_ffff == 0,
{
}

impl Subnet {
    /// The network part of the subnet.
    pub closed spec fn spec_network(self) -> Address {
        self.network
    }

    /// The length of the prefix.
    pub closed spec fn spec_prefix(self) -> u8 {
        self.prefix
    }

    /// What holds of every subnet.
    pub open spec fn wf(self) -> bool {
        is_subnet(self.spec_network(), self.spec_prefix())
    }

    /// The subnet of `network` and `prefix`, if they make one.
    pub fn new(network: Address, prefix: u8) -> (r: Result<Subnet, InvalidSubnet>)
        ensures
            r is Ok <==> is_subnet(network, prefix),
            r is Ok ==> r->Ok_0.spec_network() == network && r->Ok_0.spec_prefix() == prefix,
    {
        if prefix > 128 {
            return Err(InvalidSubnet(()));
        }
        let host_bits = if prefix == 128 {
            0
        } else {
            network.repr & (u128::MAX >> prefix)
        };
        proof {
            lemma_no_host_bits(network.repr);
        }
        if host_bits != 0 {
            return Err(InvalidSubnet(()));
        }
        Ok(Self::new_unchecked(network, prefix))
    }

    /// The subnet of `network` and `prefix`, which the caller knows to make
    /// one.
    pub fn new_unchecked(network: Address, prefix: u8) -> (r: Subnet)
        requires
            is_subnet(network, prefix),
        ensures
            r.wf(),
            r.spec_network() == network,
            r.spec_prefix() == prefix,
    {
        Self { network, prefix }
    }

    /// The unspecified address alone: `::/128`.
    pub fn unspecified() -> (r: Subnet)
        ensures
            r.wf(),
            r.spec_network().spec_segments() == seq![0u16, 0u16, 0u16, 0u16, 0u16, 0u16, 0u16, 0u16],
            r.spec_prefix() == 128,
    {
        let network = Address::from_segments([0, 0, 0, 0, 0, 0, 0, 0]);
        proof {
            lemma_no_host_bits(network.repr);
        }
        Subnet { network, prefix: 128 }
    }

    /// The loopback address alone: `::1/128`.
    pub fn loopback() -> (r: Subnet)
        ensures
            r.wf(),
            r.spec_network().spec_segments() == seq![0u16, 0u16, 0u16, 0u16, 0u16, 0u16, 0u16, 1u16],
            r.spec_prefix() == 128,
    {
        let network = Address::from_segments([0, 0, 0, 0, 0, 0, 0, 1]);
        proof {
            lemma_no_host_bits(network.repr);
        }
        Subnet { network, prefix: 128 }
    }

    /// The multicast addresses: `FF00::/8`.
    pub fn multicast() -> (r: Subnet)
        ensures
            r.wf(),
            r.spec_network().spec_segments() == seq![
                0xff00u16,
                0u16,
                0u16,
                0u16,
                0u16,
                0u16,
                0u16,
                0u16,
            ],
            r.spec_prefix() == 8,
    {
        let network = Address::from_segments([0xff00, 0, 0, 0, 0, 0, 0, 0]);
        proof {
            let v = network.repr;
            let s = segments_of(v);
            assert(s[0] == 0xff00 && s[1] == 0 && s[2] == 0 && s[3] == 0 && s[4] == 0 && s[5] == 0
                && s[6] == 0 && s[7] == 0);
            lemma_segment_values(v);
            lemma_low_segments_zero(v);
            lemma_multicast_network(v);
        }
        Subnet { network, prefix: 8 }
    }

    /// The link-local unicast addresses: `FE80::/10`.
    pub fn link_local_unicast() -> (r: Subnet)
        ensures
            r.wf(),
            r.spec_network().spec_segments() == seq![
                0xfe80u16,
                0u16,
                0u16,
                0u16,
                0u16,
                0u16,
                0u16,
                0u16,
            ],
            r.spec_prefix() == 10,
    {
        let network = Address::from_segments([0xfe80, 0, 0, 0, 0, 0, 0, 0]);
        proof {
            let v = network.repr;
            let s = segments_of(v);
            assert(s[0] == 0xfe80 && s[1] == 0 && s[2] == 0 && s[3] == 0 && s[4] == 0 && s[5] == 0
                && s[6] == 0 && s[7] == 0);
            lemma_segment_values(v);
            lemma_low_segments_zero(v);
            lemma_link_local_network(v);
        }
        Subnet { network, prefix: 10 }
    }

    /// The network part of the subnet.
    pub fn network(self) -> (r: Address)
        ensures
            r == self.spec_network(),
    {
        self.network
    }

    /// The length of the prefix: the smaller the number, the larger the
    /// network.
    pub fn prefix(self) -> (r: u8)
        ensures
            r == self.spec_prefix(),
    {
        self.prefix
    }
}

proof fn lemma_segment_values(v: u128)
    by (bit_vector)
    ensures
        ((v >> 112) as u16) as u128 == v >> 112,
        (((v >> 96) & 0xffff) as u16) as u128 == (v >> 96) & 0xffff,
        (((v >> 80) & 0xffff) as u16) as u128 == (v >> 80) & 0xffff,
        (((v >> 64) & 0xffff) as u16) as u128 == (v >> 64) & 0xffff,
        (((v >> 48) & 0xffff) as u16) as u128 == (v >> 48) & 0xffff,
        (((v >> 32) & 0xffff) as u16) as u128 == (v >> 32) & 0xffff,
        (((v >> 16) & 0xffff) as u16) as u128 == (v >> 16) & 0xffff,
        ((v & 0xffff) as u16) as u128 == v & 0xffff,
{
}

} // verus!
