//! ICMPv6: a view of a message in a buffer, a view of an echo request, and an
//! encoder that emits an echo request piece by piece.
//!
//! | bytes | field                    |
//! |-------|--------------------------|
//! | 0     | type                     |
//! | 1     | code                     |
//! | 2..4  | checksum                 |
//! | 4..   | payload                  |
//!
//! The payload of an echo request holds the identifier at 0..2, the sequence
//! number at 2..4 and the data from 4 on.

use crate::bytes::{be_u16, read_u16, splice, u16_be, write_u16, AsBytes, AsBytesMut};
use vstd::prelude::*;
use vstd::slice::slice_subrange;

verus! {

/// The type number of an echo request.
pub const ECHO_REQUEST: u8 = 128;

/// The length of what an echo request holds before its data: type, code,
/// checksum, identifier and sequence number.
pub const ECHO_HEADER_LEN: usize = 8;

/// What the encoder writes in the checksum field. It is a fixed number, not
/// the checksum of the message.
pub const CHECKSUM_PLACEHOLDER: u16 = 0x8901;

/// The type of an ICMPv6 message.
#[derive(Debug, Clone, Copy, PartialEq, Eq, Structural)]
pub enum Type {
    EchoRequest,
    Unknown(u8),
}

impl Type {
    /// The message type that the number `src` names.
    pub open spec fn decode(src: u8) -> Type {
        if src == ECHO_REQUEST {
            Type::EchoRequest
        } else {
            Type::Unknown(src)
        }
    }

    /// The number of the message type.
    pub open spec fn code(self) -> u8 {
        match self {
            Type::EchoRequest => ECHO_REQUEST,
            Type::Unknown(others) => others,
        }
    }
}

impl From<u8> for Type {
    fn from(src: u8) -> (r: Type) {
        if src == ECHO_REQUEST {
            Type::EchoRequest
        } else {
            Type::Unknown(src)
        }
    }
}

impl vstd::std_specs::convert::FromSpecImpl<u8> for Type {
    open spec fn obeys_from_spec() -> bool {
        true
    }

    open spec fn from_spec(src: u8) -> Type {
        Type::decode(src)
    }
}

impl From<Type> for u8 {
    fn from(src: Type) -> (r: u8) {
        match src {
            Type::EchoRequest => ECHO_REQUEST,
            Type::Unknown(others) => others,
        }
    }
}

impl vstd::std_specs::convert::FromSpecImpl<Type> for u8 {
    open spec fn obeys_from_spec() -> bool {
        true
    }

    open spec fn from_spec(src: Type) -> u8 {
        src.code()
    }
}

/// Decoding a message type loses nothing: encoding gives the number back.
pub proof fn lemma_type_round_trip(v: u8, ty: Type)
    ensures
        Type::decode(v).code() == v,
        ty != Type::Unknown(ECHO_REQUEST) ==> Type::decode(ty.code()) == ty,
{
}

/// The type of the message `s`.
pub open spec fn packet_type_of(s: Seq<u8>) -> Type {
    Type::decode(s[0])
}

/// The code of the message `s`.
pub open spec fn code_of(s: Seq<u8>) -> u8 {
    s[1]
}

/// The checksum field of the message `s`.
pub open spec fn checksum_of(s: Seq<u8>) -> u16 {
    be_u16(s.subrange(2, 4))
}

/// What follows the four bytes of a header in `s`: the payload of a message,
/// or the data of an echo request.
pub open spec fn payload_of(s: Seq<u8>) -> Seq<u8> {
    s.subrange(4, s.len() as int)
}

/// The four bytes of the header of `s` followed by `p`.
pub open spec fn with_payload(s: Seq<u8>, p: Seq<u8>) -> Seq<u8> {
    s.subrange(0, 4) + p
}

/// The message `s` with the type `ty`.
pub open spec fn with_packet_type(s: Seq<u8>, ty: Type) -> Seq<u8> {
    s.update(0, ty.code())
}

/// The message `s` with the code `code`.
pub open spec fn with_code(s: Seq<u8>, code: u8) -> Seq<u8> {
    s.update(1, code)
}

/// The message `s` with `checksum` in the checksum field.
pub open spec fn with_checksum(s: Seq<u8>, checksum: u16) -> Seq<u8> {
    splice(s, 2, u16_be(checksum))
}

/// An ICMPv6 message in the buffer `T`.
#[derive(Debug, Clone, Copy)]
pub struct Packet<T> {
    inner: T,
}

impl<T> Packet<T> {
    /// The buffer that the message is viewed in.
    pub closed spec fn buffer(self) -> T {
        self.inner
    }

    /// Views `inner` as a message. The length of the buffer is not looked at.
    pub fn new(inner: T) -> (r: Self)
        ensures
            r.buffer() == inner,
    {
        Self { inner }
    }
}

impl<T: AsBytes> View for Packet<T> {
    type V = Seq<u8>;

    /// The bytes of the message.
    open spec fn view(&self) -> Seq<u8> {
        self.buffer().bytes()
    }
}

impl<T: AsBytes> Packet<T> {
    pub fn packet_type(&self) -> (r: Type)
        requires
            self@.len() >= 1,
        ensures
            r == packet_type_of(self@),
    {
        Type::from(self.inner.as_bytes()[0])
    }

    pub fn code(&self) -> (r: u8)
        requires
            self@.len() >= 2,
        ensures
            r == code_of(self@),
    {
        self.inner.as_bytes()[1]
    }

    pub fn checksum(&self) -> (r: u16)
        requires
            self@.len() >= 4,
        ensures
            r == checksum_of(self@),
    {
        read_u16(slice_subrange(self.inner.as_bytes(), 2, 4))
    }
}

impl<'a> Packet<&'a [u8]> {
    /// What follows the header, for as long as the buffer is borrowed.
    pub fn payload(&self) -> (r: &'a [u8])
        requires
            self@.len() >= 4,
        ensures
            r@ == payload_of(self@),
    {
        let data: &'a [u8] = self.inner;
        slice_subrange(data, 4, data.len())
    }
}

impl<T: AsBytesMut> Packet<T> {
    pub fn set_packet_type(&mut self, ty: Type)
        requires
            old(self)@.len() >= 1,
        ensures
            final(self)@ == with_packet_type(old(self)@, ty),
    {
        let data = self.inner.as_bytes_mut();
        data[0] = u8::from(ty);
    }

    pub fn set_code(&mut self, code: u8)
        requires
            old(self)@.len() >= 2,
        ensures
            final(self)@ == with_code(old(self)@, code),
    {
        let data = self.inner.as_bytes_mut();
        data[1] = code;
    }

    pub fn set_checksum(&mut self, checksum: u16)
        requires
            old(self)@.len() >= 4,
        ensures
            final(self)@ == with_checksum(old(self)@, checksum),
    {
        let data = self.inner.as_bytes_mut();
        let (_, field) = data.split_at_mut(2);
        write_u16(field, checksum);
        assert(data@ =~= with_checksum(old(self)@, checksum));
    }
}

impl<'a> Packet<&'a mut [u8]> {
    /// What follows the header, to be written in place.
    pub fn payload_mut(&mut self) -> (r: &mut [u8])
        requires
            old(self)@.len() >= 4,
        ensures
            r@ == payload_of(old(self)@),
            final(self)@ == with_payload(old(self)@, final(r)@),
    {
        let (_, payload) = self.inner.split_at_mut(4);
        payload
    }
}

/// The identifier of the echo request with the payload `s`.
pub open spec fn identifier_of(s: Seq<u8>) -> u16 {
    be_u16(s.subrange(0, 2))
}

/// The sequence number of the echo request with the payload `s`.
pub open spec fn sequence_number_of(s: Seq<u8>) -> u16 {
    be_u16(s.subrange(2, 4))
}

/// The echo request `s` with the identifier `value`.
pub open spec fn with_identifier(s: Seq<u8>, value: u16) -> Seq<u8> {
    splice(s, 0, u16_be(value))
}

/// The echo request `s` with the sequence number `value`.
pub open spec fn with_sequence_number(s: Seq<u8>, value: u16) -> Seq<u8> {
    splice(s, 2, u16_be(value))
}

/// An echo request in the buffer `T`, which holds the payload of an ICMPv6
/// message.
#[derive(Debug, Clone, Copy)]
pub struct EchoRequest<T> {
    inner: T,
}

impl<T> EchoRequest<T> {
    /// The buffer that the echo request is viewed in.
    pub closed spec fn buffer(self) -> T {
        self.inner
    }

    /// Views `inner` as an echo request. The length of the buffer is not
    /// looked at.
    pub fn new(inner: T) -> (r: Self)
        ensures
            r.buffer() == inner,
    {
        Self { inner }
    }
}

impl<T: AsBytes> View for EchoRequest<T> {
    type V = Seq<u8>;

    /// The bytes of the echo request.
    open spec fn view(&self) -> Seq<u8> {
        self.buffer().bytes()
    }
}

impl<T: AsBytes> EchoRequest<T> {
    pub fn identifier(&self) -> (r: u16)
        requires
            self@.len() >= 2,
        ensures
            r == identifier_of(self@),
    {
        read_u16(slice_subrange(self.inner.as_bytes(), 0, 2))
    }

    pub fn sequence_number(&self) -> (r: u16)
        requires
            self@.len() >= 4,
        ensures
            r == sequence_number_of(self@),
    {
        read_u16(slice_subrange(self.inner.as_bytes(), 2, 4))
    }
}

impl<'a> EchoRequest<&'a [u8]> {
    /// The data of the echo request, for as long as the buffer is borrowed.
    pub fn data(&self) -> (r: &'a [u8])
        requires
            self@.len() >= 4,
        ensures
            r@ == payload_of(self@),
    {
        let data: &'a [u8] = self.inner;
        slice_subrange(data, 4, data.len())
    }
}

impl<T: AsBytesMut> EchoRequest<T> {
    pub fn set_identifier(&mut self, value: u16)
        requires
            old(self)@.len() >= 2,
        ensures
            final(self)@ == with_identifier(old(self)@, value),
    {
        write_u16(self.inner.as_bytes_mut(), value);
    }

    pub fn set_sequence_number(&mut self, value: u16)
        requires
            old(self)@.len() >= 4,
        ensures
            final(self)@ == with_sequence_number(old(self)@, value),
    {
        let data = self.inner.as_bytes_mut();
        let (_, field) = data.split_at_mut(2);
        write_u16(field, value);
        assert(data@ =~= with_sequence_number(old(self)@, value));
    }
}

impl<'a> EchoRequest<&'a mut [u8]> {
    /// The data of the echo request, to be written in place.
    pub fn data_mut(&mut self) -> (r: &mut [u8])
        requires
            old(self)@.len() >= 4,
        ensures
            r@ == payload_of(old(self)@),
            final(self)@ == with_payload(old(self)@, final(r)@),
    {
        let (_, data) = self.inner.split_at_mut(4);
        data
    }
}

} // verus!
