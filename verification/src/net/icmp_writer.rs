//! An encoder that emits one ICMPv6 message into output buffers of any size,
//! one call after another, and resumes where the call before stopped.

use crate::bytes::{splice, u16_be, write_at, write_u16, AsBytes};
use crate::net::icmp::{Type, CHECKSUM_PLACEHOLDER, ECHO_HEADER_LEN, ECHO_REQUEST};
use vstd::prelude::*;
use vstd::slice::slice_subrange;

verus! {

/// The bytes of an echo request: type, code 0, the checksum placeholder,
/// identifier, sequence number, data.
pub open spec fn echo_request_message(identifier: u16, sequence_number: u16, data: Seq<u8>) -> Seq<
    u8,
> {
    seq![ECHO_REQUEST, 0u8] + u16_be(CHECKSUM_PLACEHOLDER) + u16_be(identifier) + u16_be(
        sequence_number,
    ) + data
}

/// How many bytes one call emits: what is left of a message of `total` bytes
/// after `cursor` of them, as far as `space` allows.
pub open spec fn chunk_len(total: int, cursor: int, space: int) -> int {
    if space <= total - cursor {
        space
    } else {
        total - cursor
    }
}

/// What a writer at `cursor` emits over calls with buffers of the lengths
/// `sizes`, one after the other.
pub open spec fn stream(message: Seq<u8>, cursor: int, sizes: Seq<nat>) -> Seq<u8>
    decreases sizes.len(),
{
    if sizes.len() == 0 {
        Seq::empty()
    } else {
        let n = chunk_len(message.len() as int, cursor, sizes[0] as int);
        message.subrange(cursor, cursor + n) + stream(message, cursor + n, sizes.drop_first())
    }
}

/// The sum of `sizes`.
pub open spec fn total_size(sizes: Seq<nat>) -> nat
    decreases sizes.len(),
{
    if sizes.len() == 0 {
        0
    } else {
        sizes[0] + total_size(sizes.drop_first())
    }
}

/// However the output is cut into buffers, the calls emit together the bytes
/// of the message from the cursor on, as far as the buffers reach.
pub proof fn lemma_stream(message: Seq<u8>, cursor: int, sizes: Seq<nat>)
    requires
        0 <= cursor <= message.len(),
    ensures
        stream(message, cursor, sizes) == message.subrange(
            cursor,
            cursor + chunk_len(message.len() as int, cursor, total_size(sizes) as int),
        ),
    decreases sizes.len(),
{
    let total = message.len() as int;
    if sizes.len() == 0 {
        assert(stream(message, cursor, sizes) =~= message.subrange(cursor, cursor));
    } else {
        let n = chunk_len(total, cursor, sizes[0] as int);
        lemma_stream(message, cursor + n, sizes.drop_first());
        let rest = chunk_len(total, cursor + n, total_size(sizes.drop_first()) as int);
        assert(n + rest == chunk_len(total, cursor, total_size(sizes) as int));
        assert(message.subrange(cursor, cursor + n) + message.subrange(
            cursor + n,
            cursor + n + rest,
        ) =~= message.subrange(cursor, cursor + n + rest));
    }
}

/// Buffers that hold the whole message together receive exactly the message,
/// as one buffer of that size does.
pub proof fn lemma_stream_whole(message: Seq<u8>, sizes: Seq<nat>)
    requires
        total_size(sizes) >= message.len(),
    ensures
        stream(message, 0, sizes) == message,
        stream(message, 0, sizes) == stream(message, 0, seq![message.len()]),
{
    lemma_stream(message, 0, sizes);
    lemma_stream(message, 0, seq![message.len()]);
    assert(seq![message.len()].drop_first() =~= Seq::<nat>::empty());
    assert(total_size(seq![message.len()]) == message.len()) by {
        assert(total_size(Seq::<nat>::empty()) == 0);
    }
    assert(message.subrange(0, message.len() as int) =~= message);
}

/// What is to be written.
#[derive(Clone, Debug, PartialEq, Eq)]
enum WriteType<T> {
    EchoRequest { identifier: u16, sequence_number: u16, data: T },
}

/// A message to be written and the count of its bytes that are written
/// already.
#[derive(Clone, Debug, PartialEq, Eq)]
pub struct Buffer<T> {
    write_type: WriteType<T>,
    byte_idx: usize,
}

/// What `consume` has reached when it is done with the fields that end at
/// `field_end`: the bytes `start..byte_idx` of the message stand at the
/// start of the output, and if a field before `field_end` is not complete the
/// output is full.
#[verifier::opaque]
spec fn emitted(
    message: Seq<u8>,
    start: int,
    out_before: Seq<u8>,
    out: Seq<u8>,
    byte_idx: int,
    cur_idx: int,
    field_end: int,
) -> bool {
    &&& 0 <= start <= byte_idx <= message.len()
    &&& cur_idx == byte_idx - start
    &&& 0 <= cur_idx <= out_before.len()
    &&& out == splice(out_before, 0, message.subrange(start, byte_idx))
    &&& byte_idx < field_end ==> cur_idx == out_before.len()
}

proof fn lemma_emit_start(message: Seq<u8>, start: int, out_before: Seq<u8>)
    requires
        0 <= start <= message.len(),
    ensures
        emitted(message, start, out_before, out_before, start, 0, 0),
{
    reveal(emitted);
    assert(out_before =~= splice(out_before, 0, message.subrange(start, start)));
}

proof fn lemma_emit_byte(
    message: Seq<u8>,
    start: int,
    out_before: Seq<u8>,
    out: Seq<u8>,
    out_after: Seq<u8>,
    byte_idx: int,
    cur_idx: int,
)
    requires
        emitted(message, start, out_before, out, byte_idx, cur_idx, byte_idx),
        byte_idx < message.len(),
        cur_idx < out.len(),
        out_after == out.update(cur_idx, message[byte_idx]),
    ensures
        emitted(message, start, out_before, out_after, byte_idx + 1, cur_idx + 1, byte_idx + 1),
{
    reveal(emitted);
    assert(out_after =~= splice(out_before, 0, message.subrange(start, byte_idx + 1)));
}

proof fn lemma_emit_step(
    message: Seq<u8>,
    start: int,
    out_before: Seq<u8>,
    out: Seq<u8>,
    out_after: Seq<u8>,
    byte_idx: int,
    cur_idx: int,
    field_start: int,
    field_end: int,
    write_len: int,
)
    requires
        emitted(message, start, out_before, out, byte_idx, cur_idx, field_start),
        field_start <= byte_idx <= field_end <= message.len(),
        write_len == chunk_len(field_end, byte_idx, out_before.len() - cur_idx),
        out_after == splice(out, cur_idx, message.subrange(byte_idx, byte_idx + write_len)),
    ensures
        emitted(
            message,
            start,
            out_before,
            out_after,
            byte_idx + write_len,
            cur_idx + write_len,
            field_end,
        ),
{
    reveal(emitted);
    assert(out_after =~= splice(out_before, 0, message.subrange(start, byte_idx + write_len)));
}

/// A field that the cursor is not in leaves everything as it is.
proof fn lemma_emit_skip(
    message: Seq<u8>,
    start: int,
    out_before: Seq<u8>,
    out: Seq<u8>,
    byte_idx: int,
    cur_idx: int,
    field_start: int,
    field_end: int,
)
    requires
        emitted(message, start, out_before, out, byte_idx, cur_idx, field_start),
        field_start <= field_end,
        byte_idx < field_start || byte_idx >= field_end || cur_idx >= out.len(),
    ensures
        emitted(message, start, out_before, out, byte_idx, cur_idx, field_end),
{
    reveal(emitted);
}

/// What is known of the indices while a message is written.
proof fn lemma_emit_bounds(
    message: Seq<u8>,
    start: int,
    out_before: Seq<u8>,
    out: Seq<u8>,
    byte_idx: int,
    cur_idx: int,
    field_end: int,
)
    requires
        emitted(message, start, out_before, out, byte_idx, cur_idx, field_end),
    ensures
        0 <= start <= byte_idx <= message.len(),
        cur_idx == byte_idx - start,
        0 <= cur_idx <= out_before.len(),
        out.len() == out_before.len(),
        out == splice(out_before, 0, message.subrange(start, byte_idx)),
        field_end >= message.len() ==> cur_idx == chunk_len(
            message.len() as int,
            start,
            out_before.len() as int,
        ),
{
    reveal(emitted);
}

/// The fields of an echo request, by their places in the message.
proof fn lemma_message_fields(identifier: u16, sequence_number: u16, data: Seq<u8>)
    ensures
        echo_request_message(identifier, sequence_number, data).len() == 8 + data.len(),
        echo_request_message(identifier, sequence_number, data).subrange(0, 1) == seq![
            ECHO_REQUEST,
        ],
        echo_request_message(identifier, sequence_number, data).subrange(1, 2) == seq![0u8],
        echo_request_message(identifier, sequence_number, data).subrange(2, 4) == u16_be(
            CHECKSUM_PLACEHOLDER,
        ),
        echo_request_message(identifier, sequence_number, data).subrange(4, 6) == u16_be(
            identifier,
        ),
        echo_request_message(identifier, sequence_number, data).subrange(6, 8) == u16_be(
            sequence_number,
        ),
        echo_request_message(identifier, sequence_number, data).subrange(8, 8 + data.len() as int)
            == data,
{
    let m = echo_request_message(identifier, sequence_number, data);
    assert(m.subrange(0, 1) =~= seq![ECHO_REQUEST]);
    assert(m.subrange(1, 2) =~= seq![0u8]);
    assert(m.subrange(2, 4) =~= u16_be(CHECKSUM_PLACEHOLDER));
    assert(m.subrange(4, 6) =~= u16_be(identifier));
    assert(m.subrange(6, 8) =~= u16_be(sequence_number));
    assert(m.subrange(8, 8 + data.len() as int) =~= data);
}

/// Copies what fits of `field`, which stands at `field_start` of the
/// message, from the cursor `byte_idx` on to `out_buf` from `cur_idx` on, and
/// returns how many bytes that was.
fn emit(
    out_buf: &mut [u8],
    cur_idx: usize,
    byte_idx: usize,
    field: &[u8],
    field_start: usize,
    Ghost(message): Ghost<Seq<u8>>,
    Ghost(start): Ghost<int>,
    Ghost(out_before): Ghost<Seq<u8>>,
) -> (write_len: usize)
    requires
        emitted(
            message,
            start,
            out_before,
            old(out_buf)@,
            byte_idx as int,
            cur_idx as int,
            field_start as int,
        ),
        field_start <= byte_idx <= field_start + field@.len() <= message.len(),
        field@ == message.subrange(field_start as int, field_start + field@.len()),
    ensures
        byte_idx + write_len <= field_start + field@.len(),
        cur_idx + write_len <= out_before.len(),
        emitted(
            message,
            start,
            out_before,
            final(out_buf)@,
            byte_idx + write_len,
            cur_idx + write_len,
            field_start + field@.len(),
        ),
{
    proof {
        lemma_emit_bounds(
            message,
            start,
            out_before,
            out_buf@,
            byte_idx as int,
            cur_idx as int,
            field_start as int,
        );
    }
    let start_idx = byte_idx - field_start;
    let left = field.len() - start_idx;
    let space = out_buf.len() - cur_idx;
    let write_len = if space <= left {
        space
    } else {
        left
    };
    let ghost out = out_buf@;
    write_at(out_buf, cur_idx, slice_subrange(field, start_idx, start_idx + write_len));
    proof {
        assert(field@.subrange(start_idx as int, start_idx + write_len) =~= message.subrange(
            byte_idx as int,
            byte_idx + write_len,
        ));
        lemma_emit_step(
            message,
            start,
            out_before,
            out,
            out_buf@,
            byte_idx as int,
            cur_idx as int,
            field_start as int,
            field_start + field@.len(),
            write_len as int,
        );
    }
    write_len
}

impl<T> Buffer<T> {
    /// The identifier of the echo request.
    pub closed spec fn identifier(self) -> u16 {
        match self.write_type {
            WriteType::EchoRequest { identifier, .. } => identifier,
        }
    }

    /// The sequence number of the echo request.
    pub closed spec fn sequence_number(self) -> u16 {
        match self.write_type {
            WriteType::EchoRequest { sequence_number, .. } => sequence_number,
        }
    }

    /// The buffer that holds the data of the echo request.
    pub closed spec fn data(self) -> T {
        match self.write_type {
            WriteType::EchoRequest { data, .. } => data,
        }
    }

    /// How many bytes of the message are written already.
    pub closed spec fn cursor(self) -> int {
        self.byte_idx as int
    }

    /// A writer for an echo request, with nothing written yet.
    pub fn echo_request(identifier: u16, sequence_number: u16, data: T) -> (r: Buffer<T>)
        ensures
            r.identifier() == identifier,
            r.sequence_number() == sequence_number,
            r.data() == data,
            r.cursor() == 0,
    {
        Buffer {
            write_type: WriteType::EchoRequest { identifier, sequence_number, data },
            byte_idx: 0,
        }
    }
}

impl<T: AsBytes> Buffer<T> {
    /// The whole message that the writer emits.
    pub open spec fn message(self) -> Seq<u8> {
        echo_request_message(self.identifier(), self.sequence_number(), self.data().bytes())
    }

    /// The cursor is within the message, and the length of the message is a
    /// `usize`.
    pub open spec fn wf(self) -> bool {
        0 <= self.cursor() <= self.message().len() <= usize::MAX
    }

    /// The length of the whole message, whatever is written already: eight
    /// bytes and the data.
    pub fn len(&self) -> (r: usize)
        requires
            self.message().len() <= usize::MAX,
        ensures
            r == self.message().len(),
            r == 8 + self.data().bytes().len(),
    {
        proof {
            lemma_message_fields(self.identifier(), self.sequence_number(), self.data().bytes());
        }
        match &self.write_type {
            WriteType::EchoRequest { data, .. } => data.as_bytes().len() + ECHO_HEADER_LEN,
        }
    }

    /// Writes what is left of the message to the start of `out_buf`, as far
    /// as it fits, and returns the number of bytes written. The rest of
    /// `out_buf` stays as it was.
    #[must_use]
    pub fn consume(&mut self, out_buf: &mut [u8]) -> (n: usize)
        requires
            old(self).wf(),
        ensures
            final(self).wf(),
            final(self).identifier() == old(self).identifier(),
            final(self).sequence_number() == old(self).sequence_number(),
            final(self).data() == old(self).data(),
            n == chunk_len(
                old(self).message().len() as int,
                old(self).cursor(),
                old(out_buf)@.len() as int,
            ),
            final(self).cursor() == old(self).cursor() + n,
            final(out_buf)@ == splice(
                old(out_buf)@,
                0,
                old(self).message().subrange(old(self).cursor(), old(self).cursor() + n),
            ),
    {
        let ghost message = self.message();
        let ghost start = self.cursor();
        let ghost out_before = out_buf@;
        proof {
            lemma_message_fields(self.identifier(), self.sequence_number(), self.data().bytes());
            lemma_emit_start(message, start, out_before);
        }
        let mut cur_idx: usize = 0;
        let (typ, code) = match self.write_type {
            WriteType::EchoRequest { .. } => (Type::EchoRequest, 0u8),
        };
        if self.byte_idx < 1 && cur_idx < out_buf.len() {
            let ghost out = out_buf@;
            out_buf[cur_idx] = u8::from(typ);
            proof {
                assert(message[0] == message.subrange(0, 1)[0]);
                lemma_emit_byte(message, start, out_before, out, out_buf@, 0, 0);
            }
            self.byte_idx += 1;
            cur_idx += 1;
        } else {
            proof {
                lemma_emit_skip(
                    message,
                    start,
                    out_before,
                    out_buf@,
                    self.byte_idx as int,
                    cur_idx as int,
                    0,
                    1,
                );
            }
        }
        if self.byte_idx >= 1 && self.byte_idx < 2 && cur_idx < out_buf.len() {
            let ghost out = out_buf@;
            out_buf[cur_idx] = code;
            proof {
                assert(message[1] == message.subrange(1, 2)[0]);
                lemma_emit_byte(message, start, out_before, out, out_buf@, 1, cur_idx as int);
            }
            self.byte_idx += 1;
            cur_idx += 1;
        } else {
            proof {
                lemma_emit_skip(
                    message,
                    start,
                    out_before,
                    out_buf@,
                    self.byte_idx as int,
                    cur_idx as int,
                    1,
                    2,
                );
            }
        }
        let mut tmp_buf = [0u8; 2];
        let checksum = CHECKSUM_PLACEHOLDER;
        if self.byte_idx >= 2 && self.byte_idx < 4 {
            write_u16(&mut tmp_buf, checksum);
            assert(tmp_buf@ =~= message.subrange(2, 4));
            let write_len = emit(
                out_buf,
                cur_idx,
                self.byte_idx,
                tmp_buf.as_slice(),
                2,
                Ghost(message),
                Ghost(start),
                Ghost(out_before),
            );
            self.byte_idx += write_len;
            cur_idx += write_len;
        } else {
            proof {
                lemma_emit_skip(
                    message,
                    start,
                    out_before,
                    out_buf@,
                    self.byte_idx as int,
                    cur_idx as int,
                    2,
                    4,
                );
            }
        }
        match &self.write_type {
            WriteType::EchoRequest { identifier, sequence_number, data } => {
                if self.byte_idx >= 4 && self.byte_idx < 6 {
                    write_u16(&mut tmp_buf, *identifier);
                    assert(tmp_buf@ =~= message.subrange(4, 6));
                    let write_len = emit(
                        out_buf,
                        cur_idx,
                        self.byte_idx,
                        tmp_buf.as_slice(),
                        4,
                        Ghost(message),
                        Ghost(start),
                        Ghost(out_before),
                    );
                    self.byte_idx += write_len;
                    cur_idx += write_len;
                } else {
                    proof {
                        lemma_emit_skip(
                            message,
                            start,
                            out_before,
                            out_buf@,
                            self.byte_idx as int,
                            cur_idx as int,
                            4,
                            6,
                        );
                    }
                }
                if self.byte_idx >= 6 && self.byte_idx < 8 {
                    write_u16(&mut tmp_buf, *sequence_number);
                    assert(tmp_buf@ =~= message.subrange(6, 8));
                    let write_len = emit(
                        out_buf,
                        cur_idx,
                        self.byte_idx,
                        tmp_buf.as_slice(),
                        6,
                        Ghost(message),
                        Ghost(start),
                        Ghost(out_before),
                    );
                    self.byte_idx += write_len;
                    cur_idx += write_len;
                } else {
                    proof {
                        lemma_emit_skip(
                            message,
                            start,
                            out_before,
                            out_buf@,
                            self.byte_idx as int,
                            cur_idx as int,
                            6,
                            8,
                        );
                    }
                }
                if self.byte_idx >= 8 {
                    let in_buf = data.as_bytes();
                    let write_len = emit(
                        out_buf,
                        cur_idx,
                        self.byte_idx,
                        in_buf,
                        8,
                        Ghost(message),
                        Ghost(start),
                        Ghost(out_before),
                    );
                    self.byte_idx += write_len;
                    cur_idx += write_len;
                } else {
                    proof {
                        lemma_emit_skip(
                            message,
                            start,
                            out_before,
                            out_buf@,
                            self.byte_idx as int,
                            cur_idx as int,
                            8,
                            message.len() as int,
                        );
                    }
                }
            },
        }
        proof {
            lemma_emit_bounds(
                message,
                start,
                out_before,
                out_buf@,
                self.byte_idx as int,
                cur_idx as int,
                message.len() as int,
            );
        }
        cur_idx
    }
}

} // verus!
