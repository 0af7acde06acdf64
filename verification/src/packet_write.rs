//! A cursor over one output buffer that writes the fields of a message as
//! far as the buffer reaches.
//!
//! A `PacketWrite` knows how many bytes of the message were written before
//! (the cursor) and how many bytes of the buffer it has filled. Each call
//! names a field by its place in the message. The call writes only if the
//! cursor stands in that field, and then writes what is left of the field as
//! far as the buffer has room.

use crate::bytes::{splice, u16_be, write_at, write_u16, AsBytesMut};
use core::ops::Range;
use vstd::math::min;
use vstd::prelude::*;
use vstd::slice::slice_subrange;

verus! {

pub struct PacketWrite<T> {
    out_buf: T,
    byte_idx: usize,
    cur_idx: usize,
}

impl<T: AsBytesMut> PacketWrite<T> {
    /// The contents of the output buffer.
    pub closed spec fn out(self) -> Seq<u8> {
        self.out_buf.bytes()
    }

    /// The place in the message that is written next.
    pub closed spec fn cursor(self) -> int {
        self.byte_idx as int
    }

    /// How many bytes of the output buffer are filled.
    pub closed spec fn written(self) -> int {
        self.cur_idx as int
    }

    /// No more bytes are filled than the output buffer has.
    pub open spec fn wf(self) -> bool {
        0 <= self.written() <= self.out().len()
    }

    /// How many bytes a call writes for a field that ends at `field_end`.
    pub open spec fn room(self, field_end: int) -> int {
        min(field_end - self.cursor(), self.out().len() - self.written())
    }

    /// A writer into `buf` for a message of which `byte_idx` bytes were
    /// written before.
    #[inline]
    pub fn new(buf: T, byte_idx: usize) -> (r: Self)
        ensures
            r.wf(),
            r.out() == buf.bytes(),
            r.cursor() == byte_idx,
            r.written() == 0,
    {
        Self { out_buf: buf, byte_idx, cur_idx: 0 }
    }

    #[inline]
    pub fn buffer_index(&self) -> (r: usize)
        ensures
            r == self.cursor(),
    {
        self.byte_idx
    }

    #[inline]
    pub fn bytes_written(&self) -> (r: usize)
        ensures
            r == self.written(),
    {
        self.cur_idx
    }

    /// Writes the one-byte field at `range`, if the cursor stands in it and
    /// the buffer has room.
    #[inline]
    pub fn write_u8_at(&mut self, range: Range<usize>, value: u8)
        requires
            old(self).wf(),
        ensures
            final(self).wf(),
            range.start <= old(self).cursor() < range.end && old(self).written() < old(
                self,
            ).out().len() ==> {
                &&& final(self).out() == old(self).out().update(old(self).written(), value)
                &&& final(self).cursor() == old(self).cursor() + 1
                &&& final(self).written() == old(self).written() + 1
            },
            !(range.start <= old(self).cursor() < range.end && old(self).written() < old(
                self,
            ).out().len()) ==> {
                &&& final(self).out() == old(self).out()
                &&& final(self).cursor() == old(self).cursor()
                &&& final(self).written() == old(self).written()
            },
    {
        if !(range.start <= self.byte_idx && self.byte_idx < range.end) {
            return ;
        }
        let cur_idx = self.cur_idx;
        let out_buf = self.out_buf.as_bytes_mut();
        if cur_idx < out_buf.len() {
            out_buf[cur_idx] = value;
            self.byte_idx += 1;
            self.cur_idx += 1;
        }
    }

    /// Writes what is left of the two-byte field at `range`, as far as the
    /// buffer has room, if the cursor stands in it.
    #[inline]
    pub fn write_u16_at(&mut self, range: Range<usize>, value: u16)
        requires
            old(self).wf(),
            range.start <= old(self).cursor() < range.end ==> old(self).cursor() - range.start
                + old(self).room(range.end as int) <= 2,
        ensures
            final(self).wf(),
            range.start <= old(self).cursor() < range.end ==> {
                &&& final(self).out() == splice(
                    old(self).out(),
                    old(self).written(),
                    u16_be(value).subrange(
                        old(self).cursor() - range.start,
                        old(self).cursor() - range.start + old(self).room(range.end as int),
                    ),
                )
                &&& final(self).cursor() == old(self).cursor() + old(self).room(range.end as int)
                &&& final(self).written() == old(self).written() + old(self).room(
                    range.end as int,
                )
            },
            !(range.start <= old(self).cursor() < range.end) ==> {
                &&& final(self).out() == old(self).out()
                &&& final(self).cursor() == old(self).cursor()
                &&& final(self).written() == old(self).written()
            },
    {
        if !(range.start <= self.byte_idx && self.byte_idx < range.end) {
            return ;
        }
        let mut tmp_buf = [0u8; 2];
        write_u16(&mut tmp_buf, value);
        assert(tmp_buf@ =~= u16_be(value));
        let cur_idx = self.cur_idx;
        let out_buf = self.out_buf.as_bytes_mut();
        let left = range.end - self.byte_idx;
        let space = out_buf.len() - cur_idx;
        let write_len = if left <= space {
            left
        } else {
            space
        };
        let start_idx = self.byte_idx - range.start;
        write_at(
            out_buf,
            cur_idx,
            slice_subrange(tmp_buf.as_slice(), start_idx, start_idx + write_len),
        );
        self.byte_idx += write_len;
        self.cur_idx += write_len;
    }

    /// Writes what is left of the field that begins at `start` and holds
    /// `slice`, as far as the buffer has room, if the cursor stands in it or
    /// at its end.
    #[inline]
    pub fn write_slice_at(&mut self, start: usize, slice: &[u8])
        requires
            old(self).wf(),
            start + slice@.len() <= usize::MAX,
            start <= old(self).cursor() ==> old(self).cursor() <= start + slice@.len(),
        ensures
            final(self).wf(),
            start <= old(self).cursor() ==> {
                &&& final(self).out() == splice(
                    old(self).out(),
                    old(self).written(),
                    slice@.subrange(
                        old(self).cursor() - start,
                        old(self).cursor() - start + old(self).room(start + slice@.len()),
                    ),
                )
                &&& final(self).cursor() == old(self).cursor() + old(self).room(
                    start + slice@.len(),
                )
                &&& final(self).written() == old(self).written() + old(self).room(
                    start + slice@.len(),
                )
            },
            !(start <= old(self).cursor()) ==> {
                &&& final(self).out() == old(self).out()
                &&& final(self).cursor() == old(self).cursor()
                &&& final(self).written() == old(self).written()
            },
    {
        if !(start <= self.byte_idx) {
            return ;
        }
        let cur_idx = self.cur_idx;
        let out_buf = self.out_buf.as_bytes_mut();
        let start_idx = self.byte_idx - start;
        let left = slice.len() - start_idx;
        let space = out_buf.len() - cur_idx;
        let write_len = if left <= space {
            left
        } else {
            space
        };
        write_at(out_buf, cur_idx, slice_subrange(slice, start_idx, start_idx + write_len));
        self.byte_idx += write_len;
        self.cur_idx += write_len;
    }
}

} // verus!
