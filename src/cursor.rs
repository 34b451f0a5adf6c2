//! Bounded reading from and appending to byte buffers.
use vstd::prelude::*;
use vstd::slice::slice_subrange;
use bytes::{Bytes, BytesMut};
use crate::msg::MsgTooShortError;

verus! {

#[verifier::external_type_specification]
#[verifier::external_body]
pub struct ExBytesMut(bytes::BytesMut);

#[verifier::external_type_specification]
#[verifier::external_body]
pub struct ExBytes(bytes::Bytes);

/// The bytes held by a growable buffer.
pub uninterp spec fn buffer_contents(b: BytesMut) -> Seq<u8>;

/// The bytes held by a frozen buffer.
pub uninterp spec fn frozen_contents(b: Bytes) -> Seq<u8>;

/// Relies on `bytes::BytesMut::new`: the new buffer holds no bytes.
#[verifier::external_body]
fn empty_buffer() -> (r: BytesMut)
    ensures
        buffer_contents(r) == Seq::<u8>::empty(),
{
    BytesMut::new()
}

/// Relies on `bytes::BytesMut::extend_from_slice`: the slice is appended.
#[verifier::external_body]
fn append_to_buffer(buf: &mut BytesMut, s: &[u8])
    ensures
        buffer_contents(*final(buf)) == buffer_contents(*old(buf)) + s@,
{
    buf.extend_from_slice(s)
}

/// Relies on `bytes::BytesMut::freeze`: the frozen buffer holds the same bytes.
#[verifier::external_body]
fn freeze_buffer(buf: BytesMut) -> (r: Bytes)
    ensures
        frozen_contents(r) == buffer_contents(buf),
{
    buf.freeze()
}

/// A big-endian `u16` read from two bytes.
pub open spec fn be_u16(hi: u8, lo: u8) -> int {
    hi as int * 256 + lo as int
}

/// The two big-endian bytes of a `u16`.
pub open spec fn be_bytes(v: u16) -> Seq<u8> {
    seq![(v / 256) as u8, (v % 256) as u8]
}

/// Reads forward through a borrowed byte slice.
pub struct ReadCursor<'a> {
    pos: usize,
    bytes: &'a [u8],
}

impl<'a> ReadCursor<'a> {
    /// All the bytes the cursor reads from.
    pub closed spec fn data(&self) -> Seq<u8> {
        self.bytes@
    }

    /// How many bytes have been consumed.
    pub closed spec fn position(&self) -> int {
        self.pos as int
    }

    /// The bytes not consumed yet.
    pub open spec fn rest(&self) -> Seq<u8> {
        self.data().subrange(self.position(), self.data().len() as int)
    }

    pub closed spec fn wf(&self) -> bool {
        self.pos <= self.bytes@.len()
    }

    pub fn new(bytes: &'a [u8]) -> (r: ReadCursor<'a>)
        ensures
            r.wf(),
            r.data() == bytes@,
            r.position() == 0,
    {
        ReadCursor { pos: 0, bytes }
    }

    pub fn read_to_end(&mut self) -> (r: &'a [u8])
        requires
            old(self).wf(),
        ensures
            final(self).wf(),
            r@ == old(self).rest(),
            final(self).data() == old(self).data(),
            final(self).position() == old(self).data().len(),
    {
        let ret = slice_subrange(self.bytes, self.pos, self.bytes.len());
        self.pos = self.bytes.len();
        ret
    }

    pub fn read_slice(&mut self, len: usize) -> (r: Result<&'a [u8], MsgTooShortError>)
        requires
            old(self).wf(),
        ensures
            final(self).wf(),
            final(self).data() == old(self).data(),
            r.is_ok() == (old(self).position() + len <= old(self).data().len()),
            r matches Ok(s) ==> s@ == old(self).data().subrange(
                old(self).position(),
                old(self).position() + len,
            ) && final(self).position() == old(self).position() + len,
            r.is_err() ==> final(self).position() == old(self).position(),
    {
        if len > self.bytes.len() - self.pos {
            return Err(MsgTooShortError);
        }
        let ret = slice_subrange(self.bytes, self.pos, self.pos + len);
        self.pos = self.pos + len;
        Ok(ret)
    }

    pub fn read_u16(&mut self) -> (r: Result<u16, MsgTooShortError>)
        requires
            old(self).wf(),
        ensures
            final(self).wf(),
            final(self).data() == old(self).data(),
            r.is_ok() == (old(self).position() + 2 <= old(self).data().len()),
            r matches Ok(v) ==> v as int == be_u16(
                old(self).data()[old(self).position()],
                old(self).data()[old(self).position() + 1],
            ) && final(self).position() == old(self).position() + 2,
            r.is_err() ==> final(self).position() == old(self).position(),
    {
        let s = self.read_slice(2)?;
        let hi = s[0] as u16;
        let lo = s[1] as u16;
        Ok(hi * 256 + lo)
    }
}

/// Appends bytes to a growable buffer.
pub struct WriteCursor {
    bytes: BytesMut,
}

impl WriteCursor {
    /// The bytes written so far.
    pub closed spec fn written(&self) -> Seq<u8> {
        buffer_contents(self.bytes)
    }

    pub fn new() -> (r: WriteCursor)
        ensures
            r.written() == Seq::<u8>::empty(),
    {
        WriteCursor { bytes: empty_buffer() }
    }

    pub fn into_bytes(self) -> (r: Bytes)
        ensures
            frozen_contents(r) == self.written(),
    {
        freeze_buffer(self.bytes)
    }

    pub fn write_slice(&mut self, slice: &[u8])
        ensures
            final(self).written() == old(self).written() + slice@,
    {
        append_to_buffer(&mut self.bytes, slice);
    }

    pub fn write_u16(&mut self, val: u16)
        ensures
            final(self).written() == old(self).written() + be_bytes(val),
    {
        let v = vec![(val / 256) as u8, (val % 256) as u8];
        self.write_slice(v.as_slice());
        assert(v@ =~= be_bytes(val));
    }
}

} // verus!
