//! Fixed-width integers read from and written to byte channels.
//!
//! [`ByteReader`] is a seekable source over bytes held in memory, and
//! [`ByteWriter`] a sink with a limit. The free functions read or write one
//! unsigned integer of 8, 16 or 32 bits, little-endian or big-endian.

use crate::error::ZfsError;
use vstd::prelude::*;

verus! {

/// Whether `n` bytes can be read from `data` at `pos`. Nothing is always
/// readable, even from a position behind the end.
pub open spec fn readable(data: Seq<u8>, pos: int, n: int) -> bool {
    n == 0 || (0 <= pos && pos + n <= data.len())
}

/// The `n` bytes of `data` from `pos` on, where they can be read.
pub open spec fn window(data: Seq<u8>, pos: int, n: int) -> Seq<u8> {
    if n == 0 {
        Seq::empty()
    } else {
        data.subrange(pos, pos + n)
    }
}

/// The little-endian 16-bit value at `pos`.
pub open spec fn le16_at(data: Seq<u8>, pos: int) -> int {
    data[pos] + 0x100 * data[pos + 1]
}

/// The little-endian 32-bit value at `pos`.
pub open spec fn le32_at(data: Seq<u8>, pos: int) -> int {
    data[pos] + 0x100 * data[pos + 1] + 0x1_0000 * data[pos + 2] + 0x100_0000 * data[pos + 3]
}

/// The big-endian 16-bit value at `pos`.
pub open spec fn be16_at(data: Seq<u8>, pos: int) -> int {
    0x100 * data[pos] + data[pos + 1]
}

/// The big-endian 32-bit value at `pos`.
pub open spec fn be32_at(data: Seq<u8>, pos: int) -> int {
    0x100_0000 * data[pos] + 0x1_0000 * data[pos + 1] + 0x100 * data[pos + 2] + data[pos + 3]
}

/// The two bytes of `v`, low byte first.
pub open spec fn le16_bytes(v: u16) -> Seq<u8> {
    seq![(v % 0x100) as u8, (v / 0x100) as u8]
}

/// The four bytes of `v`, low byte first.
pub open spec fn le32_bytes(v: u32) -> Seq<u8> {
    seq![
        (v % 0x100) as u8,
        (v / 0x100 % 0x100) as u8,
        (v / 0x1_0000 % 0x100) as u8,
        (v / 0x100_0000) as u8,
    ]
}

/// The two bytes of `v`, high byte first.
pub open spec fn be16_bytes(v: u16) -> Seq<u8> {
    seq![(v / 0x100) as u8, (v % 0x100) as u8]
}

/// The four bytes of `v`, high byte first.
pub open spec fn be32_bytes(v: u32) -> Seq<u8> {
    seq![
        (v / 0x100_0000) as u8,
        (v / 0x1_0000 % 0x100) as u8,
        (v / 0x100 % 0x100) as u8,
        (v % 0x100) as u8,
    ]
}

/// A seekable source of bytes: the bytes and the position of the next read.
/// The position may lie behind the end; a read of one byte or more fails there.
pub struct ByteReader {
    pub data: Vec<u8>,
    pub pos: u64,
}

impl ByteReader {
    /// A reader at the start of `data`.
    pub fn new(data: Vec<u8>) -> (r: ByteReader)
        ensures
            r.data == data,
            r.pos == 0,
    {
        ByteReader { data, pos: 0 }
    }

    /// Whether the next `n` bytes are there to be read.
    pub open spec fn can_read(&self, n: int) -> bool {
        readable(self.data@, self.pos as int, n)
    }

    /// The position of the next read, in bytes from the start.
    pub fn position(&self) -> (p: u64)
        ensures
            p == self.pos,
    {
        self.pos
    }

    /// Moves to `offset` bytes from the start. Any offset is accepted.
    pub fn seek_to(&mut self, offset: u64)
        ensures
            final(self).data == old(self).data,
            final(self).pos == offset,
    {
        self.pos = offset;
    }

    /// Moves `count` bytes forward from the current position. Fails with
    /// `SeekFailure`, without moving, when the target is not a `u64`.
    pub fn skip(&mut self, count: u64) -> (r: Result<(), ZfsError>)
        ensures
            final(self).data == old(self).data,
            old(self).pos + count <= u64::MAX ==> r == Ok::<(), ZfsError>(())
                && final(self).pos == old(self).pos + count,
            old(self).pos + count > u64::MAX ==> r == Err::<(), ZfsError>(ZfsError::SeekFailure)
                && final(self).pos == old(self).pos,
    {
        if count > u64::MAX - self.pos {
            return Err(ZfsError::SeekFailure);
        }
        self.pos = self.pos + count;
        Ok(())
    }

    /// Reads exactly `count` bytes and moves behind them. Where fewer are
    /// left, fails with `ShortRead` and leaves the reader at the end.
    pub fn read_exact(&mut self, count: usize) -> (r: Result<Vec<u8>, ZfsError>)
        ensures
            final(self).data == old(self).data,
            old(self).can_read(count as int) ==> r is Ok && r->Ok_0@ == window(
                old(self).data@,
                old(self).pos as int,
                count as int,
            ) && final(self).pos == old(self).pos + count,
            !old(self).can_read(count as int) ==> r == Err::<Vec<u8>, ZfsError>(
                ZfsError::ShortRead,
            ) && final(self).pos == old(self).data@.len(),
    {
        let len: usize = self.data.len();
        if count == 0 {
            let out: Vec<u8> = Vec::new();
            assert(out@ =~= Seq::<u8>::empty());
            return Ok(out);
        }
        if self.pos > len as u64 || len - (self.pos as usize) < count {
            self.pos = len as u64;
            return Err(ZfsError::ShortRead);
        }
        let start: usize = self.pos as usize;
        let mut out: Vec<u8> = Vec::with_capacity(count);
        let mut k: usize = 0;
        while k < count
            invariant
                k <= count,
                start + count <= len,
                len == self.data@.len(),
                out@ == self.data@.subrange(start as int, start + k),
            decreases count - k,
        {
            out.push(self.data[start + k]);
            k = k + 1;
            assert(out@ =~= self.data@.subrange(start as int, start + k));
        }
        self.pos = self.pos + count as u64;
        Ok(out)
    }
}

/// Reads one byte.
pub fn read_byte(reader: &mut ByteReader) -> (r: Result<u8, ZfsError>)
    ensures
        final(reader).data == old(reader).data,
        old(reader).can_read(1) ==> r == Ok::<u8, ZfsError>(old(reader).data@[old(reader).pos as int])
            && final(reader).pos == old(reader).pos + 1,
        !old(reader).can_read(1) ==> r == Err::<u8, ZfsError>(ZfsError::ShortRead) && final(reader).pos == old(reader).data@.len(),
{
    match reader.read_exact(1) {
        Ok(b) => Ok(b[0]),
        Err(e) => Err(e),
    }
}

/// Reads a 16-bit value stored low byte first.
pub fn read_le16(reader: &mut ByteReader) -> (r: Result<u16, ZfsError>)
    ensures
        final(reader).data == old(reader).data,
        old(reader).can_read(2) ==> r is Ok && r->Ok_0 == le16_at(
            old(reader).data@,
            old(reader).pos as int,
        ) && final(reader).pos == old(reader).pos + 2,
        !old(reader).can_read(2) ==> r == Err::<u16, ZfsError>(ZfsError::ShortRead) && final(reader).pos == old(reader).data@.len(),
{
    match reader.read_exact(2) {
        Ok(b) => Ok(b[0] as u16 + 0x100 * (b[1] as u16)),
        Err(e) => Err(e),
    }
}

/// Reads a 32-bit value stored low byte first.
pub fn read_le32(reader: &mut ByteReader) -> (r: Result<u32, ZfsError>)
    ensures
        final(reader).data == old(reader).data,
        old(reader).can_read(4) ==> r is Ok && r->Ok_0 == le32_at(
            old(reader).data@,
            old(reader).pos as int,
        ) && final(reader).pos == old(reader).pos + 4,
        !old(reader).can_read(4) ==> r == Err::<u32, ZfsError>(ZfsError::ShortRead) && final(reader).pos == old(reader).data@.len(),
{
    match reader.read_exact(4) {
        Ok(b) => Ok(
            b[0] as u32 + 0x100 * (b[1] as u32) + 0x1_0000 * (b[2] as u32) + 0x100_0000 * (
            b[3] as u32),
        ),
        Err(e) => Err(e),
    }
}

/// Reads a 16-bit value stored high byte first.
pub fn read_be16(reader: &mut ByteReader) -> (r: Result<u16, ZfsError>)
    ensures
        final(reader).data == old(reader).data,
        old(reader).can_read(2) ==> r is Ok && r->Ok_0 == be16_at(
            old(reader).data@,
            old(reader).pos as int,
        ) && final(reader).pos == old(reader).pos + 2,
        !old(reader).can_read(2) ==> r == Err::<u16, ZfsError>(ZfsError::ShortRead) && final(reader).pos == old(reader).data@.len(),
{
    match reader.read_exact(2) {
        Ok(b) => Ok(0x100 * (b[0] as u16) + b[1] as u16),
        Err(e) => Err(e),
    }
}

/// Reads a 32-bit value stored high byte first.
pub fn read_be32(reader: &mut ByteReader) -> (r: Result<u32, ZfsError>)
    ensures
        final(reader).data == old(reader).data,
        old(reader).can_read(4) ==> r is Ok && r->Ok_0 == be32_at(
            old(reader).data@,
            old(reader).pos as int,
        ) && final(reader).pos == old(reader).pos + 4,
        !old(reader).can_read(4) ==> r == Err::<u32, ZfsError>(ZfsError::ShortRead) && final(reader).pos == old(reader).data@.len(),
{
    match reader.read_exact(4) {
        Ok(b) => Ok(
            0x100_0000 * (b[0] as u32) + 0x1_0000 * (b[1] as u32) + 0x100 * (b[2] as u32) + b[3] as u32,
        ),
        Err(e) => Err(e),
    }
}

/// A sink of bytes that takes no more than `limit` bytes in all.
pub struct ByteWriter {
    pub buf: Vec<u8>,
    pub limit: usize,
}

impl ByteWriter {
    /// An empty sink without a limit of its own.
    pub fn new() -> (w: ByteWriter)
        ensures
            w.buf@.len() == 0,
            w.limit == usize::MAX,
    {
        ByteWriter { buf: Vec::new(), limit: usize::MAX }
    }

    /// An empty sink that takes `limit` bytes.
    pub fn with_limit(limit: usize) -> (w: ByteWriter)
        ensures
            w.buf@.len() == 0,
            w.limit == limit,
    {
        ByteWriter { buf: Vec::new(), limit }
    }

    /// How many more bytes the sink takes.
    pub open spec fn room(&self) -> int {
        if self.buf@.len() <= self.limit {
            self.limit - self.buf@.len()
        } else {
            0
        }
    }

    /// What a write of `bytes` leaves in the sink: the bytes that fit, in order.
    pub open spec fn after_write(&self, bytes: Seq<u8>) -> Seq<u8> {
        if bytes.len() <= self.room() {
            self.buf@ + bytes
        } else {
            self.buf@ + bytes.take(self.room())
        }
    }

    /// Writes all of `bytes`. Where the sink has room for fewer, it takes
    /// those that fit and the write fails with `ShortWrite`.
    pub fn write_all(&mut self, bytes: &Vec<u8>) -> (r: Result<(), ZfsError>)
        ensures
            final(self).limit == old(self).limit,
            final(self).buf@ == old(self).after_write(bytes@),
            bytes@.len() <= old(self).room() ==> r == Ok::<(), ZfsError>(()),
            bytes@.len() > old(self).room() ==> r == Err::<(), ZfsError>(ZfsError::ShortWrite),
    {
        let mut k: usize = 0;
        while k < bytes.len()
            invariant
                k <= bytes@.len(),
                self.limit == old(self).limit,
                k <= old(self).room(),
                self.buf@ == old(self).buf@ + bytes@.take(k as int),
            decreases bytes@.len() - k,
        {
            if self.buf.len() >= self.limit {
                return Err(ZfsError::ShortWrite);
            }
            self.buf.push(bytes[k]);
            k = k + 1;
            assert(self.buf@ =~= old(self).buf@ + bytes@.take(k as int));
        }
        assert(bytes@.take(k as int) =~= bytes@);
        Ok(())
    }
}

/// Writes one byte.
pub fn write_byte(out_byte: u8, writer: &mut ByteWriter) -> (r: Result<(), ZfsError>)
    ensures
        final(writer).limit == old(writer).limit,
        final(writer).buf@ == old(writer).after_write(seq![out_byte]),
        old(writer).room() >= 1 <==> r == Ok::<(), ZfsError>(()),
        old(writer).room() < 1 <==> r == Err::<(), ZfsError>(ZfsError::ShortWrite),
{
    let raw_bytes: Vec<u8> = vec![out_byte];
    writer.write_all(&raw_bytes)
}

/// Writes a 16-bit value high byte first.
pub fn write_be16(out_val: u16, writer: &mut ByteWriter) -> (r: Result<(), ZfsError>)
    ensures
        final(writer).limit == old(writer).limit,
        final(writer).buf@ == old(writer).after_write(be16_bytes(out_val)),
        old(writer).room() >= 2 <==> r == Ok::<(), ZfsError>(()),
        old(writer).room() < 2 <==> r == Err::<(), ZfsError>(ZfsError::ShortWrite),
{
    let raw_bytes: Vec<u8> = vec![(out_val / 0x100) as u8, (out_val % 0x100) as u8];
    assert(raw_bytes@ =~= be16_bytes(out_val));
    writer.write_all(&raw_bytes)
}

/// Writes a 32-bit value high byte first.
pub fn write_be32(out_val: u32, writer: &mut ByteWriter) -> (r: Result<(), ZfsError>)
    ensures
        final(writer).limit == old(writer).limit,
        final(writer).buf@ == old(writer).after_write(be32_bytes(out_val)),
        old(writer).room() >= 4 <==> r == Ok::<(), ZfsError>(()),
        old(writer).room() < 4 <==> r == Err::<(), ZfsError>(ZfsError::ShortWrite),
{
    let raw_bytes: Vec<u8> = vec![
        (out_val / 0x100_0000) as u8,
        (out_val / 0x1_0000 % 0x100) as u8,
        (out_val / 0x100 % 0x100) as u8,
        (out_val % 0x100) as u8,
    ];
    assert(raw_bytes@ =~= be32_bytes(out_val));
    writer.write_all(&raw_bytes)
}

/// Writes a 16-bit value low byte first.
pub fn write_le16(out_val: u16, writer: &mut ByteWriter) -> (r: Result<(), ZfsError>)
    ensures
        final(writer).limit == old(writer).limit,
        final(writer).buf@ == old(writer).after_write(le16_bytes(out_val)),
        old(writer).room() >= 2 <==> r == Ok::<(), ZfsError>(()),
        old(writer).room() < 2 <==> r == Err::<(), ZfsError>(ZfsError::ShortWrite),
{
    let raw_bytes: Vec<u8> = vec![(out_val % 0x100) as u8, (out_val / 0x100) as u8];
    assert(raw_bytes@ =~= le16_bytes(out_val));
    writer.write_all(&raw_bytes)
}

/// Writes a 32-bit value low byte first.
pub fn write_le32(out_val: u32, writer: &mut ByteWriter) -> (r: Result<(), ZfsError>)
    ensures
        final(writer).limit == old(writer).limit,
        final(writer).buf@ == old(writer).after_write(le32_bytes(out_val)),
        old(writer).room() >= 4 <==> r == Ok::<(), ZfsError>(()),
        old(writer).room() < 4 <==> r == Err::<(), ZfsError>(ZfsError::ShortWrite),
{
    let raw_bytes: Vec<u8> = vec![
        (out_val % 0x100) as u8,
        (out_val / 0x100 % 0x100) as u8,
        (out_val / 0x1_0000 % 0x100) as u8,
        (out_val / 0x100_0000) as u8,
    ];
    assert(raw_bytes@ =~= le32_bytes(out_val));
    writer.write_all(&raw_bytes)
}

/// What the write functions store, the read functions give back: a value's
/// bytes, standing at `pos` in any data, read as the value, in either byte
/// order and at either width.
pub proof fn lemma_read_back_written(data: Seq<u8>, pos: int, v16: u16, v32: u32)
    requires
        0 <= pos,
    ensures
        pos + 2 <= data.len() && window(data, pos, 2) == le16_bytes(v16) ==> le16_at(data, pos)
            == v16,
        pos + 2 <= data.len() && window(data, pos, 2) == be16_bytes(v16) ==> be16_at(data, pos)
            == v16,
        pos + 4 <= data.len() && window(data, pos, 4) == le32_bytes(v32) ==> le32_at(data, pos)
            == v32,
        pos + 4 <= data.len() && window(data, pos, 4) == be32_bytes(v32) ==> be32_at(data, pos)
            == v32,
{
    if pos + 2 <= data.len() {
        let w = window(data, pos, 2);
        assert(w[0] == data[pos] && w[1] == data[pos + 1]);
    }
    if pos + 4 <= data.len() {
        let w = window(data, pos, 4);
        assert(w[0] == data[pos] && w[1] == data[pos + 1] && w[2] == data[pos + 2] && w[3]
            == data[pos + 3]);
    }
}

} // verus!
