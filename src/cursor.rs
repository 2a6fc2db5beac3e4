use vstd::prelude::*;
use vstd::slice::slice_subrange;
use vstd::slice::slice_to_vec;

use crate::error::DnsError;

verus! {

/// A read position over an immutable byte buffer. Saving and restoring the
/// position is reading and writing `pos`.
pub struct ByteCursor<'a> {
    pub bytes: &'a [u8],
    pub pos: usize,
}

/// The big-endian value of two bytes.
pub open spec fn be_u16(b0: u8, b1: u8) -> u16 {
    (b0 as int * 256 + b1 as int) as u16
}

/// The big-endian value of four bytes.
pub open spec fn be_u32(b0: u8, b1: u8, b2: u8, b3: u8) -> u32 {
    (((b0 as int * 256 + b1 as int) * 256 + b2 as int) * 256 + b3 as int) as u32
}

/// Whether `n` more bytes can be read from position `pos` of `bytes`.
pub open spec fn can_read(bytes: Seq<u8>, pos: int, n: int) -> bool {
    0 <= pos && pos + n <= bytes.len()
}

impl<'a> ByteCursor<'a> {
    /// A cursor at the start of `bytes`.
    pub fn new(bytes: &'a [u8]) -> (c: ByteCursor<'a>)
        ensures
            c.bytes@ == bytes@,
            c.pos == 0,
    {
        ByteCursor { bytes, pos: 0 }
    }

    /// The current read position.
    pub fn position(&self) -> (p: usize)
        ensures
            p == self.pos,
    {
        self.pos
    }

    /// Moves the read position to `pos`.
    pub fn set_position(&mut self, pos: usize)
        ensures
            final(self).bytes@ == old(self).bytes@,
            final(self).pos == pos,
    {
        self.pos = pos;
    }
}

/// Reads one byte.
pub fn read_u8(value: &mut ByteCursor) -> (r: Result<u8, DnsError>)
    ensures
        final(value).bytes@ == old(value).bytes@,
        can_read(old(value).bytes@, old(value).pos as int, 1) ==> {
            &&& r == Ok::<u8, DnsError>(old(value).bytes@[old(value).pos as int])
            &&& final(value).pos == old(value).pos + 1
        },
        !can_read(old(value).bytes@, old(value).pos as int, 1) ==> {
            &&& r == Err::<u8, DnsError>(DnsError::UnexpectedEndOfBuffer)
            &&& final(value).pos == old(value).pos
        },
{
    if value.pos < value.bytes.len() {
        let b = value.bytes[value.pos];
        value.pos = value.pos + 1;
        Ok(b)
    } else {
        Err(DnsError::UnexpectedEndOfBuffer)
    }
}

/// Reads a big-endian 16-bit integer.
pub fn read_u16(value: &mut ByteCursor) -> (r: Result<u16, DnsError>)
    ensures
        final(value).bytes@ == old(value).bytes@,
        can_read(old(value).bytes@, old(value).pos as int, 2) ==> {
            let (b, p) = (old(value).bytes@, old(value).pos as int);
            &&& r == Ok::<u16, DnsError>(be_u16(b[p], b[p + 1]))
            &&& final(value).pos == old(value).pos + 2
        },
        !can_read(old(value).bytes@, old(value).pos as int, 2) ==> {
            &&& r == Err::<u16, DnsError>(DnsError::UnexpectedEndOfBuffer)
            &&& final(value).pos == old(value).pos
        },
{
    if value.pos < value.bytes.len() && value.bytes.len() - value.pos >= 2 {
        let b0 = value.bytes[value.pos];
        let b1 = value.bytes[value.pos + 1];
        value.pos = value.pos + 2;
        Ok(b0 as u16 * 256 + b1 as u16)
    } else {
        Err(DnsError::UnexpectedEndOfBuffer)
    }
}

/// Reads a big-endian 32-bit integer.
pub fn read_u32(value: &mut ByteCursor) -> (r: Result<u32, DnsError>)
    ensures
        final(value).bytes@ == old(value).bytes@,
        can_read(old(value).bytes@, old(value).pos as int, 4) ==> {
            let (b, p) = (old(value).bytes@, old(value).pos as int);
            &&& r == Ok::<u32, DnsError>(be_u32(b[p], b[p + 1], b[p + 2], b[p + 3]))
            &&& final(value).pos == old(value).pos + 4
        },
        !can_read(old(value).bytes@, old(value).pos as int, 4) ==> {
            &&& r == Err::<u32, DnsError>(DnsError::UnexpectedEndOfBuffer)
            &&& final(value).pos == old(value).pos
        },
{
    if value.pos < value.bytes.len() && value.bytes.len() - value.pos >= 4 {
        let p = value.pos;
        let b0 = value.bytes[p] as u32;
        let b1 = value.bytes[p + 1] as u32;
        let b2 = value.bytes[p + 2] as u32;
        let b3 = value.bytes[p + 3] as u32;
        value.pos = p + 4;
        Ok(((b0 * 256 + b1) * 256 + b2) * 256 + b3)
    } else {
        Err(DnsError::UnexpectedEndOfBuffer)
    }
}

/// Copies the next `n` bytes.
pub fn read_n_bytes(value: &mut ByteCursor, n: u64) -> (r: Result<Vec<u8>, DnsError>)
    ensures
        final(value).bytes@ == old(value).bytes@,
        can_read(old(value).bytes@, old(value).pos as int, n as int) ==> {
            let p = old(value).pos as int;
            &&& r matches Ok(d) && d@ == old(value).bytes@.subrange(p, p + n)
            &&& final(value).pos == old(value).pos + n
        },
        !can_read(old(value).bytes@, old(value).pos as int, n as int) ==> {
            &&& r == Err::<Vec<u8>, DnsError>(DnsError::UnexpectedEndOfBuffer)
            &&& final(value).pos == old(value).pos
        },
{
    if value.pos <= value.bytes.len() && (value.bytes.len() - value.pos) as u64 >= n {
        let end = value.pos + n as usize;
        let data = slice_to_vec(slice_subrange(value.bytes, value.pos, end));
        value.pos = end;
        Ok(data)
    } else {
        Err(DnsError::UnexpectedEndOfBuffer)
    }
}

} // verus!
