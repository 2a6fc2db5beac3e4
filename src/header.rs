use vstd::prelude::*;

use crate::cursor::be_u16;
use crate::cursor::can_read;
use crate::cursor::read_u16;
use crate::cursor::ByteCursor;
use crate::error::DnsError;

verus! {

/// The fixed twelve-byte header of a DNS message.
#[derive(Debug, Clone, Copy, PartialEq, Eq, Structural)]
pub struct DNSHeader {
    pub id: u16,
    pub flags: u16,
    pub num_questions: u16,
    pub num_answers: u16,
    pub num_authorities: u16,
    pub num_additionals: u16,
}

/// The size of a header on the wire.
pub const HEADER_LEN: usize = 12;

/// The two big-endian bytes of `x`.
pub open spec fn be_bytes16(x: u16) -> Seq<u8> {
    seq![(x / 256) as u8, (x % 256) as u8]
}

/// The header that starts at `pos` of `buf`, and the position after it.
pub open spec fn header_at(buf: Seq<u8>, pos: int) -> Result<(DNSHeader, int), DnsError> {
    if can_read(buf, pos, 12) {
        Ok(
            (
                DNSHeader {
                    id: be_u16(buf[pos], buf[pos + 1]),
                    flags: be_u16(buf[pos + 2], buf[pos + 3]),
                    num_questions: be_u16(buf[pos + 4], buf[pos + 5]),
                    num_answers: be_u16(buf[pos + 6], buf[pos + 7]),
                    num_authorities: be_u16(buf[pos + 8], buf[pos + 9]),
                    num_additionals: be_u16(buf[pos + 10], buf[pos + 11]),
                },
                pos + 12,
            ),
        )
    } else {
        Err(DnsError::UnexpectedEndOfBuffer)
    }
}

/// The wire form of a header: its six fields, big-endian, in order.
pub open spec fn header_wire(h: DNSHeader) -> Seq<u8> {
    be_bytes16(h.id) + be_bytes16(h.flags) + be_bytes16(h.num_questions) + be_bytes16(
        h.num_answers,
    ) + be_bytes16(h.num_authorities) + be_bytes16(h.num_additionals)
}

/// Appends the two big-endian bytes of `x`.
pub fn push_be_u16(out: &mut Vec<u8>, x: u16)
    ensures
        final(out)@ == old(out)@ + be_bytes16(x),
{
    out.push((x / 256) as u8);
    out.push((x % 256) as u8);
    assert(final(out)@ =~= old(out)@ + be_bytes16(x));
}

impl Default for DNSHeader {
    /// A header with every field zero.
    fn default() -> (r: DNSHeader)
        ensures
            r == (DNSHeader {
                id: 0,
                flags: 0,
                num_questions: 0,
                num_answers: 0,
                num_authorities: 0,
                num_additionals: 0,
            }),
    {
        DNSHeader {
            id: 0,
            flags: 0,
            num_questions: 0,
            num_answers: 0,
            num_authorities: 0,
            num_additionals: 0,
        }
    }
}

impl DNSHeader {
    /// Reads a header at the cursor and moves the cursor past it.
    pub fn parse(value: &mut ByteCursor) -> (r: Result<DNSHeader, DnsError>)
        ensures
            final(value).bytes@ == old(value).bytes@,
            match header_at(old(value).bytes@, old(value).pos as int) {
                Ok((h, end)) => r == Ok::<DNSHeader, DnsError>(h) && final(value).pos == end,
                Err(e) => r == Err::<DNSHeader, DnsError>(e),
            },
    {
        let id = match read_u16(value) {
            Ok(x) => x,
            Err(e) => return Err(e),
        };
        let flags = match read_u16(value) {
            Ok(x) => x,
            Err(e) => return Err(e),
        };
        let num_questions = match read_u16(value) {
            Ok(x) => x,
            Err(e) => return Err(e),
        };
        let num_answers = match read_u16(value) {
            Ok(x) => x,
            Err(e) => return Err(e),
        };
        let num_authorities = match read_u16(value) {
            Ok(x) => x,
            Err(e) => return Err(e),
        };
        let num_additionals = match read_u16(value) {
            Ok(x) => x,
            Err(e) => return Err(e),
        };
        Ok(DNSHeader { id, flags, num_questions, num_answers, num_authorities, num_additionals })
    }

    /// The same header with `id` replaced.
    pub fn with_id(self, id: u16) -> (r: Self)
        ensures
            r == (DNSHeader { id, ..self }),
    {
        let mut h = self;
        h.id = id;
        h
    }

    /// The same header with `flags` replaced.
    pub fn with_flags(self, flags: u16) -> (r: Self)
        ensures
            r == (DNSHeader { flags, ..self }),
    {
        let mut h = self;
        h.flags = flags;
        h
    }

    /// The same header with `num_questions` replaced.
    pub fn with_num_questions(self, num_questions: u16) -> (r: Self)
        ensures
            r == (DNSHeader { num_questions, ..self }),
    {
        let mut h = self;
        h.num_questions = num_questions;
        h
    }

    /// The twelve wire bytes of the header.
    pub fn to_bytes(&self) -> (r: Vec<u8>)
        ensures
            r@ == header_wire(*self),
            r@.len() == HEADER_LEN,
    {
        let mut v: Vec<u8> = Vec::with_capacity(HEADER_LEN);
        push_be_u16(&mut v, self.id);
        push_be_u16(&mut v, self.flags);
        push_be_u16(&mut v, self.num_questions);
        push_be_u16(&mut v, self.num_answers);
        push_be_u16(&mut v, self.num_authorities);
        push_be_u16(&mut v, self.num_additionals);
        assert(v@ =~= header_wire(*self));
        v
    }
}

} // verus!
