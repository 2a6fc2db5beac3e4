use vstd::prelude::*;

use crate::cursor::be_u16;
use crate::cursor::be_u32;
use crate::cursor::can_read;
use crate::cursor::read_n_bytes;
use crate::cursor::read_u16;
use crate::cursor::read_u32;
use crate::cursor::ByteCursor;
use crate::error::DnsError;
use crate::name::decode_name;
use crate::name::decoded_name;

verus! {

/// The record type of an IPv4 address.
pub const TYPE_A: u16 = 1;

/// The record type of a nameserver delegation.
pub const TYPE_NS: u16 = 2;

/// The Internet class.
pub const CLASS_IN: u16 = 1;

/// One resource record of an answer, authority or additional section.
#[derive(Debug)]
pub struct DNSRecord {
    pub name: Vec<u8>,
    pub type_: u16,
    pub class: u16,
    pub ttl: u32,
    /// Four address bytes for an A record, the dotted nameserver name for an
    /// NS record, the raw bytes otherwise.
    pub data: Vec<u8>,
}

/// What a record holds, as plain values.
pub struct RecordView {
    pub name: Seq<u8>,
    pub type_: u16,
    pub class: u16,
    pub ttl: u32,
    pub data: Seq<u8>,
}

impl View for DNSRecord {
    type V = RecordView;

    open spec fn view(&self) -> RecordView {
        RecordView {
            name: self.name@,
            type_: self.type_,
            class: self.class,
            ttl: self.ttl,
            data: self.data@,
        }
    }
}

/// The record that starts at `pos` of `buf`, and the position after it. The
/// data of an NS record is a name, read as one whatever the declared data
/// length; any other record's data is that many raw bytes.
pub open spec fn record_at(buf: Seq<u8>, pos: int) -> Result<(RecordView, int), DnsError> {
    match decoded_name(buf, pos) {
        Err(e) => Err(e),
        Ok((name, p)) => if !can_read(buf, p, 10) {
            Err(DnsError::UnexpectedEndOfBuffer)
        } else {
            let type_ = be_u16(buf[p], buf[p + 1]);
            let class = be_u16(buf[p + 2], buf[p + 3]);
            let ttl = be_u32(buf[p + 4], buf[p + 5], buf[p + 6], buf[p + 7]);
            let len = be_u16(buf[p + 8], buf[p + 9]);
            let q = p + 10;
            if type_ == TYPE_NS {
                match decoded_name(buf, q) {
                    Ok((data, e)) => Ok((RecordView { name, type_, class, ttl, data }, e)),
                    Err(_) => Err(DnsError::MalformedRecordData),
                }
            } else if can_read(buf, q, len as int) {
                Ok(
                    (
                        RecordView { name, type_, class, ttl, data: buf.subrange(q, q + len) },
                        q + len,
                    ),
                )
            } else {
                Err(DnsError::UnexpectedEndOfBuffer)
            }
        },
    }
}

impl DNSRecord {
    /// Reads a record at the cursor and moves the cursor past it.
    pub fn parse(value: &mut ByteCursor) -> (r: Result<DNSRecord, DnsError>)
        ensures
            final(value).bytes@ == old(value).bytes@,
            match record_at(old(value).bytes@, old(value).pos as int) {
                Ok((rec, end)) => (r matches Ok(v) && v@ == rec) && final(value).pos == end,
                Err(e) => r == Err::<DNSRecord, DnsError>(e),
            },
    {
        let name = match decode_name(value) {
            Ok(n) => n,
            Err(e) => return Err(e),
        };
        let type_ = match read_u16(value) {
            Ok(x) => x,
            Err(e) => return Err(e),
        };
        let class = match read_u16(value) {
            Ok(x) => x,
            Err(e) => return Err(e),
        };
        let ttl = match read_u32(value) {
            Ok(x) => x,
            Err(e) => return Err(e),
        };
        let data_len = match read_u16(value) {
            Ok(x) => x,
            Err(e) => return Err(e),
        };
        let data = if type_ == TYPE_NS {
            match decode_name(value) {
                Ok(d) => d,
                Err(_) => return Err(DnsError::MalformedRecordData),
            }
        } else {
            match read_n_bytes(value, data_len as u64) {
                Ok(d) => d,
                Err(e) => return Err(e),
            }
        };
        Ok(DNSRecord { name, type_, class, ttl, data })
    }
}

} // verus!
