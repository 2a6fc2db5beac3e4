use vstd::prelude::*;

use crate::cursor::be_u16;
use crate::cursor::can_read;
use crate::cursor::read_u16;
use crate::cursor::ByteCursor;
use crate::error::DnsError;
use crate::header::be_bytes16;
use crate::header::push_be_u16;
use crate::name::decode_name;
use crate::name::decoded_name;

verus! {

/// One entry of a message's question section.
#[derive(Debug)]
pub struct DNSQuestion {
    /// The name asked about: dotted when parsed, in wire form when built for a query.
    pub name: Vec<u8>,
    pub class: u16,
    pub type_: u16,
}

/// What a question holds, as plain values.
pub struct QuestionView {
    pub name: Seq<u8>,
    pub class: u16,
    pub type_: u16,
}

impl View for DNSQuestion {
    type V = QuestionView;

    open spec fn view(&self) -> QuestionView {
        QuestionView { name: self.name@, class: self.class, type_: self.type_ }
    }
}

/// The question that starts at `pos` of `buf`, and the position after it:
/// a name, then the class and the type.
pub open spec fn question_at(buf: Seq<u8>, pos: int) -> Result<(QuestionView, int), DnsError> {
    match decoded_name(buf, pos) {
        Err(e) => Err(e),
        Ok((name, p)) => if can_read(buf, p, 4) {
            Ok(
                (
                    QuestionView {
                        name,
                        class: be_u16(buf[p], buf[p + 1]),
                        type_: be_u16(buf[p + 2], buf[p + 3]),
                    },
                    p + 4,
                ),
            )
        } else {
            Err(DnsError::UnexpectedEndOfBuffer)
        },
    }
}

impl DNSQuestion {
    /// A question of the given name, class and type.
    pub fn new(name: Vec<u8>, class: u16, type_: u16) -> (r: Self)
        ensures
            r@ == (QuestionView { name: name@, class, type_ }),
    {
        DNSQuestion { name, class, type_ }
    }

    /// Reads a question at the cursor and moves the cursor past it.
    pub fn parse(value: &mut ByteCursor) -> (r: Result<DNSQuestion, DnsError>)
        ensures
            final(value).bytes@ == old(value).bytes@,
            match question_at(old(value).bytes@, old(value).pos as int) {
                Ok((q, end)) => (r matches Ok(v) && v@ == q) && final(value).pos == end,
                Err(e) => r == Err::<DNSQuestion, DnsError>(e),
            },
    {
        let name = match decode_name(value) {
            Ok(n) => n,
            Err(e) => return Err(e),
        };
        let class = match read_u16(value) {
            Ok(x) => x,
            Err(e) => return Err(e),
        };
        let type_ = match read_u16(value) {
            Ok(x) => x,
            Err(e) => return Err(e),
        };
        Ok(DNSQuestion { name, class, type_ })
    }

    /// The wire form of the question: its name as it stands, then the class
    /// and the type, big-endian.
    pub fn to_bytes(self) -> (r: Vec<u8>)
        ensures
            r@ == self.name@ + be_bytes16(self.class) + be_bytes16(self.type_),
    {
        let mut out = self.name;
        push_be_u16(&mut out, self.class);
        push_be_u16(&mut out, self.type_);
        out
    }
}

} // verus!
