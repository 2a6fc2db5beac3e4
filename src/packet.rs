use vstd::prelude::*;
use vstd::slice::slice_to_vec;
use vstd::utf8::decode_utf8;
use vstd::utf8::valid_utf8;

use crate::cursor::ByteCursor;
use crate::error::DnsError;
use crate::header::header_at;
use crate::header::DNSHeader;
use crate::question::question_at;
use crate::question::DNSQuestion;
use crate::question::QuestionView;
use crate::record::record_at;
use crate::record::TYPE_A;
use crate::record::TYPE_NS;
use crate::text::utf8_string;
use crate::record::DNSRecord;
use crate::record::RecordView;

verus! {

/// A parsed DNS message: the header and its four sections in wire order.
#[derive(Debug)]
pub struct DNSPacket {
    pub header: DNSHeader,
    pub questions: Vec<DNSQuestion>,
    pub answers: Vec<DNSRecord>,
    pub authorities: Vec<DNSRecord>,
    pub additionals: Vec<DNSRecord>,
}

/// What a message holds, as plain values.
pub struct PacketView {
    pub header: DNSHeader,
    pub questions: Seq<QuestionView>,
    pub answers: Seq<RecordView>,
    pub authorities: Seq<RecordView>,
    pub additionals: Seq<RecordView>,
}

/// The plain values of a sequence of questions.
pub open spec fn questions_view(v: Seq<DNSQuestion>) -> Seq<QuestionView> {
    v.map_values(|q: DNSQuestion| q@)
}

/// The plain values of a sequence of records.
pub open spec fn records_view(v: Seq<DNSRecord>) -> Seq<RecordView> {
    v.map_values(|r: DNSRecord| r@)
}

impl View for DNSPacket {
    type V = PacketView;

    open spec fn view(&self) -> PacketView {
        PacketView {
            header: self.header,
            questions: questions_view(self.questions@),
            answers: records_view(self.answers@),
            authorities: records_view(self.authorities@),
            additionals: records_view(self.additionals@),
        }
    }
}

/// The `n` questions that follow one another from `pos` of `buf`, and the
/// position after the last.
pub open spec fn questions_at(buf: Seq<u8>, pos: int, n: nat) -> Result<
    (Seq<QuestionView>, int),
    DnsError,
>
    decreases n,
{
    if n == 0 {
        Ok((Seq::empty(), pos))
    } else {
        match questions_at(buf, pos, (n - 1) as nat) {
            Err(e) => Err(e),
            Ok((qs, p)) => match question_at(buf, p) {
                Err(e) => Err(e),
                Ok((q, end)) => Ok((qs.push(q), end)),
            },
        }
    }
}

/// The `n` records that follow one another from `pos` of `buf`, and the
/// position after the last.
pub open spec fn records_at(buf: Seq<u8>, pos: int, n: nat) -> Result<
    (Seq<RecordView>, int),
    DnsError,
>
    decreases n,
{
    if n == 0 {
        Ok((Seq::empty(), pos))
    } else {
        match records_at(buf, pos, (n - 1) as nat) {
            Err(e) => Err(e),
            Ok((rs, p)) => match record_at(buf, p) {
                Err(e) => Err(e),
                Ok((r, end)) => Ok((rs.push(r), end)),
            },
        }
    }
}

/// The message that `buf` holds: a header, then as many questions, answers,
/// authorities and additionals as the header counts. Bytes after the last
/// record are ignored.
pub open spec fn parse_packet(buf: Seq<u8>) -> Result<PacketView, DnsError> {
    match header_at(buf, 0) {
        Err(e) => Err(e),
        Ok((header, p0)) => match questions_at(buf, p0, header.num_questions as nat) {
            Err(e) => Err(e),
            Ok((questions, p1)) => match records_at(buf, p1, header.num_answers as nat) {
                Err(e) => Err(e),
                Ok((answers, p2)) => match records_at(buf, p2, header.num_authorities as nat) {
                    Err(e) => Err(e),
                    Ok((authorities, p3)) => match records_at(
                        buf,
                        p3,
                        header.num_additionals as nat,
                    ) {
                        Err(e) => Err(e),
                        Ok((additionals, _)) => Ok(
                            PacketView { header, questions, answers, authorities, additionals },
                        ),
                    },
                },
            },
        },
    }
}

proof fn lemma_questions_err(buf: Seq<u8>, pos: int, k: nat, n: nat)
    requires
        k <= n,
        questions_at(buf, pos, k) is Err,
    ensures
        questions_at(buf, pos, n) == questions_at(buf, pos, k),
    decreases n - k,
{
    if n > k {
        lemma_questions_err(buf, pos, k, (n - 1) as nat);
    }
}

proof fn lemma_records_err(buf: Seq<u8>, pos: int, k: nat, n: nat)
    requires
        k <= n,
        records_at(buf, pos, k) is Err,
    ensures
        records_at(buf, pos, n) == records_at(buf, pos, k),
    decreases n - k,
{
    if n > k {
        lemma_records_err(buf, pos, k, (n - 1) as nat);
    }
}

proof fn lemma_questions_len(buf: Seq<u8>, pos: int, n: nat)
    requires
        questions_at(buf, pos, n) is Ok,
    ensures
        questions_at(buf, pos, n)->Ok_0.0.len() == n,
    decreases n,
{
    if n > 0 {
        lemma_questions_len(buf, pos, (n - 1) as nat);
    }
}

proof fn lemma_records_len(buf: Seq<u8>, pos: int, n: nat)
    requires
        records_at(buf, pos, n) is Ok,
    ensures
        records_at(buf, pos, n)->Ok_0.0.len() == n,
    decreases n,
{
    if n > 0 {
        lemma_records_len(buf, pos, (n - 1) as nat);
    }
}

/// Every message that parses holds exactly as many entries in each section
/// as its header counts.
pub proof fn lemma_section_counts(buf: Seq<u8>)
    requires
        parse_packet(buf) is Ok,
    ensures
        ({
            let p = parse_packet(buf)->Ok_0;
            &&& p.questions.len() == p.header.num_questions
            &&& p.answers.len() == p.header.num_answers
            &&& p.authorities.len() == p.header.num_authorities
            &&& p.additionals.len() == p.header.num_additionals
        }),
{
    let (h, p0) = header_at(buf, 0)->Ok_0;
    lemma_questions_len(buf, p0, h.num_questions as nat);
    let p1 = questions_at(buf, p0, h.num_questions as nat)->Ok_0.1;
    lemma_records_len(buf, p1, h.num_answers as nat);
    let p2 = records_at(buf, p1, h.num_answers as nat)->Ok_0.1;
    lemma_records_len(buf, p2, h.num_authorities as nat);
    let p3 = records_at(buf, p2, h.num_authorities as nat)->Ok_0.1;
    lemma_records_len(buf, p3, h.num_additionals as nat);
}

/// Reads `n` questions at the cursor.
fn parse_questions(value: &mut ByteCursor, n: u16) -> (r: Result<Vec<DNSQuestion>, DnsError>)
    ensures
        final(value).bytes@ == old(value).bytes@,
        match questions_at(old(value).bytes@, old(value).pos as int, n as nat) {
            Ok((qs, end)) => (r matches Ok(v) && questions_view(v@) == qs) && final(value).pos
                == end,
            Err(e) => r == Err::<Vec<DNSQuestion>, DnsError>(e),
        },
{
    let ghost buf = value.bytes@;
    let ghost start = value.pos as int;
    let mut out: Vec<DNSQuestion> = Vec::new();
    let mut i: u16 = 0;
    assert(questions_view(out@) =~= Seq::<QuestionView>::empty());
    while i < n
        invariant
            value.bytes@ == buf,
            buf == old(value).bytes@,
            start == old(value).pos,
            i <= n,
            questions_at(buf, start, i as nat) == Ok::<(Seq<QuestionView>, int), DnsError>(
                (questions_view(out@), value.pos as int),
            ),
        decreases n - i,
    {
        match DNSQuestion::parse(value) {
            Ok(q) => {
                let ghost before = out@;
                out.push(q);
                assert(questions_view(out@) =~= questions_view(before).push(q@));
                i = i + 1;
            },
            Err(e) => {
                proof {
                    lemma_questions_err(buf, start, (i + 1) as nat, n as nat);
                }
                return Err(e);
            },
        }
    }
    Ok(out)
}

/// Reads `n` records at the cursor.
fn parse_records(value: &mut ByteCursor, n: u16) -> (r: Result<Vec<DNSRecord>, DnsError>)
    ensures
        final(value).bytes@ == old(value).bytes@,
        match records_at(old(value).bytes@, old(value).pos as int, n as nat) {
            Ok((rs, end)) => (r matches Ok(v) && records_view(v@) == rs) && final(value).pos
                == end,
            Err(e) => r == Err::<Vec<DNSRecord>, DnsError>(e),
        },
{
    let ghost buf = value.bytes@;
    let ghost start = value.pos as int;
    let mut out: Vec<DNSRecord> = Vec::new();
    let mut i: u16 = 0;
    assert(records_view(out@) =~= Seq::<RecordView>::empty());
    while i < n
        invariant
            value.bytes@ == buf,
            buf == old(value).bytes@,
            start == old(value).pos,
            i <= n,
            records_at(buf, start, i as nat) == Ok::<(Seq<RecordView>, int), DnsError>(
                (records_view(out@), value.pos as int),
            ),
        decreases n - i,
    {
        match DNSRecord::parse(value) {
            Ok(rec) => {
                let ghost before = out@;
                out.push(rec);
                assert(records_view(out@) =~= records_view(before).push(rec@));
                i = i + 1;
            },
            Err(e) => {
                proof {
                    lemma_records_err(buf, start, (i + 1) as nat, n as nat);
                }
                return Err(e);
            },
        }
    }
    Ok(out)
}

impl DNSPacket {
    /// Parses a whole message. Any section that the bytes cannot fill as the
    /// header counts fails the parse.
    pub fn parse(value: &[u8]) -> (r: Result<DNSPacket, DnsError>)
        ensures
            match parse_packet(value@) {
                Ok(p) => r matches Ok(v) && v@ == p,
                Err(e) => r == Err::<DNSPacket, DnsError>(e),
            },
    {
        let mut cursor = ByteCursor::new(value);
        let header = match DNSHeader::parse(&mut cursor) {
            Ok(h) => h,
            Err(e) => return Err(e),
        };
        let questions = match parse_questions(&mut cursor, header.num_questions) {
            Ok(q) => q,
            Err(e) => return Err(e),
        };
        let answers = match parse_records(&mut cursor, header.num_answers) {
            Ok(a) => a,
            Err(e) => return Err(e),
        };
        let authorities = match parse_records(&mut cursor, header.num_authorities) {
            Ok(a) => a,
            Err(e) => return Err(e),
        };
        let additionals = match parse_records(&mut cursor, header.num_additionals) {
            Ok(a) => a,
            Err(e) => return Err(e),
        };
        Ok(DNSPacket { header, questions, answers, authorities, additionals })
    }
}

/// The data of the first record of type `t`, in order.
pub open spec fn first_of_type(rs: Seq<RecordView>, t: u16) -> Option<Seq<u8>>
    decreases rs.len(),
{
    if rs.len() == 0 {
        None
    } else if rs[0].type_ == t {
        Some(rs[0].data)
    } else {
        first_of_type(rs.drop_first(), t)
    }
}

/// The data of the first record of type `t`.
fn first_data_of_type(records: &Vec<DNSRecord>, t: u16) -> (r: Option<&[u8]>)
    ensures
        match first_of_type(records_view(records@), t) {
            Some(d) => r matches Some(x) && x@ == d,
            None => r is None,
        },
{
    let ghost all = records_view(records@);
    let mut i: usize = 0;
    assert(all.subrange(0, all.len() as int) =~= all);
    while i < records.len()
        invariant
            all == records_view(records@),
            i <= records@.len(),
            first_of_type(all, t) == first_of_type(all.subrange(i as int, all.len() as int), t),
        decreases records@.len() - i,
    {
        let ghost rest = all.subrange(i as int, all.len() as int);
        assert(rest[0] == records@[i as int]@);
        if records[i].type_ == t {
            return Some(records[i].data.as_slice());
        }
        assert(rest.drop_first() =~= all.subrange(i + 1, all.len() as int));
        i = i + 1;
    }
    None
}

impl DNSPacket {
    /// The address data of the first A record among the answers.
    pub fn get_answer(&self) -> (r: Option<&[u8]>)
        ensures
            match first_of_type(self@.answers, TYPE_A) {
                Some(d) => r matches Some(x) && x@ == d,
                None => r is None,
            },
    {
        first_data_of_type(&self.answers, TYPE_A)
    }

    /// The address data of the first A record among the additionals: the
    /// glue address of a delegated nameserver.
    pub fn get_nameserver_ip(&self) -> (r: Option<&[u8]>)
        ensures
            match first_of_type(self@.additionals, TYPE_A) {
                Some(d) => r matches Some(x) && x@ == d,
                None => r is None,
            },
    {
        first_data_of_type(&self.additionals, TYPE_A)
    }

    /// The name of the first NS record among the authorities. A name that is
    /// not UTF-8 is malformed data.
    pub fn get_nameserver(&self) -> (r: Result<Option<String>, DnsError>)
        ensures
            match first_of_type(self@.authorities, TYPE_NS) {
                None => r == Ok::<Option<String>, DnsError>(None),
                Some(d) => if valid_utf8(d) {
                    r matches Ok(Some(s)) && s@ == decode_utf8(d)
                } else {
                    r == Err::<Option<String>, DnsError>(DnsError::MalformedRecordData)
                },
            },
    {
        match first_data_of_type(&self.authorities, TYPE_NS) {
            None => Ok(None),
            Some(d) => match utf8_string(slice_to_vec(d)) {
                Some(s) => Ok(Some(s)),
                None => Err(DnsError::MalformedRecordData),
            },
        }
    }
}

} // verus!
