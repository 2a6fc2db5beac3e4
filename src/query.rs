use vstd::prelude::*;
use vstd::string::StringSliceAdditionalSpecFns;

use crate::error::DnsError;
use crate::header::be_bytes16;
use crate::header::header_wire;
use crate::header::DNSHeader;
use crate::name::encoded_name;
use crate::name::try_encode_dns_name;
use crate::question::DNSQuestion;
use crate::record::CLASS_IN;

verus! {

/// Relies on `rand::random`, which draws a value from the thread-local
/// generator; nothing is promised of the value drawn.
pub assume_specification<T>[ rand::random::<T> ]() -> (r: T)
    where
        rand::distributions::Standard: rand::distributions::Distribution<T>,
;

/// The header of a query: the given id, no flags, one question.
pub open spec fn query_header(id: u16) -> DNSHeader {
    DNSHeader {
        id,
        flags: 0,
        num_questions: 1,
        num_answers: 0,
        num_authorities: 0,
        num_additionals: 0,
    }
}

/// The wire form of a query with the given id, for the name whose wire form
/// is `name_wire`, of class IN and type `record_type`.
pub open spec fn query_wire(id: u16, name_wire: Seq<u8>, record_type: u16) -> Seq<u8> {
    header_wire(query_header(id)) + name_wire + be_bytes16(CLASS_IN) + be_bytes16(record_type)
}

/// Builds the bytes of a query for `domain` and `record_type` with the given
/// id. The name is written uncompressed.
pub fn build_query_with_id(domain: &str, record_type: u16, id: u16) -> (r: Result<
    Vec<u8>,
    DnsError,
>)
    ensures
        match encoded_name(domain.spec_bytes()) {
            Ok(w) => r matches Ok(q) && q@ == query_wire(id, w, record_type),
            Err(e) => r == Err::<Vec<u8>, DnsError>(e),
        },
{
    let encoded_domain_name = match try_encode_dns_name(domain) {
        Ok(w) => w,
        Err(e) => return Err(e),
    };
    let question = DNSQuestion::new(encoded_domain_name, CLASS_IN, record_type);
    let header = DNSHeader::default().with_id(id).with_flags(0).with_num_questions(1);
    let mut out = header.to_bytes();
    let mut q = question.to_bytes();
    out.append(&mut q);
    assert(out@ =~= query_wire(id, encoded_name(domain.spec_bytes())->Ok_0, record_type));
    Ok(out)
}

/// Builds the bytes of a query for `domain` and `record_type` under a freshly
/// drawn id. The id comes from a generator seeded by the operating system, so
/// that an off-path sender cannot guess it; `build_query_with_id` takes a
/// chosen id where queries must be reproducible.
pub fn build_query(domain: &str, record_type: u16) -> (r: Result<Vec<u8>, DnsError>)
    ensures
        match encoded_name(domain.spec_bytes()) {
            Ok(w) => r matches Ok(q) && exists|id: u16| #[trigger]
                query_wire(id, w, record_type) == q@,
            Err(e) => r == Err::<Vec<u8>, DnsError>(e),
        },
{
    let id: u16 = rand::random();
    build_query_with_id(domain, record_type, id)
}

} // verus!
