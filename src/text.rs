use vstd::prelude::*;
use vstd::string::StringExecFns;
use vstd::utf8::decode_utf8;
use vstd::utf8::valid_utf8;

use crate::error::DnsError;

verus! {

/// The character of the decimal digit `d`.
pub open spec fn digit_char(d: nat) -> char {
    ((d + 48) as u8) as char
}

/// The decimal digits of `n`, with no leading zero.
pub open spec fn decimal(n: nat) -> Seq<char>
    decreases n,
{
    if n < 10 {
        seq![digit_char(n)]
    } else {
        decimal(n / 10).push(digit_char(n % 10))
    }
}

/// The dotted-decimal form of four address bytes.
pub open spec fn dotted_quad(b: Seq<u8>) -> Seq<char> {
    decimal(b[0] as nat) + seq!['.'] + decimal(b[1] as nat) + seq!['.'] + decimal(b[2] as nat)
        + seq!['.'] + decimal(b[3] as nat)
}

/// Relies on `u8`'s `Display` (through `to_string`): the decimal digits of
/// the value, without sign or leading zeros.
#[verifier::external_body]
fn byte_decimal(b: u8) -> (r: String)
    ensures
        r@ == decimal(b as nat),
{
    b.to_string()
}

/// Relies on `String::from_utf8`: it fails exactly when the bytes are not
/// valid UTF-8, and otherwise holds the characters that they encode.
#[verifier::external_body]
pub(crate) fn utf8_string(bytes: Vec<u8>) -> (r: Option<String>)
    ensures
        r is Some <==> valid_utf8(bytes@),
        r matches Some(s) ==> s@ == decode_utf8(bytes@),
{
    String::from_utf8(bytes).ok()
}

/// Formats four address bytes as a dotted-decimal IPv4 address. Data of any
/// other length is refused.
pub fn ipv4_to_string(raw_ip: &[u8]) -> (r: Result<String, DnsError>)
    ensures
        raw_ip@.len() == 4 ==> (r matches Ok(s) && s@ == dotted_quad(raw_ip@)),
        raw_ip@.len() != 4 ==> r == Err::<String, DnsError>(DnsError::MalformedRecordData),
{
    if raw_ip.len() != 4 {
        return Err(DnsError::MalformedRecordData);
    }
    proof {
        reveal_strlit(".");
    }
    let mut s = byte_decimal(raw_ip[0]);
    s.append(".");
    s.append(byte_decimal(raw_ip[1]).as_str());
    s.append(".");
    s.append(byte_decimal(raw_ip[2]).as_str());
    s.append(".");
    s.append(byte_decimal(raw_ip[3]).as_str());
    assert(s@ =~= dotted_quad(raw_ip@));
    Ok(s)
}

} // verus!
