use dns_resolver::error::DnsError;
use dns_resolver::header::DNSHeader;
use dns_resolver::packet::DNSPacket;
use dns_resolver::query::build_query;
use dns_resolver::query::build_query_with_id;
use dns_resolver::question::DNSQuestion;
use dns_resolver::record::TYPE_A;
use dns_resolver::text::ipv4_to_string;

fn header(id: u16, qd: u16, an: u16, ns: u16, ar: u16) -> Vec<u8> {
    let mut v = Vec::new();
    for x in [id, 0x8000, qd, an, ns, ar] {
        v.extend_from_slice(&x.to_be_bytes());
    }
    v
}

fn a_record(name: &[u8], ip: [u8; 4]) -> Vec<u8> {
    let mut v = name.to_vec();
    v.extend_from_slice(&[0, 1, 0, 1, 0, 0, 0x0E, 0x10, 0, 4]);
    v.extend_from_slice(&ip);
    v
}

#[test]
fn test_ipv4_string_conversion() {
    assert_eq!(&ipv4_to_string(&[192, 168, 0, 1]).unwrap(), "192.168.0.1");
    assert!(ipv4_to_string(&[192, 168, 0]).is_err());
    assert!(ipv4_to_string(&[192, 168, 0, 1, 2]).is_err());
}

#[test]
fn ipv4_formats_every_digit_count() {
    assert_eq!(ipv4_to_string(&[0, 9, 10, 255]).unwrap(), "0.9.10.255");
    assert_eq!(ipv4_to_string(&[]), Err(DnsError::MalformedRecordData));
}

#[test]
fn header_builders_and_bytes() {
    let h = DNSHeader::default().with_id(0xBEEF).with_flags(0x0100).with_num_questions(1);
    assert_eq!(h.id, 0xBEEF);
    assert_eq!(h.flags, 0x0100);
    assert_eq!(h.num_questions, 1);
    assert_eq!(h.num_answers, 0);
    assert_eq!(h.to_bytes(), vec![0xBE, 0xEF, 0x01, 0x00, 0, 1, 0, 0, 0, 0, 0, 0]);
}

#[test]
fn question_bytes_are_name_class_type() {
    let q = DNSQuestion::new(vec![1, b'a', 0], 1, 2);
    assert_eq!(q.class, 1);
    assert_eq!(q.type_, 2);
    assert_eq!(q.to_bytes(), vec![1, b'a', 0, 0, 1, 0, 2]);
}

#[test]
fn query_with_fixed_id_is_exact() {
    let q = build_query_with_id("example.com", TYPE_A, 0x0102).unwrap();
    let mut expected = vec![0x01, 0x02, 0, 0, 0, 1, 0, 0, 0, 0, 0, 0];
    expected.extend_from_slice(&[7, b'e', b'x', b'a', b'm', b'p', b'l', b'e', 3, b'c', b'o', b'm', 0]);
    expected.extend_from_slice(&[0, 1, 0, 1]);
    assert_eq!(q, expected);
}

#[test]
fn random_query_differs_only_in_id() {
    let q = build_query("example.com", 2).unwrap();
    let fixed = build_query_with_id("example.com", 2, 0).unwrap();
    assert_eq!(q.len(), fixed.len());
    assert_eq!(q[2..], fixed[2..]);
    assert_eq!(build_query(&"x".repeat(64), 1), Err(DnsError::LabelTooLong));
}

#[test]
fn parse_reads_every_section() {
    let mut buf = header(7, 1, 2, 0, 1);
    buf.extend_from_slice(&[3, b'c', b'o', b'm', 0, 0, 1, 0, 1]);
    buf.extend_from_slice(&a_record(&[0xC0, 12], [1, 2, 3, 4]));
    buf.extend_from_slice(&a_record(&[0xC0, 12], [5, 6, 7, 8]));
    buf.extend_from_slice(&a_record(&[0], [9, 9, 9, 9]));
    buf.extend_from_slice(&[0; 40]);
    let p = DNSPacket::parse(&buf).unwrap();
    assert_eq!(p.header.id, 7);
    assert_eq!(p.questions.len(), p.header.num_questions as usize);
    assert_eq!(p.answers.len(), p.header.num_answers as usize);
    assert_eq!(p.authorities.len(), p.header.num_authorities as usize);
    assert_eq!(p.additionals.len(), p.header.num_additionals as usize);
    assert_eq!(p.questions[0].name, b"com".to_vec());
    assert_eq!(p.answers[0].name, b"com".to_vec());
    assert_eq!(p.answers[0].ttl, 3600);
    assert_eq!(p.get_answer(), Some(&[1u8, 2, 3, 4][..]));
    assert_eq!(p.get_nameserver_ip(), Some(&[9u8, 9, 9, 9][..]));
    assert_eq!(p.get_nameserver(), Ok(None));
}

#[test]
fn parse_fails_when_counts_exceed_the_bytes() {
    let mut buf = header(7, 0, 2, 0, 0);
    buf.extend_from_slice(&a_record(&[0], [1, 2, 3, 4]));
    assert_eq!(DNSPacket::parse(&buf).err(), Some(DnsError::TruncatedName));
    assert_eq!(DNSPacket::parse(&buf[..5]).err(), Some(DnsError::UnexpectedEndOfBuffer));
    let mut short_data = header(7, 0, 1, 0, 0);
    short_data.extend_from_slice(&[0, 0, 1, 0, 1, 0, 0, 0, 0, 0, 4, 1, 2]);
    assert_eq!(DNSPacket::parse(&short_data).err(), Some(DnsError::UnexpectedEndOfBuffer));
}

#[test]
fn ns_record_data_is_a_name() {
    let mut buf = header(1, 0, 0, 1, 0);
    buf.extend_from_slice(&[3, b'n', b'e', b't', 0]);
    buf.extend_from_slice(&[0, 2, 0, 1, 0, 0, 0, 0, 0, 4]);
    buf.extend_from_slice(&[2, b'n', b's', 0xC0, 12]);
    let p = DNSPacket::parse(&buf).unwrap();
    assert_eq!(p.authorities[0].data, b"ns.net".to_vec());
    assert_eq!(p.get_nameserver(), Ok(Some("ns.net".to_string())));
    let mut bad = header(1, 0, 0, 1, 0);
    bad.extend_from_slice(&[0, 0, 2, 0, 1, 0, 0, 0, 0, 0, 2, 0xC0, 0x7F]);
    assert_eq!(DNSPacket::parse(&bad).err(), Some(DnsError::MalformedRecordData));
}

#[test]
fn ns_name_that_is_not_utf8_is_malformed() {
    let mut buf = header(1, 0, 0, 1, 0);
    buf.extend_from_slice(&[0, 0, 2, 0, 1, 0, 0, 0, 0, 0, 3, 1, 0xFF, 0]);
    let p = DNSPacket::parse(&buf).unwrap();
    assert_eq!(p.get_nameserver(), Err(DnsError::MalformedRecordData));
}
