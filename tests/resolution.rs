use dns_resolver::error::DnsError;
use dns_resolver::packet::DNSPacket;
use dns_resolver::resolver::interpret_response;
use dns_resolver::resolver::Referral;
use dns_resolver::resolver::Resolver;
use dns_resolver::resolver::Step;
use dns_resolver::resolver::MAX_REFERRALS;

fn header(an: u16, ns: u16, ar: u16) -> Vec<u8> {
    let mut v = Vec::new();
    for x in [0x4242u16, 0x8000, 1, an, ns, ar] {
        v.extend_from_slice(&x.to_be_bytes());
    }
    v
}

/// A response for `google.com` from a root stub: an optional answer, one
/// NS authority `a.root-servers.net` and an optional A glue record for it.
fn response(answer: Option<[u8; 4]>, glue: Option<[u8; 4]>) -> Vec<u8> {
    let mut buf = header(answer.is_some() as u16, 1, glue.is_some() as u16);
    buf.extend_from_slice(&[6, b'g', b'o', b'o', b'g', b'l', b'e', 3, b'c', b'o', b'm', 0]);
    buf.extend_from_slice(&[0, 1, 0, 1]);
    if let Some(ip) = answer {
        buf.extend_from_slice(&[0xC0, 12, 0, 1, 0, 1, 0, 0, 0, 60, 0, 4]);
        buf.extend_from_slice(&ip);
    }
    buf.extend_from_slice(&[0xC0, 19, 0, 2, 0, 1, 0, 0, 0, 60, 0, 20]);
    let ns_at = buf.len();
    buf.extend_from_slice(&[1, b'a', 12]);
    buf.extend_from_slice(b"root-servers");
    buf.extend_from_slice(&[3, b'n', b'e', b't', 0]);
    if let Some(ip) = glue {
        buf.extend_from_slice(&[0xC0, ns_at as u8, 0, 1, 0, 1, 0, 0, 0, 60, 0, 4]);
        buf.extend_from_slice(&ip);
    }
    buf
}

#[test]
fn glue_record_redirects_without_a_nested_lookup() {
    let mut r = Resolver::new("google.com", 1);
    assert_eq!(r.pending[0].nameserver, "198.41.0.4");
    let (ns, query) = r.next_query().unwrap();
    assert_eq!(ns, "198.41.0.4");
    assert_eq!(query.len(), 12 + 12 + 4);
    let step = r.on_response(&response(None, Some([192, 5, 6, 30])));
    assert!(matches!(step, Step::Continue));
    assert_eq!(r.pending.len(), 1);
    assert_eq!(r.pending[0].domain, "google.com");
    assert_eq!(r.pending[0].nameserver, "192.5.6.30");
    assert_eq!(r.referrals, 1);
}

#[test]
fn missing_glue_starts_exactly_one_nested_lookup() {
    let mut r = Resolver::new("google.com", 1);
    let step = r.on_response(&response(None, None));
    assert!(matches!(step, Step::Continue));
    assert_eq!(r.pending.len(), 2);
    assert_eq!(r.pending[1].domain, "a.root-servers.net");
    assert_eq!(r.pending[1].record_type, 1);
    assert_eq!(r.pending[1].nameserver, "198.41.0.4");
    assert_eq!(r.pending[0].nameserver, "198.41.0.4");
    let (ns, _) = r.next_query().unwrap();
    assert_eq!(ns, "198.41.0.4");

    // The nested lookup's answer becomes the outer lookup's nameserver.
    let step = r.on_response(&response(Some([192, 5, 6, 30]), None));
    assert!(matches!(step, Step::Continue));
    assert_eq!(r.pending.len(), 1);
    assert_eq!(r.pending[0].domain, "google.com");
    assert_eq!(r.pending[0].nameserver, "192.5.6.30");

    let step = r.on_response(&response(Some([142, 250, 0, 1]), None));
    match step {
        Step::Resolved(ip) => assert_eq!(ip, "142.250.0.1"),
        other => panic!("unexpected step {:?}", other),
    }
    assert!(r.pending.is_empty());
    assert_eq!(r.next_query().err(), Some(DnsError::NoResolutionPath));
}

#[test]
fn answer_wins_over_glue_and_delegation() {
    let p = DNSPacket::parse(&response(Some([1, 1, 1, 1]), Some([2, 2, 2, 2]))).unwrap();
    match interpret_response(&p).unwrap() {
        Referral::Answer(ip) => assert_eq!(ip, "1.1.1.1"),
        other => panic!("unexpected referral {:?}", other),
    }
    let p = DNSPacket::parse(&response(None, Some([2, 2, 2, 2]))).unwrap();
    match interpret_response(&p).unwrap() {
        Referral::Glue(ip) => assert_eq!(ip, "2.2.2.2"),
        other => panic!("unexpected referral {:?}", other),
    }
    let p = DNSPacket::parse(&response(None, None)).unwrap();
    match interpret_response(&p).unwrap() {
        Referral::Delegate(name) => assert_eq!(name, "a.root-servers.net"),
        other => panic!("unexpected referral {:?}", other),
    }
}

#[test]
fn response_without_guidance_fails() {
    let mut buf = header(0, 0, 0);
    buf.extend_from_slice(&[0, 0, 1, 0, 1]);
    let mut r = Resolver::new("google.com", 1);
    let step = r.on_response(&buf);
    assert!(matches!(step, Step::Failed(DnsError::NoResolutionPath)));
    assert_eq!(r.pending.len(), 1);
}

#[test]
fn unparsable_response_fails() {
    let mut r = Resolver::new("google.com", 1);
    assert!(matches!(r.on_response(&[1, 2, 3]), Step::Failed(DnsError::UnexpectedEndOfBuffer)));
}

#[test]
fn referral_limit_is_enforced() {
    let mut r = Resolver::new("google.com", 1);
    let glue = response(None, Some([192, 5, 6, 30]));
    for _ in 0..MAX_REFERRALS {
        assert!(matches!(r.on_response(&glue), Step::Continue));
    }
    assert!(matches!(r.on_response(&glue), Step::Failed(DnsError::TooManyReferrals)));
    assert_eq!(r.referrals, MAX_REFERRALS);
}

#[test]
fn query_for_an_overlong_label_fails() {
    let r = Resolver::new(&"x".repeat(70), 1);
    assert_eq!(r.next_query().err(), Some(DnsError::LabelTooLong));
}
