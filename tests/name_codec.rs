use dns_resolver::cursor::ByteCursor;
use dns_resolver::error::DnsError;
use dns_resolver::name::decode_name;
use dns_resolver::name::try_encode_dns_name;

#[test]
fn test_encoding_dns_name_works() {
    assert_eq!(
        try_encode_dns_name("www.google.com").unwrap(),
        vec![3, 119, 119, 119, 6, 103, 111, 111, 103, 108, 101, 3, 99, 111, 109, 0]
    );
    assert_eq!(
        try_encode_dns_name("google.com").unwrap(),
        vec![6, 103, 111, 111, 103, 108, 101, 3, 99, 111, 109, 0]
    );
}

#[test]
fn test_encoding_and_decoding_dns_name_works() {
    let domain_name = "google.com";
    let encoded = try_encode_dns_name(domain_name).unwrap();
    let decoded = decode_name(&mut ByteCursor::new(&encoded)).unwrap();
    assert_eq!(domain_name, &String::from_utf8(decoded).unwrap());
}

#[test]
fn test_encoding_dns_name_fails_for_label_too_long() {
    assert!(try_encode_dns_name(
        "www.thisissomereallyreallylonglabelthatistoolongtobeavaliddomainnamelabel.com"
    )
    .is_err());
}

#[test]
fn label_of_63_bytes_encodes_and_64_fails() {
    let ok = "a".repeat(63);
    let encoded = try_encode_dns_name(&ok).unwrap();
    assert_eq!(encoded.len(), 65);
    assert_eq!(encoded[0], 63);
    assert_eq!(encoded[64], 0);
    let too_long = format!("{}.com", "b".repeat(64));
    assert_eq!(try_encode_dns_name(&too_long), Err(DnsError::LabelTooLong));
}

#[test]
fn empty_labels_are_left_out() {
    assert_eq!(try_encode_dns_name("").unwrap(), vec![0]);
    assert_eq!(
        try_encode_dns_name("com.").unwrap(),
        vec![3, 99, 111, 109, 0]
    );
    assert_eq!(
        try_encode_dns_name("a..b").unwrap(),
        vec![1, 97, 1, 98, 0]
    );
}

#[test]
fn round_trip_of_a_longer_name() {
    let domain = "a.root-servers.net";
    let encoded = try_encode_dns_name(domain).unwrap();
    let mut cursor = ByteCursor::new(&encoded);
    let decoded = decode_name(&mut cursor).unwrap();
    assert_eq!(decoded, domain.as_bytes().to_vec());
    assert_eq!(cursor.position(), encoded.len());
}

#[test]
fn compressed_name_follows_the_pointer() {
    let mut buf = vec![3, b'c', b'o', b'm', 0];
    let start = buf.len();
    buf.extend_from_slice(&[6, b'g', b'o', b'o', b'g', b'l', b'e', 0xC0, 0x00]);
    buf.push(0xAB);
    let mut cursor = ByteCursor::new(&buf);
    cursor.set_position(start);
    let decoded = decode_name(&mut cursor).unwrap();
    assert_eq!(decoded, b"google.com".to_vec());
    assert_eq!(cursor.position(), start + 9);
}

#[test]
fn pointer_to_the_root_adds_no_separator() {
    let buf = vec![0, 3, b'c', b'o', b'm', 0xC0, 0x00];
    let mut cursor = ByteCursor::new(&buf);
    cursor.set_position(1);
    assert_eq!(decode_name(&mut cursor).unwrap(), b"com".to_vec());
}

#[test]
fn pointer_outside_the_buffer_is_refused() {
    let buf = vec![0xC0, 0x10];
    let mut cursor = ByteCursor::new(&buf);
    assert_eq!(decode_name(&mut cursor), Err(DnsError::InvalidCompressionPointer));
    assert_eq!(cursor.position(), 0);
}

#[test]
fn self_referential_pointer_is_refused() {
    let buf = vec![1, b'a', 0xC0, 0x00];
    let mut cursor = ByteCursor::new(&buf);
    assert_eq!(decode_name(&mut cursor), Err(DnsError::InvalidCompressionPointer));
}

#[test]
fn name_cut_short_is_truncated() {
    let buf = vec![5, b'a', b'b'];
    assert_eq!(decode_name(&mut ByteCursor::new(&buf)), Err(DnsError::TruncatedName));
    let unterminated = vec![1, b'a'];
    assert_eq!(
        decode_name(&mut ByteCursor::new(&unterminated)),
        Err(DnsError::TruncatedName)
    );
    let half_pointer = vec![0xC0];
    assert_eq!(
        decode_name(&mut ByteCursor::new(&half_pointer)),
        Err(DnsError::TruncatedName)
    );
}
