use dns_resolver::cursor::read_n_bytes;
use dns_resolver::cursor::read_u16;
use dns_resolver::cursor::read_u32;
use dns_resolver::cursor::read_u8;
use dns_resolver::cursor::ByteCursor;
use dns_resolver::error::DnsError;

#[test]
fn reads_are_big_endian_and_advance() {
    let buf = [0x01, 0x02, 0x03, 0x04, 0x05, 0x06, 0x07, 0x08, 0x09];
    let mut c = ByteCursor::new(&buf);
    assert_eq!(read_u8(&mut c), Ok(0x01));
    assert_eq!(read_u16(&mut c), Ok(0x0203));
    assert_eq!(read_u32(&mut c), Ok(0x0405_0607));
    assert_eq!(c.position(), 7);
    assert_eq!(read_n_bytes(&mut c, 2), Ok(vec![0x08, 0x09]));
    assert_eq!(c.position(), 9);
}

#[test]
fn short_reads_fail_and_keep_the_position() {
    let buf = [0xFF, 0xEE, 0xDD];
    let mut c = ByteCursor::new(&buf);
    assert_eq!(read_u32(&mut c), Err(DnsError::UnexpectedEndOfBuffer));
    assert_eq!(c.position(), 0);
    assert_eq!(read_n_bytes(&mut c, 4), Err(DnsError::UnexpectedEndOfBuffer));
    assert_eq!(read_u16(&mut c), Ok(0xFFEE));
    assert_eq!(read_u16(&mut c), Err(DnsError::UnexpectedEndOfBuffer));
    assert_eq!(read_u8(&mut c), Ok(0xDD));
    assert_eq!(read_u8(&mut c), Err(DnsError::UnexpectedEndOfBuffer));
    assert_eq!(c.position(), 3);
}
