use bytes::Bytes;
use cgroup_metrics::splunk_tcp::{
    default_shutdown_timeout_secs, parse_header, HeaderError, ParsedSplunkTCPEvent,
    SplunkTCPHeader,
};
use cgroup_metrics::text::{parse_i32, push_decimal, string_of, without_end, NumberError, Padding};

fn chars(s: &str) -> Vec<char> {
    s.chars().collect()
}

fn frame(protocol: &[u8], hostname: &[u8], port: &[u8]) -> Vec<u8> {
    let mut bytes = vec![0u8; 420];
    bytes[..protocol.len()].copy_from_slice(protocol);
    bytes[127] = 0xff;
    bytes[128..128 + hostname.len()].copy_from_slice(hostname);
    bytes[383] = 0xff;
    bytes[384..384 + port.len()].copy_from_slice(port);
    bytes[399] = 0xff;
    bytes
}

fn decimal(n: i32) -> String {
    let mut out = String::from("n=");
    push_decimal(&mut out, n);
    out
}

#[test]
fn parses_a_header() {
    let bytes = frame(b"--splunk-cooked-mode-v3--", b"forwarder.example", b"8089");
    let header = parse_header(&Bytes::from(bytes)).unwrap();
    assert_eq!(header.protocol, "--splunk-cooked-mode-v3--");
    assert_eq!(header.hostname, "forwarder.example");
    assert_eq!(header.port, 8089);
}

#[test]
fn header_is_read_from_its_fixed_places() {
    let mut bytes = vec![b'a'; 399];
    bytes[384..388].copy_from_slice(b"-123");
    bytes[388..399].copy_from_slice(b"99999999999");
    let header = parse_header(&Bytes::from(bytes)).unwrap();
    assert_eq!(header.protocol, "a".repeat(127));
    assert_eq!(header.hostname, "a".repeat(255));
    assert_eq!(header.port, -123);
}

#[test]
fn names_lose_the_nul_at_their_end_only() {
    let bytes = frame(b"\0a\0b\0\0", "h\u{f6}st\0".as_bytes(), b"+042");
    let header = parse_header(&Bytes::from(bytes)).unwrap();
    assert_eq!(header.protocol, "\0a\0b");
    assert_eq!(header.hostname, "h\u{f6}st");
    assert_eq!(header.port, 42);
    let empty = parse_header(&Bytes::from(frame(b"", b"", b"0000"))).unwrap();
    assert_eq!(empty.protocol, "");
    assert_eq!(empty.hostname, "");
    assert_eq!(empty.port, 0);
}

#[test]
fn short_frame_has_no_header() {
    let bytes = frame(b"p", b"h", b"8089");
    assert_eq!(parse_header(&Bytes::from(bytes[..398].to_vec())).err(), Some(HeaderError::FrameTooShort));
    assert_eq!(parse_header(&Bytes::new()).err(), Some(HeaderError::FrameTooShort));
    assert!(parse_header(&Bytes::from(bytes[..399].to_vec())).is_ok());
}

#[test]
fn header_errors_come_in_the_order_of_the_fields() {
    let bad = b"\xff\xfe";
    assert_eq!(
        parse_header(&Bytes::from(frame(bad, bad, b"x\xff"))).err(),
        Some(HeaderError::Protocol)
    );
    assert_eq!(
        parse_header(&Bytes::from(frame(b"p", bad, b"x\xff"))).err(),
        Some(HeaderError::Hostname)
    );
    assert_eq!(
        parse_header(&Bytes::from(frame(b"p", b"h", b"1\xff"))).err(),
        Some(HeaderError::PortText)
    );
    assert_eq!(
        parse_header(&Bytes::from(frame(b"p", b"h", b"80"))).err(),
        Some(HeaderError::Port(NumberError::InvalidDigit))
    );
    assert_eq!(
        parse_header(&Bytes::from(frame(b"p", b"h", b"-"))).err(),
        Some(HeaderError::Port(NumberError::InvalidDigit))
    );
    // A name whose last character is cut in two is no text.
    let mut cut = frame(b"p", b"h", b"8089");
    cut[125] = 0xc3;
    cut[126] = 0xc3;
    assert_eq!(parse_header(&Bytes::from(cut)).err(), Some(HeaderError::Protocol));
}

#[test]
fn header_starts_where_the_frame_starts() {
    let mut bytes = vec![b'x'; 7];
    bytes.extend(frame(b"proto", b"host\0\0", b"8089"));
    let whole = Bytes::from(bytes);
    let header = parse_header(&whole.slice(7..)).unwrap();
    assert_eq!(header.protocol, "proto");
    assert_eq!(header.hostname, "host");
    assert_eq!(header.port, 8089);
    // Read from earlier on, the host name holds a byte that is no text.
    assert_eq!(parse_header(&whole).err(), Some(HeaderError::Hostname));
    assert_eq!(parse_header(&whole.slice(3..)).err(), Some(HeaderError::Hostname));
    assert_eq!(parse_header(&whole.slice(7..405)).err(), Some(HeaderError::FrameTooShort));
    assert!(parse_header(&whole.slice(7..406)).is_ok());
}

#[test]
fn header_is_written_out() {
    let header = SplunkTCPHeader {
        protocol: String::from("tcp"),
        hostname: String::from("example.org"),
        port: 9997,
    };
    assert_eq!(
        header.to_string(),
        "SplunkTCPHeader(protocol-> tcp, hostname-> example.org, port-> 9997)"
    );
    let odd = SplunkTCPHeader { protocol: String::new(), hostname: String::from("h"), port: -1 };
    assert_eq!(odd.to_string(), "SplunkTCPHeader(protocol-> , hostname-> h, port-> -1)");
}

#[test]
fn event_is_written_out() {
    let header = SplunkTCPHeader {
        protocol: String::from("tcp"),
        hostname: String::from("example.org"),
        port: 9997,
    };
    let event = ParsedSplunkTCPEvent::new(header);
    assert_eq!(event.header.port, 9997);
    assert_eq!(
        event.to_string(),
        "ParsedSplunkTCPEvent(header-> SplunkTCPHeader(protocol-> tcp, hostname-> example.org, port-> 9997))"
    );
}

#[test]
fn parsed_frame_is_written_out() {
    let bytes = frame(b"proto", b"host", b"0080");
    let event = ParsedSplunkTCPEvent::new(parse_header(&Bytes::from(bytes)).unwrap());
    assert_eq!(
        event.to_string(),
        "ParsedSplunkTCPEvent(header-> SplunkTCPHeader(protocol-> proto, hostname-> host, port-> 80))"
    );
}

#[test]
fn numbers_are_written_in_decimal() {
    for n in [0, 1, 9, 10, 11, 99, 100, 101, 9997, 65535, 1_000_000, i32::MAX, -1, -9, -10, -100, -2147483647, i32::MIN] {
        assert_eq!(decimal(n), format!("n={}", n));
    }
}

#[test]
fn parses_signed_numbers() {
    assert_eq!(parse_i32(&chars("0")), Ok(0));
    assert_eq!(parse_i32(&chars("-0")), Ok(0));
    assert_eq!(parse_i32(&chars("+7")), Ok(7));
    assert_eq!(parse_i32(&chars("-7")), Ok(-7));
    assert_eq!(parse_i32(&chars("2147483647")), Ok(i32::MAX));
    assert_eq!(parse_i32(&chars("-2147483648")), Ok(i32::MIN));
    assert_eq!(parse_i32(&chars("2147483648")), Err(NumberError::PosOverflow));
    assert_eq!(parse_i32(&chars("-2147483649")), Err(NumberError::NegOverflow));
    assert_eq!(parse_i32(&chars("")), Err(NumberError::Empty));
    assert_eq!(parse_i32(&chars("-")), Err(NumberError::InvalidDigit));
    assert_eq!(parse_i32(&chars("+")), Err(NumberError::InvalidDigit));
    assert_eq!(parse_i32(&chars("+-1")), Err(NumberError::InvalidDigit));
    assert_eq!(parse_i32(&chars("12\0\0")), Err(NumberError::InvalidDigit));
}

#[test]
fn signed_numbers_agree_with_the_standard_parser() {
    let cases = [
        "", "0", "-0", "+0", "1", "-1", "+1", "--1", "2147483647", "2147483648", "-2147483648",
        "-2147483649", "99999999999", "-99999999999", "1a", "a1", " 1", "1 ", "-", "+", "00012",
    ];
    for case in cases {
        assert_eq!(parse_i32(&chars(case)).ok(), case.parse::<i32>().ok());
    }
}

#[test]
fn trailing_nul_is_stripped() {
    let stripped = |text: &str| string_of(without_end(&chars(text), Padding::Nul));
    assert_eq!(stripped("abc\0\0"), "abc");
    assert_eq!(stripped("\0\0"), "");
    assert_eq!(stripped(""), "");
    assert_eq!(stripped("\0a"), "\0a");
    assert_eq!(stripped("a \0"), "a ");
}

#[test]
fn shutdown_waits_thirty_seconds() {
    assert_eq!(default_shutdown_timeout_secs(), 30);
}
