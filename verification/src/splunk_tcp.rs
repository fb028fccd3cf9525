//! The header of a frame received over the Splunk TCP protocol.
//!
//! A frame starts with a header of fixed layout: the protocol's name in its
//! first 127 bytes, the sender's host name in the 255 bytes from the 129th
//! on, and the sender's port, in decimal, in the four bytes from the 385th
//! on. The two names are padded with NUL bytes at their end.

use vstd::prelude::*;
use vstd::slice::slice_subrange;
use vstd::string::*;
use vstd::utf8::{decode_utf8, valid_utf8};
use bytes::{Buf, Bytes};
use crate::text::{
    decimal_text, parse_i32, push_decimal, spec_parse_i32, string_of, strip_nul, to_chars,
    without_end, NumberError, Padding,
};

verus! {

/// `bytes::Bytes`, a run of bytes that can be sliced without copying.
/// Nothing is known of a value but what the functions below say of it.
#[verifier::external_type_specification]
#[verifier::external_body]
pub struct ExBytes(bytes::Bytes);

/// The bytes that a `Bytes` holds, in their order.
pub uninterp spec fn bytes_view(b: Bytes) -> Seq<u8>;

/// `Bytes::len` gives the number of bytes held.
#[verifier::external_body]
fn frame_len(frame: &Bytes) -> (n: usize)
    ensures
        n == bytes_view(*frame).len(),
{
    frame.len()
}

/// `Bytes::slice` gives the bytes of a range, which has to lie within the
/// bytes held.
#[verifier::external_body]
fn frame_slice(frame: &Bytes, begin: usize, end: usize) -> (part: Bytes)
    requires
        begin <= end <= bytes_view(*frame).len(),
    ensures
        bytes_view(part) == bytes_view(*frame).subrange(begin as int, end as int),
{
    frame.slice(begin..end)
}

/// `Buf::chunk` of a `Bytes` gives all the bytes held as one slice.
#[verifier::external_body]
fn frame_chunk(frame: &Bytes) -> (chunk: &[u8])
    ensures
        chunk@ == bytes_view(*frame),
{
    frame.chunk()
}

/// `std::str::from_utf8` gives the bytes as a string slice where they are
/// valid UTF-8, and fails where they are not.
#[verifier::external_body]
fn utf8_text(bytes: &[u8]) -> (text: Option<&str>)
    ensures
        text is Some <==> valid_utf8(bytes@),
        text matches Some(t) ==> t.spec_bytes() == bytes@,
{
    std::str::from_utf8(bytes).ok()
}

/// The number of bytes of a header.
pub const HEADER_LEN: usize = 399;

/// The number of bytes of the protocol's name.
pub const PROTOCOL_LEN: usize = 127;

/// Where the host name starts and ends.
pub const HOSTNAME_START: usize = 128;

pub const HOSTNAME_END: usize = 383;

/// Where the port starts, and the number of its bytes that are read.
pub const PORT_START: usize = 384;

pub const PORT_LEN: usize = 4;

/// Why a frame has no header.
#[derive(Clone, Copy, Debug, PartialEq, Eq, Structural)]
pub enum HeaderError {
    /// The frame is shorter than a header.
    FrameTooShort,
    /// The protocol's name is not valid UTF-8.
    Protocol,
    /// The host name is not valid UTF-8.
    Hostname,
    /// The port is not valid UTF-8.
    PortText,
    /// The port is no signed 32-bit decimal number.
    Port(NumberError),
}

/// The header of a frame.
pub struct SplunkTCPHeader {
    pub protocol: String,
    pub hostname: String,
    pub port: i32,
}

/// A header, with its names as sequences of characters.
pub struct HeaderView {
    pub protocol: Seq<char>,
    pub hostname: Seq<char>,
    pub port: i32,
}

impl View for SplunkTCPHeader {
    type V = HeaderView;

    open spec fn view(&self) -> HeaderView {
        HeaderView { protocol: self.protocol@, hostname: self.hostname@, port: self.port }
    }
}

/// The header that the bytes of a frame start with.
pub open spec fn spec_parse_header(frame: Seq<u8>) -> Result<HeaderView, HeaderError> {
    let protocol = frame.subrange(0, PROTOCOL_LEN as int);
    let hostname = frame.subrange(HOSTNAME_START as int, HOSTNAME_END as int);
    let port = frame.subrange(PORT_START as int, PORT_START + PORT_LEN);
    if frame.len() < HEADER_LEN {
        Err(HeaderError::FrameTooShort)
    } else if !valid_utf8(protocol) {
        Err(HeaderError::Protocol)
    } else if !valid_utf8(hostname) {
        Err(HeaderError::Hostname)
    } else if !valid_utf8(port) {
        Err(HeaderError::PortText)
    } else {
        match spec_parse_i32(decode_utf8(port)) {
            Ok(number) => Ok(
                HeaderView {
                    protocol: strip_nul(decode_utf8(protocol)),
                    hostname: strip_nul(decode_utf8(hostname)),
                    port: number,
                },
            ),
            Err(kind) => Err(HeaderError::Port(kind)),
        }
    }
}

/// A header that was parsed, with its names as sequences of characters.
pub open spec fn header_result_view(r: Result<SplunkTCPHeader, HeaderError>) -> Result<
    HeaderView,
    HeaderError,
> {
    match r {
        Ok(header) => Ok(header@),
        Err(e) => Err(e),
    }
}

/// The characters that valid UTF-8 bytes encode.
fn decode(bytes: &[u8]) -> (chars: Option<Vec<char>>)
    ensures
        chars is Some <==> valid_utf8(bytes@),
        chars matches Some(c) ==> c@ == decode_utf8(bytes@),
{
    broadcast use vstd::utf8::encode_utf8_decode_utf8;

    match utf8_text(bytes) {
        Some(text) => {
            assert(text.spec_bytes() == vstd::utf8::encode_utf8(text@));
            Some(to_chars(text))
        },
        None => None,
    }
}

/// The text that `b` holds, without the NUL characters at its end; `None`
/// where `b` is not valid UTF-8.
fn bytes_to_string(b: &Bytes) -> (text: Option<String>)
    ensures
        text is Some <==> valid_utf8(bytes_view(*b)),
        text matches Some(t) ==> t@ == strip_nul(decode_utf8(bytes_view(*b))),
{
    match decode(frame_chunk(b)) {
        Some(chars) => Some(string_of(without_end(chars.as_slice(), Padding::Nul))),
        None => None,
    }
}

/// The number that the first four bytes of `b` hold in decimal.
fn bytes_to_i32(b: &Bytes) -> (number: Result<i32, HeaderError>)
    requires
        bytes_view(*b).len() >= PORT_LEN,
    ensures
        number == ({
            let digits = bytes_view(*b).subrange(0, PORT_LEN as int);
            if !valid_utf8(digits) {
                Err(HeaderError::PortText)
            } else {
                match spec_parse_i32(decode_utf8(digits)) {
                    Ok(n) => Ok(n),
                    Err(kind) => Err(HeaderError::Port(kind)),
                }
            }
        }),
{
    let chunk = frame_chunk(b);
    let digits = slice_subrange(chunk, 0, PORT_LEN);
    match decode(digits) {
        Some(chars) => match parse_i32(chars.as_slice()) {
            Ok(n) => Ok(n),
            Err(kind) => Err(HeaderError::Port(kind)),
        },
        None => Err(HeaderError::PortText),
    }
}

/// Parses the header that a frame starts with.
pub fn parse_header(frame: &Bytes) -> (r: Result<SplunkTCPHeader, HeaderError>)
    ensures
        header_result_view(r) == spec_parse_header(bytes_view(*frame)),
{
    if frame_len(frame) < HEADER_LEN {
        return Err(HeaderError::FrameTooShort);
    }
    let ghost all = bytes_view(*frame);
    let head = frame_slice(frame, 0, HEADER_LEN);
    let protocol = frame_slice(&head, 0, PROTOCOL_LEN);
    let hostname = frame_slice(&head, HOSTNAME_START, HOSTNAME_END);
    let port = frame_slice(&head, PORT_START, HEADER_LEN);
    assert(bytes_view(protocol) =~= all.subrange(0, PROTOCOL_LEN as int));
    assert(bytes_view(hostname) =~= all.subrange(HOSTNAME_START as int, HOSTNAME_END as int));
    assert(bytes_view(port).subrange(0, PORT_LEN as int) =~= all.subrange(
        PORT_START as int,
        PORT_START + PORT_LEN,
    ));
    let protocol = match bytes_to_string(&protocol) {
        Some(text) => text,
        None => {
            return Err(HeaderError::Protocol);
        },
    };
    let hostname = match bytes_to_string(&hostname) {
        Some(text) => text,
        None => {
            return Err(HeaderError::Hostname);
        },
    };
    match bytes_to_i32(&port) {
        Ok(port) => Ok(SplunkTCPHeader { protocol, hostname, port }),
        Err(e) => Err(e),
    }
}

/// How a header is written out.
pub open spec fn header_text(header: HeaderView) -> Seq<char> {
    "SplunkTCPHeader(protocol-> "@ + header.protocol + ", hostname-> "@ + header.hostname
        + ", port-> "@ + decimal_text(header.port as int) + ")"@
}

impl SplunkTCPHeader {
    /// The header written out.
    pub fn to_string(&self) -> (s: String)
        ensures
            s@ == header_text(self@),
    {
        let mut s = String::from_str("SplunkTCPHeader(protocol-> ");
        s.append(self.protocol.as_str());
        s.append(", hostname-> ");
        s.append(self.hostname.as_str());
        s.append(", port-> ");
        push_decimal(&mut s, self.port);
        s.append(")");
        s
    }
}

/// A frame that was parsed.
pub struct ParsedSplunkTCPEvent {
    pub header: SplunkTCPHeader,
}

/// How a parsed frame is written out.
pub open spec fn event_text(header: HeaderView) -> Seq<char> {
    "ParsedSplunkTCPEvent(header-> "@ + header_text(header) + ")"@
}

impl ParsedSplunkTCPEvent {
    pub fn new(header: SplunkTCPHeader) -> (event: Self)
        ensures
            event.header == header,
    {
        ParsedSplunkTCPEvent { header }
    }

    /// The parsed frame written out.
    pub fn to_string(&self) -> (s: String)
        ensures
            s@ == event_text(self.header@),
    {
        let mut s = String::from_str("ParsedSplunkTCPEvent(header-> ");
        let header = self.header.to_string();
        s.append(header.as_str());
        s.append(")");
        s
    }
}

/// The seconds that a source waits for its connections to end when it is
/// shut down, unless it is told otherwise.
pub fn default_shutdown_timeout_secs() -> (secs: u64)
    ensures
        secs == 30,
{
    30
}

} // verus!
