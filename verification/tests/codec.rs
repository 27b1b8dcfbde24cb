//! Wire-codec behaviour: hex, addresses, requests, framed UDP packets and
//! the reassembler.

use trojan_x::addr::Address;
use trojan_x::net::{IpAddress, SocketAddress};
use trojan_x::proto::{hex_to_u8, u8_to_hex, AssembleError, Command, Password, ProtocolError};
use trojan_x::request::Request;
use trojan_x::udp::{UdpPacket, UdpPacketBuf};
use trojan_x::utf8::validate_utf8;

fn v4(a: u8, b: u8, c: u8, d: u8, port: u16) -> Address {
    let ip = u32::from_be_bytes([a, b, c, d]);
    Address::Ip(SocketAddress { ip: IpAddress::V4(ip), port })
}

#[test]
fn hex_digit_pairs() {
    assert_eq!(hex_to_u8(&b'0', &b'f').unwrap(), 0x0f);
    assert_eq!(hex_to_u8(&b'a', &b'9').unwrap(), 0xa9);
    assert!(hex_to_u8(&b'A', &b'0').is_err());
    assert!(hex_to_u8(&b'0', &b'g').is_err());
    assert_eq!(u8_to_hex(&0xb7), (b'b', b'7'));
    assert_eq!(u8_to_hex(&0x05), (b'0', b'5'));
}

#[test]
fn password_hex_round_trip() {
    let p = Password { raw: [0xab; 28] };
    let hex = p.to_hex();
    assert_eq!(&hex[..], "ab".repeat(28).as_bytes());
    let q = Password::from_hex(&hex).unwrap();
    assert_eq!(p, q);
}

#[test]
fn password_rejects_uppercase_and_short() {
    let hex = "AB".repeat(28);
    assert!(Password::from_hex(hex.as_bytes()).is_err());
    assert!(Password::from_hex(&[b'a'; 55]).is_err());
}

#[test]
fn sha224_known_vectors() {
    let p = Password::digest(b"abc");
    assert_eq!(
        &p.to_hex()[..],
        b"23097d223405d8228642a477bda255b32aadbce4bda0b3f7e36c9da7"
    );
    let e = Password::digest(b"");
    assert_eq!(
        &e.to_hex()[..],
        b"d14a028c2a3a2bc9476102bb288234c415a2b01f828ea62ac5b3e42f"
    );
}

#[test]
fn command_bytes() {
    assert!(matches!(Command::from_byte(0x01), Ok(Command::Connect)));
    assert!(matches!(Command::from_byte(0x03), Ok(Command::UdpAssociate)));
    assert!(Command::from_byte(0x02).is_err());
    assert!(Command::from_byte(0x00).is_err());
    assert_eq!(Command::Connect.to_byte(), 1);
    assert_eq!(Command::UdpAssociate.to_byte(), 3);
}

#[test]
fn address_v4_round_trip() {
    let a = v4(127, 0, 0, 1, 80);
    let mut buf = Vec::new();
    a.extend_bytes(&mut buf);
    assert_eq!(buf, vec![0x01, 127, 0, 0, 1, 0, 80]);
    assert_eq!(a.size(), 7);
    let (b, n) = Address::from_bytes(&buf).unwrap();
    assert_eq!(n, 7);
    assert_eq!(a, b);
}

#[test]
fn address_v6_round_trip() {
    let ip = u128::from_be_bytes([0x20, 0x01, 0x0d, 0xb8, 0, 0, 0, 0, 0, 0, 0, 0, 0, 0, 0, 1]);
    let a = Address::Ip(SocketAddress { ip: IpAddress::V6(ip), port: 8443 });
    let mut buf = Vec::new();
    a.extend_bytes(&mut buf);
    assert_eq!(buf.len(), 19);
    assert_eq!(a.size(), 19);
    assert_eq!(buf[0], 0x04);
    let (b, n) = Address::from_bytes(&buf).unwrap();
    assert_eq!(n, 19);
    assert_eq!(a, b);
}

#[test]
fn address_domain_round_trip() {
    let a = Address::Name(b"example.com".to_vec(), 443);
    let mut buf = Vec::new();
    a.extend_bytes(&mut buf);
    assert_eq!(buf[0], 0x03);
    assert_eq!(buf[1], 11);
    assert_eq!(a.size(), 15);
    let (b, n) = Address::from_bytes(&buf).unwrap();
    assert_eq!(n, 15);
    assert_eq!(a, b);
}

#[test]
fn address_bad_type_is_protocol() {
    let r = Address::from_assemble_bytes(&[0x02, 0, 0, 0, 0, 0, 0]);
    assert!(matches!(r, Err(AssembleError::Protocol)));
}

#[test]
fn address_truncated_is_not_ready() {
    // One byte short of a complete IPv4 address.
    let r = Address::from_assemble_bytes(&[0x01, 127, 0, 0, 1, 0]);
    assert!(matches!(r, Err(AssembleError::NotReady)));
    // The same bytes are simply malformed for a complete-buffer parse.
    assert!(Address::from_bytes(&[0x01, 127, 0, 0, 1, 0]).is_err());
    let r = Address::from_assemble_bytes(&[]);
    assert!(matches!(r, Err(AssembleError::NotReady)));
    let r = Address::from_assemble_bytes(&[0x03, 5, b'a', b'b']);
    assert!(matches!(r, Err(AssembleError::NotReady)));
}

#[test]
fn address_domain_bad_utf8_is_protocol() {
    let r = Address::from_assemble_bytes(&[0x03, 1, 0xFF, 0, 80]);
    assert!(matches!(r, Err(AssembleError::Protocol)));
}

#[test]
fn utf8_validation() {
    assert!(validate_utf8(b"plain ascii"));
    assert!(validate_utf8("caf\u{e9} \u{4e2d}\u{6587} \u{1f600}".as_bytes()));
    assert!(!validate_utf8(&[0xC0, 0xAF])); // overlong
    assert!(!validate_utf8(&[0xED, 0xA0, 0x80])); // surrogate
    assert!(!validate_utf8(&[0xF5, 0x80, 0x80, 0x80])); // above U+10FFFF
    assert!(!validate_utf8(&[0x80])); // lone continuation
    assert!(!validate_utf8(&[0xE2, 0x82])); // truncated
}

fn sample_request() -> Request {
    Request {
        pwd: Password::digest(b"hello"),
        cmd: Command::Connect,
        addr: v4(127, 0, 0, 1, 80),
        payload: b"GET / HTTP/1.1\r\n\r\n".to_vec(),
    }
}

#[test]
fn request_round_trip() {
    let r = sample_request();
    let bytes = r.as_bytes();
    let s = Request::from_bytes(&bytes).unwrap();
    assert_eq!(r, s);
    assert_eq!(s.payload, b"GET / HTTP/1.1\r\n\r\n".to_vec());
}

#[test]
fn request_domain_round_trip_empty_payload() {
    let r = Request {
        pwd: Password { raw: [0x5a; 28] },
        cmd: Command::UdpAssociate,
        addr: Address::Name(b"test.invalid".to_vec(), 53),
        payload: Vec::new(),
    };
    let bytes = r.as_bytes();
    let s = Request::from_bytes(&bytes).unwrap();
    assert_eq!(r, s);
}

#[test]
fn request_rejects_non_hex_fingerprint() {
    let mut bytes = sample_request().as_bytes();
    bytes[10] = b'G';
    assert_eq!(Request::from_bytes(&bytes), Err(ProtocolError));
    let mut bytes2 = sample_request().as_bytes();
    bytes2[0] = b'A'; // uppercase is rejected too
    assert_eq!(Request::from_bytes(&bytes2), Err(ProtocolError));
}

#[test]
fn request_rejects_bad_command() {
    let mut bytes = sample_request().as_bytes();
    bytes[58] = 0x02;
    assert_eq!(Request::from_bytes(&bytes), Err(ProtocolError));
}

#[test]
fn request_rejects_missing_crlf() {
    let mut bytes = sample_request().as_bytes();
    bytes[56] = b'X';
    assert_eq!(Request::from_bytes(&bytes), Err(ProtocolError));
    let mut bytes2 = sample_request().as_bytes();
    bytes2[59 + 7] = b'X'; // the CRLF after the 7-byte IPv4 address
    assert_eq!(Request::from_bytes(&bytes2), Err(ProtocolError));
}

#[test]
fn request_rejects_truncation() {
    let bytes = sample_request().as_bytes();
    // Truncating anywhere inside the header is a protocol error.
    assert_eq!(Request::from_bytes(&bytes[..58]).unwrap_err(), ProtocolError);
    assert_eq!(Request::from_bytes(&bytes[..64]).unwrap_err(), ProtocolError);
    assert_eq!(Request::from_bytes(&[]).unwrap_err(), ProtocolError);
}

fn sample_packet() -> UdpPacket {
    UdpPacket::new(v4(8, 8, 8, 8, 53), vec![0xAA; 28])
}

#[test]
fn udp_packet_round_trip() {
    let p = sample_packet();
    let bytes = p.as_bytes();
    assert_eq!(p.size(), bytes.len());
    // The two length bytes spell exactly the payload length.
    assert_eq!(bytes[7], 0);
    assert_eq!(bytes[8], 28);
    assert_eq!(bytes[9], b'\r');
    assert_eq!(bytes[10], b'\n');
    let q = UdpPacket::from_bytes(&bytes).unwrap();
    assert_eq!(p, q);
}

#[test]
fn udp_packet_missing_crlf_is_protocol() {
    let mut bytes = sample_packet().as_bytes();
    bytes[9] = 0;
    assert!(matches!(UdpPacket::from_bytes(&bytes), Err(AssembleError::Protocol)));
}

#[test]
fn udp_packet_truncated_is_not_ready() {
    let bytes = sample_packet().as_bytes();
    let r = UdpPacket::from_bytes(&bytes[..bytes.len() - 1]);
    assert!(matches!(r, Err(AssembleError::NotReady)));
}

#[test]
fn reassembler_handles_fragmentation() {
    let p1 = sample_packet();
    let p2 = UdpPacket::new(Address::Name(b"dns.invalid".to_vec(), 53), vec![7; 3]);
    let mut stream = p1.as_bytes();
    stream.extend(p2.as_bytes());

    let mut buf = UdpPacketBuf::new();
    // First half of the first frame: not ready yet.
    buf.write(&stream[..5]);
    buf.process_new_packet().unwrap();
    assert!(buf.read().is_none());
    // The rest arrives, both frames complete.
    buf.write(&stream[5..]);
    buf.process_new_packet().unwrap();
    let got1 = buf.read().expect("first frame");
    assert_eq!(got1, &p1);
    buf.process_new_packet().unwrap();
    let got2 = buf.read().expect("second frame");
    assert_eq!(got2, &p2);
    buf.process_new_packet().unwrap();
    assert!(buf.read().is_none());
}

#[test]
fn reassembler_rejects_malformed_front() {
    let mut buf = UdpPacketBuf::new();
    buf.write(&[0x09, 0, 0, 0, 0, 0, 0, 0, 0]);
    assert!(buf.process_new_packet().is_err());
}

#[test]
fn address_longest_domain_round_trip() {
    let name = vec![b'a'; 255];
    let a = Address::Name(name, 65535);
    let mut buf = Vec::new();
    a.extend_bytes(&mut buf);
    assert_eq!(buf.len(), 259);
    assert_eq!(a.size(), 259);
    let (b, n) = Address::from_bytes(&buf).unwrap();
    assert_eq!(n, 259);
    assert_eq!(a, b);
}

#[test]
fn udp_packet_empty_payload_round_trip() {
    let p = UdpPacket::new(v4(1, 2, 3, 4, 9), Vec::new());
    let bytes = p.as_bytes();
    assert_eq!(bytes.len(), 11);
    let q = UdpPacket::from_bytes(&bytes).unwrap();
    assert_eq!(p, q);
}
