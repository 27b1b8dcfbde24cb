//! End-to-end request handling, the UDP relay machine, reconciliation, and
//! the fallback path.

use trojan_x::addr::Address;
use trojan_x::fallback::{Fallback, FallbackConfig, ProxyProtocolV2};
use trojan_x::limiter::{Limiter, Rate};
use trojan_x::net::{IpAddress, SocketAddress};
use trojan_x::proto::{Command, Password};
use trojan_x::relay::{SessionStatus, UdpRelay, UdpSendStep};
use trojan_x::request::Request;
use trojan_x::session::Verdict;
use trojan_x::store::{ServerContext, UserContext};
use trojan_x::sync::{reconcile, UserRaw};
use trojan_x::udp::UdpPacket;

fn fp(byte: u8) -> Password {
    Password { raw: [byte; 28] }
}

fn v4(a: u8, b: u8, c: u8, d: u8, port: u16) -> Address {
    Address::Ip(SocketAddress { ip: IpAddress::V4(u32::from_be_bytes([a, b, c, d])), port })
}

fn sock(a: u8, port: u16) -> SocketAddress {
    SocketAddress { ip: IpAddress::V4(u32::from_be_bytes([192, 168, 0, a])), port }
}

fn user(id: usize, cap: Option<usize>) -> UserContext {
    UserContext {
        id,
        rx: 0,
        tx: 0,
        limiter: Limiter::new(Rate::Unlimited, 0),
        ips: Vec::new(),
        ip_cap: cap,
    }
}

/// The TCP happy path: the literal request of the password `"hello"`
/// toward `127.0.0.1:80` opens a session, and relaying its 18 payload
/// bytes leaves `tx = 18` on the user record.
#[test]
fn tcp_happy_path() {
    let pwd = Password::digest(b"hello");
    let mut store = ServerContext { users: vec![(pwd, user(7, None))] };

    let mut bytes = Vec::new();
    bytes.extend_from_slice(&pwd.to_hex());
    bytes.extend_from_slice(b"\r\n\x01\x01\x7f\x00\x00\x01\x00\x50\r\n");
    bytes.extend_from_slice(b"GET / HTTP/1.1\r\n\r\n");

    let verdict = store.parse_verify(sock(1, 40000), &bytes, 1000);
    let mut ctx = match verdict {
        Verdict::Session(ctx) => ctx,
        _ => panic!("expected a session"),
    };
    assert!(matches!(ctx.cmd(), Command::Connect));
    assert_eq!(*ctx.addr(), v4(127, 0, 0, 1, 80));
    assert_eq!(ctx.payload().as_slice(), b"GET / HTTP/1.1\r\n\r\n");

    let n = ctx.payload().len();
    ctx.consume(&mut store, n, true, 1000);
    assert_eq!(store.users[0].1.tx, 18);
    assert_eq!(ctx.tx, 18);
    assert_eq!(store.users[0].1.ips, vec![sock(1, 40000).ip]);
}

/// A syntactically valid request under an unknown fingerprint falls back,
/// and the configured `Connect` endpoint is selected.
#[test]
fn bad_password_falls_back() {
    let mut store = ServerContext { users: vec![(Password::digest(b"hello"), user(7, None))] };
    let other = Request {
        pwd: Password::digest(b"wrong"),
        cmd: Command::Connect,
        addr: v4(93, 184, 216, 34, 443),
        payload: b"hello there".to_vec(),
    };
    let bytes = other.as_bytes();
    let verdict = store.parse_verify(sock(2, 40001), &bytes, 0);
    assert!(matches!(verdict, Verdict::Fallback));
    assert!(store.users[0].1.ips.is_empty(), "no IP is recorded on fallback");

    let cfg = FallbackConfig {
        fallback: Fallback::Connect(sock(9, 8080)),
        alpn_fallback: Vec::new(),
    };
    assert_eq!(cfg.select(None), Fallback::Connect(sock(9, 8080)));
}

/// Garbage that is no Trojan request at all falls back too.
#[test]
fn malformed_request_falls_back() {
    let mut store = ServerContext { users: vec![(Password::digest(b"hello"), user(7, None))] };
    let verdict = store.parse_verify(sock(2, 40001), b"GET / HTTP/1.1\r\nHost: x\r\n\r\n", 0);
    assert!(matches!(verdict, Verdict::Fallback));
}

/// The IP cap: with `ip_limit = 1`, the first connection is admitted and
/// the second, from a different IP, closes silently; the set holds exactly
/// the first IP.
#[test]
fn ip_limit_closes_second_connection() {
    let pwd = Password::digest(b"hello");
    let mut store = ServerContext { users: vec![(pwd, user(7, Some(1)))] };
    let req = Request {
        pwd,
        cmd: Command::Connect,
        addr: v4(127, 0, 0, 1, 80),
        payload: Vec::new(),
    };
    let bytes = req.as_bytes();

    let first = store.parse_verify(sock(1, 50000), &bytes, 0);
    assert!(matches!(first, Verdict::Session(_)));
    let second = store.parse_verify(sock(2, 50001), &bytes, 1);
    assert!(matches!(second, Verdict::Close));
    assert_eq!(store.users[0].1.ips, vec![sock(1, 50000).ip]);
}

/// The UDP relay: an authenticated `UdpAssociate` toward `8.8.8.8:53` with
/// one framed 28-byte query sends exactly that datagram; the reply is
/// re-framed toward the original destination and handed back for the
/// stream.
#[test]
fn udp_relay_framed_packet() {
    let dest = v4(8, 8, 8, 8, 53);
    let query = vec![0x12; 28];
    let inner = UdpPacket::new(dest.clone(), query.clone());
    let payload = inner.as_bytes();

    let mut relay = UdpRelay::new(dest.clone(), &payload).unwrap();
    assert!(matches!(relay.status, SessionStatus::UdpSend));

    match relay.next_udp_send().unwrap() {
        UdpSendStep::Send(addr, bytes) => {
            assert_eq!(addr, dest);
            assert_eq!(bytes, query);
        },
        _ => panic!("expected a datagram to send"),
    }
    assert!(matches!(relay.next_udp_send().unwrap(), UdpSendStep::Done));
    assert!(matches!(relay.status, SessionStatus::Recv));

    // The reply arrives on the socket and comes back framed.
    let reply = vec![0x34; 45];
    relay.on_datagram(&reply);
    let frame = relay.take_stream_frame();
    assert!(matches!(relay.status, SessionStatus::Recv));
    let framed = UdpPacket::from_bytes(&frame).unwrap();
    assert_eq!(framed.addr, dest);
    assert_eq!(framed.payload, reply);
}

/// Oversize frames (payload over 8 KiB) are dropped, not sent.
#[test]
fn udp_relay_drops_oversize_frames() {
    let dest = v4(8, 8, 8, 8, 53);
    let big = UdpPacket::new(dest.clone(), vec![0; 8193]);
    let small = UdpPacket::new(dest.clone(), vec![1; 4]);
    let mut payload = big.as_bytes();
    payload.extend(small.as_bytes());

    let mut relay = UdpRelay::new(dest, &payload).unwrap();
    assert!(matches!(relay.next_udp_send().unwrap(), UdpSendStep::Skip));
    match relay.next_udp_send().unwrap() {
        UdpSendStep::Send(_, bytes) => assert_eq!(bytes, vec![1; 4]),
        _ => panic!("the small frame should still be sent"),
    }
    assert!(matches!(relay.next_udp_send().unwrap(), UdpSendStep::Done));
}

/// An empty stream read shuts the relay down; a chunked frame is
/// reassembled across reads.
#[test]
fn udp_relay_stream_reads() {
    let dest = v4(8, 8, 8, 8, 53);
    let packet = UdpPacket::new(dest.clone(), vec![9; 10]);
    let frame = packet.as_bytes();

    let mut relay = UdpRelay::new(dest, &[]).unwrap();
    assert!(matches!(relay.next_udp_send().unwrap(), UdpSendStep::Done));

    relay.on_stream_read(&frame[..4]).unwrap();
    assert!(matches!(relay.next_udp_send().unwrap(), UdpSendStep::Done));
    relay.on_stream_read(&frame[4..]).unwrap();
    match relay.next_udp_send().unwrap() {
        UdpSendStep::Send(_, bytes) => assert_eq!(bytes, vec![9; 10]),
        _ => panic!("expected the reassembled frame"),
    }
    assert!(matches!(relay.next_udp_send().unwrap(), UdpSendStep::Done));

    relay.on_stream_read(&[]).unwrap();
    assert!(matches!(relay.status, SessionStatus::Shutdown));
}

/// Sync reconcile: running `{1: fp_a}` against fetched `{1: fp_b, 2: fp_c}`
/// renames user 1 — counters and limiter state intact — and creates user 2
/// fresh.
#[test]
fn sync_reconcile_renames_and_creates() {
    let fp_a = fp(0xaa);
    let fp_b = fp(0xbb);
    let fp_c = fp(0xcc);

    let mut ctx1 = user(1, None);
    ctx1.tx = 111;
    ctx1.rx = 222;
    ctx1.ips.push(sock(5, 0).ip);
    let mut store = ServerContext { users: vec![(fp_a, ctx1)] };

    let running = vec![UserRaw { id: 1, pwd: fp_a, speed_limit: 0, ip_limit: 0, ip_online: 0 }];
    let fetched = vec![
        UserRaw { id: 1, pwd: fp_b, speed_limit: 2048, ip_limit: 3, ip_online: 1 },
        UserRaw { id: 2, pwd: fp_c, speed_limit: 0, ip_limit: 0, ip_online: 0 },
    ];
    reconcile(&mut store, &running, &fetched, 5000);

    assert_eq!(store.users.len(), 2);
    let (k1, u1) = &store.users[0];
    assert_eq!(*k1, fp_b, "user 1 now lives under the new fingerprint");
    assert_eq!(u1.id, 1);
    assert_eq!(u1.tx, 111, "counters survive the rename");
    assert_eq!(u1.rx, 222);
    assert_eq!(u1.ips, vec![sock(5, 0).ip]);
    assert_eq!(u1.ip_cap, Some(2), "cap 3 minus 1 already online");
    assert!(!u1.limiter.unlimited);
    assert_eq!(u1.limiter.speed_limit, 2048);

    let (k2, u2) = &store.users[1];
    assert_eq!(*k2, fp_c);
    assert_eq!(u2.id, 2);
    assert_eq!(u2.tx, 0);
    assert_eq!(u2.rx, 0);
    assert!(u2.limiter.unlimited);
    assert_eq!(u2.ip_cap, None);
}

/// A user gone from the fetch is removed; an unchanged one is left alone.
#[test]
fn sync_reconcile_removes_stale_users() {
    let fp_a = fp(0xaa);
    let fp_b = fp(0xbb);
    let mut store = ServerContext { users: vec![(fp_a, user(1, None)), (fp_b, user(2, None))] };
    store.users[1].1.tx = 9;

    let running = vec![
        UserRaw { id: 1, pwd: fp_a, speed_limit: 0, ip_limit: 0, ip_online: 0 },
        UserRaw { id: 2, pwd: fp_b, speed_limit: 0, ip_limit: 0, ip_online: 0 },
    ];
    let fetched = vec![UserRaw { id: 2, pwd: fp_b, speed_limit: 0, ip_limit: 0, ip_online: 0 }];
    reconcile(&mut store, &running, &fetched, 0);

    assert_eq!(store.users.len(), 1);
    assert_eq!(store.users[0].0, fp_b);
    assert_eq!(store.users[0].1.tx, 9, "the unchanged user is untouched");
}

/// The ALPN override table picks a policy by the negotiated protocol.
#[test]
fn alpn_fallback_override() {
    let cfg = FallbackConfig {
        fallback: Fallback::Connect(sock(9, 8080)),
        alpn_fallback: vec![
            (b"h2".to_vec(), Fallback::Reject),
            (b"http/1.1".to_vec(), Fallback::Proxy(sock(8, 80))),
        ],
    };
    assert_eq!(cfg.select(Some(b"h2")), Fallback::Reject);
    assert_eq!(cfg.select(Some(b"http/1.1")), Fallback::Proxy(sock(8, 80)));
    assert_eq!(cfg.select(Some(b"spdy/3")), Fallback::Connect(sock(9, 8080)));
    assert_eq!(cfg.select(None), Fallback::Connect(sock(9, 8080)));
}

/// The PROXY v2 preamble, byte for byte, for an IPv4 pair.
#[test]
fn proxy_v2_encoding() {
    let src = SocketAddress { ip: IpAddress::V4(u32::from_be_bytes([127, 0, 0, 1])), port: 80 };
    let dest = SocketAddress { ip: IpAddress::V4(u32::from_be_bytes([10, 0, 0, 1])), port: 443 };
    let bytes = ProxyProtocolV2::new(src, dest).encode();
    let expected: Vec<u8> = vec![
        0x0D, 0x0A, 0x0D, 0x0A, 0x00, 0x0D, 0x0A, 0x51, 0x55, 0x49, 0x54, 0x0A, 0x21, // sig
        0x11, 0x00, 0x0C, // TCP over IPv4, 12 bytes follow
        127, 0, 0, 1, 10, 0, 0, 1, 0, 80, 1, 187,
    ];
    assert_eq!(bytes, expected);
}

/// The PROXY v2 preamble for an IPv6 pair carries family `0x21` and 36
/// address bytes.
#[test]
fn proxy_v2_encoding_v6() {
    let ip1 = u128::from_be_bytes([0, 0, 0, 0, 0, 0, 0, 0, 0, 0, 0, 0, 0, 0, 0, 1]);
    let src = SocketAddress { ip: IpAddress::V6(ip1), port: 1 };
    let dest = SocketAddress { ip: IpAddress::V6(ip1), port: 2 };
    let bytes = ProxyProtocolV2::new(src, dest).encode();
    assert_eq!(bytes.len(), 13 + 3 + 36);
    assert_eq!(bytes[13], 0x21);
    assert_eq!(bytes[14], 0);
    assert_eq!(bytes[15], 36);
    assert_eq!(bytes[31], 1); // src ::1
    assert_eq!(bytes[47], 1); // dest ::1
    assert_eq!(&bytes[48..], &[0, 1, 0, 2]);
}

/// Address families must match before a PROXY v2 preamble can describe a
/// pair.
#[test]
fn ip_family_check() {
    let a = IpAddress::V4(1);
    let b = IpAddress::V4(2);
    let c = IpAddress::V6(3);
    assert!(a.same_family(&b));
    assert!(!a.same_family(&c));
    assert!(c.same_family(&c));
}

/// A fresh record whose fingerprint collides with an existing store entry
/// replaces that entry rather than duplicating the key.
#[test]
fn sync_reconcile_fingerprint_collision_replaces() {
    let fp_a = fp(0xaa);
    let mut ctx = user(1, None);
    ctx.tx = 4;
    let mut store = ServerContext { users: vec![(fp_a, ctx)] };

    // No running set: both fetched users are new, and the second reuses
    // the first's fingerprint.
    let running = Vec::new();
    let fetched = vec![
        UserRaw { id: 1, pwd: fp_a, speed_limit: 0, ip_limit: 0, ip_online: 0 },
        UserRaw { id: 9, pwd: fp_a, speed_limit: 0, ip_limit: 0, ip_online: 0 },
    ];
    reconcile(&mut store, &running, &fetched, 0);

    assert_eq!(store.users.len(), 1);
    assert_eq!(store.users[0].0, fp_a);
    assert_eq!(store.users[0].1.id, 9, "the later record owns the key");
    assert_eq!(store.users[0].1.tx, 0, "a fresh context replaced the old one");
}
