//! User-store behaviour: admission, the IP cap, and counter flushes.

use trojan_x::limiter::{Limiter, Rate};
use trojan_x::net::{IpAddress, SocketAddress};
use trojan_x::proto::Password;
use trojan_x::store::{ServerContext, UserContext, UserVerifyError};
use trojan_x::sync::{Request, Response};

fn fp(byte: u8) -> Password {
    Password { raw: [byte; 28] }
}

fn user(id: usize, cap: Option<usize>) -> UserContext {
    UserContext {
        id,
        rx: 0,
        tx: 0,
        limiter: Limiter::new(Rate::Unlimited, 0),
        ips: Vec::new(),
        ip_cap: cap,
    }
}

fn src(a: u8, port: u16) -> SocketAddress {
    SocketAddress { ip: IpAddress::V4(u32::from_be_bytes([10, 0, 0, a])), port }
}

#[test]
fn verify_unknown_fingerprint() {
    let mut store = ServerContext { users: vec![(fp(1), user(7, None))] };
    let r = store.verify(src(1, 1000), &fp(2));
    assert!(matches!(r, Err(UserVerifyError::Password)));
    assert!(store.users[0].1.ips.is_empty());
}

#[test]
fn verify_without_cap_admits_two_ips() {
    let mut store = ServerContext { users: vec![(fp(1), user(7, None))] };
    assert!(store.verify(src(1, 1000), &fp(1)).is_ok());
    assert!(store.verify(src(2, 2000), &fp(1)).is_ok());
    assert_eq!(store.users[0].1.ips.len(), 2);
    // The same IP again (other port) does not grow the set.
    assert!(store.verify(src(2, 3000), &fp(1)).is_ok());
    assert_eq!(store.users[0].1.ips.len(), 2);
}

#[test]
fn verify_with_cap_one_rejects_second_ip() {
    let mut store = ServerContext { users: vec![(fp(1), user(7, Some(1)))] };
    assert!(store.verify(src(1, 1000), &fp(1)).is_ok());
    let r = store.verify(src(2, 2000), &fp(1));
    assert!(matches!(r, Err(UserVerifyError::IpLimit)));
    // The set still holds exactly the first IP.
    assert_eq!(store.users[0].1.ips, vec![src(1, 1000).ip]);
    // The first IP itself stays admitted.
    assert!(store.verify(src(1, 4000), &fp(1)).is_ok());
}

#[test]
fn traffic_flush_subtracts_exactly_what_was_reported() {
    let mut store = ServerContext { users: vec![(fp(1), user(7, None)), (fp(2), user(8, None))] };
    store.users[0].1.tx = 10;
    store.users[0].1.rx = 20;

    let rows = store.collect_update();
    assert_eq!(rows.len(), 1, "only the user with traffic is reported");
    assert_eq!(rows[0].user_id, 7);
    assert_eq!(rows[0].tx, 10);
    assert_eq!(rows[0].rx, 20);

    // Concurrent sessions add more while the flush is in flight.
    store.users[0].1.tx += 5;
    store.users[0].1.rx += 1;

    store.assume_update(&rows);
    assert_eq!(store.users[0].1.tx, 5, "the concurrent bytes survive");
    assert_eq!(store.users[0].1.rx, 1);
    assert_eq!(store.users[1].1.tx, 0);
}

#[test]
fn flush_row_for_vanished_user_is_ignored() {
    let mut store = ServerContext { users: vec![(fp(1), user(7, None))] };
    store.users[0].1.tx = 3;
    let rows = store.collect_update();
    store.users.clear();
    store.assume_update(&rows);
    assert!(store.users.is_empty());
}

#[test]
fn collect_ip_drains_every_set() {
    let mut store = ServerContext { users: vec![(fp(1), user(7, None)), (fp(2), user(8, None))] };
    assert!(store.verify(src(1, 1), &fp(1)).is_ok());
    assert!(store.verify(src(2, 2), &fp(1)).is_ok());
    assert!(store.verify(src(3, 3), &fp(2)).is_ok());

    let rows = store.collect_ip();
    assert_eq!(rows.len(), 3);
    assert_eq!(rows[0].user_id, 7);
    assert_eq!(rows[0].ip, src(1, 1).ip);
    assert_eq!(rows[1].user_id, 7);
    assert_eq!(rows[1].ip, src(2, 2).ip);
    assert_eq!(rows[2].user_id, 8);
    assert_eq!(rows[2].ip, src(3, 3).ip);
    assert!(store.users[0].1.ips.is_empty());
    assert!(store.users[1].1.ips.is_empty());

    // A new window re-accumulates only what verifies again.
    assert!(store.verify(src(2, 9), &fp(1)).is_ok());
    assert_eq!(store.users[0].1.ips, vec![src(2, 9).ip]);
}

#[test]
fn panel_envelope_accepted() {
    let ok: Response<Vec<u8>> = Response { status: 1, data: vec![] };
    assert!(ok.accepted());
    let err: Response<Vec<u8>> = Response { status: -1, data: vec![] };
    assert!(!err.accepted());
    let body = Request { data: vec![1u8, 2, 3] };
    assert_eq!(body.data.len(), 3);
}

#[test]
fn consume_traffic_meters_and_consults_limiter() {
    let mut store = ServerContext { users: vec![(fp(1), user(7, None))] };
    store.users[0].1.limiter = Limiter::new(Rate::Limited(1000), 0);
    // 100 bytes upstream on an empty bucket: metered, and a pause is owed.
    let d = store.consume_traffic(0, 100, true, 0);
    assert_eq!(store.users[0].1.tx, 100);
    assert_eq!(store.users[0].1.rx, 0);
    assert_eq!(d, 200 + 100);
    // 50 bytes toward the client much later: bucket refilled to capacity.
    let d = store.consume_traffic(0, 50, false, 10000);
    assert_eq!(store.users[0].1.rx, 50);
    assert_eq!(d, 0);
}
