//! Fallback policy and the PROXY-protocol-v2 preamble.
//!
//! Unauthenticated or malformed traffic is forwarded verbatim to a preset
//! endpoint so the server stays indistinguishable from a plain HTTPS site;
//! the `Proxy` policy additionally prepends a PROXY v2 header describing
//! the original client-server pair. An ALPN-keyed table may override the
//! policy per negotiated protocol.

use vstd::prelude::*;

use crate::addr::be_bytes;
use crate::net::{IpAddress, SocketAddress};

verus! {

/// What to do with traffic that failed to authenticate.
#[derive(Debug, Clone, Copy, PartialEq, Eq, Structural)]
pub enum Fallback {
    /// Forward with a PROXY v2 preamble.
    Proxy(SocketAddress),
    /// Forward verbatim.
    Connect(SocketAddress),
    /// Close the stream.
    Reject,
}

impl Default for Fallback {
    /// Default to rejecting the connection.
    fn default() -> (r: Self)
        ensures
            r == Fallback::Reject,
    {
        Fallback::Reject
    }
}

/// First policy keyed by `a`, front to back.
pub open spec fn spec_lookup_alpn(entries: Seq<(Seq<u8>, Fallback)>, a: Seq<u8>) -> Option<
    Fallback,
>
    decreases entries.len(),
{
    if entries.len() == 0 {
        None
    } else if entries.first().0 == a {
        Some(entries.first().1)
    } else {
        spec_lookup_alpn(entries.drop_first(), a)
    }
}

/// The policy chosen for a connection: the entry keyed by its negotiated
/// ALPN protocol, or the default when none was negotiated or none matches.
pub open spec fn spec_select_fallback(
    dflt: Fallback,
    entries: Seq<(Seq<u8>, Fallback)>,
    alpn: Option<Seq<u8>>,
) -> Fallback {
    match alpn {
        None => dflt,
        Some(a) => match spec_lookup_alpn(entries, a) {
            Some(f) => f,
            None => dflt,
        },
    }
}

/// The fallback configuration: a default policy and the ALPN overrides.
#[derive(Debug)]
pub struct FallbackConfig {
    pub fallback: Fallback,
    pub alpn_fallback: Vec<(Vec<u8>, Fallback)>,
}

/// Bytewise equality of two byte slices.
fn bytes_eq(a: &[u8], b: &[u8]) -> (r: bool)
    ensures
        r == (a@ == b@),
{
    if a.len() != b.len() {
        proof {
            assert(a@ != b@);
        }
        return false;
    }
    let n = a.len();
    let mut i: usize = 0;
    while i < n
        invariant
            i <= n,
            n == a@.len(),
            n == b@.len(),
            forall|j: int| 0 <= j < i ==> a@[j] == b@[j],
        decreases n - i,
    {
        if a[i] != b[i] {
            return false;
        }
        i = i + 1;
    }
    proof {
        assert(a@ =~= b@);
    }
    true
}

impl FallbackConfig {
    /// The view of the override table.
    pub open spec fn entries_view(&self) -> Seq<(Seq<u8>, Fallback)> {
        self.alpn_fallback@.map_values(|e: (Vec<u8>, Fallback)| (e.0@, e.1))
    }

    /// Choose the policy for a connection that negotiated `alpn`.
    pub fn select(&self, alpn: Option<&[u8]>) -> (r: Fallback)
        ensures
            r == spec_select_fallback(
                self.fallback,
                self.entries_view(),
                match alpn {
                    Some(a) => Some(a@),
                    None => None,
                },
            ),
    {
        let a = match alpn {
            Some(a) => a,
            None => {
                return self.fallback;
            },
        };
        let ghost ev = self.entries_view();
        let n = self.alpn_fallback.len();
        let mut i: usize = 0;
        proof {
            assert(ev.skip(0) =~= ev);
        }
        while i < n
            invariant
                i <= n,
                n == self.alpn_fallback@.len(),
                ev == self.entries_view(),
                alpn matches Some(x) && x@ == a@,
                spec_lookup_alpn(ev, a@) == spec_lookup_alpn(ev.skip(i as int), a@),
            decreases n - i,
        {
            proof {
                assert(ev.skip(i as int).first() == ev[i as int]);
                assert(ev.skip(i as int).drop_first() =~= ev.skip(i as int + 1));
            }
            if bytes_eq(self.alpn_fallback[i].0.as_slice(), a) {
                proof {
                    assert(ev[i as int].0 == a@);
                    assert(spec_lookup_alpn(ev.skip(i as int), a@) == Some(ev[i as int].1));
                }
                return self.alpn_fallback[i].1;
            }
            i = i + 1;
        }
        proof {
            assert(ev.skip(n as int).len() == 0);
        }
        self.fallback
    }
}

/// A PROXY-protocol-v2 preamble for a known TCP 4-tuple; both endpoints
/// share one address family.
#[derive(Debug, Clone, Copy, PartialEq, Eq, Structural)]
pub enum ProxyProtocolV2 {
    V4 { src_ip: u32, src_port: u16, dest_ip: u32, dest_port: u16 },
    V6 { src_ip: u128, src_port: u16, dest_ip: u128, dest_port: u16 },
}

/// The 13 fixed bytes every preamble opens with: the v2 signature, then
/// `ver_cmd = 0x21` (version 2, command PROXY).
pub open spec fn proxy_v2_signature() -> Seq<u8> {
    seq![0x0Du8, 0x0Au8, 0x0Du8, 0x0Au8, 0x00u8, 0x0Du8, 0x0Au8, 0x51u8, 0x55u8, 0x49u8, 0x54u8, 0x0Au8, 0x21u8]
}

/// The encoded preamble: signature, family byte (`0x11` TCP/IPv4 or `0x21`
/// TCP/IPv6), big-endian length (12 or 36), then source and destination
/// addresses and ports.
pub open spec fn spec_proxy_v2_encode(p: ProxyProtocolV2) -> Seq<u8> {
    match p {
        ProxyProtocolV2::V4 { src_ip, src_port, dest_ip, dest_port } => proxy_v2_signature()
            + seq![0x11u8, 0u8, 12u8] + be_bytes(src_ip as int, 4) + be_bytes(dest_ip as int, 4)
            + be_bytes(src_port as int, 2) + be_bytes(dest_port as int, 2),
        ProxyProtocolV2::V6 { src_ip, src_port, dest_ip, dest_port } => proxy_v2_signature()
            + seq![0x21u8, 0u8, 36u8] + be_bytes(src_ip as int, 16) + be_bytes(dest_ip as int, 16)
            + be_bytes(src_port as int, 2) + be_bytes(dest_port as int, 2),
    }
}

impl ProxyProtocolV2 {
    /// Describe the client-server pair `src`/`dest`.
    pub fn new(src: SocketAddress, dest: SocketAddress) -> (r: Self)
        requires
            src.ip is V4 <==> dest.ip is V4,
        ensures
            r == match (src.ip, dest.ip) {
                (IpAddress::V4(s), IpAddress::V4(d)) => ProxyProtocolV2::V4 {
                    src_ip: s,
                    src_port: src.port,
                    dest_ip: d,
                    dest_port: dest.port,
                },
                (IpAddress::V6(s), IpAddress::V6(d)) => ProxyProtocolV2::V6 {
                    src_ip: s,
                    src_port: src.port,
                    dest_ip: d,
                    dest_port: dest.port,
                },
                _ => arbitrary(),
            },
    {
        match (src.ip, dest.ip) {
            (IpAddress::V4(s), IpAddress::V4(d)) => ProxyProtocolV2::V4 {
                src_ip: s,
                src_port: src.port,
                dest_ip: d,
                dest_port: dest.port,
            },
            (IpAddress::V6(s), IpAddress::V6(d)) => ProxyProtocolV2::V6 {
                src_ip: s,
                src_port: src.port,
                dest_ip: d,
                dest_port: dest.port,
            },
            _ => {
                proof {
                    assert(false);
                }
                ProxyProtocolV2::V4 { src_ip: 0, src_port: 0, dest_ip: 0, dest_port: 0 }
            },
        }
    }

    /// Encode the preamble.
    pub fn encode(&self) -> (r: Vec<u8>)
        ensures
            r@ == spec_proxy_v2_encode(*self),
    {
        let mut buf: Vec<u8> = Vec::new();
        buf.push(0x0D);
        buf.push(0x0A);
        buf.push(0x0D);
        buf.push(0x0A);
        buf.push(0x00);
        buf.push(0x0D);
        buf.push(0x0A);
        buf.push(0x51);
        buf.push(0x55);
        buf.push(0x49);
        buf.push(0x54);
        buf.push(0x0A);
        buf.push(0x21);
        proof {
            assert(buf@ =~= proxy_v2_signature());
        }
        match self {
            ProxyProtocolV2::V4 { src_ip, src_port, dest_ip, dest_port } => {
                buf.push(0x11);
                buf.push(0);
                buf.push(12);
                crate::addr::push_be_u32(*src_ip, &mut buf);
                crate::addr::push_be_u32(*dest_ip, &mut buf);
                crate::addr::push_be_u16(*src_port, &mut buf);
                crate::addr::push_be_u16(*dest_port, &mut buf);
            },
            ProxyProtocolV2::V6 { src_ip, src_port, dest_ip, dest_port } => {
                buf.push(0x21);
                buf.push(0);
                buf.push(36);
                crate::addr::push_be_u128(*src_ip, &mut buf);
                crate::addr::push_be_u128(*dest_ip, &mut buf);
                crate::addr::push_be_u16(*src_port, &mut buf);
                crate::addr::push_be_u16(*dest_port, &mut buf);
            },
        }
        proof {
            assert(buf@ =~= spec_proxy_v2_encode(*self));
        }
        buf
    }
}

} // verus!
