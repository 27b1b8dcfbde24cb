//! SOCKS5-like address field.
//!
//! Wire form: `type(1) || body || port(2 BE)`, with type `0x01` for IPv4
//! (4-byte body), `0x03` for a domain name (`len(1) || bytes`), and `0x04`
//! for IPv6 (16-byte body).

use vstd::prelude::*;

use crate::net::{IpAddress, SocketAddress};
use crate::proto::{AssembleError, ProtocolError};
use crate::utf8::{is_utf8, validate_utf8};

verus! {

/// `256^n`.
pub open spec fn pow256(n: nat) -> int
    decreases n,
{
    if n == 0 {
        1
    } else {
        256 * pow256((n - 1) as nat)
    }
}

/// The `n` big-endian base-256 digits of `x`.
pub open spec fn be_bytes(x: int, n: nat) -> Seq<u8>
    decreases n,
{
    if n == 0 {
        Seq::empty()
    } else {
        be_bytes(x / 256, (n - 1) as nat) + seq![(x % 256) as u8]
    }
}

/// The integer spelled by a big-endian base-256 digit sequence.
pub open spec fn be_value(s: Seq<u8>) -> int
    decreases s.len(),
{
    if s.len() == 0 {
        0
    } else {
        be_value(s.drop_last()) * 256 + s.last()
    }
}

pub proof fn lemma_be_bytes_len(x: int, n: nat)
    ensures
        be_bytes(x, n).len() == n,
    decreases n,
{
    if n > 0 {
        lemma_be_bytes_len(x / 256, (n - 1) as nat);
    }
}

/// Reading back the digits of `x` yields `x`.
pub proof fn lemma_be_round_trip(x: int, n: nat)
    requires
        0 <= x < pow256(n),
    ensures
        be_value(be_bytes(x, n)) == x,
    decreases n,
{
    if n == 0 {
    } else {
        let t = be_bytes(x / 256, (n - 1) as nat);
        lemma_be_bytes_len(x / 256, (n - 1) as nat);
        assert((t + seq![(x % 256) as u8]).drop_last() =~= t);
        assert((t + seq![(x % 256) as u8]).last() == (x % 256) as u8);
        assert(x / 256 < pow256((n - 1) as nat)) by (nonlinear_arith)
            requires
                0 <= x < 256 * pow256((n - 1) as nat),
        ;
        lemma_be_round_trip(x / 256, (n - 1) as nat);
        assert(be_value(be_bytes(x, n)) == (x / 256) * 256 + x % 256);
        assert((x / 256) * 256 + x % 256 == x) by (nonlinear_arith);
    }
}

/// The value of `n` digits is below `256^n`.
pub proof fn lemma_be_value_bound(s: Seq<u8>)
    ensures
        0 <= be_value(s) < pow256(s.len()),
    decreases s.len(),
{
    if s.len() > 0 {
        lemma_be_value_bound(s.drop_last());
        let v = be_value(s.drop_last());
        let p = pow256((s.len() - 1) as nat);
        assert(v * 256 + s.last() < 256 * p) by (nonlinear_arith)
            requires
                0 <= v < p,
                s.last() < 256,
        ;
        assert(v * 256 + s.last() >= 0) by (nonlinear_arith)
            requires
                0 <= v,
                0 <= s.last(),
        ;
    }
}

/// Append the `n` big-endian base-256 digits of `x` to `out`.
fn push_be_bytes(x: u128, n: usize, out: &mut Vec<u8>)
    requires
        n <= 16,
        old(out)@.len() + n <= usize::MAX,
    ensures
        final(out)@ == old(out)@ + be_bytes(x as int, n as nat),
        final(out)@.len() == old(out)@.len() + n,
    decreases n,
{
    proof {
        lemma_be_bytes_len(x as int, n as nat);
    }
    if n == 0 {
        assert(final(out)@ =~= old(out)@ + be_bytes(x as int, 0));
    } else {
        push_be_bytes(x / 256, n - 1, out);
        out.push((x % 256) as u8);
        assert(final(out)@ =~= old(out)@ + be_bytes(x as int, n as nat));
    }
}

/// Read the value of the `n` bytes of `s` starting at `start`, big-endian.
fn read_be_value(s: &[u8], start: usize, n: usize) -> (r: u128)
    requires
        start + n <= s@.len(),
        n <= 16,
    ensures
        r == be_value(s@.subrange(start as int, start as int + n as int)),
{
    let slen: usize = s.len();
    let mut acc: u128 = 0;
    let mut i: usize = 0;
    proof {
        reveal_with_fuel(pow256, 17);
        assert(s@.subrange(start as int, start as int) =~= Seq::<u8>::empty());
    }
    while i < n
        invariant
            i <= n,
            n <= 16,
            start + n <= slen,
            slen == s@.len(),
            acc == be_value(s@.subrange(start as int, start as int + i as int)),
            acc < pow256(i as nat),
            pow256(16) == 0x100000000000000000000000000000000,
        decreases n - i,
    {
        proof {
            reveal_with_fuel(pow256, 17);
            let cur = s@.subrange(start as int, start as int + i as int);
            let next = s@.subrange(start as int, start as int + i as int + 1);
            assert(next.drop_last() =~= cur);
            assert(next.last() == s@[start + i]);
            assert(pow256((i + 1) as nat) == 256 * pow256(i as nat));
            assert(acc * 256 + s@[start + i] < 256 * pow256(i as nat)) by (nonlinear_arith)
                requires
                    0 <= acc < pow256(i as nat),
                    s@[start + i] < 256,
            ;
            assert(256 * pow256(i as nat) <= pow256(16)) by {
                lemma_pow256_increases(((i + 1) as nat), 16);
            }
        }
        acc = acc * 256 + (s[start + i] as u128);
        i = i + 1;
    }
    acc
}

/// An address carried in a Trojan request or a framed UDP packet: either a
/// socket address or a `(domain-name, port)` pair.
#[derive(Debug, Clone, PartialEq, Eq)]
pub enum Address {
    /// An IPv4 or IPv6 socket address.
    Ip(SocketAddress),
    /// A domain name (1 to 255 bytes of valid UTF-8) and a port.
    Name(Vec<u8>, u16),
}

/// The mathematical shape of an [`Address`].
pub enum AddressView {
    Ip(SocketAddress),
    Name(Seq<u8>, u16),
}

impl View for Address {
    type V = AddressView;

    open spec fn view(&self) -> AddressView {
        match self {
            Address::Ip(sa) => AddressView::Ip(*sa),
            Address::Name(n, p) => AddressView::Name(n@, *p),
        }
    }
}

/// Validity of an address: a domain name fits its one-byte length field and
/// is well-formed UTF-8.
pub open spec fn addr_wf(a: AddressView) -> bool {
    match a {
        AddressView::Ip(_) => true,
        AddressView::Name(n, _) => n.len() <= 255 && is_utf8(n),
    }
}

/// Byte size of an encoded address: 7 for IPv4, 19 for IPv6, name length
/// plus 4 for a domain.
pub open spec fn addr_encoded_len(a: AddressView) -> int {
    match a {
        AddressView::Ip(sa) => if sa.ip is V4 {
            7
        } else {
            19
        },
        AddressView::Name(n, _) => n.len() as int + 4,
    }
}

/// Wire encoding of an address: `type(1) || body || port(2 BE)`.
pub open spec fn addr_encode(a: AddressView) -> Seq<u8> {
    match a {
        AddressView::Ip(sa) => match sa.ip {
            IpAddress::V4(x) => seq![1u8] + be_bytes(x as int, 4) + be_bytes(sa.port as int, 2),
            IpAddress::V6(x) => seq![4u8] + be_bytes(x as int, 16) + be_bytes(sa.port as int, 2),
        },
        AddressView::Name(n, p) => seq![3u8, n.len() as u8] + n + be_bytes(p as int, 2),
    }
}

/// Result of decoding an address from the front of a byte sequence.
pub enum AddrDecoded {
    /// A complete, well-formed address, with the number of bytes it covers.
    Ready(AddressView, int),
    /// More bytes are needed.
    NotReady,
    /// The bytes are malformed: unknown type, or a domain that is not UTF-8.
    Protocol,
}

/// Decode an address from the front of `s`: inspect the type byte, demand
/// 7, 19 or `len + 4` bytes, and validate a domain name as UTF-8.
pub open spec fn addr_decode(s: Seq<u8>) -> AddrDecoded {
    if s.len() < 1 {
        AddrDecoded::NotReady
    } else if s[0] == 1 {
        if s.len() < 7 {
            AddrDecoded::NotReady
        } else {
            AddrDecoded::Ready(
                AddressView::Ip(
                    SocketAddress {
                        ip: IpAddress::V4(be_value(s.subrange(1, 5)) as u32),
                        port: be_value(s.subrange(5, 7)) as u16,
                    },
                ),
                7,
            )
        }
    } else if s[0] == 3 {
        if s.len() < 2 {
            AddrDecoded::NotReady
        } else {
            let l = s[1] as int;
            if s.len() < l + 4 {
                AddrDecoded::NotReady
            } else if !is_utf8(s.subrange(2, 2 + l)) {
                AddrDecoded::Protocol
            } else {
                AddrDecoded::Ready(
                    AddressView::Name(
                        s.subrange(2, 2 + l),
                        be_value(s.subrange(2 + l, 4 + l)) as u16,
                    ),
                    l + 4,
                )
            }
        }
    } else if s[0] == 4 {
        if s.len() < 19 {
            AddrDecoded::NotReady
        } else {
            AddrDecoded::Ready(
                AddressView::Ip(
                    SocketAddress {
                        ip: IpAddress::V6(be_value(s.subrange(1, 17)) as u128),
                        port: be_value(s.subrange(17, 19)) as u16,
                    },
                ),
                19,
            )
        }
    } else {
        AddrDecoded::Protocol
    }
}

/// Copy `n` bytes of `s` starting at `start` into a fresh vector.
fn copy_range(s: &[u8], start: usize, n: usize) -> (r: Vec<u8>)
    requires
        start + n <= s@.len(),
    ensures
        r@ == s@.subrange(start as int, start as int + n as int),
{
    let slen: usize = s.len();
    let mut out: Vec<u8> = Vec::new();
    let mut i: usize = 0;
    while i < n
        invariant
            i <= n,
            start + n <= slen,
            slen == s@.len(),
            out@ =~= s@.subrange(start as int, start as int + i as int),
        decreases n - i,
    {
        out.push(s[start + i]);
        assert(out@ =~= s@.subrange(start as int, start as int + i as int + 1));
        i = i + 1;
    }
    out
}

impl Address {
    /// Validity: a domain name fits one byte of length and is UTF-8.
    pub open spec fn wf(&self) -> bool {
        addr_wf(self@)
    }

    /// Byte size of the encoding of `self`.
    pub fn size(&self) -> (r: usize)
        requires
            self.wf(),
        ensures
            r == addr_encoded_len(self@),
    {
        match self {
            Address::Ip(sa) => match sa.ip {
                IpAddress::V4(_) => 7,
                IpAddress::V6(_) => 19,
            },
            Address::Name(n, _) => n.len() + 4,
        }
    }

    /// Decode an address from the front of `bytes`, also returning how many
    /// bytes it covers.
    ///
    /// # Errors
    ///
    /// `NotReady` when more bytes are needed; `Protocol` when the type byte
    /// is unknown or a domain name is not valid UTF-8.
    pub fn from_assemble_bytes(bytes: &[u8]) -> (r: Result<(Address, usize), AssembleError>)
        ensures
            match r {
                Ok((a, n)) => addr_decode(bytes@) == AddrDecoded::Ready(a@, n as int) && a.wf()
                    && n == addr_encoded_len(a@) && n <= bytes@.len(),
                Err(AssembleError::NotReady) => addr_decode(bytes@) is NotReady,
                Err(AssembleError::Protocol) => addr_decode(bytes@) is Protocol,
            },
    {
        proof {
            assert(bytes@.skip(0) =~= bytes@);
        }
        Self::from_assemble_bytes_at(bytes, 0)
    }

    /// Decode an address from `bytes` starting at `start`, as
    /// [`Address::from_assemble_bytes`] does from the front.
    pub fn from_assemble_bytes_at(bytes: &[u8], start: usize) -> (r: Result<
        (Address, usize),
        AssembleError,
    >)
        requires
            start <= bytes@.len(),
        ensures
            match r {
                Ok((a, n)) => addr_decode(bytes@.skip(start as int)) == AddrDecoded::Ready(
                    a@,
                    n as int,
                ) && a.wf() && n == addr_encoded_len(a@) && start + n <= bytes@.len(),
                Err(AssembleError::NotReady) => addr_decode(bytes@.skip(start as int)) is NotReady,
                Err(AssembleError::Protocol) => addr_decode(bytes@.skip(start as int)) is Protocol,
            },
    {
        let ghost s = bytes@.skip(start as int);
        proof {
            assert forall|k: int| 0 <= k < s.len() implies #[trigger] s[k] == bytes@[start + k] by {}
        }
        let blen = bytes.len();
        if blen - start == 0 {
            return Err(AssembleError::NotReady);
        }
        let kind = bytes[start];
        if kind == 1 {
            if blen - start < 7 {
                return Err(AssembleError::NotReady);
            }
            proof {
                reveal_with_fuel(pow256, 17);
                assert(bytes@.subrange(start + 1, start + 5) =~= s.subrange(1, 5));
                assert(bytes@.subrange(start + 5, start + 7) =~= s.subrange(5, 7));
                lemma_be_value_bound(s.subrange(1, 5));
                lemma_be_value_bound(s.subrange(5, 7));
            }
            let ip = read_be_value(bytes, start + 1, 4) as u32;
            let port = read_be_value(bytes, start + 5, 2) as u16;
            Ok((Address::Ip(SocketAddress { ip: IpAddress::V4(ip), port }), 7))
        } else if kind == 3 {
            if blen - start < 2 {
                return Err(AssembleError::NotReady);
            }
            let l = bytes[start + 1] as usize;
            if blen - start < 2 || blen - start - 2 < l + 2 {
                return Err(AssembleError::NotReady);
            }
            let name = copy_range(bytes, start + 2, l);
            proof {
                assert(name@ =~= s.subrange(2, 2 + l as int));
            }
            if !validate_utf8(name.as_slice()) {
                return Err(AssembleError::Protocol);
            }
            proof {
                reveal_with_fuel(pow256, 17);
                assert(bytes@.subrange(start + 2 + l as int, start + 4 + l as int) =~= s.subrange(
                    2 + l as int,
                    4 + l as int,
                ));
                lemma_be_value_bound(s.subrange(2 + l as int, 4 + l as int));
            }
            let port = read_be_value(bytes, start + 2 + l, 2) as u16;
            Ok((Address::Name(name, port), l + 4))
        } else if kind == 4 {
            if blen - start < 19 {
                return Err(AssembleError::NotReady);
            }
            proof {
                reveal_with_fuel(pow256, 17);
                assert(bytes@.subrange(start + 1, start + 17) =~= s.subrange(1, 17));
                assert(bytes@.subrange(start + 17, start + 19) =~= s.subrange(17, 19));
                lemma_be_value_bound(s.subrange(1, 17));
                lemma_be_value_bound(s.subrange(17, 19));
            }
            let ip = read_be_value(bytes, start + 1, 16) as u128;
            let port = read_be_value(bytes, start + 17, 2) as u16;
            Ok((Address::Ip(SocketAddress { ip: IpAddress::V6(ip), port }), 19))
        } else {
            Err(AssembleError::Protocol)
        }
    }

    /// Decode an address out of a complete buffer, where missing bytes are as
    /// malformed as bad ones.
    pub fn from_bytes(bytes: &[u8]) -> (r: Result<(Address, usize), ProtocolError>)
        ensures
            match r {
                Ok((a, n)) => addr_decode(bytes@) == AddrDecoded::Ready(a@, n as int) && a.wf()
                    && n == addr_encoded_len(a@) && n <= bytes@.len(),
                Err(_) => !(addr_decode(bytes@) is Ready),
            },
    {
        match Self::from_assemble_bytes(bytes) {
            Ok(x) => Ok(x),
            Err(_) => Err(ProtocolError),
        }
    }

    /// An owned copy with the same view.
    pub fn duplicate(&self) -> (r: Address)
        ensures
            r@ == self@,
    {
        match self {
            Address::Ip(sa) => Address::Ip(*sa),
            Address::Name(n, p) => {
                let copy = copy_range(n.as_slice(), 0, n.len());
                proof {
                    assert(copy@ =~= n@);
                }
                Address::Name(copy, *p)
            },
        }
    }

    /// Append the wire encoding of `self` to `buf`.
    pub fn extend_bytes(&self, buf: &mut Vec<u8>)
        requires
            self.wf(),
            old(buf)@.len() + addr_encoded_len(self@) <= usize::MAX,
        ensures
            final(buf)@ == old(buf)@ + addr_encode(self@),
    {
        match self {
            Address::Ip(sa) => {
                match sa.ip {
                    IpAddress::V4(x) => {
                        buf.push(1);
                        push_be_bytes(x as u128, 4, buf);
                        push_be_bytes(sa.port as u128, 2, buf);
                        assert(final(buf)@ =~= old(buf)@ + addr_encode(self@));
                    },
                    IpAddress::V6(x) => {
                        buf.push(4);
                        push_be_bytes(x, 16, buf);
                        push_be_bytes(sa.port as u128, 2, buf);
                        assert(final(buf)@ =~= old(buf)@ + addr_encode(self@));
                    },
                }
            },
            Address::Name(n, p) => {
                buf.push(3);
                buf.push(n.len() as u8);
                let mut i: usize = 0;
                let ghost mid = old(buf)@ + seq![3u8, n@.len() as u8];
                while i < n.len()
                    invariant
                        i <= n@.len(),
                        buf@ =~= mid + n@.subrange(0, i as int),
                        mid.len() + n@.len() + 2 <= usize::MAX,
                    decreases n@.len() - i,
                {
                    let b = n[i];
                    buf.push(b);
                    assert(buf@ =~= mid + n@.subrange(0, i as int + 1));
                    i = i + 1;
                }
                assert(buf@ =~= mid + n@);
                push_be_bytes(*p as u128, 2, buf);
                assert(final(buf)@ =~= old(buf)@ + addr_encode(self@));
            },
        }
    }
}

/// Law: decoding the encoding of any valid address — however many bytes
/// follow it — yields the address itself, and the encoded size is 7 for
/// IPv4, 19 for IPv6, and name length plus 4 for a domain.
pub proof fn lemma_addr_round_trip(a: AddressView, rest: Seq<u8>)
    requires
        addr_wf(a),
    ensures
        addr_encode(a).len() == addr_encoded_len(a),
        addr_decode(addr_encode(a) + rest) == AddrDecoded::Ready(a, addr_encoded_len(a)),
{
    reveal_with_fuel(pow256, 17);
    let e = addr_encode(a) + rest;
    match a {
        AddressView::Ip(sa) => match sa.ip {
            IpAddress::V4(x) => {
                lemma_be_bytes_len(x as int, 4);
                lemma_be_bytes_len(sa.port as int, 2);
                assert(e[0] == 1);
                assert(e.subrange(1, 5) =~= be_bytes(x as int, 4));
                assert(e.subrange(5, 7) =~= be_bytes(sa.port as int, 2));
                lemma_be_round_trip(x as int, 4);
                lemma_be_round_trip(sa.port as int, 2);
            },
            IpAddress::V6(x) => {
                lemma_be_bytes_len(x as int, 16);
                lemma_be_bytes_len(sa.port as int, 2);
                assert(e[0] == 4);
                assert(e.subrange(1, 17) =~= be_bytes(x as int, 16));
                assert(e.subrange(17, 19) =~= be_bytes(sa.port as int, 2));
                lemma_be_round_trip(x as int, 16);
                lemma_be_round_trip(sa.port as int, 2);
            },
        },
        AddressView::Name(n, p) => {
            let l = n.len() as int;
            lemma_be_bytes_len(p as int, 2);
            assert(e[0] == 3);
            assert(e[1] == l as u8);
            assert(e.subrange(2, 2 + l) =~= n);
            assert(e.subrange(2 + l, 4 + l) =~= be_bytes(p as int, 2));
            lemma_be_round_trip(p as int, 2);
        },
    }
}

/// Read the two-byte big-endian value at `start`.
pub fn read_be_u16(s: &[u8], start: usize) -> (r: u16)
    requires
        start + 2 <= s@.len(),
    ensures
        r == be_value(s@.subrange(start as int, start as int + 2)),
{
    proof {
        reveal_with_fuel(pow256, 3);
        lemma_be_value_bound(s@.subrange(start as int, start as int + 2));
    }
    read_be_value(s, start, 2) as u16
}

/// Append the two big-endian bytes of `x` to `out`.
pub fn push_be_u16(x: u16, out: &mut Vec<u8>)
    requires
        old(out)@.len() + 2 <= usize::MAX,
    ensures
        final(out)@ == old(out)@ + be_bytes(x as int, 2),
        final(out)@.len() == old(out)@.len() + 2,
{
    push_be_bytes(x as u128, 2, out);
}

/// Append the four big-endian bytes of `x` to `out`.
pub fn push_be_u32(x: u32, out: &mut Vec<u8>)
    requires
        old(out)@.len() + 4 <= usize::MAX,
    ensures
        final(out)@ == old(out)@ + be_bytes(x as int, 4),
        final(out)@.len() == old(out)@.len() + 4,
{
    push_be_bytes(x as u128, 4, out);
}

/// Append the sixteen big-endian bytes of `x` to `out`.
pub fn push_be_u128(x: u128, out: &mut Vec<u8>)
    requires
        old(out)@.len() + 16 <= usize::MAX,
    ensures
        final(out)@ == old(out)@ + be_bytes(x as int, 16),
        final(out)@.len() == old(out)@.len() + 16,
{
    push_be_bytes(x, 16, out);
}

proof fn lemma_pow256_increases(m: nat, n: nat)
    requires
        m <= n,
    ensures
        pow256(m) <= pow256(n),
        pow256(m) >= 1,
    decreases n,
{
    if n > 0 {
        if m == n {
            lemma_pow256_increases((n - 1) as nat, (n - 1) as nat);
        } else {
            lemma_pow256_increases(m, (n - 1) as nat);
        }
    }
}

} // verus!
