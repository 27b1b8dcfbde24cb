//! Framed UDP packets and the stream reassembler.
//!
//! Wire form: `address || length(2 BE) || CRLF || payload(length)`. A stream
//! carries a concatenation of such frames; the reassembler accumulates bytes
//! and yields one complete frame at a time.

use vstd::prelude::*;

use crate::addr::{
    addr_decode, addr_encode, addr_encoded_len, addr_wf, AddrDecoded, Address, AddressView,
    be_bytes, be_value, lemma_addr_round_trip, lemma_be_bytes_len, lemma_be_round_trip, pow256,
};
use crate::proto::{AssembleError, ProtocolError};

verus! {

/// A UDP datagram framed for the tunnel: its destination (or source) address
/// and its payload.
#[derive(Debug, Clone, PartialEq, Eq)]
pub struct UdpPacket {
    pub addr: Address,
    pub payload: Vec<u8>,
}

/// The mathematical shape of a [`UdpPacket`].
pub struct UdpPacketView {
    pub addr: AddressView,
    pub payload: Seq<u8>,
}

impl View for UdpPacket {
    type V = UdpPacketView;

    open spec fn view(&self) -> UdpPacketView {
        UdpPacketView { addr: self.addr@, payload: self.payload@ }
    }
}

/// Validity of a framed packet: a valid address and a payload that fits the
/// two-byte length field.
pub open spec fn packet_wf(p: UdpPacketView) -> bool {
    addr_wf(p.addr) && p.payload.len() <= 65535
}

/// Byte size of an encoded packet.
pub open spec fn packet_encoded_len(p: UdpPacketView) -> int {
    addr_encoded_len(p.addr) + 4 + p.payload.len()
}

/// Wire encoding: `address || length(2 BE) || CRLF || payload`.
pub open spec fn packet_encode(p: UdpPacketView) -> Seq<u8> {
    addr_encode(p.addr) + be_bytes(p.payload.len() as int, 2) + seq![13u8, 10u8] + p.payload
}

/// Result of decoding a framed packet from the front of a byte sequence.
pub enum PacketDecoded {
    /// A complete frame, with the number of bytes it covers.
    Ready(UdpPacketView, int),
    /// More bytes are needed.
    NotReady,
    /// The bytes are malformed: a bad address, or a missing CRLF.
    Protocol,
}

/// Decode a framed packet from the front of `s`: an address, a two-byte
/// big-endian length, a CRLF, and exactly `length` payload bytes.
pub open spec fn packet_decode(s: Seq<u8>) -> PacketDecoded {
    match addr_decode(s) {
        AddrDecoded::Protocol => PacketDecoded::Protocol,
        AddrDecoded::NotReady => PacketDecoded::NotReady,
        AddrDecoded::Ready(a, al) => if s.len() < al + 2 {
            PacketDecoded::NotReady
        } else {
            let len = be_value(s.subrange(al, al + 2));
            if s.len() < al + 4 + len {
                PacketDecoded::NotReady
            } else if s[al + 2] != 13 || s[al + 3] != 10 {
                PacketDecoded::Protocol
            } else {
                PacketDecoded::Ready(
                    UdpPacketView { addr: a, payload: s.subrange(al + 4, al + 4 + len) },
                    al + 4 + len,
                )
            }
        },
    }
}

/// Copy `n` bytes of `s` starting at `start` into a fresh vector.
fn copy_range(s: &[u8], start: usize, n: usize) -> (r: Vec<u8>)
    requires
        start + n <= s@.len(),
    ensures
        r@ == s@.subrange(start as int, start as int + n as int),
{
    let slen: usize = s.len();
    let mut out: Vec<u8> = Vec::new();
    let mut i: usize = 0;
    while i < n
        invariant
            i <= n,
            start + n <= slen,
            slen == s@.len(),
            out@ =~= s@.subrange(start as int, start as int + i as int),
        decreases n - i,
    {
        out.push(s[start + i]);
        assert(out@ =~= s@.subrange(start as int, start as int + i as int + 1));
        i = i + 1;
    }
    out
}

impl UdpPacket {
    /// Validity: see [`packet_wf`].
    pub open spec fn wf(&self) -> bool {
        packet_wf(self@)
    }

    /// Build a packet.
    pub fn new(addr: Address, payload: Vec<u8>) -> (r: UdpPacket)
        ensures
            r@.addr == addr@,
            r@.payload == payload@,
    {
        UdpPacket { addr, payload }
    }

    /// Byte size of the encoding of `self`.
    pub fn size(&self) -> (r: usize)
        requires
            self.wf(),
        ensures
            r == packet_encoded_len(self@),
    {
        self.addr.size() + 4 + self.payload.len()
    }

    /// Decode a framed packet from the front of `bytes`.
    ///
    /// # Errors
    ///
    /// `NotReady` when more bytes are needed; `Protocol` when the address is
    /// malformed or the CRLF separator is missing.
    pub fn from_bytes(bytes: &[u8]) -> (r: Result<UdpPacket, AssembleError>)
        ensures
            match r {
                Ok(p) => packet_decode(bytes@) == PacketDecoded::Ready(
                    p@,
                    packet_encoded_len(p@),
                ) && p.wf() && packet_encoded_len(p@) <= bytes@.len(),
                Err(AssembleError::NotReady) => packet_decode(bytes@) is NotReady,
                Err(AssembleError::Protocol) => packet_decode(bytes@) is Protocol,
            },
    {
        let (addr, al) = match Address::from_assemble_bytes(bytes) {
            Ok(x) => x,
            Err(e) => {
                return Err(e);
            },
        };
        if bytes.len() - al < 2 {
            return Err(AssembleError::NotReady);
        }
        proof {
            reveal_with_fuel(pow256, 17);
            crate::addr::lemma_be_value_bound(bytes@.subrange(al as int, al as int + 2));
        }
        let len = crate::addr::read_be_u16(bytes, al);
        let len_us = len as usize;
        if bytes.len() - al < 4 || bytes.len() - al - 4 < len_us {
            return Err(AssembleError::NotReady);
        }
        if bytes[al + 2] != 13 || bytes[al + 3] != 10 {
            return Err(AssembleError::Protocol);
        }
        let payload = copy_range(bytes, al + 4, len_us);
        let p = UdpPacket { addr, payload };
        Ok(p)
    }

    /// Encode `self` to bytes.
    pub fn as_bytes(&self) -> (r: Vec<u8>)
        requires
            self.wf(),
        ensures
            r@ == packet_encode(self@),
    {
        let mut buf: Vec<u8> = Vec::new();
        proof {
            lemma_addr_round_trip(self@.addr, Seq::empty());
            assert(addr_encoded_len(self@.addr) <= 259);
        }
        self.addr.extend_bytes(&mut buf);
        crate::addr::push_be_u16(self.payload.len() as u16, &mut buf);
        buf.push(13);
        buf.push(10);
        let mut i: usize = 0;
        let ghost mid = buf@;
        while i < self.payload.len()
            invariant
                i <= self.payload@.len(),
                buf@ =~= mid + self.payload@.subrange(0, i as int),
                mid.len() + self.payload@.len() <= usize::MAX,
            decreases self.payload@.len() - i,
        {
            let b = self.payload[i];
            buf.push(b);
            assert(buf@ =~= mid + self.payload@.subrange(0, i as int + 1));
            i = i + 1;
        }
        assert(buf@ =~= packet_encode(self@));
        buf
    }
}

/// Law: decoding the encoding of any valid framed packet — however many
/// bytes follow it — yields the packet itself, and the two length bytes
/// spell exactly the payload length.
pub proof fn lemma_packet_round_trip(p: UdpPacketView, rest: Seq<u8>)
    requires
        packet_wf(p),
    ensures
        packet_encode(p).len() == packet_encoded_len(p),
        packet_decode(packet_encode(p) + rest) == PacketDecoded::Ready(p, packet_encoded_len(p)),
        be_value(
            packet_encode(p).subrange(
                addr_encoded_len(p.addr),
                addr_encoded_len(p.addr) + 2,
            ),
        ) == p.payload.len(),
{
    reveal_with_fuel(pow256, 3);
    let al = addr_encoded_len(p.addr);
    let e = packet_encode(p) + rest;
    let tail = be_bytes(p.payload.len() as int, 2) + seq![13u8, 10u8] + p.payload + rest;
    lemma_addr_round_trip(p.addr, tail);
    lemma_be_bytes_len(p.payload.len() as int, 2);
    assert(addr_encode(p.addr) + tail =~= e);
    assert(addr_decode(e) == AddrDecoded::Ready(p.addr, al));
    assert(e.subrange(al, al + 2) =~= be_bytes(p.payload.len() as int, 2));
    lemma_be_round_trip(p.payload.len() as int, 2);
    assert(e[al + 2] == 13);
    assert(e[al + 3] == 10);
    assert(e.subrange(al + 4, al + 4 + p.payload.len()) =~= p.payload);
    assert(packet_encode(p).subrange(al, al + 2) =~= be_bytes(p.payload.len() as int, 2));
}

/// Appending bytes to a sequence whose front already decodes to an address
/// changes nothing about that decoding.
pub proof fn lemma_addr_decode_extend(s: Seq<u8>, t: Seq<u8>)
    requires
        addr_decode(s) is Ready,
    ensures
        addr_decode(s + t) == addr_decode(s),
{
    let e = s + t;
    assert(e[0] == s[0]);
    if s[0] == 1 {
        assert(e.subrange(1, 5) =~= s.subrange(1, 5));
        assert(e.subrange(5, 7) =~= s.subrange(5, 7));
    } else if s[0] == 3 {
        assert(e[1] == s[1]);
        let l = s[1] as int;
        assert(e.subrange(2, 2 + l) =~= s.subrange(2, 2 + l));
        assert(e.subrange(2 + l, 4 + l) =~= s.subrange(2 + l, 4 + l));
    } else {
        assert(e.subrange(1, 17) =~= s.subrange(1, 17));
        assert(e.subrange(17, 19) =~= s.subrange(17, 19));
    }
}

/// Appending bytes to a sequence whose front already decodes to a complete
/// framed packet changes nothing about that decoding.
pub proof fn lemma_packet_decode_extend(s: Seq<u8>, t: Seq<u8>)
    requires
        packet_decode(s) is Ready,
    ensures
        packet_decode(s + t) == packet_decode(s),
{
    let e = s + t;
    lemma_addr_decode_extend(s, t);
    let (a, al) = match addr_decode(s) {
        AddrDecoded::Ready(a, al) => (a, al),
        _ => arbitrary(),
    };
    assert(e.subrange(al, al + 2) =~= s.subrange(al, al + 2));
    let len = be_value(s.subrange(al, al + 2));
    crate::addr::lemma_be_value_bound(s.subrange(al, al + 2));
    assert(e[al + 2] == s[al + 2]);
    assert(e[al + 3] == s[al + 3]);
    assert(e.subrange(al + 4, al + 4 + len) =~= s.subrange(al + 4, al + 4 + len));
}

/// A buffer that receives framed UDP packets out of a byte stream.
///
/// Stream reads may split or join frames arbitrarily, so bytes accumulate
/// here until a complete frame is present; the current frame stays readable
/// until the next call to [`UdpPacketBuf::process_new_packet`] drops its
/// bytes from the front of the buffer.
pub struct UdpPacketBuf {
    buf: Vec<u8>,
    packet: Option<UdpPacket>,
}

impl UdpPacketBuf {
    /// The bytes accumulated and not yet dropped.
    pub closed spec fn buffered(&self) -> Seq<u8> {
        self.buf@
    }

    /// The complete frame currently available, if any.
    pub closed spec fn current(&self) -> Option<UdpPacketView> {
        match self.packet {
            Some(p) => Some(p@),
            None => None,
        }
    }

    /// The current frame, when present, is exactly what the front of the
    /// buffer decodes to.
    pub closed spec fn wf(&self) -> bool {
        match self.packet {
            Some(p) => packet_decode(self.buf@) == PacketDecoded::Ready(
                p@,
                packet_encoded_len(p@),
            ) && packet_wf(p@) && packet_encoded_len(p@) <= self.buf@.len(),
            None => true,
        }
    }

    /// An empty buffer.
    pub fn new() -> (r: UdpPacketBuf)
        ensures
            r.buffered() == Seq::<u8>::empty(),
            r.current() is None,
            r.wf(),
    {
        let r = UdpPacketBuf { buf: Vec::new(), packet: None };
        proof {
            assert(r.buffered() =~= Seq::<u8>::empty());
        }
        r
    }

    /// Read the currently available packet, if any.
    pub fn read(&self) -> (r: Option<&UdpPacket>)
        ensures
            match r {
                Some(p) => self.current() == Some(p@),
                None => self.current() is None,
            },
    {
        self.packet.as_ref()
    }

    /// Append stream bytes to the buffer.
    pub fn write(&mut self, bytes: &[u8])
        requires
            old(self).wf(),
            old(self).buffered().len() + bytes@.len() <= usize::MAX,
        ensures
            final(self).wf(),
            final(self).buffered() == old(self).buffered() + bytes@,
            final(self).current() == old(self).current(),
    {
        let mut i: usize = 0;
        let n = bytes.len();
        let ghost start = self.buf@;
        while i < n
            invariant
                i <= n,
                n == bytes@.len(),
                self.buf@ =~= start + bytes@.subrange(0, i as int),
                start.len() + n <= usize::MAX,
                self.packet == old(self).packet,
            decreases n - i,
        {
            let b = bytes[i];
            self.buf.push(b);
            assert(self.buf@ =~= start + bytes@.subrange(0, i as int + 1));
            i = i + 1;
        }
        proof {
            assert(self.buf@ =~= start + bytes@);
            if old(self).packet is Some {
                lemma_packet_decode_extend(start, bytes@);
            }
        }
    }

    /// Drop the bytes of the previously returned packet, then try to parse
    /// the next one from the front of the buffer.
    ///
    /// # Errors
    ///
    /// `ProtocolError` when the front of the buffer is malformed; the
    /// session is expected to end on it.
    pub fn process_new_packet(&mut self) -> (r: Result<(), ProtocolError>)
        requires
            old(self).wf(),
        ensures
            ({
                let base = match old(self).current() {
                    Some(p) => old(self).buffered().skip(packet_encoded_len(p)),
                    None => old(self).buffered(),
                };
                final(self).buffered() == base && final(self).wf() && match r {
                    Ok(_) => match packet_decode(base) {
                        PacketDecoded::Ready(pv, n) => final(self).current() == Some(pv),
                        PacketDecoded::NotReady => final(self).current() is None,
                        PacketDecoded::Protocol => false,
                    },
                    Err(_) => packet_decode(base) is Protocol,
                }
            }),
    {
        if self.packet.is_some() {
            let pos = match &self.packet {
                Some(p) => p.size(),
                None => 0,
            };
            let rest = copy_range(self.buf.as_slice(), pos, self.buf.len() - pos);
            proof {
                assert(rest@ =~= self.buf@.skip(pos as int));
            }
            self.buf = rest;
            self.packet = None;
        }
        match UdpPacket::from_bytes(self.buf.as_slice()) {
            Ok(p) => {
                self.packet = Some(p);
                Ok(())
            },
            Err(AssembleError::NotReady) => {
                self.packet = None;
                Ok(())
            },
            Err(AssembleError::Protocol) => {
                self.packet = None;
                Err(ProtocolError)
            },
        }
    }
}

} // verus!
