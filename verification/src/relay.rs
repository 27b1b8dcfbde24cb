//! The UDP relay state machine.
//!
//! A `UdpAssociate` session bridges the TLS stream and a UDP socket. The
//! stream carries framed packets; each complete frame whose payload fits
//! the per-datagram cap is sent to the address it carries, and each
//! datagram the socket yields is framed toward the session's original
//! destination and written back to the stream. The machine below holds the
//! reassembly buffer and the four states; the unverified driver performs
//! the socket and stream operations it is told to.

use vstd::prelude::*;

use crate::addr::{Address, AddressView};
use crate::proto::ProtocolError;
use crate::udp::{
    packet_decode, packet_encode, packet_encoded_len, PacketDecoded, UdpPacket, UdpPacketBuf,
    UdpPacketView,
};

verus! {

/// The per-datagram cap: outbound UDP payloads above this are dropped.
pub const PAYLOAD_LEN: usize = 8192;

/// Where the relay stands.
#[derive(Debug)]
pub enum SessionStatus {
    /// Waiting for the stream or the socket to yield.
    Recv,
    /// Draining complete frames out of the reassembly buffer.
    UdpSend,
    /// A frame is ready to be written back on the stream.
    StreamSend(Vec<u8>),
    /// The stream is to be flushed and shut down.
    Shutdown,
}

/// One instruction for the driver after the buffer was consulted.
pub enum UdpSendStep {
    /// Send this payload to this address, and meter it as tx.
    Send(Address, Vec<u8>),
    /// An oversize frame was dropped; consult the buffer again.
    Skip,
    /// No complete frame remains; go back to waiting.
    Done,
}

/// The relay: the session's destination, the reassembly buffer, and the
/// current state.
pub struct UdpRelay {
    pub dest: Address,
    pub buf: UdpPacketBuf,
    pub status: SessionStatus,
}

impl UdpRelay {
    /// The machine's invariant: a valid destination and a coherent buffer.
    pub open spec fn wf(&self) -> bool {
        &&& self.dest.wf()
        &&& self.buf.wf()
    }

    /// The session's original destination.
    pub open spec fn dest_view(&self) -> AddressView {
        self.dest@
    }

    /// The complete frame the buffer currently offers, if any.
    pub open spec fn current(&self) -> Option<UdpPacketView> {
        self.buf.current()
    }

    /// The bytes accumulated from the stream and not yet dropped.
    pub open spec fn buffered(&self) -> Seq<u8> {
        self.buf.buffered()
    }

    /// The buffer once the frame it currently offers is dropped.
    pub open spec fn advanced(&self) -> Seq<u8> {
        match self.current() {
            Some(p) => self.buffered().skip(packet_encoded_len(p)),
            None => self.buffered(),
        }
    }

    /// The buffer state `advance` leads to: the front of `base` decodes to
    /// the next current frame, or to none while more bytes are awaited.
    pub open spec fn advanced_to(&self, base: Seq<u8>) -> bool {
        self.buffered() == base && match packet_decode(base) {
            PacketDecoded::Ready(pv, n) => self.current() == Some(pv),
            PacketDecoded::NotReady => self.current() is None,
            PacketDecoded::Protocol => false,
        }
    }

    /// Open a relay toward `dest` with the request's in-band payload.
    ///
    /// # Errors
    ///
    /// `ProtocolError` when the payload's first frame is malformed.
    pub fn new(dest: Address, payload: &[u8]) -> (r: Result<UdpRelay, ProtocolError>)
        requires
            dest.wf(),
        ensures
            match r {
                Ok(m) => m.wf() && m.dest_view() == dest@ && (m.status is UdpSend)
                    && m.advanced_to(payload@),
                Err(_) => packet_decode(payload@) is Protocol,
            },
    {
        let mut buf = UdpPacketBuf::new();
        let plen: usize = payload.len();
        proof {
            assert(payload@.len() == plen);
        }
        buf.write(payload);
        proof {
            assert(Seq::<u8>::empty() + payload@ =~= payload@);
        }
        match buf.process_new_packet() {
            Ok(_) => Ok(UdpRelay { dest, buf, status: SessionStatus::UdpSend }),
            Err(e) => Err(e),
        }
    }

    /// Feed bytes read from the stream; an empty read means the peer shut
    /// the stream down.
    ///
    /// # Errors
    ///
    /// `ProtocolError` when the buffer's front turns malformed; the
    /// session ends on it.
    pub fn on_stream_read(&mut self, bytes: &[u8]) -> (r: Result<(), ProtocolError>)
        requires
            old(self).wf(),
            old(self).status is Recv,
            old(self).buf.buffered().len() + bytes@.len() <= usize::MAX,
        ensures
            final(self).wf(),
            final(self).dest_view() == old(self).dest_view(),
            bytes@.len() == 0 ==> r is Ok && (final(self).status is Shutdown)
                && final(self).buffered() == old(self).buffered() && final(self).current() == old(self).current(),
            bytes@.len() > 0 ==> {
                let base = match old(self).current() {
                    Some(p) => (old(self).buffered() + bytes@).skip(packet_encoded_len(p)),
                    None => old(self).buffered() + bytes@,
                };
                match r {
                    Ok(_) => (final(self).status is UdpSend) && final(self).advanced_to(base),
                    Err(_) => packet_decode(base) is Protocol,
                }
            },
    {
        if bytes.len() == 0 {
            self.status = SessionStatus::Shutdown;
            return Ok(());
        }
        self.buf.write(bytes);
        match self.buf.process_new_packet() {
            Ok(_) => {
                self.status = SessionStatus::UdpSend;
                Ok(())
            },
            Err(e) => Err(e),
        }
    }

    /// Consult the buffer while draining: a frame within the cap is handed
    /// out to be sent, an oversize one is dropped, and an empty buffer
    /// sends the machine back to waiting.
    ///
    /// # Errors
    ///
    /// `ProtocolError` when the bytes after the consumed frame are
    /// malformed.
    pub fn next_udp_send(&mut self) -> (r: Result<UdpSendStep, ProtocolError>)
        requires
            old(self).wf(),
            old(self).status is UdpSend,
        ensures
            final(self).wf(),
            final(self).dest_view() == old(self).dest_view(),
            match r {
                Ok(UdpSendStep::Send(a, p)) => match old(self).current() {
                    Some(pkt) => a@ == pkt.addr && p@ == pkt.payload && p@.len() <= PAYLOAD_LEN
                        && (final(self).status is UdpSend) && final(self).advanced_to(old(self).advanced()),
                    None => false,
                },
                Ok(UdpSendStep::Skip) => match old(self).current() {
                    Some(pkt) => pkt.payload.len() > PAYLOAD_LEN && (final(self).status
                        is UdpSend) && final(self).advanced_to(old(self).advanced()),
                    None => false,
                },
                Ok(UdpSendStep::Done) => old(self).current() is None && (final(self).status
                    is Recv) && final(self).buffered() == old(self).buffered()
                    && (final(self).current() is None),
                Err(_) => (old(self).current() is Some) && (packet_decode(old(self).advanced()) is Protocol),
            },
    {
        let (addr, payload, has) = match self.buf.read() {
            Some(p) => {
                if p.payload.len() <= PAYLOAD_LEN {
                    let a = p.addr.duplicate();
                    let bytes = copy_payload(&p.payload);
                    (Some(a), Some(bytes), true)
                } else {
                    (None, None, true)
                }
            },
            None => (None, None, false),
        };
        if has == false {
            self.status = SessionStatus::Recv;
            return Ok(UdpSendStep::Done);
        }
        match self.buf.process_new_packet() {
            Ok(_) => {},
            Err(e) => {
                return Err(e);
            },
        }
        match (addr, payload) {
            (Some(a), Some(p)) => Ok(UdpSendStep::Send(a, p)),
            _ => Ok(UdpSendStep::Skip),
        }
    }

    /// Frame a datagram the socket yielded toward the session's original
    /// destination; the frame waits in `StreamSend` until the driver has
    /// written it.
    pub fn on_datagram(&mut self, payload: &[u8])
        requires
            old(self).wf(),
            old(self).status is Recv,
            payload@.len() <= 65535,
        ensures
            final(self).wf(),
            final(self).dest_view() == old(self).dest_view(),
            final(self).current() == old(self).current(),
            final(self).status matches SessionStatus::StreamSend(frame) && frame@ == packet_encode(
                UdpPacketView { addr: old(self).dest_view(), payload: payload@ },
            ),
    {
        let addr = self.dest.duplicate();
        let bytes = copy_slice(payload);
        let packet = UdpPacket::new(addr, bytes);
        let frame = packet.as_bytes();
        self.status = SessionStatus::StreamSend(frame);
    }

    /// Hand the waiting frame out to be written; the machine goes back to
    /// waiting.
    pub fn take_stream_frame(&mut self) -> (r: Vec<u8>)
        requires
            old(self).wf(),
            old(self).status matches SessionStatus::StreamSend(_),
        ensures
            final(self).wf(),
            final(self).dest_view() == old(self).dest_view(),
            final(self).current() == old(self).current(),
            final(self).status is Recv,
            old(self).status matches SessionStatus::StreamSend(frame) && r == frame,
    {
        let mut taken = SessionStatus::Recv;
        core::mem::swap(&mut self.status, &mut taken);
        match taken {
            SessionStatus::StreamSend(frame) => frame,
            _ => {
                proof {
                    assert(false);
                }
                Vec::new()
            },
        }
    }
}

/// An owned copy of a payload vector.
fn copy_payload(p: &Vec<u8>) -> (r: Vec<u8>)
    ensures
        r@ == p@,
{
    let r = copy_slice(p.as_slice());
    r
}

/// An owned copy of a byte slice.
fn copy_slice(s: &[u8]) -> (r: Vec<u8>)
    ensures
        r@ == s@,
{
    let n = s.len();
    let mut out: Vec<u8> = Vec::new();
    let mut i: usize = 0;
    while i < n
        invariant
            i <= n,
            n == s@.len(),
            out@ =~= s@.subrange(0, i as int),
        decreases n - i,
    {
        out.push(s[i]);
        assert(out@ =~= s@.subrange(0, i as int + 1));
        i = i + 1;
    }
    proof {
        assert(out@ =~= s@);
    }
    out
}

} // verus!
