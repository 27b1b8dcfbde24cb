//! The Trojan request.
//!
//! Wire form: `fingerprint(56 hex) || CRLF || command(1) || address || CRLF
//! || payload(rest)`. The payload is in-band bytes to forward once the
//! tunnel is up; for `UdpAssociate` it is itself a concatenation of framed
//! UDP packets.

use vstd::prelude::*;

use crate::addr::{addr_decode, addr_encode, addr_encoded_len, addr_wf, AddrDecoded, Address,
    AddressView};
use crate::proto::{command_byte, hex_decode, hex_encode, is_hex_digit, Command, Password,
    ProtocolError};

verus! {

/// A parsed Trojan request.
#[derive(Debug, Clone, PartialEq, Eq)]
pub struct Request {
    pub pwd: Password,
    pub cmd: Command,
    pub addr: Address,
    pub payload: Vec<u8>,
}

/// The mathematical shape of a [`Request`].
pub struct RequestView {
    pub pwd: Seq<u8>,
    pub cmd: Command,
    pub addr: AddressView,
    pub payload: Seq<u8>,
}

impl View for Request {
    type V = RequestView;

    open spec fn view(&self) -> RequestView {
        RequestView { pwd: self.pwd@, cmd: self.cmd, addr: self.addr@, payload: self.payload@ }
    }
}

/// Validity of a request: a 28-byte fingerprint and a valid address.
pub open spec fn request_wf(r: RequestView) -> bool {
    r.pwd.len() == 28 && addr_wf(r.addr)
}

/// Wire encoding of a request.
pub open spec fn request_encode(r: RequestView) -> Seq<u8> {
    hex_encode(r.pwd) + seq![13u8, 10u8, command_byte(r.cmd)] + addr_encode(r.addr) + seq![
        13u8,
        10u8,
    ] + r.payload
}

/// Result of parsing a request out of a complete buffer.
pub enum RequestDecoded {
    Ready(RequestView),
    Protocol,
}

/// Parse a request: 56 lowercase hexadecimal bytes, CRLF, a command byte in
/// `{0x01, 0x03}`, an address, CRLF, then the payload. Anything else — a
/// non-hex fingerprint byte, a bad command, a missing CRLF, a malformed or
/// incomplete address, or a short buffer — is one `Protocol` error.
pub open spec fn request_decode(s: Seq<u8>) -> RequestDecoded {
    if s.len() < 59 {
        RequestDecoded::Protocol
    } else if exists|i: int| 0 <= i < 56 && !is_hex_digit(#[trigger] s[i]) {
        RequestDecoded::Protocol
    } else if s[56] != 13 || s[57] != 10 {
        RequestDecoded::Protocol
    } else if s[58] != 1 && s[58] != 3 {
        RequestDecoded::Protocol
    } else {
        match addr_decode(s.skip(59)) {
            AddrDecoded::Ready(a, al) => if s.len() < 61 + al || s[59 + al] != 13 || s[60 + al]
                != 10 {
                RequestDecoded::Protocol
            } else {
                RequestDecoded::Ready(
                    RequestView {
                        pwd: hex_decode(s.subrange(0, 56)),
                        cmd: if s[58] == 1 {
                            Command::Connect
                        } else {
                            Command::UdpAssociate
                        },
                        addr: a,
                        payload: s.skip(61 + al),
                    },
                )
            },
            _ => RequestDecoded::Protocol,
        }
    }
}

/// Copy `n` bytes of `s` starting at `start` into a fresh vector.
fn copy_range(s: &[u8], start: usize, n: usize) -> (r: Vec<u8>)
    requires
        start + n <= s@.len(),
    ensures
        r@ == s@.subrange(start as int, start as int + n as int),
{
    let slen: usize = s.len();
    let mut out: Vec<u8> = Vec::new();
    let mut i: usize = 0;
    while i < n
        invariant
            i <= n,
            start + n <= slen,
            slen == s@.len(),
            out@ =~= s@.subrange(start as int, start as int + i as int),
        decreases n - i,
    {
        out.push(s[start + i]);
        assert(out@ =~= s@.subrange(start as int, start as int + i as int + 1));
        i = i + 1;
    }
    out
}

impl Request {
    /// Validity: see [`request_wf`].
    pub open spec fn wf(&self) -> bool {
        request_wf(self@)
    }

    /// Parse a Trojan request out of a complete buffer.
    ///
    /// # Errors
    ///
    /// A single `ProtocolError`, exactly when [`request_decode`] rejects the
    /// bytes.
    pub fn from_bytes(bytes: &[u8]) -> (r: Result<Request, ProtocolError>)
        ensures
            match r {
                Ok(req) => request_decode(bytes@) == RequestDecoded::Ready(req@) && req.wf(),
                Err(_) => request_decode(bytes@) is Protocol,
            },
    {
        let blen = bytes.len();
        if blen < 59 {
            return Err(ProtocolError);
        }
        let pwd = match Password::from_hex(bytes) {
            Ok(p) => p,
            Err(e) => {
                return Err(e);
            },
        };
        proof {
            assert(bytes@.take(56) =~= bytes@.subrange(0, 56));
        }
        if bytes[56] != 13 || bytes[57] != 10 {
            return Err(ProtocolError);
        }
        let cmd = match Command::from_byte(bytes[58]) {
            Ok(c) => c,
            Err(e) => {
                return Err(e);
            },
        };
        let (addr, al) = match Address::from_assemble_bytes_at(bytes, 59) {
            Ok(x) => x,
            Err(_) => {
                return Err(ProtocolError);
            },
        };
        if blen - 59 - al < 2 {
            return Err(ProtocolError);
        }
        if bytes[59 + al] != 13 || bytes[60 + al] != 10 {
            return Err(ProtocolError);
        }
        let payload = copy_range(bytes, 61 + al, blen - 61 - al);
        proof {
            assert(payload@ =~= bytes@.skip(61 + al as int));
        }
        let req = Request { pwd, cmd, addr, payload };
        proof {
            assert(request_decode(bytes@) == RequestDecoded::Ready(req@));
        }
        Ok(req)
    }

    /// Encode `self` to bytes; the payload is appended verbatim.
    pub fn as_bytes(&self) -> (r: Vec<u8>)
        requires
            self.wf(),
            self.payload@.len() + 320 <= usize::MAX,
        ensures
            r@ == request_encode(self@),
    {
        let mut buf: Vec<u8> = Vec::new();
        let hex = self.pwd.to_hex();
        let mut i: usize = 0;
        while i < 56
            invariant
                i <= 56,
                hex@.len() == 56,
                hex@ == hex_encode(self.pwd@),
                buf@ =~= hex@.subrange(0, i as int),
            decreases 56 - i,
        {
            buf.push(hex[i]);
            assert(buf@ =~= hex@.subrange(0, i as int + 1));
            i = i + 1;
        }
        assert(buf@ =~= hex_encode(self@.pwd));
        buf.push(13);
        buf.push(10);
        buf.push(self.cmd.to_byte());
        proof {
            crate::addr::lemma_addr_round_trip(self@.addr, Seq::empty());
            assert(addr_encoded_len(self@.addr) <= 259);
        }
        self.addr.extend_bytes(&mut buf);
        buf.push(13);
        buf.push(10);
        let ghost mid = buf@;
        let mut j: usize = 0;
        while j < self.payload.len()
            invariant
                j <= self.payload@.len(),
                buf@ =~= mid + self.payload@.subrange(0, j as int),
            decreases self.payload@.len() - j,
        {
            let b = self.payload[j];
            buf.push(b);
            assert(buf@ =~= mid + self.payload@.subrange(0, j as int + 1));
            j = j + 1;
        }
        assert(buf@ =~= request_encode(self@));
        buf
    }
}

/// Law: parsing the encoding of any valid request yields the request
/// itself, payload bytes included.
pub proof fn lemma_request_round_trip(r: RequestView)
    requires
        request_wf(r),
    ensures
        request_decode(request_encode(r)) == RequestDecoded::Ready(r),
{
    let e = request_encode(r);
    let al = addr_encoded_len(r.addr);
    crate::proto::lemma_hex_round_trip(r.pwd);
    crate::addr::lemma_addr_round_trip(r.addr, seq![13u8, 10u8] + r.payload);
    assert(e.len() == 61 + al + r.payload.len());
    assert forall|i: int| 0 <= i < 56 implies is_hex_digit(#[trigger] e[i]) by {
        assert(e[i] == hex_encode(r.pwd)[i]);
    }
    assert(e[56] == 13);
    assert(e[57] == 10);
    assert(e[58] == command_byte(r.cmd));
    assert(e.skip(59) =~= addr_encode(r.addr) + (seq![13u8, 10u8] + r.payload));
    assert(addr_decode(e.skip(59)) == AddrDecoded::Ready(r.addr, al));
    assert(e[59 + al] == 13);
    assert(e[60 + al] == 10);
    assert(e.subrange(0, 56) =~= hex_encode(r.pwd));
    assert(e.skip(61 + al) =~= r.payload);
    if r.cmd is Connect {
        assert(e[58] == 1);
    } else {
        assert(e[58] == 3);
    }
}

} // verus!
