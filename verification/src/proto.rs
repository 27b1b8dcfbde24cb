//! Shared pieces of the Trojan wire protocol: error kinds, the hexadecimal
//! codec, the password fingerprint and the request command.

use sha2::Digest;
use vstd::prelude::*;

verus! {

/// Error: the data on the wire is malformed.
#[derive(Debug, Clone, Copy, PartialEq, Eq, Structural)]
pub struct ProtocolError;

/// Error while assembling a packet out of a byte stream.
#[derive(Debug, Clone, Copy, PartialEq, Eq, Structural)]
pub enum AssembleError {
    /// The data is malformed, just as [`ProtocolError`].
    Protocol,
    /// Not enough bytes have arrived yet.
    NotReady,
}

/// True when `c` is a lowercase hexadecimal digit, the only alphabet the
/// protocol admits for fingerprints.
pub open spec fn is_hex_digit(c: u8) -> bool {
    (48 <= c && c <= 57) || (97 <= c && c <= 102)
}

/// Numeric value of a lowercase hexadecimal digit.
pub open spec fn hex_digit_value(c: u8) -> int {
    if 48 <= c && c <= 57 {
        c - 48
    } else {
        c - 97 + 10
    }
}

/// The lowercase hexadecimal digit with value `d` (for `d <= 15`).
pub open spec fn hex_digit_of(d: u8) -> u8 {
    if d <= 9 {
        (d + 48) as u8
    } else {
        (d + 87) as u8
    }
}

/// The two-digit lowercase hexadecimal spelling of each byte of `s`, flattened.
pub open spec fn hex_encode(s: Seq<u8>) -> Seq<u8> {
    Seq::new(
        2 * s.len(),
        |i: int| if i % 2 == 0 { hex_digit_of(s[i / 2] / 16) } else { hex_digit_of(s[i / 2] % 16) },
    )
}

/// The bytes spelled by a sequence of `2 * n` lowercase hexadecimal digits.
pub open spec fn hex_decode(s: Seq<u8>) -> Seq<u8> {
    Seq::new(s.len() / 2, |i: int| (hex_digit_value(s[2 * i]) * 16 + hex_digit_value(s[2 * i + 1])) as u8)
}

/// Parse one byte out of its two lowercase hexadecimal digits.
///
/// # Errors
///
/// If either byte is not a lowercase hexadecimal digit.
pub fn hex_to_u8(h0: &u8, h1: &u8) -> (r: Result<u8, ProtocolError>)
    ensures
        r is Ok <==> is_hex_digit(*h0) && is_hex_digit(*h1),
        r matches Ok(v) ==> v == hex_digit_value(*h0) * 16 + hex_digit_value(*h1),
{
    let n0: u8 = match *h0 {
        c if 48 <= c && c <= 57 => c - 48,
        c if 97 <= c && c <= 102 => c - 97 + 0x0a,
        _ => {
            return Err(ProtocolError);
        },
    };
    let n1: u8 = match *h1 {
        c if 48 <= c && c <= 57 => c - 48,
        c if 97 <= c && c <= 102 => c - 97 + 0x0a,
        _ => {
            return Err(ProtocolError);
        },
    };
    Ok(n0 * 16 + n1)
}

/// Spell one byte as two lowercase hexadecimal digits, high digit first.
pub fn u8_to_hex(n: &u8) -> (r: (u8, u8))
    ensures
        r.0 == hex_digit_of(*n / 16),
        r.1 == hex_digit_of(*n % 16),
{
    let hi: u8 = *n / 16;
    let lo: u8 = *n % 16;
    let h0: u8 = if hi <= 9 { hi + 48 } else { hi - 10 + 97 };
    let h1: u8 = if lo <= 9 { lo + 48 } else { lo - 10 + 97 };
    (h0, h1)
}

/// Decoding undoes encoding, digit by digit.
proof fn lemma_hex_digit_round_trip(d: u8)
    requires
        0 <= d <= 15,
    ensures
        is_hex_digit(hex_digit_of(d)),
        hex_digit_value(hex_digit_of(d)) == d,
{
}

/// Law: reading back the hexadecimal spelling of any byte sequence yields the
/// sequence itself, and the spelling is twice as long and all lowercase hex.
pub proof fn lemma_hex_round_trip(s: Seq<u8>)
    ensures
        hex_encode(s).len() == 2 * s.len(),
        forall|i: int| 0 <= i < 2 * s.len() ==> is_hex_digit(#[trigger] hex_encode(s)[i]),
        hex_decode(hex_encode(s)) == s,
{
    let e = hex_encode(s);
    assert forall|i: int| 0 <= i < 2 * s.len() implies is_hex_digit(#[trigger] e[i]) by {
        if i % 2 == 0 {
            lemma_hex_digit_round_trip(s[i / 2] / 16);
        } else {
            lemma_hex_digit_round_trip(s[i / 2] % 16);
        }
    }
    assert forall|i: int| 0 <= i < s.len() implies #[trigger] hex_decode(e)[i] == s[i] by {
        assert(e[2 * i] == hex_digit_of(s[i] / 16));
        assert(e[2 * i + 1] == hex_digit_of(s[i] % 16));
        lemma_hex_digit_round_trip(s[i] / 16);
        lemma_hex_digit_round_trip(s[i] % 16);
        assert(hex_digit_value(e[2 * i]) * 16 + hex_digit_value(e[2 * i + 1]) == s[i]) by {
            assert(s[i] / 16 * 16 + s[i] % 16 == s[i]) by (nonlinear_arith);
        }
    }
    assert(hex_decode(e) =~= s);
}

/// The SHA-224 digest of a byte sequence, as sha2 computes it: a function of
/// the input alone, left without a definition here.
pub uninterp spec fn sha224_of(data: Seq<u8>) -> Seq<u8>;

/// Relies on sha2's `Sha224` through the one-shot `Digest::digest`: it returns
/// the 28-byte SHA-224 digest of `data`, which depends on the bytes alone.
#[verifier::external_body]
fn sha224_digest(data: &[u8]) -> (r: [u8; 28])
    ensures
        r@ == sha224_of(data@),
        r@.len() == 28,
{
    sha2::Sha224::digest(data).into()
}

/// SHA-224 password digest.
///
/// In a Trojan request it is presented as 56 lowercase hexadecimal bytes.
#[derive(Debug, Clone, Copy)]
pub struct Password {
    pub raw: [u8; 28],
}

impl View for Password {
    type V = Seq<u8>;

    open spec fn view(&self) -> Seq<u8> {
        self.raw@
    }
}

impl Password {
    /// The fingerprint of a shared secret: the SHA-224 digest of its bytes.
    pub fn digest(data: &[u8]) -> (r: Password)
        ensures
            r@ == sha224_of(data@),
    {
        Password { raw: sha224_digest(data) }
    }

    /// Parse from hexadecimal bytes.
    ///
    /// # Errors
    ///
    /// If the first 56 bytes contain a non-hexadecimal (or uppercase)
    /// character, or fewer than 56 bytes are given.
    pub fn from_hex(bytes: &[u8]) -> (r: Result<Self, ProtocolError>)
        ensures
            r is Ok <==> bytes@.len() >= 56 && (forall|i: int|
                0 <= i < 56 ==> is_hex_digit(#[trigger] bytes@[i])),
            r matches Ok(p) ==> p@ == hex_decode(bytes@.take(56)),
    {
        if bytes.len() < 56 {
            return Err(ProtocolError);
        }
        let mut raw: [u8; 28] = [0; 28];
        let mut i: usize = 0;
        while i < 28
            invariant
                i <= 28,
                bytes@.len() >= 56,
                raw@.len() == 28,
                forall|j: int| 0 <= j < 2 * i ==> is_hex_digit(#[trigger] bytes@[j]),
                forall|j: int| 0 <= j < i ==> #[trigger] raw@[j] == hex_decode(bytes@.take(56))[j],
            decreases 28 - i,
        {
            match hex_to_u8(&bytes[2 * i], &bytes[2 * i + 1]) {
                Ok(v) => {
                    raw[i] = v;
                    assert(bytes@.take(56)[2 * (i as int)] == bytes@[2 * (i as int)]);
                    assert(bytes@.take(56)[2 * (i as int) + 1] == bytes@[2 * (i as int) + 1]);
                },
                Err(e) => {
                    return Err(e);
                },
            }
            i = i + 1;
        }
        let p = Password { raw };
        assert(p@ =~= hex_decode(bytes@.take(56)));
        Ok(p)
    }

    /// Convert to lowercase hexadecimal bytes.
    pub fn to_hex(&self) -> (r: [u8; 56])
        ensures
            r@ == hex_encode(self@),
    {
        let mut raw: [u8; 56] = [0; 56];
        let mut i: usize = 0;
        while i < 28
            invariant
                i <= 28,
                raw@.len() == 56,
                forall|j: int| 0 <= j < 2 * i ==> #[trigger] raw@[j] == hex_encode(self@)[j],
            decreases 28 - i,
        {
            let (h0, h1) = u8_to_hex(&self.raw[i]);
            raw[2 * i] = h0;
            raw[2 * i + 1] = h1;
            i = i + 1;
        }
        assert(raw@ =~= hex_encode(self@));
        raw
    }

    /// Bytewise equality of two fingerprints.
    pub fn equals(&self, other: &Password) -> (r: bool)
        ensures
            r <==> self@ == other@,
    {
        let mut i: usize = 0;
        while i < 28
            invariant
                i <= 28,
                forall|j: int| 0 <= j < i ==> self@[j] == other@[j],
            decreases 28 - i,
        {
            if self.raw[i] != other.raw[i] {
                return false;
            }
            i = i + 1;
        }
        assert(self@ =~= other@);
        true
    }
}

impl PartialEq for Password {
    fn eq(&self, other: &Password) -> (r: bool) {
        self.equals(other)
    }
}

impl vstd::std_specs::cmp::PartialEqSpecImpl for Password {
    open spec fn obeys_eq_spec() -> bool {
        true
    }

    open spec fn eq_spec(&self, other: &Password) -> bool {
        self@ == other@
    }
}

impl Eq for Password {

}

/// Trojan (SOCKS5-like) command.
///
/// Similar to SOCKS5 except `Bind`, which Trojan does not support.
#[derive(Debug, Clone, Copy, PartialEq, Eq, Structural)]
pub enum Command {
    /// `0x01`: Connect / TCP stream.
    Connect,
    /// `0x03`: UDP associate / UDP packets.
    UdpAssociate,
}

/// The wire byte of a command.
pub open spec fn command_byte(c: Command) -> u8 {
    match c {
        Command::Connect => 1,
        Command::UdpAssociate => 3,
    }
}

impl Command {
    /// Parse from one byte.
    ///
    /// # Errors
    ///
    /// If `byte` names no known command.
    pub fn from_byte(byte: u8) -> (r: Result<Self, ProtocolError>)
        ensures
            r == if byte == 1 {
                Ok::<Command, ProtocolError>(Command::Connect)
            } else if byte == 3 {
                Ok::<Command, ProtocolError>(Command::UdpAssociate)
            } else {
                Err::<Command, ProtocolError>(ProtocolError)
            },
    {
        match byte {
            0x01 => Ok(Command::Connect),
            0x03 => Ok(Command::UdpAssociate),
            _ => Err(ProtocolError),
        }
    }

    /// The byte that encodes this command.
    pub fn to_byte(&self) -> (r: u8)
        ensures
            r == command_byte(*self),
    {
        match self {
            Command::Connect => 0x01,
            Command::UdpAssociate => 0x03,
        }
    }
}

} // verus!
