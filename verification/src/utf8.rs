//! UTF-8 validation.
//!
//! Domain names on the wire must be valid UTF-8. The predicate below spells
//! out the byte-level well-formedness of RFC 3629 — continuation bytes, the
//! tightened ranges that exclude overlong forms and surrogates, and the
//! `U+10FFFF` ceiling — and the validator is proved to decide it.

use vstd::prelude::*;

verus! {

/// True when `b` is a UTF-8 continuation byte (`10xxxxxx`).
pub open spec fn is_utf8_cont(b: u8) -> bool {
    0x80 <= b && b <= 0xBF
}

/// Length of the well-formed UTF-8 character at the start of `s`, or 0 when
/// `s` is empty or starts with no well-formed character.
pub open spec fn utf8_step(s: Seq<u8>) -> int {
    if s.len() == 0 {
        0
    } else {
        let b0 = s[0];
        if b0 <= 0x7F {
            1
        } else if 0xC2 <= b0 && b0 <= 0xDF {
            if s.len() >= 2 && is_utf8_cont(s[1]) {
                2
            } else {
                0
            }
        } else if b0 == 0xE0 {
            if s.len() >= 3 && 0xA0 <= s[1] && s[1] <= 0xBF && is_utf8_cont(s[2]) {
                3
            } else {
                0
            }
        } else if b0 == 0xED {
            if s.len() >= 3 && 0x80 <= s[1] && s[1] <= 0x9F && is_utf8_cont(s[2]) {
                3
            } else {
                0
            }
        } else if 0xE1 <= b0 && b0 <= 0xEF {
            if s.len() >= 3 && is_utf8_cont(s[1]) && is_utf8_cont(s[2]) {
                3
            } else {
                0
            }
        } else if b0 == 0xF0 {
            if s.len() >= 4 && 0x90 <= s[1] && s[1] <= 0xBF && is_utf8_cont(s[2]) && is_utf8_cont(
                s[3],
            ) {
                4
            } else {
                0
            }
        } else if b0 == 0xF4 {
            if s.len() >= 4 && 0x80 <= s[1] && s[1] <= 0x8F && is_utf8_cont(s[2]) && is_utf8_cont(
                s[3],
            ) {
                4
            } else {
                0
            }
        } else if 0xF1 <= b0 && b0 <= 0xF3 {
            if s.len() >= 4 && is_utf8_cont(s[1]) && is_utf8_cont(s[2]) && is_utf8_cont(s[3]) {
                4
            } else {
                0
            }
        } else {
            0
        }
    }
}

/// True when `s` is a well-formed UTF-8 byte sequence.
pub open spec fn is_utf8(s: Seq<u8>) -> bool
    decreases s.len(),
{
    if s.len() == 0 {
        true
    } else if utf8_step(s) == 0 {
        false
    } else {
        is_utf8(s.skip(utf8_step(s)))
    }
}

/// Decide whether `s` is well-formed UTF-8.
pub fn validate_utf8(s: &[u8]) -> (r: bool)
    ensures
        r == is_utf8(s@),
{
    let n = s.len();
    let mut i: usize = 0;
    proof {
        assert(s@.skip(0) =~= s@);
    }
    while i < n
        invariant
            i <= n,
            n == s@.len(),
            is_utf8(s@) == is_utf8(s@.skip(i as int)),
        decreases n - i,
    {
        let ghost tail = s@.skip(i as int);
        proof {
            assert(tail.len() == n - i);
            assert forall|k: int| 0 <= k < tail.len() implies #[trigger] tail[k] == s@[i + k] by {}
        }
        let b0 = s[i];
        let step: usize = if b0 <= 0x7F {
            1
        } else if 0xC2 <= b0 && b0 <= 0xDF {
            if n - i > 1 && 0x80 <= s[i + 1] && s[i + 1] <= 0xBF {
                2
            } else {
                0
            }
        } else if b0 == 0xE0 {
            if n - i > 2 && 0xA0 <= s[i + 1] && s[i + 1] <= 0xBF && 0x80 <= s[i + 2] && s[i + 2]
                <= 0xBF {
                3
            } else {
                0
            }
        } else if b0 == 0xED {
            if n - i > 2 && 0x80 <= s[i + 1] && s[i + 1] <= 0x9F && 0x80 <= s[i + 2] && s[i + 2]
                <= 0xBF {
                3
            } else {
                0
            }
        } else if 0xE1 <= b0 && b0 <= 0xEF {
            if n - i > 2 && 0x80 <= s[i + 1] && s[i + 1] <= 0xBF && 0x80 <= s[i + 2] && s[i + 2]
                <= 0xBF {
                3
            } else {
                0
            }
        } else if b0 == 0xF0 {
            if n - i > 3 && 0x90 <= s[i + 1] && s[i + 1] <= 0xBF && 0x80 <= s[i + 2] && s[i + 2]
                <= 0xBF && 0x80 <= s[i + 3] && s[i + 3] <= 0xBF {
                4
            } else {
                0
            }
        } else if b0 == 0xF4 {
            if n - i > 3 && 0x80 <= s[i + 1] && s[i + 1] <= 0x8F && 0x80 <= s[i + 2] && s[i + 2]
                <= 0xBF && 0x80 <= s[i + 3] && s[i + 3] <= 0xBF {
                4
            } else {
                0
            }
        } else if 0xF1 <= b0 && b0 <= 0xF3 {
            if n - i > 3 && 0x80 <= s[i + 1] && s[i + 1] <= 0xBF && 0x80 <= s[i + 2] && s[i + 2]
                <= 0xBF && 0x80 <= s[i + 3] && s[i + 3] <= 0xBF {
                4
            } else {
                0
            }
        } else {
            0
        };
        proof {
            assert(utf8_step(tail) == step);
        }
        if step == 0 {
            return false;
        }
        proof {
            assert(is_utf8(tail) == is_utf8(tail.skip(step as int)));
            assert(tail.skip(step as int) =~= s@.skip(i + step as int));
        }
        i = i + step;
    }
    proof {
        assert(s@.skip(n as int).len() == 0);
    }
    true
}

} // verus!
