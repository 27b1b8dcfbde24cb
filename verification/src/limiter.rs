//! Token-bucket rate limiter.
//!
//! The bucket refills at `speed_limit` bytes per second up to a capacity of
//! one burst interval (200 ms) worth of bytes, and `consume` returns how
//! long the caller must pause. Time enters as a millisecond instant so the
//! arithmetic is exact; the caller supplies its monotonic clock. A rate may
//! be unlimited, in which case `consume` answers zero and leaves the bucket
//! untouched.

use vstd::prelude::*;

verus! {

/// The fixed burst interval, in milliseconds.
pub const INTERVAL_MS: u64 = 200;

/// The floor at which the bucket's deficit saturates.
pub const VOLUME_FLOOR: i128 = -1208925819614629174706176;

/// A transfer rate: unlimited, or a positive number of bytes per second.
#[derive(Debug, Clone, Copy, PartialEq, Eq, Structural)]
pub enum Rate {
    Unlimited,
    Limited(u64),
}

/// Validity of a rate: a finite rate is positive.
pub open spec fn rate_wf(r: Rate) -> bool {
    match r {
        Rate::Unlimited => true,
        Rate::Limited(v) => v >= 1,
    }
}

/// A token bucket with a runtime-adjustable rate.
#[derive(Debug, Clone, Copy, PartialEq, Eq, Structural)]
pub struct Limiter {
    /// When set, `consume` answers zero without touching the bucket.
    pub unlimited: bool,
    /// Bytes per second; meaningful only when `unlimited` is false.
    pub speed_limit: u64,
    /// Available burst volume in bytes; negative is accumulated debt.
    pub volume: i128,
    /// The millisecond instant of the last refill.
    pub updated_at_ms: u64,
}

/// Bucket capacity: one burst interval worth of bytes, `speed / 5`.
pub open spec fn capacity(speed: u64) -> int {
    speed as int / 5
}

impl Limiter {
    /// Validity: a positive finite rate, and a volume between the saturation
    /// floor and one interval's capacity at the largest possible rate.
    pub open spec fn wf(&self) -> bool {
        &&& (!self.unlimited ==> self.speed_limit >= 1)
        &&& VOLUME_FLOOR <= self.volume
        &&& self.volume <= capacity(u64::MAX)
    }
}

/// The bucket after a refill at instant `now_ms`: elapsed time (clamped at
/// zero) earns `speed * elapsed / 1000` bytes, and the volume is capped at
/// the capacity.
pub open spec fn spec_refill(l: Limiter, now_ms: u64) -> Limiter {
    let elapsed: int = if now_ms >= l.updated_at_ms {
        now_ms - l.updated_at_ms
    } else {
        0
    };
    let filled = l.volume + (l.speed_limit as int) * elapsed / 1000;
    let capped = if filled > capacity(l.speed_limit) {
        capacity(l.speed_limit)
    } else {
        filled
    };
    Limiter { volume: capped as i128, updated_at_ms: now_ms, ..l }
}

/// The pause owed for a bucket at volume `volume <= 0` and rate `speed`:
/// one interval plus the time to earn the deficit back, saturating at
/// `u64::MAX` milliseconds.
pub open spec fn spec_delay(volume: int, speed: u64) -> u64 {
    let d = INTERVAL_MS + (-volume) * 1000 / (speed as int);
    if d > u64::MAX {
        u64::MAX
    } else {
        d as u64
    }
}

/// The bucket and the pause after `consume(bytes)` at instant `now_ms`:
/// unlimited rates answer zero and change nothing; otherwise refill, then
/// subtract (saturating at the floor), and owe a pause unless the volume
/// stays positive.
pub open spec fn spec_consume(l: Limiter, bytes: usize, now_ms: u64) -> (Limiter, u64) {
    if l.unlimited {
        (l, 0)
    } else {
        let r = spec_refill(l, now_ms);
        let v = if r.volume - bytes >= VOLUME_FLOOR {
            r.volume - bytes
        } else {
            VOLUME_FLOOR as int
        };
        let l2 = Limiter { volume: v as i128, ..r };
        if v > 0 {
            (l2, 0)
        } else {
            (l2, spec_delay(v, l.speed_limit))
        }
    }
}

/// The limiter after `set_speed_limit`: an unlimited rate only sets the
/// flag; a finite one clears it and installs the new rate, leaving the
/// bucket's volume and clock alone.
pub open spec fn spec_set_rate(l: Limiter, rate: Rate) -> Limiter {
    match rate {
        Rate::Unlimited => Limiter { unlimited: true, ..l },
        Rate::Limited(v) => Limiter { unlimited: false, speed_limit: v, ..l },
    }
}

impl Limiter {
    /// A fresh limiter: an empty bucket stamped with the current instant.
    pub fn new(rate: Rate, now_ms: u64) -> (r: Limiter)
        requires
            rate_wf(rate),
        ensures
            r == spec_set_rate(
                Limiter { unlimited: false, speed_limit: 1, volume: 0, updated_at_ms: now_ms },
                rate,
            ),
            r.wf(),
    {
        match rate {
            Rate::Unlimited => Limiter {
                unlimited: true,
                speed_limit: 1,
                volume: 0,
                updated_at_ms: now_ms,
            },
            Rate::Limited(v) => Limiter {
                unlimited: false,
                speed_limit: v,
                volume: 0,
                updated_at_ms: now_ms,
            },
        }
    }

    /// Change the rate at runtime.
    pub fn set_speed_limit(&mut self, rate: Rate)
        requires
            old(self).wf(),
            rate_wf(rate),
        ensures
            *final(self) == spec_set_rate(*old(self), rate),
            final(self).wf(),
    {
        match rate {
            Rate::Unlimited => {
                self.unlimited = true;
            },
            Rate::Limited(v) => {
                self.unlimited = false;
                self.speed_limit = v;
            },
        }
    }

    /// Account for `bytes` transferred at instant `now_ms` and return the
    /// pause (in milliseconds) the caller owes before transferring more.
    ///
    /// With an unlimited rate the answer is zero, whatever `bytes` is, and
    /// the bucket is not touched. With a finite rate the bucket refills for
    /// the elapsed time, `bytes` is subtracted, and a positive remaining
    /// volume owes no pause; afterwards the volume never exceeds one
    /// interval's capacity.
    pub fn consume(&mut self, bytes: usize, now_ms: u64) -> (delay: u64)
        requires
            old(self).wf(),
        ensures
            (*final(self), delay) == spec_consume(*old(self), bytes, now_ms),
            final(self).wf(),
            old(self).unlimited ==> delay == 0 && *final(self) == *old(self),
            !old(self).unlimited ==> final(self).volume <= capacity(final(self).speed_limit),
            delay == 0 <==> (old(self).unlimited || final(self).volume > 0),
    {
        if self.unlimited {
            return 0;
        }
        let elapsed: u64 = if now_ms >= self.updated_at_ms {
            now_ms - self.updated_at_ms
        } else {
            0
        };
        proof {
            assert((self.speed_limit as int) * (elapsed as int) >= 0) by (nonlinear_arith)
                requires
                    0 <= self.speed_limit as int,
                    0 <= elapsed as int,
            ;
            assert((self.speed_limit as int) * (elapsed as int) <= (u64::MAX as int) * (
            u64::MAX as int)) by (nonlinear_arith)
                requires
                    0 <= self.speed_limit as int <= u64::MAX as int,
                    0 <= elapsed as int <= u64::MAX as int,
            ;
        }
        let fill: u128 = (self.speed_limit as u128) * (elapsed as u128) / 1000;
        let cap: i128 = (self.speed_limit / 5) as i128;
        proof {
            assert(fill <= (u64::MAX as int) * (u64::MAX as int) / 1000);
        }
        let filled: i128 = if self.volume > cap - (fill as i128) {
            cap
        } else {
            self.volume + (fill as i128)
        };
        self.volume = filled;
        self.updated_at_ms = now_ms;
        let v: i128 = if self.volume >= VOLUME_FLOOR + (bytes as i128) {
            self.volume - (bytes as i128)
        } else {
            VOLUME_FLOOR
        };
        self.volume = v;
        if v > 0 {
            0
        } else {
            let deficit: u128 = (-v) as u128;
            let d: u128 = (INTERVAL_MS as u128) + deficit * 1000 / (self.speed_limit as u128);
            if d > u64::MAX as u128 {
                u64::MAX
            } else {
                d as u64
            }
        }
    }
}

/// `v`, floored at zero.
pub open spec fn max0(v: int) -> int {
    if v > 0 {
        v
    } else {
        0
    }
}

/// The bucket after a sequence of `consume` calls, each a byte count with
/// its instant.
pub open spec fn trace_state(l: Limiter, ops: Seq<(usize, u64)>) -> Limiter
    decreases ops.len(),
{
    if ops.len() == 0 {
        l
    } else {
        spec_consume(trace_state(l, ops.drop_last()), ops.last().0, ops.last().1).0
    }
}

/// The bytes such a sequence admitted with a zero pause.
pub open spec fn trace_admitted(l: Limiter, ops: Seq<(usize, u64)>) -> int
    decreases ops.len(),
{
    if ops.len() == 0 {
        0
    } else {
        let prev = trace_state(l, ops.drop_last());
        trace_admitted(l, ops.drop_last()) + if spec_consume(prev, ops.last().0, ops.last().1).1
            == 0 {
            ops.last().0 as int
        } else {
            0
        }
    }
}

/// One `consume` step: the bytes it admits, plus whatever positive volume
/// is left, never exceed the positive volume before it plus what the
/// elapsed time refilled.
proof fn lemma_consume_step(l: Limiter, n: usize, t: u64)
    requires
        l.wf(),
        !l.unlimited,
        l.updated_at_ms <= t,
    ensures
        ({
            let l2 = spec_consume(l, n, t).0;
            let d = spec_consume(l, n, t).1;
            &&& l2.speed_limit == l.speed_limit
            &&& !l2.unlimited
            &&& l2.updated_at_ms == t
            &&& l2.wf()
            &&& (if d == 0 {
                n as int
            } else {
                0
            }) + max0(l2.volume as int) <= max0(l.volume as int) + (l.speed_limit as int) * (t
                - l.updated_at_ms) / 1000
        }),
{
    let elapsed: int = t - l.updated_at_ms;
    let fill = (l.speed_limit as int) * elapsed / 1000;
    assert((l.speed_limit as int) * elapsed >= 0) by (nonlinear_arith)
        requires
            l.speed_limit as int >= 0,
            elapsed >= 0,
    ;
    assert(fill >= 0) by (nonlinear_arith)
        requires
            (l.speed_limit as int) * elapsed >= 0,
            fill == (l.speed_limit as int) * elapsed / 1000,
    ;
    let r = spec_refill(l, t);
    assert(r.volume <= max0(l.volume as int) + fill);
}

/// Splitting an elapsed span in two never increases the total refill.
proof fn lemma_refill_subadditive(speed: int, a: int, b: int)
    requires
        speed >= 0,
        a >= 0,
        b >= 0,
    ensures
        speed * a / 1000 + speed * b / 1000 <= speed * (a + b) / 1000,
{
    assert(speed * (a + b) == speed * a + speed * b) by (nonlinear_arith);
    let x = speed * a;
    let y = speed * b;
    assert(x >= 0) by (nonlinear_arith)
        requires
            speed >= 0,
            a >= 0,
            x == speed * a,
    ;
    assert(y >= 0) by (nonlinear_arith)
        requires
            speed >= 0,
            b >= 0,
            y == speed * b,
    ;
    assert(x / 1000 + y / 1000 <= (x + y) / 1000) by {
        vstd::arithmetic::div_mod::lemma_fundamental_div_mod(x, 1000);
        vstd::arithmetic::div_mod::lemma_fundamental_div_mod(y, 1000);
        vstd::arithmetic::div_mod::lemma_fundamental_div_mod(x + y, 1000);
        let qx = x / 1000;
        let qy = y / 1000;
        let q = (x + y) / 1000;
        assert(1000 * q + (x + y) % 1000 == 1000 * qx + x % 1000 + 1000 * qy + y % 1000);
        if qx + qy > q {
            assert(1000 * (qx + qy) >= 1000 * (q + 1)) by (nonlinear_arith)
                requires
                    qx + qy >= q + 1,
            ;
            assert(1000 * qx + 1000 * qy == 1000 * (qx + qy)) by (nonlinear_arith);
            assert(1000 * (q + 1) == 1000 * q + 1000) by (nonlinear_arith);
        }
    }
}

/// The running bound behind the one-second law, by induction over the
/// sequence of calls.
proof fn lemma_trace_bound(l: Limiter, ops: Seq<(usize, u64)>)
    requires
        l.wf(),
        !l.unlimited,
        forall|i: int| 0 <= i < ops.len() ==> l.updated_at_ms <= (#[trigger] ops[i]).1,
        forall|i: int| 0 <= i < ops.len() - 1 ==> (#[trigger] ops[i]).1 <= ops[i + 1].1,
    ensures
        ({
            let last_t: int = if ops.len() == 0 {
                l.updated_at_ms as int
            } else {
                ops.last().1 as int
            };
            let end = trace_state(l, ops);
            &&& end.speed_limit == l.speed_limit
            &&& !end.unlimited
            &&& end.wf()
            &&& end.updated_at_ms == last_t
            &&& trace_admitted(l, ops) + max0(end.volume as int) <= max0(l.volume as int) + (
            l.speed_limit as int) * (last_t - l.updated_at_ms) / 1000
        }),
    decreases ops.len(),
{
    if ops.len() == 0 {
    } else {
        let prefix = ops.drop_last();
        assert(forall|i: int|
            0 <= i < prefix.len() ==> l.updated_at_ms <= (#[trigger] prefix[i]).1) by {
            assert(forall|i: int|
                0 <= i < prefix.len() ==> prefix[i] == #[trigger] ops[i]);
        }
        assert(forall|i: int|
            0 <= i < prefix.len() - 1 ==> (#[trigger] prefix[i]).1 <= prefix[i + 1].1) by {
            assert(forall|i: int|
                0 <= i < prefix.len() ==> prefix[i] == #[trigger] ops[i]);
        }
        lemma_trace_bound(l, prefix);
        let prev = trace_state(l, prefix);
        let n = ops.last().0;
        let t = ops.last().1;
        let prev_t: int = if prefix.len() == 0 {
            l.updated_at_ms as int
        } else {
            prefix.last().1 as int
        };
        assert(prev_t <= t as int) by {
            if prefix.len() > 0 {
                assert(prefix.last() == ops[ops.len() - 2]);
                assert(ops[ops.len() - 2].1 <= ops[ops.len() - 1].1);
            } else {
                assert(l.updated_at_ms <= ops[0].1);
            }
        }
        lemma_consume_step(prev, n, t);
        lemma_refill_subadditive(
            l.speed_limit as int,
            prev_t - l.updated_at_ms,
            t as int - prev_t,
        );
    }
}

/// Law: with a finite rate, the bytes admitted with a zero pause over any
/// window of at most one second — starting from a bucket within its
/// capacity — total at most one interval's capacity plus one second's
/// worth of the rate.
pub proof fn lemma_limiter_window_admission(l: Limiter, ops: Seq<(usize, u64)>)
    requires
        l.wf(),
        !l.unlimited,
        l.volume <= capacity(l.speed_limit),
        forall|i: int| 0 <= i < ops.len() ==> l.updated_at_ms <= (#[trigger] ops[i]).1,
        forall|i: int| 0 <= i < ops.len() - 1 ==> (#[trigger] ops[i]).1 <= ops[i + 1].1,
        forall|i: int|
            0 <= i < ops.len() ==> (#[trigger] ops[i]).1 <= l.updated_at_ms + 1000,
    ensures
        trace_admitted(l, ops) <= capacity(l.speed_limit) + l.speed_limit,
{
    lemma_trace_bound(l, ops);
    let last_t: int = if ops.len() == 0 {
        l.updated_at_ms as int
    } else {
        ops.last().1 as int
    };
    let speed = l.speed_limit as int;
    assert(last_t - l.updated_at_ms <= 1000);
    assert(speed * (last_t - l.updated_at_ms) <= speed * 1000) by (nonlinear_arith)
        requires
            speed >= 0,
            last_t - l.updated_at_ms <= 1000,
    ;
    vstd::arithmetic::div_mod::lemma_div_is_ordered(
        speed * (last_t - l.updated_at_ms),
        speed * 1000,
        1000,
    );
    assert(speed * 1000 / 1000 == speed) by (nonlinear_arith);
    assert(max0(l.volume as int) <= capacity(l.speed_limit));
}

/// Law: setting the rate unlimited makes the next `consume` answer a zero
/// pause and leave the bucket untouched — even while the bucket holds a
/// deficit.
pub proof fn lemma_unlimited_overrides_deficit(l: Limiter, bytes: usize, now_ms: u64)
    ensures
        spec_consume(spec_set_rate(l, Rate::Unlimited), bytes, now_ms).1 == 0,
        spec_consume(spec_set_rate(l, Rate::Unlimited), bytes, now_ms).0 == spec_set_rate(
            l,
            Rate::Unlimited,
        ),
{
}

} // verus!
