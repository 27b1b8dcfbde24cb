//! Per-connection session state.
//!
//! A connection's first bytes are parsed as a Trojan request and verified
//! against the user store; the outcome decides between opening a session,
//! falling back, or closing silently. An open session meters every byte it
//! relays into the user's counters and limiter, and carries the pause
//! deadline the limiter imposes.

use vstd::prelude::*;

use crate::limiter::spec_consume;
use crate::net::SocketAddress;
use crate::proto::Command;
use crate::request::{request_decode, Request, RequestDecoded};
use crate::store::{
    contains_pwd, pwd_index, spec_admit, ServerContext, UserVerifyError,
};

verus! {

/// `a + b`, stopping at the top of `u64`.
pub open spec fn sat_add(a: u64, b: u64) -> u64 {
    if a + b <= u64::MAX {
        (a + b) as u64
    } else {
        u64::MAX
    }
}

/// A live session's view of its user and its own traffic.
pub struct UserSessionContext {
    /// Bytes this session has sent toward the upstream.
    pub tx: u64,
    /// Bytes this session has sent toward the client.
    pub rx: u64,
    /// The millisecond instant the session started.
    pub start_ms: u64,
    /// The instant until which relaying is paused; in the past when no
    /// pause is owed.
    pub deadline_ms: u64,
    /// The user's index in the store at admission time.
    pub user: usize,
    /// The user's id, for reporting.
    pub user_id: usize,
    /// The parsed request.
    pub req: Request,
}

impl UserSessionContext {
    /// The requested command.
    pub fn cmd(&self) -> (r: Command)
        ensures
            r == self.req@.cmd,
    {
        self.req.cmd
    }

    /// The requested destination.
    pub fn addr(&self) -> (r: &crate::addr::Address)
        ensures
            r@ == self.req@.addr,
    {
        &self.req.addr
    }

    /// The request's in-band payload.
    pub fn payload(&self) -> (r: &Vec<u8>)
        ensures
            r@ == self.req@.payload,
    {
        &self.req.payload
    }

    /// Meter `bytes` relayed at instant `now_ms`: the session's and the
    /// user's counter for the direction grow by `bytes`, the user's
    /// limiter is consumed, and a demanded pause extends the session's
    /// deadline — on top of the pending one when a pause is already
    /// scheduled, so debt accumulated across bursts is kept.
    pub fn consume(
        &mut self,
        store: &mut ServerContext,
        bytes: usize,
        to_upstream: bool,
        now_ms: u64,
    )
        requires
            old(store).wf(),
            old(self).user < old(store)@.len(),
            to_upstream ==> old(store)@[old(self).user as int].1.tx + bytes <= u64::MAX,
            !to_upstream ==> old(store)@[old(self).user as int].1.rx + bytes <= u64::MAX,
            to_upstream ==> old(self).tx + bytes <= u64::MAX,
            !to_upstream ==> old(self).rx + bytes <= u64::MAX,
        ensures
            final(store).wf(),
            ({
                let c0 = old(store)@[old(self).user as int].1;
                let step = spec_consume(c0.limiter, bytes, now_ms);
                let c1 = crate::store::UserContextView {
                    tx: if to_upstream {
                        (c0.tx + bytes) as u64
                    } else {
                        c0.tx
                    },
                    rx: if to_upstream {
                        c0.rx
                    } else {
                        (c0.rx + bytes) as u64
                    },
                    limiter: step.0,
                    ..c0
                };
                &&& final(store)@ == old(store)@.update(
                    old(self).user as int,
                    (old(store)@[old(self).user as int].0, c1),
                )
                &&& final(self).tx == if to_upstream {
                    (old(self).tx + bytes) as u64
                } else {
                    old(self).tx
                }
                &&& final(self).rx == if to_upstream {
                    old(self).rx
                } else {
                    (old(self).rx + bytes) as u64
                }
                &&& final(self).deadline_ms == if step.1 == 0 {
                    old(self).deadline_ms
                } else if old(self).deadline_ms <= now_ms {
                    sat_add(now_ms, step.1)
                } else {
                    sat_add(old(self).deadline_ms, step.1)
                }
                &&& final(self).start_ms == old(self).start_ms
                &&& final(self).user == old(self).user
                &&& final(self).user_id == old(self).user_id
                &&& final(self).req == old(self).req
            }),
    {
        if to_upstream {
            self.tx = self.tx + (bytes as u64);
        } else {
            self.rx = self.rx + (bytes as u64);
        }
        let delay = store.consume_traffic(self.user, bytes, to_upstream, now_ms);
        if delay != 0 {
            let base = if self.deadline_ms <= now_ms {
                now_ms
            } else {
                self.deadline_ms
            };
            self.deadline_ms = if base <= u64::MAX - delay {
                base + delay
            } else {
                u64::MAX
            };
        }
    }
}

/// What to do with a connection's first bytes.
pub enum Verdict {
    /// Authenticated: relay under this session.
    Session(UserSessionContext),
    /// Malformed or unknown fingerprint: forward to the fallback endpoint.
    Fallback,
    /// IP cap exhausted: close silently.
    Close,
}

impl ServerContext {
    /// Parse a connection's first bytes and verify them against the store.
    ///
    /// A malformed request or an unknown fingerprint falls back — the
    /// client must not learn which; an exhausted IP cap closes the
    /// connection silently; otherwise a session opens, its IP admitted to
    /// the user's set and its counters at zero.
    pub fn parse_verify(&mut self, src: SocketAddress, bytes: &[u8], now_ms: u64) -> (r: Verdict)
        requires
            old(self).wf(),
        ensures
            final(self).wf(),
            match r {
                Verdict::Fallback => final(self)@ == old(self)@ && (request_decode(
                    bytes@,
                ) is Protocol || (request_decode(bytes@) matches RequestDecoded::Ready(rv)
                    && !contains_pwd(old(self)@, rv.pwd))),
                Verdict::Close => request_decode(bytes@) matches RequestDecoded::Ready(rv)
                    && final(self)@ == old(self)@ && contains_pwd(old(self)@, rv.pwd)
                    && !spec_admit(old(self)@[pwd_index(old(self)@, rv.pwd)].1, src.ip).1,
                Verdict::Session(ctx) => request_decode(bytes@) matches RequestDecoded::Ready(rv)
                    && ctx.req@ == rv && ctx.tx == 0 && ctx.rx == 0 && ctx.start_ms == now_ms
                    && ctx.deadline_ms == now_ms && ctx.user < old(self)@.len() && old(
                    self,
                )@[ctx.user as int].0 == rv.pwd && ctx.user_id == old(
                    self,
                )@[ctx.user as int].1.id && spec_admit(old(self)@[ctx.user as int].1, src.ip).1
                    && final(self)@ == old(self)@.update(
                    ctx.user as int,
                    (rv.pwd, spec_admit(old(self)@[ctx.user as int].1, src.ip).0),
                ),
            },
    {
        let req = match Request::from_bytes(bytes) {
            Ok(r) => r,
            Err(_) => {
                return Verdict::Fallback;
            },
        };
        let user = match self.verify(src, &req.pwd) {
            Ok(i) => i,
            Err(UserVerifyError::Password) => {
                return Verdict::Fallback;
            },
            Err(UserVerifyError::IpLimit) => {
                return Verdict::Close;
            },
        };
        proof {
            assert(self@.len() == old(self)@.len());
            assert(self@.len() == self.users@.len());
            assert(self@[user as int].1.id == old(self)@[user as int].1.id);
        }
        let id = self.users[user].1.id;
        Verdict::Session(
            UserSessionContext {
                tx: 0,
                rx: 0,
                start_ms: now_ms,
                deadline_ms: now_ms,
                user,
                user_id: id,
                req,
            },
        )
    }
}

} // verus!
