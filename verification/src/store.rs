//! The user store.
//!
//! A mapping from password fingerprint to per-user context: traffic
//! counters, the rate limiter, and the set of source IPs with an optional
//! concurrency cap. Sessions are admitted through [`ServerContext::verify`];
//! the control-plane loop collects and settles the counters and drains the
//! IP sets.

use vstd::prelude::*;

use crate::limiter::Limiter;
use crate::net::{IpAddress, SocketAddress};
use crate::proto::Password;

verus! {

/// Why a session was refused.
#[derive(Debug, Clone, Copy, PartialEq, Eq, Structural)]
pub enum UserVerifyError {
    /// The fingerprint names no user.
    Password,
    /// The user's IP-concurrency cap is exhausted.
    IpLimit,
}

/// Per-user state: identity, traffic counters since the last flush, the
/// rate limiter, and the source IPs seen since the last drain.
#[derive(Debug, Clone)]
pub struct UserContext {
    pub id: usize,
    /// Bytes relayed toward the client since the last successful flush.
    pub rx: u64,
    /// Bytes relayed toward the upstream since the last successful flush.
    pub tx: u64,
    pub limiter: Limiter,
    /// Source IPs of sessions admitted since the last drain, kept distinct.
    pub ips: Vec<IpAddress>,
    /// When set, admission keeps `ips` at or under this count.
    pub ip_cap: Option<usize>,
}

/// The mathematical shape of a [`UserContext`].
pub struct UserContextView {
    pub id: usize,
    pub rx: u64,
    pub tx: u64,
    pub limiter: Limiter,
    pub ips: Seq<IpAddress>,
    pub ip_cap: Option<usize>,
}

impl View for UserContext {
    type V = UserContextView;

    open spec fn view(&self) -> UserContextView {
        UserContextView {
            id: self.id,
            rx: self.rx,
            tx: self.tx,
            limiter: self.limiter,
            ips: self.ips@,
            ip_cap: self.ip_cap,
        }
    }
}

/// True when `s` holds `ip`.
pub open spec fn ips_contain(s: Seq<IpAddress>, ip: IpAddress) -> bool {
    exists|i: int| 0 <= i < s.len() && s[i] == ip
}

/// Validity of a user context: a valid limiter and a duplicate-free IP set.
pub open spec fn ctx_wf(c: UserContextView) -> bool {
    &&& c.limiter.wf()
    &&& forall|i: int, j: int| 0 <= i < j < c.ips.len() ==> c.ips[i] != c.ips[j]
}

/// One row of a traffic flush: a user's unreported byte counts.
#[derive(Debug, Clone)]
pub struct UpdateData {
    pub user_id: usize,
    pub rx: u64,
    pub tx: u64,
    /// The fingerprint, to seek the user back after the flush succeeds.
    pub pwd: Password,
}

/// The mathematical shape of an [`UpdateData`].
pub struct UpdateDataView {
    pub user_id: usize,
    pub rx: u64,
    pub tx: u64,
    pub pwd: Seq<u8>,
}

impl View for UpdateData {
    type V = UpdateDataView;

    open spec fn view(&self) -> UpdateDataView {
        UpdateDataView { user_id: self.user_id, rx: self.rx, tx: self.tx, pwd: self.pwd@ }
    }
}

/// One row of an IP flush.
#[derive(Debug, Clone, Copy, PartialEq, Eq, Structural)]
pub struct IpData {
    pub user_id: usize,
    pub ip: IpAddress,
}

/// The store's view: fingerprints paired with user contexts, in order.
pub type StoreView = Seq<(Seq<u8>, UserContextView)>;

/// True when some entry of `s` carries fingerprint `pwd`.
pub open spec fn contains_pwd(s: StoreView, pwd: Seq<u8>) -> bool {
    exists|i: int| 0 <= i < s.len() && s[i].0 == pwd
}

/// The index of the entry carrying `pwd` (unique under [`store_wf`]).
pub open spec fn pwd_index(s: StoreView, pwd: Seq<u8>) -> int {
    choose|i: int| 0 <= i < s.len() && s[i].0 == pwd
}

/// The admission rule: the source IP joins the user's set (if not already
/// present); a cap that the grown set would exceed rejects the admission
/// and leaves the context as it was. The second component says whether the
/// session is admitted.
pub open spec fn spec_admit(c: UserContextView, ip: IpAddress) -> (UserContextView, bool) {
    let ips1 = if ips_contain(c.ips, ip) {
        c.ips
    } else {
        c.ips.push(ip)
    };
    match c.ip_cap {
        Some(cap) => if ips1.len() > cap {
            (c, false)
        } else {
            (UserContextView { ips: ips1, ..c }, true)
        },
        None => (UserContextView { ips: ips1, ..c }, true),
    }
}

/// Validity of the store: fingerprints are distinct keys and every context
/// is valid.
pub open spec fn store_wf(s: StoreView) -> bool {
    &&& forall|i: int, j: int| 0 <= i < j < s.len() ==> s[i].0 != s[j].0
    &&& forall|i: int| 0 <= i < s.len() ==> ctx_wf(#[trigger] s[i].1)
}

/// The user store: the server-side mapping from fingerprint to context.
#[derive(Debug)]
pub struct ServerContext {
    pub users: Vec<(Password, UserContext)>,
}

impl View for ServerContext {
    type V = StoreView;

    open spec fn view(&self) -> StoreView {
        self.users@.map_values(|e: (Password, UserContext)| (e.0@, e.1@))
    }
}

impl ServerContext {
    /// Validity: see [`store_wf`].
    pub open spec fn wf(&self) -> bool {
        store_wf(self@)
    }

    /// An empty store.
    pub fn new() -> (r: ServerContext)
        ensures
            r@ == Seq::<(Seq<u8>, UserContextView)>::empty(),
            r.wf(),
    {
        let r = ServerContext { users: Vec::new() };
        proof {
            assert(r@ =~= Seq::<(Seq<u8>, UserContextView)>::empty());
        }
        r
    }

    /// Find the index of the user with fingerprint `pwd`.
    pub fn find(&self, pwd: &Password) -> (r: Option<usize>)
        ensures
            match r {
                Some(i) => i < self@.len() && self@[i as int].0 == pwd@,
                None => !contains_pwd(self@, pwd@),
            },
    {
        let n = self.users.len();
        let mut i: usize = 0;
        while i < n
            invariant
                i <= n,
                n == self@.len(),
                self@.len() == self.users@.len(),
                forall|j: int| 0 <= j < i ==> self@[j].0 != pwd@,
                forall|j: int| 0 <= j < n ==> #[trigger] self@[j].0 == self.users@[j].0@,
            decreases n - i,
        {
            if self.users[i].0.equals(pwd) {
                return Some(i);
            }
            i = i + 1;
        }
        None
    }

    /// Admit a session: look the fingerprint up, record the source IP, and
    /// enforce the user's IP-concurrency cap.
    ///
    /// On success the source IP has joined the user's set (if it was new)
    /// and the set respects the cap. A rejected admission leaves the store
    /// exactly as it was.
    ///
    /// # Errors
    ///
    /// `Password` when the fingerprint names no user; `IpLimit` when
    /// admitting this IP would push the set over the cap.
    pub fn verify(&mut self, src: SocketAddress, pwd: &Password) -> (r: Result<
        usize,
        UserVerifyError,
    >)
        requires
            old(self).wf(),
        ensures
            final(self).wf(),
            match r {
                Ok(i) => {
                    &&& i < old(self)@.len()
                    &&& old(self)@[i as int].0 == pwd@
                    &&& spec_admit(old(self)@[i as int].1, src.ip).1
                    &&& final(self)@ == old(self)@.update(
                        i as int,
                        (pwd@, spec_admit(old(self)@[i as int].1, src.ip).0),
                    )
                },
                Err(UserVerifyError::Password) => {
                    &&& !contains_pwd(old(self)@, pwd@)
                    &&& final(self)@ == old(self)@
                },
                Err(UserVerifyError::IpLimit) => {
                    &&& final(self)@ == old(self)@
                    &&& contains_pwd(old(self)@, pwd@)
                    &&& !spec_admit(old(self)@[pwd_index(old(self)@, pwd@)].1, src.ip).1
                },
            },
    {
        let ghost s0 = self@;
        let i = match self.find(pwd) {
            Some(i) => i,
            None => {
                return Err(UserVerifyError::Password);
            },
        };
        proof {
            assert(self@[i as int].0 == pwd@);
            assert(pwd_index(self@, pwd@) == i) by {
                let j = pwd_index(self@, pwd@);
                assert(contains_pwd(self@, pwd@));
                if j != i {
                    assert(self@[j].0 == self@[i as int].0);
                }
            }
        }
        let ip = src.ip;
        let ghost ips0 = self@[i as int].1.ips;
        let (entry_pwd, mut ctx) = self.users.remove(i);
        let present = contains_ip(&ctx.ips, &ip);
        if !present {
            ctx.ips.push(ip);
        }
        let over = match ctx.ip_cap {
            Some(cap) => ctx.ips.len() > cap,
            None => false,
        };
        if over {
            if !present {
                ctx.ips.pop();
            }
            proof {
                assert(ctx.ips@ =~= ips0);
            }
            self.users.insert(i, (entry_pwd, ctx));
            proof {
                assert(self@ =~~= s0);
            }
            return Err(UserVerifyError::IpLimit);
        }
        proof {
            if !present {
                assert(ctx.ips@ == ips0.push(ip));
            }
            assert forall|a: int, b: int| 0 <= a < b < ctx.ips@.len() implies ctx.ips@[a]
                != ctx.ips@[b] by {
                if !present && b == ctx.ips@.len() - 1 {
                    assert(ctx.ips@[a] == ips0[a]);
                }
            }
        }
        self.users.insert(i, (entry_pwd, ctx));
        proof {
            assert(self@.len() == s0.len());
            assert forall|j: int| 0 <= j < s0.len() && j != i implies self@[j] == s0[j] by {
                assert(self.users@[j] == old(self).users@[j]);
            }
            assert forall|a: int, b: int| 0 <= a < b < self@.len() implies self@[a].0
                != self@[b].0 by {
                assert(self@[a].0 == s0[a].0);
                assert(self@[b].0 == s0[b].0);
            }
            assert forall|j: int| 0 <= j < self@.len() implies ctx_wf(#[trigger] self@[j].1) by {
                if j != i {
                    assert(self@[j] == s0[j]);
                } else {
                    assert(self@[j].1.limiter == s0[j].1.limiter);
                    assert(ctx_wf(s0[j].1));
                }
            }
            assert(self@ =~~= s0.update(i as int, (pwd@, spec_admit(s0[i as int].1, ip).0)));
        }
        Ok(i)
    }
}

/// `a - b`, stopping at zero.
pub open spec fn sat_sub(a: u64, b: u64) -> u64 {
    if a >= b {
        (a - b) as u64
    } else {
        0
    }
}

/// One flush row applied to the store: when the fingerprint is still
/// present, its counters lose exactly the reported amounts (stopping at
/// zero); a fingerprint no longer present changes nothing.
pub open spec fn spec_apply_update(s: StoreView, u: UpdateDataView) -> StoreView {
    if contains_pwd(s, u.pwd) {
        let i = pwd_index(s, u.pwd);
        let c = s[i].1;
        s.update(
            i,
            (s[i].0, UserContextView { tx: sat_sub(c.tx, u.tx), rx: sat_sub(c.rx, u.rx), ..c }),
        )
    } else {
        s
    }
}

/// A whole flush applied row by row, in order.
pub open spec fn spec_apply_updates(s: StoreView, d: Seq<UpdateDataView>) -> StoreView
    decreases d.len(),
{
    if d.len() == 0 {
        s
    } else {
        spec_apply_update(spec_apply_updates(s, d.drop_last()), d.last())
    }
}

/// The rows of a traffic flush: one per user with a nonzero counter, in
/// store order, carrying the counters as they stand.
pub open spec fn spec_collect_update(s: StoreView) -> Seq<UpdateDataView>
    decreases s.len(),
{
    if s.len() == 0 {
        Seq::empty()
    } else {
        let e = s.last();
        spec_collect_update(s.drop_last()) + if e.1.tx > 0 || e.1.rx > 0 {
            seq![UpdateDataView { user_id: e.1.id, rx: e.1.rx, tx: e.1.tx, pwd: e.0 }]
        } else {
            Seq::empty()
        }
    }
}

/// The rows of an IP flush for one user.
pub open spec fn user_ip_rows(c: UserContextView) -> Seq<IpData> {
    Seq::new(c.ips.len(), |k: int| IpData { user_id: c.id, ip: c.ips[k] })
}

/// The rows of a whole IP flush, in store order.
pub open spec fn spec_collect_ip(s: StoreView) -> Seq<IpData>
    decreases s.len(),
{
    if s.len() == 0 {
        Seq::empty()
    } else {
        spec_collect_ip(s.drop_last()) + user_ip_rows(s.last().1)
    }
}

impl ServerContext {
    /// Meter `bytes` relayed for user `i`: the direction's counter grows by
    /// `bytes`, the user's limiter is consumed at instant `now_ms`, and the
    /// owed pause comes back. `to_upstream` selects `tx` over `rx`.
    pub fn consume_traffic(&mut self, i: usize, bytes: usize, to_upstream: bool, now_ms: u64) -> (delay: u64)
        requires
            old(self).wf(),
            i < old(self)@.len(),
            to_upstream ==> old(self)@[i as int].1.tx + bytes <= u64::MAX,
            !to_upstream ==> old(self)@[i as int].1.rx + bytes <= u64::MAX,
        ensures
            final(self).wf(),
            ({
                let c0 = old(self)@[i as int].1;
                let c1 = UserContextView {
                    tx: if to_upstream {
                        (c0.tx + bytes) as u64
                    } else {
                        c0.tx
                    },
                    rx: if to_upstream {
                        c0.rx
                    } else {
                        (c0.rx + bytes) as u64
                    },
                    limiter: crate::limiter::spec_consume(c0.limiter, bytes, now_ms).0,
                    ..c0
                };
                &&& final(self)@ == old(self)@.update(i as int, (old(self)@[i as int].0, c1))
                &&& delay == crate::limiter::spec_consume(c0.limiter, bytes, now_ms).1
            }),
    {
        let ghost s0 = self@;
        let (entry_pwd, mut ctx) = self.users.remove(i);
        if to_upstream {
            ctx.tx = ctx.tx + (bytes as u64);
        } else {
            ctx.rx = ctx.rx + (bytes as u64);
        }
        let delay = ctx.limiter.consume(bytes, now_ms);
        self.users.insert(i, (entry_pwd, ctx));
        proof {
            assert(self@ =~~= s0.update(
                i as int,
                (
                    s0[i as int].0,
                    UserContextView {
                        tx: ctx@.tx,
                        rx: ctx@.rx,
                        limiter: ctx@.limiter,
                        ..s0[i as int].1
                    },
                ),
            ));
            assert forall|a: int, b: int| 0 <= a < b < self@.len() implies self@[a].0
                != self@[b].0 by {
                assert(self@[a].0 == s0[a].0);
                assert(self@[b].0 == s0[b].0);
            }
            assert forall|j: int| 0 <= j < self@.len() implies ctx_wf(#[trigger] self@[j].1) by {
                if j != i {
                    assert(self@[j] == s0[j]);
                } else {
                    assert(self@[j].1.ips == s0[j].1.ips);
                    assert(ctx_wf(s0[j].1));
                }
            }
        }
        delay
    }

    /// Collect one flush row for every user holding unreported traffic,
    /// with the counters as they stand; the store is not changed.
    pub fn collect_update(&self) -> (r: Vec<UpdateData>)
        ensures
            r@.map_values(|d: UpdateData| d@) == spec_collect_update(self@),
    {
        let n = self.users.len();
        let mut out: Vec<UpdateData> = Vec::new();
        let mut i: usize = 0;
        proof {
            assert(self@.take(0) =~= Seq::<(Seq<u8>, UserContextView)>::empty());
            assert(out@.map_values(|d: UpdateData| d@) =~= spec_collect_update(self@.take(0)));
        }
        while i < n
            invariant
                i <= n,
                n == self@.len(),
                self@.len() == self.users@.len(),
                out@.map_values(|d: UpdateData| d@) == spec_collect_update(self@.take(i as int)),
            decreases n - i,
        {
            let ghost pre = out@.map_values(|d: UpdateData| d@);
            let tx = self.users[i].1.tx;
            let rx = self.users[i].1.rx;
            if tx > 0 || rx > 0 {
                let row = UpdateData {
                    user_id: self.users[i].1.id,
                    rx,
                    tx,
                    pwd: self.users[i].0,
                };
                out.push(row);
                proof {
                    assert(out@.map_values(|d: UpdateData| d@) =~= pre + seq![row@]);
                }
            }
            proof {
                assert(self@.take(i as int + 1).drop_last() =~= self@.take(i as int));
                assert(self@.take(i as int + 1).last() == self@[i as int]);
                assert(self@[i as int].1 == self.users@[i as int].1@);
                assert(out@.map_values(|d: UpdateData| d@) =~= spec_collect_update(
                    self@.take(i as int + 1),
                ));
            }
            i = i + 1;
        }
        proof {
            assert(self@.take(n as int) =~= self@);
        }
        out
    }

    /// Settle a successful flush: subtract from each user exactly what the
    /// flush reported for it, and nothing from anyone else. Counters never
    /// go below zero, and bytes metered since the rows were collected stay
    /// in place.
    pub fn assume_update(&mut self, data: &Vec<UpdateData>)
        requires
            old(self).wf(),
        ensures
            final(self).wf(),
            final(self)@ == spec_apply_updates(
                old(self)@,
                data@.map_values(|d: UpdateData| d@),
            ),
    {
        let ghost dv = data@.map_values(|d: UpdateData| d@);
        let m = data.len();
        let mut k: usize = 0;
        proof {
            assert(dv.take(0) =~= Seq::<UpdateDataView>::empty());
        }
        while k < m
            invariant
                k <= m,
                m == data@.len(),
                dv == data@.map_values(|d: UpdateData| d@),
                self@ == spec_apply_updates(old(self)@, dv.take(k as int)),
                self.wf(),
            decreases m - k,
        {
            let ghost s_pre = self@;
            let row_pwd = data[k].pwd;
            let row_tx = data[k].tx;
            let row_rx = data[k].rx;
            match self.find(&row_pwd) {
                Some(i) => {
                    proof {
                        assert(contains_pwd(s_pre, row_pwd@));
                        let j = pwd_index(s_pre, row_pwd@);
                        if j != i {
                            assert(s_pre[j].0 == s_pre[i as int].0);
                        }
                    }
                    let (entry_pwd, mut ctx) = self.users.remove(i);
                    ctx.tx = if ctx.tx >= row_tx {
                        ctx.tx - row_tx
                    } else {
                        0
                    };
                    ctx.rx = if ctx.rx >= row_rx {
                        ctx.rx - row_rx
                    } else {
                        0
                    };
                    self.users.insert(i, (entry_pwd, ctx));
                    proof {
                        assert(self@ =~~= spec_apply_update(s_pre, dv[k as int]));
                        assert forall|a: int, b: int| 0 <= a < b < self@.len() implies self@[a].0
                            != self@[b].0 by {
                            assert(self@[a].0 == s_pre[a].0);
                            assert(self@[b].0 == s_pre[b].0);
                        }
                        assert forall|j: int| 0 <= j < self@.len() implies ctx_wf(
                            #[trigger] self@[j].1,
                        ) by {
                            if j != i {
                                assert(self@[j] == s_pre[j]);
                            } else {
                                assert(self@[j].1.ips == s_pre[j].1.ips);
                                assert(self@[j].1.limiter == s_pre[j].1.limiter);
                                assert(ctx_wf(s_pre[j].1));
                            }
                        }
                    }
                },
                None => {
                    proof {
                        assert(self@ == spec_apply_update(s_pre, dv[k as int]));
                    }
                },
            }
            proof {
                assert(dv.take(k as int + 1).drop_last() =~= dv.take(k as int));
                assert(dv.take(k as int + 1).last() == dv[k as int]);
            }
            k = k + 1;
        }
        proof {
            assert(dv.take(m as int) =~= dv);
        }
    }

    /// Drain every user's IP set into flush rows; a new window then
    /// re-accumulates only still-active sessions. Counters and limiters are
    /// untouched.
    pub fn collect_ip(&mut self) -> (r: Vec<IpData>)
        requires
            old(self).wf(),
        ensures
            final(self).wf(),
            r@ == spec_collect_ip(old(self)@),
            final(self)@.len() == old(self)@.len(),
            forall|j: int|
                0 <= j < old(self)@.len() ==> {
                    let c0 = old(self)@[j].1;
                    let c1 = (#[trigger] final(self)@[j]).1;
                    &&& final(self)@[j].0 == old(self)@[j].0
                    &&& c1.ips.len() == 0
                    &&& c1.id == c0.id && c1.rx == c0.rx && c1.tx == c0.tx && c1.limiter
                        == c0.limiter && c1.ip_cap == c0.ip_cap
                },
    {
        let ghost s0 = self@;
        let n = self.users.len();
        let mut out: Vec<IpData> = Vec::new();
        let mut i: usize = 0;
        proof {
            assert(s0.take(0) =~= Seq::<(Seq<u8>, UserContextView)>::empty());
            assert(out@ =~= spec_collect_ip(s0.take(0)));
        }
        while i < n
            invariant
                i <= n,
                n == self@.len(),
                self@.len() == self.users@.len(),
                n == s0.len(),
                out@ == spec_collect_ip(s0.take(i as int)),
                store_wf(s0),
                forall|j: int| i <= j < n ==> self@[j] == s0[j],
                forall|j: int| 0 <= j < n ==> #[trigger] self@[j].0 == s0[j].0,
                forall|j: int|
                    0 <= j < i ==> {
                        let c0 = s0[j].1;
                        let c1 = #[trigger] self@[j].1;
                        &&& self@[j].0 == s0[j].0
                        &&& c1.ips.len() == 0
                        &&& c1.id == c0.id && c1.rx == c0.rx && c1.tx == c0.tx && c1.limiter
                            == c0.limiter && c1.ip_cap == c0.ip_cap
                    },
                self.wf(),
            decreases n - i,
        {
            let ghost pre = out@;
            let ghost s_pre = self@;
            let ghost u_pre = self.users@;
            let (entry_pwd, mut ctx) = self.users.remove(i);
            let id = ctx.id;
            let m = ctx.ips.len();
            let mut k: usize = 0;
            while k < m
                invariant
                    k <= m,
                    m == ctx.ips@.len(),
                    ctx.ips@ == s0[i as int].1.ips,
                    id == s0[i as int].1.id,
                    out@ == pre + user_ip_rows(s0[i as int].1).take(k as int),
                decreases m - k,
            {
                let row = IpData { user_id: id, ip: ctx.ips[k] };
                out.push(row);
                proof {
                    assert(out@ =~= pre + user_ip_rows(s0[i as int].1).take(k as int + 1));
                }
                k = k + 1;
            }
            proof {
                assert(user_ip_rows(s0[i as int].1).take(m as int) =~= user_ip_rows(
                    s0[i as int].1,
                ));
                assert(s0.take(i as int + 1).drop_last() =~= s0.take(i as int));
                assert(s0.take(i as int + 1).last() == s0[i as int]);
            }
            ctx.ips = Vec::new();
            self.users.insert(i, (entry_pwd, ctx));
            proof {
                assert(self.users@ =~= u_pre.update(i as int, (entry_pwd, ctx)));
                assert forall|j: int| 0 <= j < self@.len() && j != i implies self@[j]
                    == s_pre[j] by {
                    assert(self.users@[j] == u_pre[j]);
                }
                assert(self@[i as int].0 == s0[i as int].0);
                assert(self@[i as int].1.ips.len() == 0);
                assert(self@[i as int].1.id == s0[i as int].1.id);
                assert(self@[i as int].1.rx == s0[i as int].1.rx);
                assert(self@[i as int].1.tx == s0[i as int].1.tx);
                assert(self@[i as int].1.limiter == s0[i as int].1.limiter);
                assert(self@[i as int].1.ip_cap == s0[i as int].1.ip_cap);
                assert forall|j: int| 0 <= j < self@.len() implies #[trigger] self@[j].0
                    == s0[j].0 by {
                    if j != i {
                        assert(self@[j] == s_pre[j]);
                    }
                }
                assert(store_wf(s0));
                assert forall|a: int, b: int| 0 <= a < b < self@.len() implies self@[a].0
                    != self@[b].0 by {
                    assert(self@[a].0 == s0[a].0);
                    assert(self@[b].0 == s0[b].0);
                    assert(s0[a].0 != s0[b].0);
                }
                assert forall|j: int| 0 <= j < i + 1 implies {
                    let c0 = s0[j].1;
                    let c1 = (#[trigger] self@[j]).1;
                    &&& self@[j].0 == s0[j].0
                    &&& c1.ips.len() == 0
                    &&& c1.id == c0.id && c1.rx == c0.rx && c1.tx == c0.tx && c1.limiter
                        == c0.limiter && c1.ip_cap == c0.ip_cap
                } by {
                    if j != i {
                        assert(self@[j] == s_pre[j]);
                        assert(s_pre[j].1.ips.len() == 0);
                    }
                }
            }
            i = i + 1;
        }
        proof {
            assert(s0.take(n as int) =~= s0);
        }
        out
    }
}

/// The store after a removal by fingerprint: the entry disappears when
/// present; nothing else moves relative to each other.
pub open spec fn spec_remove_pwd(s: StoreView, pwd: Seq<u8>) -> StoreView {
    if contains_pwd(s, pwd) {
        s.remove(pwd_index(s, pwd))
    } else {
        s
    }
}

/// The store after an upsert: an entry already keyed by `pwd` is replaced;
/// otherwise the pair is appended.
pub open spec fn spec_upsert(s: StoreView, pwd: Seq<u8>, c: UserContextView) -> StoreView {
    if contains_pwd(s, pwd) {
        s.update(pwd_index(s, pwd), (pwd, c))
    } else {
        s.push((pwd, c))
    }
}

impl ServerContext {
    /// Remove the user keyed by `pwd`, returning its context.
    pub fn remove_pwd(&mut self, pwd: &Password) -> (r: Option<UserContext>)
        requires
            old(self).wf(),
        ensures
            final(self).wf(),
            final(self)@ == spec_remove_pwd(old(self)@, pwd@),
            match r {
                Some(c) => contains_pwd(old(self)@, pwd@) && c@ == old(self)@[pwd_index(
                    old(self)@,
                    pwd@,
                )].1,
                None => !contains_pwd(old(self)@, pwd@),
            },
    {
        let ghost s0 = self@;
        let i = match self.find(pwd) {
            Some(i) => i,
            None => {
                return None;
            },
        };
        proof {
            assert(contains_pwd(s0, pwd@));
            let j = pwd_index(s0, pwd@);
            if j != i {
                assert(s0[j].0 == s0[i as int].0);
            }
        }
        let (_, ctx) = self.users.remove(i);
        proof {
            assert(self@ =~~= s0.remove(i as int));
            assert forall|j: int| 0 <= j < self@.len() implies (#[trigger] self@[j]) == if j < i {
                s0[j]
            } else {
                s0[j + 1]
            } by {}
            assert forall|a: int, b: int| 0 <= a < b < self@.len() implies self@[a].0
                != self@[b].0 by {}
            assert forall|j: int| 0 <= j < self@.len() implies ctx_wf(#[trigger] self@[j].1) by {
                if j < i {
                    assert(self@[j].1 == s0[j].1);
                } else {
                    assert(self@[j].1 == s0[j + 1].1);
                }
            }
        }
        Some(ctx)
    }

    /// Insert `ctx` under `pwd`, replacing any entry already keyed by it.
    pub fn upsert(&mut self, pwd: Password, ctx: UserContext)
        requires
            old(self).wf(),
            ctx_wf(ctx@),
        ensures
            final(self).wf(),
            final(self)@ == spec_upsert(old(self)@, pwd@, ctx@),
    {
        let ghost s0 = self@;
        match self.find(&pwd) {
            Some(i) => {
                proof {
                    let j = pwd_index(s0, pwd@);
                    if j != i {
                        assert(s0[j].0 == s0[i as int].0);
                    }
                }
                let _ = self.users.remove(i);
                self.users.insert(i, (pwd, ctx));
                proof {
                    assert(self@ =~~= s0.update(i as int, (pwd@, ctx@)));
                    assert forall|j: int| 0 <= j < self@.len() && j != i implies self@[j]
                        == s0[j] by {}
                    assert forall|a: int, b: int| 0 <= a < b < self@.len() implies self@[a].0
                        != self@[b].0 by {
                        assert(self@[a].0 == s0[a].0);
                        assert(self@[b].0 == s0[b].0);
                    }
                    assert forall|j: int| 0 <= j < self@.len() implies ctx_wf(
                        #[trigger] self@[j].1,
                    ) by {
                        if j != i {
                            assert(self@[j] == s0[j]);
                        }
                    }
                }
            },
            None => {
                self.users.push((pwd, ctx));
                proof {
                    assert(self@ =~~= s0.push((pwd@, ctx@)));
                    assert forall|a: int, b: int| 0 <= a < b < self@.len() implies self@[a].0
                        != self@[b].0 by {
                        if b == self@.len() - 1 {
                            assert(self@[a] == s0[a]);
                            assert(!contains_pwd(s0, pwd@));
                        } else {
                            assert(self@[a] == s0[a]);
                            assert(self@[b] == s0[b]);
                        }
                    }
                    assert forall|j: int| 0 <= j < self@.len() implies ctx_wf(
                        #[trigger] self@[j].1,
                    ) by {
                        if j < self@.len() - 1 {
                            assert(self@[j] == s0[j]);
                        }
                    }
                }
            },
        }
    }

    /// Install a new rate and IP cap for user `i`, leaving counters, the
    /// bucket's volume and the IP set alone.
    pub fn update_user_limits(&mut self, i: usize, rate: crate::limiter::Rate, cap: Option<usize>)
        requires
            old(self).wf(),
            i < old(self)@.len(),
            crate::limiter::rate_wf(rate),
        ensures
            final(self).wf(),
            final(self)@ == old(self)@.update(
                i as int,
                (
                    old(self)@[i as int].0,
                    UserContextView {
                        limiter: crate::limiter::spec_set_rate(
                            old(self)@[i as int].1.limiter,
                            rate,
                        ),
                        ip_cap: cap,
                        ..old(self)@[i as int].1
                    },
                ),
            ),
    {
        let ghost s0 = self@;
        let (entry_pwd, mut ctx) = self.users.remove(i);
        ctx.limiter.set_speed_limit(rate);
        ctx.ip_cap = cap;
        self.users.insert(i, (entry_pwd, ctx));
        proof {
            assert(self@ =~~= s0.update(
                i as int,
                (
                    s0[i as int].0,
                    UserContextView {
                        limiter: crate::limiter::spec_set_rate(s0[i as int].1.limiter, rate),
                        ip_cap: cap,
                        ..s0[i as int].1
                    },
                ),
            ));
            assert forall|a: int, b: int| 0 <= a < b < self@.len() implies self@[a].0
                != self@[b].0 by {
                assert(self@[a].0 == s0[a].0);
                assert(self@[b].0 == s0[b].0);
            }
            assert forall|j: int| 0 <= j < self@.len() implies ctx_wf(#[trigger] self@[j].1) by {
                if j != i {
                    assert(self@[j] == s0[j]);
                } else {
                    assert(self@[j].1.ips == s0[j].1.ips);
                    assert(ctx_wf(s0[j].1));
                }
            }
        }
    }
}

/// Law: with no cap set, a first admission from one source and a second
/// from a different one both succeed, and the set then holds exactly the
/// two addresses.
pub proof fn lemma_admit_two_ips(c: UserContextView, a: IpAddress, b: IpAddress)
    requires
        c.ip_cap is None,
        c.ips.len() == 0,
        a != b,
    ensures
        spec_admit(c, a).1,
        spec_admit(spec_admit(c, a).0, b).1,
        spec_admit(spec_admit(c, a).0, b).0.ips =~= seq![a, b],
{
    let c1 = spec_admit(c, a).0;
    assert(!ips_contain(c.ips, a));
    assert(c1.ips =~= c.ips.push(a));
    assert(!ips_contain(c1.ips, b)) by {
        if ips_contain(c1.ips, b) {
            let i = choose|i: int| 0 <= i < c1.ips.len() && c1.ips[i] == b;
            assert(c1.ips[i] == a);
        }
    }
}

/// Law: with a cap of one, the first admission succeeds; a second from a
/// different source IP is rejected and leaves the set holding only the
/// first address.
pub proof fn lemma_admit_ip_limit(c: UserContextView, a: IpAddress, b: IpAddress)
    requires
        c.ip_cap == Some(1usize),
        c.ips.len() == 0,
        a != b,
    ensures
        spec_admit(c, a).1,
        spec_admit(c, a).0.ips =~= seq![a],
        !spec_admit(spec_admit(c, a).0, b).1,
        spec_admit(spec_admit(c, a).0, b).0.ips =~= seq![a],
{
    let c1 = spec_admit(c, a).0;
    assert(!ips_contain(c.ips, a));
    assert(c1.ips =~= c.ips.push(a));
    assert(!ips_contain(c1.ips, b)) by {
        if ips_contain(c1.ips, b) {
            let i = choose|i: int| 0 <= i < c1.ips.len() && c1.ips[i] == b;
            assert(c1.ips[i] == a);
        }
    }
}

/// Law: settling a flush row subtracts exactly the reported counts, so any
/// bytes metered after the rows were collected stay in place; every other
/// field and every other user is untouched.
pub proof fn lemma_flush_subtracts_exactly(s: StoreView, u: UpdateDataView, a: u64, b: u64)
    requires
        store_wf(s),
        contains_pwd(s, u.pwd),
        s[pwd_index(s, u.pwd)].1.tx == u.tx + a,
        s[pwd_index(s, u.pwd)].1.rx == u.rx + b,
    ensures
        ({
            let i = pwd_index(s, u.pwd);
            let s2 = spec_apply_update(s, u);
            &&& s2.len() == s.len()
            &&& s2[i].1.tx == a
            &&& s2[i].1.rx == b
            &&& s2[i].0 == s[i].0
            &&& s2[i].1.id == s[i].1.id && s2[i].1.limiter == s[i].1.limiter && s2[i].1.ips
                == s[i].1.ips && s2[i].1.ip_cap == s[i].1.ip_cap
            &&& forall|j: int| 0 <= j < s.len() && j != i ==> s2[j] == s[j]
        }),
{
}

/// True when the vector holds `ip`.
fn contains_ip(ips: &Vec<IpAddress>, ip: &IpAddress) -> (r: bool)
    ensures
        r == ips_contain(ips@, *ip),
{
    let n = ips.len();
    let mut i: usize = 0;
    while i < n
        invariant
            i <= n,
            n == ips@.len(),
            forall|j: int| 0 <= j < i ==> ips@[j] != *ip,
        decreases n - i,
    {
        if ips[i] == *ip {
            return true;
        }
        i = i + 1;
    }
    false
}

} // verus!
