//! Control-plane data and the reconciliation pass.
//!
//! The control plane owns the authoritative user set. Periodically it is
//! fetched, compared against the set seen last time (`running`), and the
//! store is brought in line: vanished users are removed, new ones are
//! created, changed ones keep their counters while their limits — and, on a
//! password change, their key — are updated in place. The HTTP edge parses
//! the panel's JSON into [`UserRaw`] rows outside the library.

use vstd::prelude::*;

use crate::limiter::{rate_wf, spec_set_rate, Limiter, Rate};
use crate::proto::Password;
use crate::store::{
    contains_pwd, ctx_wf, pwd_index, spec_remove_pwd, spec_upsert, ServerContext, StoreView,
    UserContext, UserContextView,
};

verus! {

/// The panel's response envelope: `ret` (here `status`) is 1 when the call
/// was accepted, and `data` carries the payload.
pub struct Response<D> {
    pub status: isize,
    pub data: D,
}

impl<D> Response<D> {
    /// Whether the panel accepted the call.
    pub fn accepted(&self) -> (r: bool)
        ensures
            r == (self.status == 1),
    {
        self.status == 1
    }
}

/// The body of a POST to the panel: rows under a `data` key.
pub struct Request<D> {
    pub data: D,
}

/// An authoritative user record, reduced to plain values: the fingerprint
/// is already the SHA-224 digest of the panel's raw password, and the
/// speed limit is in bytes per second (0 meaning unlimited), as converted
/// at the edge from the panel's MiB/s figure.
#[derive(Debug, Clone, Copy)]
pub struct UserRaw {
    pub id: usize,
    pub pwd: Password,
    /// Bytes per second; 0 means unlimited.
    pub speed_limit: u64,
    /// Concurrent-IP allowance; 0 means uncapped.
    pub ip_limit: usize,
    /// IPs the panel already counts as online elsewhere.
    pub ip_online: usize,
}

/// The mathematical shape of a [`UserRaw`].
pub struct UserRawView {
    pub id: usize,
    pub pwd: Seq<u8>,
    pub speed_limit: u64,
    pub ip_limit: usize,
    pub ip_online: usize,
}

impl View for UserRaw {
    type V = UserRawView;

    open spec fn view(&self) -> UserRawView {
        UserRawView {
            id: self.id,
            pwd: self.pwd@,
            speed_limit: self.speed_limit,
            ip_limit: self.ip_limit,
            ip_online: self.ip_online,
        }
    }
}

/// The effective IP cap of a record: none when uncapped, otherwise the
/// allowance minus what the panel counts as online already, floored at
/// zero.
pub open spec fn spec_ip_limit(u: UserRawView) -> Option<usize> {
    if u.ip_limit == 0 {
        None
    } else if u.ip_limit < u.ip_online {
        Some(0usize)
    } else {
        Some((u.ip_limit - u.ip_online) as usize)
    }
}

/// The effective rate of a record: unlimited when the panel says 0.
pub open spec fn spec_rate(u: UserRawView) -> Rate {
    if u.speed_limit == 0 {
        Rate::Unlimited
    } else {
        Rate::Limited(u.speed_limit)
    }
}

/// The context a fresh record starts with: zero counters, an empty bucket
/// stamped `now_ms`, no IPs yet.
pub open spec fn spec_fresh_ctx(u: UserRawView, now_ms: u64) -> UserContextView {
    UserContextView {
        id: u.id,
        rx: 0,
        tx: 0,
        limiter: spec_set_rate(
            Limiter { unlimited: false, speed_limit: 1, volume: 0, updated_at_ms: now_ms },
            spec_rate(u),
        ),
        ips: Seq::empty(),
        ip_cap: spec_ip_limit(u),
    }
}

impl UserRaw {
    /// The effective IP cap: see [`spec_ip_limit`].
    pub fn ip_limit(&self) -> (r: Option<usize>)
        ensures
            r == spec_ip_limit(self@),
    {
        if self.ip_limit == 0 {
            None
        } else if self.ip_limit < self.ip_online {
            Some(0)
        } else {
            Some(self.ip_limit - self.ip_online)
        }
    }

    /// The effective rate: see [`spec_rate`].
    pub fn speed_limit(&self) -> (r: Rate)
        ensures
            r == spec_rate(self@),
            rate_wf(r),
    {
        if self.speed_limit == 0 {
            Rate::Unlimited
        } else {
            Rate::Limited(self.speed_limit)
        }
    }

    /// The store entry a fresh record starts with.
    pub fn as_server_user(&self, now_ms: u64) -> (r: (Password, UserContext))
        ensures
            r.0@ == self@.pwd,
            r.1@ == spec_fresh_ctx(self@, now_ms),
            ctx_wf(r.1@),
    {
        let ctx = UserContext {
            id: self.id,
            rx: 0,
            tx: 0,
            limiter: Limiter::new(self.speed_limit(), now_ms),
            ips: Vec::new(),
            ip_cap: self.ip_limit(),
        };
        proof {
            assert(ctx@.ips =~= Seq::<crate::net::IpAddress>::empty());
        }
        (self.pwd, ctx)
    }

    /// Field-for-field equality with another record.
    pub fn same_as(&self, other: &UserRaw) -> (r: bool)
        ensures
            r == (self@ == other@),
    {
        let r = self.id == other.id && self.pwd.equals(&other.pwd) && self.speed_limit
            == other.speed_limit && self.ip_limit == other.ip_limit && self.ip_online
            == other.ip_online;
        proof {
            if r {
                assert(self@.pwd =~= other@.pwd);
            }
        }
        r
    }
}

/// True when some record of `s` carries id `id`.
pub open spec fn contains_id(s: Seq<UserRawView>, id: usize) -> bool {
    exists|i: int| 0 <= i < s.len() && s[i].id == id
}

/// The index of the record carrying `id` (unique when ids are distinct).
pub open spec fn id_index(s: Seq<UserRawView>, id: usize) -> int {
    choose|i: int| 0 <= i < s.len() && s[i].id == id
}

/// Find the record with id `id`.
fn find_id(s: &Vec<UserRaw>, id: usize) -> (r: Option<usize>)
    ensures
        match r {
            Some(i) => i < s@.len() && s@[i as int]@.id == id,
            None => !contains_id(s@.map_values(|u: UserRaw| u@), id),
        },
{
    let n = s.len();
    let mut i: usize = 0;
    while i < n
        invariant
            i <= n,
            n == s@.len(),
            forall|j: int| 0 <= j < i ==> s@[j]@.id != id,
        decreases n - i,
    {
        if s[i].id == id {
            return Some(i);
        }
        i = i + 1;
    }
    proof {
        let m = s@.map_values(|u: UserRaw| u@);
        if contains_id(m, id) {
            let j = choose|j: int| 0 <= j < m.len() && m[j].id == id;
            assert(s@[j]@.id == id);
        }
    }
    None
}

/// One step of the removal phase: a running user absent from the fetch
/// loses its store entry.
pub open spec fn spec_remove_stale(
    s: StoreView,
    r: UserRawView,
    fetched: Seq<UserRawView>,
) -> StoreView {
    if !contains_id(fetched, r.id) {
        spec_remove_pwd(s, r.pwd)
    } else {
        s
    }
}

/// The removal phase, applied row by row over the previously fetched set.
pub open spec fn spec_phase_remove(
    s: StoreView,
    running: Seq<UserRawView>,
    fetched: Seq<UserRawView>,
) -> StoreView
    decreases running.len(),
{
    if running.len() == 0 {
        s
    } else {
        spec_remove_stale(
            spec_phase_remove(s, running.drop_last(), fetched),
            running.last(),
            fetched,
        )
    }
}

/// One step of the apply phase for a fetched record `f`.
///
/// A record with no previously running id gets a fresh entry. A record
/// whose running twin is identical changes nothing. A changed record keeps
/// its context — counters, bucket and IP set — while the rate and cap are
/// installed anew: in place when the fingerprint still matches, else moved
/// from the old fingerprint to the new one.
pub open spec fn spec_apply_fetched(
    s: StoreView,
    f: UserRawView,
    running: Seq<UserRawView>,
    now_ms: u64,
) -> StoreView {
    if !contains_id(running, f.id) {
        spec_upsert(s, f.pwd, spec_fresh_ctx(f, now_ms))
    } else {
        let r = running[id_index(running, f.id)];
        if r == f {
            s
        } else if contains_pwd(s, f.pwd) {
            let i = pwd_index(s, f.pwd);
            s.update(
                i,
                (
                    f.pwd,
                    UserContextView {
                        limiter: spec_set_rate(s[i].1.limiter, spec_rate(f)),
                        ip_cap: spec_ip_limit(f),
                        ..s[i].1
                    },
                ),
            )
        } else if contains_pwd(s, r.pwd) {
            let i = pwd_index(s, r.pwd);
            let moved = UserContextView {
                limiter: spec_set_rate(s[i].1.limiter, spec_rate(f)),
                ip_cap: spec_ip_limit(f),
                ..s[i].1
            };
            spec_upsert(spec_remove_pwd(s, r.pwd), f.pwd, moved)
        } else {
            s
        }
    }
}

/// The apply phase, row by row over the fetched set.
pub open spec fn spec_phase_apply(
    s: StoreView,
    fetched: Seq<UserRawView>,
    running: Seq<UserRawView>,
    now_ms: u64,
) -> StoreView
    decreases fetched.len(),
{
    if fetched.len() == 0 {
        s
    } else {
        spec_apply_fetched(
            spec_phase_apply(s, fetched.drop_last(), running, now_ms),
            fetched.last(),
            running,
            now_ms,
        )
    }
}

/// The whole reconciliation: removals, then applications.
pub open spec fn spec_reconcile(
    s: StoreView,
    running: Seq<UserRawView>,
    fetched: Seq<UserRawView>,
    now_ms: u64,
) -> StoreView {
    spec_phase_apply(spec_phase_remove(s, running, fetched), fetched, running, now_ms)
}

/// Bring the store in line with a freshly fetched authoritative set.
///
/// `running` is the set the previous fetch produced; the caller replaces it
/// with `fetched` afterwards. Users gone from the fetch are removed; new
/// ones are created; changed ones keep their counters, bucket and IP set
/// while rate, cap — and, on a password change, the key — are updated.
pub fn reconcile(
    store: &mut ServerContext,
    running: &Vec<UserRaw>,
    fetched: &Vec<UserRaw>,
    now_ms: u64,
)
    requires
        old(store).wf(),
        forall|a: int, b: int|
            0 <= a < b < running@.len() ==> (#[trigger] running@[a])@.id != (
            #[trigger] running@[b])@.id,
    ensures
        final(store).wf(),
        final(store)@ == spec_reconcile(
            old(store)@,
            running@.map_values(|u: UserRaw| u@),
            fetched@.map_values(|u: UserRaw| u@),
            now_ms,
        ),
{
    let ghost s0 = store@;
    let ghost rv = running@.map_values(|u: UserRaw| u@);
    let ghost fv = fetched@.map_values(|u: UserRaw| u@);
    let n = running.len();
    let mut i: usize = 0;
    proof {
        assert(rv.take(0) =~= Seq::<UserRawView>::empty());
    }
    while i < n
        invariant
            i <= n,
            n == running@.len(),
            rv == running@.map_values(|u: UserRaw| u@),
            fv == fetched@.map_values(|u: UserRaw| u@),
            store@ == spec_phase_remove(s0, rv.take(i as int), fv),
            store.wf(),
        decreases n - i,
    {
        let ghost s_pre = store@;
        let stale = match find_id(fetched, running[i].id) {
            Some(j) => {
                proof {
                    assert(fv[j as int].id == rv[i as int].id);
                }
                false
            },
            None => true,
        };
        if stale {
            let _ = store.remove_pwd(&running[i].pwd);
        }
        proof {
            assert(rv.take(i as int + 1).drop_last() =~= rv.take(i as int));
            assert(rv.take(i as int + 1).last() == rv[i as int]);
            if stale {
                assert(!contains_id(fv, rv[i as int].id));
            } else {
                assert(contains_id(fv, rv[i as int].id));
                assert(store@ == spec_remove_stale(s_pre, rv[i as int], fv));
            }
        }
        i = i + 1;
    }
    proof {
        assert(rv.take(n as int) =~= rv);
    }
    let ghost s1 = store@;
    let m = fetched.len();
    let mut k: usize = 0;
    proof {
        assert(fv.take(0) =~= Seq::<UserRawView>::empty());
    }
    while k < m
        invariant
            k <= m,
            m == fetched@.len(),
            rv == running@.map_values(|u: UserRaw| u@),
            fv == fetched@.map_values(|u: UserRaw| u@),
            store@ == spec_phase_apply(s1, fv.take(k as int), rv, now_ms),
            store.wf(),
            forall|a: int, b: int| 0 <= a < b < rv.len() ==> (#[trigger] rv[a]).id != (
            #[trigger] rv[b]).id,
        decreases m - k,
    {
        let ghost s_pre = store@;
        let f = fetched[k];
        match find_id(running, f.id) {
            None => {
                let (p, ctx) = f.as_server_user(now_ms);
                store.upsert(p, ctx);
                proof {
                    assert(store@ == spec_apply_fetched(s_pre, fv[k as int], rv, now_ms));
                }
            },
            Some(ri) => {
                proof {
                    assert(rv[ri as int].id == f@.id);
                    assert(contains_id(rv, f@.id));
                    let j = id_index(rv, f@.id);
                    assert(rv[j].id == f@.id);
                    if j != ri {
                        assert(rv[j].id != rv[ri as int].id);
                    }
                    assert(id_index(rv, f@.id) == ri);
                }
                let r = running[ri];
                if r.same_as(&f) {
                    proof {
                        assert(store@ == spec_apply_fetched(s_pre, fv[k as int], rv, now_ms));
                    }
                } else {
                    match store.find(&f.pwd) {
                        Some(ui) => {
                            proof {
                                assert(contains_pwd(s_pre, f@.pwd));
                                let j = pwd_index(s_pre, f@.pwd);
                                if j != ui {
                                    assert(s_pre[j].0 == s_pre[ui as int].0);
                                }
                            }
                            store.update_user_limits(ui, f.speed_limit(), f.ip_limit());
                            proof {
                                assert(store@ == spec_apply_fetched(
                                    s_pre,
                                    fv[k as int],
                                    rv,
                                    now_ms,
                                ));
                            }
                        },
                        None => {
                            match store.remove_pwd(&r.pwd) {
                                Some(mut ctx) => {
                                    proof {
                                        let j = pwd_index(s_pre, r@.pwd);
                                        assert(ctx_wf(s_pre[j].1));
                                    }
                                    ctx.limiter.set_speed_limit(f.speed_limit());
                                    ctx.ip_cap = f.ip_limit();
                                    store.upsert(f.pwd, ctx);
                                    proof {
                                        assert(store@ == spec_apply_fetched(
                                            s_pre,
                                            fv[k as int],
                                            rv,
                                            now_ms,
                                        ));
                                    }
                                },
                                None => {
                                    proof {
                                        assert(store@ == spec_apply_fetched(
                                            s_pre,
                                            fv[k as int],
                                            rv,
                                            now_ms,
                                        ));
                                    }
                                },
                            }
                        },
                    }
                }
            },
        }
        proof {
            assert(fv.take(k as int + 1).drop_last() =~= fv.take(k as int));
            assert(fv.take(k as int + 1).last() == fv[k as int]);
        }
        k = k + 1;
    }
    proof {
        assert(fv.take(m as int) =~= fv);
    }
}

} // verus!
