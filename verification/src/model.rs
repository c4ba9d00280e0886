//! The mathematical model of the TTL protocol.
//!
//! A store with TTL support is modelled as three finite maps: the primary
//! entries, the forward index (key to expiry timestamp) and the reverse index
//! (a set of timestamp–key pairs). Every operation of the layer — explicit
//! set/get/del, the reactive observer's touch and release, and the sweep — is
//! a transition on this state, and the laws of the layer (expiry at the TTL
//! boundary, reset on rewrite, idempotent expiry, delete semantics, parity of
//! the reactive mode) are proved about these transitions.

use vstd::prelude::*;

verus! {

/// The abstract state of one TTL-bearing container: primary entries,
/// forward index and reverse index.
#[verifier::ext_equal]
pub ghost struct TtlModel {
    /// Key to value: the entries the caller stores.
    pub primary: Map<Seq<u8>, Seq<u8>>,
    /// Key to expiry timestamp (seconds since epoch).
    pub forward: Map<Seq<u8>, u64>,
    /// (expiry timestamp, key) pairs, mirrored from the forward index.
    pub reverse: Set<(u64, Seq<u8>)>,
}

/// The index invariant: forward and reverse rows are in bijection, and every
/// primary entry carries a forward row while it is logically alive.
pub open spec fn inv(m: TtlModel) -> bool {
    &&& forall|k: Seq<u8>| #[trigger] m.forward.contains_key(k) ==> m.reverse.contains(
        (m.forward[k], k),
    )
    &&& forall|p: (u64, Seq<u8>)| #[trigger] m.reverse.contains(p) ==> m.forward.contains_key(p.1)
        && m.forward[p.1] == p.0
    &&& forall|k: Seq<u8>| #[trigger] m.primary.contains_key(k) ==> m.forward.contains_key(k)
}

/// A key's classification at a point in time, read from the forward index.
#[derive(PartialEq, Eq, Structural, Clone, Copy, Debug)]
pub enum ExpiryStatus {
    /// No forward row: the key carries no TTL and the layer treats it as a miss.
    Absent,
    /// The recorded expiry is at or before now: logically expired.
    Expired,
    /// The recorded expiry is in the future.
    Live,
}

/// How a key with the given forward-index timestamp reads at time `now`.
pub open spec fn spec_classify(expiry: Option<u64>, now: u64) -> ExpiryStatus {
    match expiry {
        Option::None => ExpiryStatus::Absent,
        Option::Some(t) => if t <= now {
            ExpiryStatus::Expired
        } else {
            ExpiryStatus::Live
        },
    }
}

/// How a key with the given forward-index timestamp reads at time `now`:
/// the executable decision every reader of the layer goes through.
pub fn classify_expiry(expiry: Option<u64>, now: u64) -> (r: ExpiryStatus)
    ensures
        r == spec_classify(expiry, now),
{
    match expiry {
        Option::None => ExpiryStatus::Absent,
        Option::Some(t) => if t <= now {
            ExpiryStatus::Expired
        } else {
            ExpiryStatus::Live
        },
    }
}

/// The forward-index timestamp of a key, if any.
pub open spec fn peek(m: TtlModel, k: Seq<u8>) -> Option<u64> {
    if m.forward.contains_key(k) {
        Option::Some(m.forward[k])
    } else {
        Option::None
    }
}

pub open spec fn expired_at(m: TtlModel, k: Seq<u8>, now: u64) -> bool {
    spec_classify(peek(m, k), now) is Expired
}

pub open spec fn live_at(m: TtlModel, k: Seq<u8>, now: u64) -> bool {
    spec_classify(peek(m, k), now) is Live
}

/// Record an expiry for a key: write the new reverse row, overwrite the
/// forward row, and clear the stale reverse row of the previous expiry.
pub open spec fn touch(m: TtlModel, k: Seq<u8>, exp: u64) -> TtlModel {
    let cleared = if m.forward.contains_key(k) {
        m.reverse.remove((m.forward[k], k))
    } else {
        m.reverse
    };
    TtlModel {
        primary: m.primary,
        forward: m.forward.insert(k, exp),
        reverse: cleared.insert((exp, k)),
    }
}

/// Drop a key's forward and reverse rows, leaving the primary entry alone.
pub open spec fn release(m: TtlModel, k: Seq<u8>) -> TtlModel {
    if m.forward.contains_key(k) {
        TtlModel {
            primary: m.primary,
            forward: m.forward.remove(k),
            reverse: m.reverse.remove((m.forward[k], k)),
        }
    } else {
        m
    }
}

/// Remove every trace of a key: primary entry, forward row, reverse row.
pub open spec fn purge(m: TtlModel, k: Seq<u8>) -> TtlModel {
    let r = release(m, k);
    TtlModel { primary: m.primary.remove(k), forward: r.forward, reverse: r.reverse }
}

/// Explicit `set`: write the primary entry, then touch the indices.
/// The result is the previously stored value, expired or not.
pub open spec fn set_op(m: TtlModel, k: Seq<u8>, v: Seq<u8>, exp: u64) -> (TtlModel, Option<
    Seq<u8>,
>) {
    let old_v = if m.primary.contains_key(k) {
        Option::Some(m.primary[k])
    } else {
        Option::<Seq<u8>>::None
    };
    let written = TtlModel { primary: m.primary.insert(k, v), forward: m.forward, reverse: m.reverse };
    (touch(written, k, exp), old_v)
}

/// `get` with lazy expiry: a key without a TTL record is a miss; a logically
/// expired key is purged on the spot and reads as a miss; a live key reads
/// its primary value.
pub open spec fn get_op(m: TtlModel, k: Seq<u8>, now: u64) -> (TtlModel, Option<Seq<u8>>) {
    match spec_classify(peek(m, k), now) {
        ExpiryStatus::Absent => (m, Option::<Seq<u8>>::None),
        ExpiryStatus::Expired => (purge(m, k), Option::<Seq<u8>>::None),
        ExpiryStatus::Live => (
            m,
            if m.primary.contains_key(k) {
                Option::Some(m.primary[k])
            } else {
                Option::<Seq<u8>>::None
            },
        ),
    }
}

/// `del`: remove every trace of the key; report the removed value only when
/// the key was still logically alive — logical expiry takes precedence over
/// physical presence.
pub open spec fn del_op(m: TtlModel, k: Seq<u8>, now: u64) -> (TtlModel, Option<Seq<u8>>) {
    let r = if live_at(m, k, now) && m.primary.contains_key(k) {
        Option::Some(m.primary[k])
    } else {
        Option::<Seq<u8>>::None
    };
    (purge(m, k), r)
}

/// The sweep at time `now`: evict every key whose recorded expiry is at or
/// before `now` — primary entry, forward row and reverse row together.
pub open spec fn sweep_op(m: TtlModel, now: u64) -> TtlModel {
    let doomed = Set::new(|k: Seq<u8>| expired_at(m, k, now));
    TtlModel {
        primary: m.primary.remove_keys(doomed),
        forward: m.forward.remove_keys(doomed),
        reverse: m.reverse.filter(|p: (u64, Seq<u8>)| p.0 > now),
    }
}

/// The reactive observer on a set or merge event: the external writer has
/// already written the primary entry; only the indices are touched.
pub open spec fn observe_set(m: TtlModel, k: Seq<u8>, exp: u64) -> TtlModel {
    touch(m, k, exp)
}

/// The reactive observer on a delete event: the external writer has already
/// removed the primary entry; the index rows are released.
pub open spec fn observe_del(m: TtlModel, k: Seq<u8>) -> TtlModel {
    release(m, k)
}

/// `touch` preserves the index invariant.
pub proof fn lemma_touch_preserves_inv(m: TtlModel, k: Seq<u8>, exp: u64)
    requires
        inv(m),
    ensures
        inv(touch(m, k, exp)),
{
    let t = touch(m, k, exp);
    assert forall|p: (u64, Seq<u8>)| #[trigger] t.reverse.contains(p) implies t.forward.contains_key(
        p.1,
    ) && t.forward[p.1] == p.0 by {
        if p != ((exp, k)) {
            assert(m.reverse.contains(p));
            assert(p.1 != k || m.forward[k] != p.0);
        }
    }
}

/// `release` preserves the index invariant.
pub proof fn lemma_release_preserves_inv(m: TtlModel, k: Seq<u8>)
    requires
        inv(m),
        !m.primary.contains_key(k),
    ensures
        inv(release(m, k)),
{
}

/// `purge` preserves the index invariant.
pub proof fn lemma_purge_preserves_inv(m: TtlModel, k: Seq<u8>)
    requires
        inv(m),
    ensures
        inv(purge(m, k)),
{
}

/// `set` preserves the index invariant.
pub proof fn lemma_set_preserves_inv(m: TtlModel, k: Seq<u8>, v: Seq<u8>, exp: u64)
    requires
        inv(m),
    ensures
        inv(set_op(m, k, v, exp).0),
{
    let written = TtlModel { primary: m.primary.insert(k, v), forward: m.forward, reverse: m.reverse };
    let t = touch(written, k, exp);
    assert forall|p: (u64, Seq<u8>)| #[trigger] t.reverse.contains(p) implies t.forward.contains_key(
        p.1,
    ) && t.forward[p.1] == p.0 by {
        if p != ((exp, k)) {
            assert(m.reverse.contains(p));
            assert(p.1 != k || m.forward[k] != p.0);
        }
    }
}

/// `get` preserves the index invariant.
pub proof fn lemma_get_preserves_inv(m: TtlModel, k: Seq<u8>, now: u64)
    requires
        inv(m),
    ensures
        inv(get_op(m, k, now).0),
{
}

/// `del` preserves the index invariant.
pub proof fn lemma_del_preserves_inv(m: TtlModel, k: Seq<u8>, now: u64)
    requires
        inv(m),
    ensures
        inv(del_op(m, k, now).0),
{
}

/// The sweep preserves the index invariant.
pub proof fn lemma_sweep_preserves_inv(m: TtlModel, now: u64)
    requires
        inv(m),
    ensures
        inv(sweep_op(m, now)),
{
    let s = sweep_op(m, now);
    assert forall|k: Seq<u8>| #[trigger] s.forward.contains_key(k) implies s.reverse.contains(
        (s.forward[k], k),
    ) by {
        assert(m.forward.contains_key(k));
        assert(!expired_at(m, k, now));
        assert(m.reverse.contains((m.forward[k], k)));
        assert(m.forward[k] > now);
    }
}

/// TTL boundary: once a key is set at `t0` with time to live `ttl`, a `get`
/// before `t0 + ttl` returns the stored value and a `get` at or after
/// `t0 + ttl` returns nothing — whether or not a sweep has run at any time
/// `s` up to the read.
pub proof fn lemma_ttl_boundary(
    m: TtlModel,
    k: Seq<u8>,
    v: Seq<u8>,
    t0: u64,
    ttl: u64,
    s: u64,
    now: u64,
)
    requires
        inv(m),
        t0 + ttl <= u64::MAX,
        s <= now,
    ensures
        now < t0 + ttl ==> get_op(set_op(m, k, v, (t0 + ttl) as u64).0, k, now).1 == Option::Some(
            v,
        ),
        now < t0 + ttl ==> get_op(sweep_op(set_op(m, k, v, (t0 + ttl) as u64).0, s), k, now).1
            == Option::Some(v),
        now >= t0 + ttl ==> get_op(set_op(m, k, v, (t0 + ttl) as u64).0, k, now).1 == Option::<
            Seq<u8>,
        >::None,
        now >= t0 + ttl ==> get_op(sweep_op(set_op(m, k, v, (t0 + ttl) as u64).0, s), k, now).1
            == Option::<Seq<u8>>::None,
{
    let exp = (t0 + ttl) as u64;
    let m1 = set_op(m, k, v, exp).0;
    assert(m1.forward[k] == exp);
    assert(m1.primary[k] == v);
    let m2 = sweep_op(m1, s);
    if exp > s {
        assert(!expired_at(m1, k, s));
        assert(m2.forward.contains_key(k) && m2.forward[k] == exp);
        assert(m2.primary.contains_key(k) && m2.primary[k] == v);
    } else {
        assert(expired_at(m1, k, s));
        assert(!m2.forward.contains_key(k));
    }
}

/// Reset on rewrite: re-setting a key moves its expiry to the new deadline;
/// a read past the old deadline but before the new one still returns the
/// value, and a read at or past the new deadline returns nothing.
pub proof fn lemma_reset_on_rewrite(
    m: TtlModel,
    k: Seq<u8>,
    v1: Seq<u8>,
    v2: Seq<u8>,
    exp1: u64,
    exp2: u64,
    now: u64,
)
    requires
        inv(m),
    ensures
        now < exp2 ==> get_op(set_op(set_op(m, k, v1, exp1).0, k, v2, exp2).0, k, now).1
            == Option::Some(v2),
        now >= exp2 ==> get_op(set_op(set_op(m, k, v1, exp1).0, k, v2, exp2).0, k, now).1
            == Option::<Seq<u8>>::None,
{
    let m2 = set_op(set_op(m, k, v1, exp1).0, k, v2, exp2).0;
    assert(m2.forward[k] == exp2);
    assert(m2.primary[k] == v2);
}

/// Idempotent expiry: on an already-expired key, the lazy `get` and the
/// sweep both read "not found", they commute to the same state, and neither
/// leaves a forward or reverse row for the key behind.
pub proof fn lemma_idempotent_expiry(m: TtlModel, k: Seq<u8>, now: u64)
    requires
        inv(m),
        expired_at(m, k, now),
    ensures
        get_op(m, k, now).1 == Option::<Seq<u8>>::None,
        get_op(sweep_op(m, now), k, now).1 == Option::<Seq<u8>>::None,
        sweep_op(get_op(m, k, now).0, now) == sweep_op(m, now),
        !sweep_op(m, now).forward.contains_key(k),
        !get_op(m, k, now).0.forward.contains_key(k),
        forall|t: u64| !sweep_op(m, now).reverse.contains((t, k)),
        forall|t: u64| !get_op(m, k, now).0.reverse.contains((t, k)),
{
    let g = get_op(m, k, now).0;
    let a = sweep_op(g, now);
    let b = sweep_op(m, now);
    assert forall|t: u64| !g.reverse.contains((t, k)) by {
        if g.reverse.contains((t, k)) {
            assert(m.reverse.contains((t, k)));
            assert(m.forward[k] == t);
        }
    }
    assert(a.primary =~= b.primary) by {
        assert forall|x: Seq<u8>| a.primary.contains_key(x) <==> b.primary.contains_key(x) by {
            if x != k {
                assert(expired_at(g, x, now) <==> expired_at(m, x, now));
            }
        }
        assert(forall|x: Seq<u8>| a.primary.contains_key(x) ==> a.primary[x] == b.primary[x]);
    }
    assert(a.forward =~= b.forward) by {
        assert forall|x: Seq<u8>| a.forward.contains_key(x) <==> b.forward.contains_key(x) by {
            if x != k {
                assert(expired_at(g, x, now) <==> expired_at(m, x, now));
            }
        }
        assert(forall|x: Seq<u8>| a.forward.contains_key(x) ==> a.forward[x] == b.forward[x]);
    }
    assert(a.reverse =~= b.reverse) by {
        assert forall|p: (u64, Seq<u8>)| a.reverse.contains(p) <==> b.reverse.contains(p) by {
            if b.reverse.contains(p) {
                assert(m.reverse.contains(p) && p.0 > now);
                assert(p.1 != k);
            }
        }
    }
    assert(a =~= b);
}

/// Delete semantics: deleting a live key returns the stored value; deleting
/// a logically expired (even if not yet swept) key returns nothing. Either
/// way no forward or reverse trace of the key remains.
pub proof fn lemma_del_semantics(m: TtlModel, k: Seq<u8>, now: u64)
    requires
        inv(m),
    ensures
        live_at(m, k, now) && m.primary.contains_key(k) ==> del_op(m, k, now).1 == Option::Some(
            m.primary[k],
        ),
        expired_at(m, k, now) ==> del_op(m, k, now).1 == Option::<Seq<u8>>::None,
        !del_op(m, k, now).0.forward.contains_key(k),
        !del_op(m, k, now).0.primary.contains_key(k),
        forall|t: u64| !del_op(m, k, now).0.reverse.contains((t, k)),
{
    let d = del_op(m, k, now).0;
    assert forall|t: u64| !d.reverse.contains((t, k)) by {
        if d.reverse.contains((t, k)) {
            assert(m.reverse.contains((t, k)));
            assert(m.forward[k] == t);
        }
    }
}

/// Reactive parity: observing an external write of (k, v) produces exactly
/// the state an explicit `set` of (k, v) with the same expiry produces.
pub proof fn lemma_reactive_parity(m: TtlModel, k: Seq<u8>, v: Seq<u8>, exp: u64)
    requires
        inv(m),
    ensures
        observe_set(
            TtlModel { primary: m.primary.insert(k, v), forward: m.forward, reverse: m.reverse },
            k,
            exp,
        ) == set_op(m, k, v, exp).0,
        inv(set_op(m, k, v, exp).0),
{
    lemma_set_preserves_inv(m, k, v, exp);
    let raw = TtlModel { primary: m.primary.insert(k, v), forward: m.forward, reverse: m.reverse };
    assert(observe_set(raw, k, exp) =~= set_op(m, k, v, exp).0);
}

/// Reactive parity for deletes: observing an external delete of a key leaves
/// the same index state as an explicit `del`, whose primary removal the
/// external writer has already performed.
pub proof fn lemma_reactive_delete_parity(m: TtlModel, k: Seq<u8>, now: u64)
    requires
        inv(m),
    ensures
        observe_del(
            TtlModel { primary: m.primary.remove(k), forward: m.forward, reverse: m.reverse },
            k,
        ) == del_op(m, k, now).0,
{
    let raw = TtlModel { primary: m.primary.remove(k), forward: m.forward, reverse: m.reverse };
    assert(observe_del(raw, k) =~= del_op(m, k, now).0);
}

} // verus!
