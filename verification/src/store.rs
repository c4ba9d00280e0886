//! The TTL layer over sled.
//!
//! A [`TransientTree`] is a sled tree plus two auxiliary trees: the forward
//! index (key to big-endian expiry timestamp) and the reverse index
//! (timestamp-prefixed composite key to key). Explicit-mode callers go
//! through [`TransientTree::set`], [`TransientTree::get`] and
//! [`TransientTree::del`]; reactive-mode callers write the primary tree
//! directly and feed the change events to [`TransientTree::observe_insert`]
//! and [`TransientTree::observe_remove`]. A sweeper calls
//! [`TransientTree::sweep_once`] periodically; background threads and the
//! blocking event loop live outside this crate.
//!
//! sled itself is trusted: each call into it sits behind a declared wrapper.
//! Everything around those calls is verified: the index encodings and the
//! sweep bound against the lemmas in [`crate::bytes`], and the expiry
//! decisions through [`crate::model::classify_expiry`], the executable form
//! of the classification the model's transitions and laws are stated over.

use vstd::prelude::*;
use vstd::slice::slice_to_vec;
use crate::bytes::be_digits;
use crate::bytes::decode_be_prefix;
use crate::bytes::encode_be;
use crate::bytes::lemma_composite_below_bound;
use crate::bytes::lemma_decode_encode;
use crate::bytes::lex_lt;
use crate::bytes::reverse_key;
use crate::bytes::tail_from;
use crate::rows::decide_read;
use crate::rows::del_result;
use crate::rows::parse_forward_row;
use crate::rows::stale_expiry;
use crate::rows::swept_matches;
use crate::rows::ReadDecision;

verus! {

/// sled's database handle, declared so it can stand in signatures.
#[verifier::external_type_specification]
#[verifier::external_body]
pub struct ExDb(sled::Db);

/// sled's tree — one ordered keyspace of a database.
#[verifier::external_type_specification]
#[verifier::external_body]
pub struct ExTree(sled::Tree);

/// sled's error type.
#[verifier::external_type_specification]
#[verifier::external_body]
pub struct ExError(sled::Error);

/// The errors of the TTL layer.
#[derive(Debug)]
pub enum TtlError {
    /// The underlying store failed; carries the store's own error verbatim.
    Store(sled::Error),
    /// `now + ttl` does not fit in 64 bits: timestamp arithmetic is undefined.
    ClockOverflow,
    /// The system clock reads before the Unix epoch.
    ClockUnavailable,
}

/// Relies on sled::Db::open_tree: opens or creates the named keyspace.
#[verifier::external_body]
fn open_tree(db: &sled::Db, name: &[u8]) -> (r: Result<sled::Tree, sled::Error>) {
    db.open_tree(name)
}

/// Relies on sled::Tree::insert: atomically sets the key to the value,
/// returning the value previously stored there, if any.
#[verifier::external_body]
fn tree_insert(t: &sled::Tree, key: &Vec<u8>, value: &Vec<u8>) -> (r: Result<
    Option<Vec<u8>>,
    sled::Error,
>) {
    match t.insert(key.as_slice(), value.as_slice()) {
        Ok(old) => Ok(old.map(|v| v.to_vec())),
        Err(e) => Err(e),
    }
}

/// Relies on sled::Tree::get: reads the value stored at the key, if any.
#[verifier::external_body]
fn tree_get(t: &sled::Tree, key: &Vec<u8>) -> (r: Result<Option<Vec<u8>>, sled::Error>) {
    match t.get(key.as_slice()) {
        Ok(v) => Ok(v.map(|v| v.to_vec())),
        Err(e) => Err(e),
    }
}

/// Relies on sled::Tree::remove: deletes the key, returning the value that
/// was stored there, if any.
#[verifier::external_body]
fn tree_remove(t: &sled::Tree, key: &Vec<u8>) -> (r: Result<Option<Vec<u8>>, sled::Error>) {
    match t.remove(key.as_slice()) {
        Ok(v) => Ok(v.map(|v| v.to_vec())),
        Err(e) => Err(e),
    }
}

/// Relies on sled::Tree::range with an exclusive upper bound: every yielded
/// pair's key sorts lexicographically below `end` (sled orders keys by their
/// bytes), in strictly increasing key order. Only this direction is stated:
/// which pairs the scan visits depends on shared tree state that concurrent
/// writers may change, so no completeness is claimed.
#[verifier::external_body]
fn tree_scan_below(t: &sled::Tree, end: &Vec<u8>) -> (r: Result<
    Vec<(Vec<u8>, Vec<u8>)>,
    sled::Error,
>)
    ensures
        r matches Ok(rows) ==> forall|i: int|
            0 <= i < rows@.len() ==> lex_lt(rows@[i].0@, end@),
        r matches Ok(rows) ==> forall|i: int, j: int|
            0 <= i < j < rows@.len() ==> lex_lt(rows@[i].0@, rows@[j].0@),
{
    let mut out = Vec::new();
    for item in t.range(..end.as_slice()) {
        match item {
            Ok((k, v)) => out.push((k.to_vec(), v.to_vec())),
            Err(e) => return Err(e),
        }
    }
    Ok(out)
}

/// Relies on sled::Tree::clone: a new handle onto the same keyspace.
#[verifier::external_body]
fn tree_clone(t: &sled::Tree) -> (r: sled::Tree) {
    t.clone()
}

/// Relies on std::time::SystemTime::now and duration_since(UNIX_EPOCH):
/// whole seconds from the Unix epoch to the present, or nothing when the
/// clock reads earlier than the epoch.
#[verifier::external_body]
fn now_secs() -> (r: Option<u64>) {
    match std::time::SystemTime::now().duration_since(std::time::UNIX_EPOCH) {
        Ok(d) => Some(d.as_secs()),
        Err(_) => None,
    }
}

/// The two byte strings, one after the other.
fn concat_bytes(a: &[u8], b: &[u8]) -> (r: Vec<u8>)
    ensures
        r@ == a@ + b@,
{
    let mut out = slice_to_vec(a);
    let mut j: usize = 0;
    while j < b.len()
        invariant
            j <= b@.len(),
            out@ == a@ + b@.take(j as int),
        decreases b@.len() - j,
    {
        out.push(b[j]);
        j = j + 1;
        proof {
            assert(a@ + b@.take(j as int) =~= (a@ + b@.take(j - 1)) + seq![b@[j - 1]]);
        }
    }
    proof {
        assert(a@ + b@.take(b@.len() as int) =~= a@ + b@);
    }
    out
}

/// The expiry timestamp of an entry written at `now`, unless it overflows.
pub fn compute_expiry(now: u64, ttl: u64) -> (r: Option<u64>)
    ensures
        r matches Some(e) ==> e == now + ttl,
        r is None <==> now + ttl > u64::MAX,
{
    now.checked_add(ttl)
}

/// One TTL-bearing keyspace: the primary tree, its two index trees, and the
/// fixed time to live applied to every entry written or observed through it.
pub struct TransientTree {
    tree: sled::Tree,
    keys_times: sled::Tree,
    times_keys: sled::Tree,
    ttl: u64,
}

impl TransientTree {
    /// The configured time to live, in seconds.
    pub closed spec fn ttl_spec(&self) -> u64 {
        self.ttl
    }

    pub fn ttl(&self) -> (r: u64)
        ensures
            r == self.ttl_spec(),
    {
        self.ttl
    }

    /// Opens (or creates) the named keyspace and its two index trees.
    /// Entries written through this handle expire `ttl` seconds later.
    /// The caller drives the sweep, on a background thread of its own.
    pub fn new(db: &sled::Db, ttl: u64, name: &[u8]) -> (r: Result<TransientTree, TtlError>)
        ensures
            r matches Ok(t) ==> t.ttl_spec() == ttl,
    {
        let tree = match open_tree(db, name) {
            Ok(t) => t,
            Err(e) => return Err(TtlError::Store(e)),
        };
        let fwd_name = concat_bytes("__transient_times_".as_bytes(), name);
        let keys_times = match open_tree(db, fwd_name.as_slice()) {
            Ok(t) => t,
            Err(e) => return Err(TtlError::Store(e)),
        };
        let rev_name = concat_bytes("__transient_keys_".as_bytes(), name);
        let times_keys = match open_tree(db, rev_name.as_slice()) {
            Ok(t) => t,
            Err(e) => return Err(TtlError::Store(e)),
        };
        Ok(TransientTree { tree, keys_times, times_keys, ttl })
    }

    /// Another handle onto the same keyspaces, for a sweeper or observer
    /// thread.
    pub fn duplicate(&self) -> (r: TransientTree)
        ensures
            r.ttl_spec() == self.ttl_spec(),
    {
        TransientTree {
            tree: tree_clone(&self.tree),
            keys_times: tree_clone(&self.keys_times),
            times_keys: tree_clone(&self.times_keys),
            ttl: self.ttl,
        }
    }

    /// The raw primary tree: reactive-mode callers write it directly and
    /// wire its change feed to `observe_insert` / `observe_remove`.
    pub fn primary_tree(&self) -> &sled::Tree {
        &self.tree
    }

    /// The TTL index's `touch`: write the reverse row for the new expiry,
    /// overwrite the forward row, and clear the now-stale reverse row of the
    /// previous expiry when [`crate::rows::stale_expiry`] names one.
    fn index_touch(&self, key: &Vec<u8>, expiry: u64) -> (r: Result<(), TtlError>)
        ensures
            !(r matches Err(TtlError::ClockOverflow)),
            !(r matches Err(TtlError::ClockUnavailable)),
    {
        let rk = reverse_key(expiry, key);
        match tree_insert(&self.times_keys, &rk, key) {
            Err(e) => return Err(TtlError::Store(e)),
            Ok(_) => {},
        }
        let exp_bytes = encode_be(expiry);
        let old = match tree_insert(&self.keys_times, key, &exp_bytes) {
            Err(e) => return Err(TtlError::Store(e)),
            Ok(o) => o,
        };
        if let Some(old_exp) = stale_expiry(&old, expiry) {
            let stale = reverse_key(old_exp, key);
            match tree_remove(&self.times_keys, &stale) {
                Err(e) => return Err(TtlError::Store(e)),
                Ok(_) => {},
            }
        }
        Ok(())
    }

    /// The TTL index's `release`: drop the key's forward row and, when one
    /// was recorded, the matching reverse row; report the expiry that had
    /// been recorded.
    fn index_release(&self, key: &Vec<u8>) -> (r: Result<Option<u64>, TtlError>)
        ensures
            !(r matches Err(TtlError::ClockOverflow)),
            !(r matches Err(TtlError::ClockUnavailable)),
    {
        let row = match tree_remove(&self.keys_times, key) {
            Err(e) => return Err(TtlError::Store(e)),
            Ok(t) => t,
        };
        match parse_forward_row(&row) {
            None => Ok(None),
            Some(exp) => {
                let rk = reverse_key(exp, key);
                match tree_remove(&self.times_keys, &rk) {
                    Err(e) => return Err(TtlError::Store(e)),
                    Ok(_) => {},
                }
                Ok(Some(exp))
            },
        }
    }

    /// The TTL index's `peek_expiry`: pure read of the forward index. The
    /// result is exactly what [`crate::rows::parse_forward_row`] makes of
    /// the stored row: a row that does not hold exactly eight bytes names no
    /// timestamp and reads as no record.
    pub fn peek_expiry(&self, key: &[u8]) -> (r: Result<Option<u64>, TtlError>)
        ensures
            !(r matches Err(TtlError::ClockOverflow)),
            !(r matches Err(TtlError::ClockUnavailable)),
    {
        let keyv = slice_to_vec(key);
        let row = match tree_get(&self.keys_times, &keyv) {
            Err(e) => return Err(TtlError::Store(e)),
            Ok(t) => t,
        };
        Ok(parse_forward_row(&row))
    }

    /// Explicit-mode `set` at a given time: writes the primary entry, then
    /// touches the indices so the entry expires at `now + ttl`. Returns the
    /// previously stored value — expired or not, since it is overwritten
    /// unconditionally. Fails with `ClockOverflow` exactly when `now + ttl`
    /// does not fit in 64 bits, before anything is written.
    pub fn set_at(&self, key: &[u8], value: &[u8], now: u64) -> (r: Result<
        Option<Vec<u8>>,
        TtlError,
    >)
        ensures
            r matches Err(TtlError::ClockOverflow) <==> now + self.ttl_spec() > u64::MAX,
            !(r matches Err(TtlError::ClockUnavailable)),
    {
        let expiry = match compute_expiry(now, self.ttl) {
            None => return Err(TtlError::ClockOverflow),
            Some(e) => e,
        };
        let keyv = slice_to_vec(key);
        let valv = slice_to_vec(value);
        let old = match tree_insert(&self.tree, &keyv, &valv) {
            Err(e) => return Err(TtlError::Store(e)),
            Ok(o) => o,
        };
        match self.index_touch(&keyv, expiry) {
            Err(e) => Err(e),
            Ok(()) => Ok(old),
        }
    }

    /// `get` with lazy expiry at a given time. The key's forward-index row
    /// is read and [`crate::rows::decide_read`] — whose contract fixes the
    /// decision for every row value — dictates the rest: a key without a
    /// forward record is a miss; a malformed row is dropped and reads as a
    /// miss; a logically expired key is purged on the spot (primary, forward
    /// and reverse rows) and reads as a miss; a live key hands the read on
    /// to the primary tree, whose answer is returned unchanged.
    pub fn get_at(&self, key: &[u8], now: u64) -> (r: Result<Option<Vec<u8>>, TtlError>)
        ensures
            !(r matches Err(TtlError::ClockOverflow)),
            !(r matches Err(TtlError::ClockUnavailable)),
    {
        let keyv = slice_to_vec(key);
        let row = match tree_get(&self.keys_times, &keyv) {
            Err(e) => return Err(TtlError::Store(e)),
            Ok(t) => t,
        };
        match decide_read(&row, now) {
            ReadDecision::Miss => Ok(None),
            ReadDecision::DropOrphan => {
                match tree_remove(&self.keys_times, &keyv) {
                    Err(e) => return Err(TtlError::Store(e)),
                    Ok(_) => {},
                }
                Ok(None)
            },
            ReadDecision::Purge(expiry) => {
                match tree_remove(&self.tree, &keyv) {
                    Err(e) => return Err(TtlError::Store(e)),
                    Ok(_) => {},
                }
                match tree_remove(&self.keys_times, &keyv) {
                    Err(e) => return Err(TtlError::Store(e)),
                    Ok(_) => {},
                }
                let rk = reverse_key(expiry, &keyv);
                match tree_remove(&self.times_keys, &rk) {
                    Err(e) => return Err(TtlError::Store(e)),
                    Ok(_) => {},
                }
                Ok(None)
            },
            ReadDecision::ReadPrimary(_) => {
                match tree_get(&self.tree, &keyv) {
                    Err(e) => Err(TtlError::Store(e)),
                    Ok(v) => Ok(v),
                }
            },
        }
    }

    /// `del` at a given time: removes the primary entry and releases the
    /// index rows. What it returns is fixed by [`crate::rows::del_result`]'s
    /// contract over the two values the store handed back: the removed value
    /// only when the recorded expiry says the key was still alive — logical
    /// expiry takes precedence over physical presence, and a key without a
    /// TTL record reads as a miss.
    pub fn del_at(&self, key: &[u8], now: u64) -> (r: Result<Option<Vec<u8>>, TtlError>)
        ensures
            !(r matches Err(TtlError::ClockOverflow)),
            !(r matches Err(TtlError::ClockUnavailable)),
    {
        let keyv = slice_to_vec(key);
        let old = match tree_remove(&self.tree, &keyv) {
            Err(e) => return Err(TtlError::Store(e)),
            Ok(o) => o,
        };
        let expiry = match self.index_release(&keyv) {
            Err(e) => return Err(e),
            Ok(t) => t,
        };
        Ok(del_result(old, expiry, now))
    }

    /// The reactive observer on a set or merge event seen at `now`: the
    /// external writer has already written the primary entry; only the
    /// indices are touched, with the configured TTL. Fails with
    /// `ClockOverflow` exactly when `now + ttl` does not fit in 64 bits.
    pub fn observe_insert_at(&self, key: &[u8], now: u64) -> (r: Result<(), TtlError>)
        ensures
            r matches Err(TtlError::ClockOverflow) <==> now + self.ttl_spec() > u64::MAX,
            !(r matches Err(TtlError::ClockUnavailable)),
    {
        let expiry = match compute_expiry(now, self.ttl) {
            None => return Err(TtlError::ClockOverflow),
            Some(e) => e,
        };
        let keyv = slice_to_vec(key);
        self.index_touch(&keyv, expiry)
    }

    /// The reactive observer on a delete event: the external writer has
    /// already removed the primary entry; the index rows are released and
    /// the liveness flag is discarded.
    pub fn observe_remove(&self, key: &[u8]) -> (r: Result<(), TtlError>)
        ensures
            !(r matches Err(TtlError::ClockOverflow)),
            !(r matches Err(TtlError::ClockUnavailable)),
    {
        let keyv = slice_to_vec(key);
        match self.index_release(&keyv) {
            Err(e) => Err(e),
            Ok(_) => Ok(()),
        }
    }

    /// Evict the rows one reverse-index scan handed back, at time `now`: of
    /// each composite key wide enough to name a timestamp, remove the
    /// primary entry of the embedded key, the forward row, and the reverse
    /// row itself; a composite key too short to name a timestamp is an
    /// orphan and only its own reverse row is dropped.
    ///
    /// What comes back is fixed by [`crate::rows::swept_matches`]: the
    /// decoded timestamp and embedded key of every well-formed scanned row,
    /// in scan order. When the scanned keys all sort below the encoding of
    /// `now + 1`, every reported expiry is at or before `now`; when they
    /// arrive in increasing key order — as a range scan yields them — the
    /// reported expiries are nondecreasing.
    pub fn sweep_rows(&self, rows: &Vec<(Vec<u8>, Vec<u8>)>, now: u64) -> (r: Result<
        Vec<(u64, Vec<u8>)>,
        TtlError,
    >)
        ensures
            r matches Ok(swept) ==> swept_matches(rows@, swept@),
            r matches Ok(swept) ==> ((now < u64::MAX && (forall|j: int|
                0 <= j < rows@.len() ==> lex_lt(rows@[j].0@, be_digits((now + 1) as nat, 8))))
                ==> (forall|i: int| 0 <= i < swept@.len() ==> swept@[i].0 <= now)),
            r matches Ok(swept) ==> ((forall|j: int, l: int|
                0 <= j < l < rows@.len() ==> lex_lt(rows@[j].0@, rows@[l].0@)) ==> (forall|
                i: int,
                j: int,
            |
                0 <= i < j < swept@.len() ==> swept@[i].0 <= swept@[j].0)),
            !(r matches Err(TtlError::ClockOverflow)),
            !(r matches Err(TtlError::ClockUnavailable)),
    {
        let ghost bound_hyp = now < u64::MAX && (forall|j: int|
            0 <= j < rows@.len() ==> lex_lt(rows@[j].0@, be_digits((now + 1) as nat, 8)));
        let ghost order_hyp = forall|j: int, l: int|
            0 <= j < l < rows@.len() ==> lex_lt(rows@[j].0@, rows@[l].0@);
        let mut swept: Vec<(u64, Vec<u8>)> = Vec::new();
        let mut i: usize = 0;
        let ghost mut src_row: int = 0;
        while i < rows.len()
            invariant
                i <= rows@.len(),
                bound_hyp == (now < u64::MAX && (forall|j: int|
                    0 <= j < rows@.len() ==> lex_lt(rows@[j].0@, be_digits((now + 1) as nat, 8)))),
                order_hyp == (forall|j: int, l: int|
                    0 <= j < l < rows@.len() ==> lex_lt(rows@[j].0@, rows@[l].0@)),
                swept_matches(rows@.take(i as int), swept@),
                bound_hyp ==> forall|j: int| 0 <= j < swept@.len() ==> swept@[j].0 <= now,
                order_hyp ==> forall|j: int, l: int|
                    0 <= j < l < swept@.len() ==> swept@[j].0 <= swept@[l].0,
                swept@.len() > 0 ==> 0 <= src_row < i && rows@[src_row].0@.len() >= 8
                    && swept@.last().0 as nat == crate::bytes::be_value(
                    rows@[src_row].0@.take(8),
                ),
            decreases rows@.len() - i,
        {
            let ghost prev_swept = swept@;
            let ck = &rows[i].0;
            if ck.len() >= 8 {
                let exp = decode_be_prefix(ck);
                proof {
                    if bound_hyp {
                        lemma_decode_encode(ck@.take(8));
                        assert(ck@ =~= ck@.take(8) + ck@.skip(8));
                        lemma_composite_below_bound(exp, ck@.skip(8), (now + 1) as u64);
                        assert(lex_lt(ck@, be_digits((now + 1) as nat, 8)));
                    }
                    if order_hyp && swept@.len() > 0 {
                        let prev = rows@[src_row].0@;
                        assert(lex_lt(prev, ck@));
                        assert(prev =~= prev.take(8) + prev.skip(8));
                        assert(ck@ =~= ck@.take(8) + ck@.skip(8));
                        crate::bytes::lemma_lex_lt_prefix(
                            prev.take(8),
                            ck@.take(8),
                            prev.skip(8),
                            ck@.skip(8),
                        );
                        if prev.take(8) != ck@.take(8) {
                            crate::bytes::lemma_lex_lt_value(prev.take(8), ck@.take(8));
                        }
                        lemma_decode_encode(ck@.take(8));
                        crate::bytes::lemma_decode_encode(prev.take(8));
                        assert(swept@.last().0 <= exp);
                    }
                }
                let key = tail_from(ck, 8);
                match tree_remove(&self.tree, &key) {
                    Err(e) => return Err(TtlError::Store(e)),
                    Ok(_) => {},
                }
                match tree_remove(&self.keys_times, &key) {
                    Err(e) => return Err(TtlError::Store(e)),
                    Ok(_) => {},
                }
                match tree_remove(&self.times_keys, ck) {
                    Err(e) => return Err(TtlError::Store(e)),
                    Ok(_) => {},
                }
                swept.push((exp, key));
                proof {
                    src_row = i as int;
                    assert(rows@.take(i + 1).drop_last() =~= rows@.take(i as int));
                    assert(rows@.take(i + 1).last() == rows@[i as int]);
                    assert(swept@.drop_last() =~= prev_swept);
                    assert(swept_matches(rows@.take(i + 1), swept@));
                }
            } else {
                // An orphan reverse row that cannot name a timestamp:
                // self-correct by dropping it.
                match tree_remove(&self.times_keys, ck) {
                    Err(e) => return Err(TtlError::Store(e)),
                    Ok(_) => {},
                }
                proof {
                    assert(rows@.take(i + 1).drop_last() =~= rows@.take(i as int));
                    assert(rows@.take(i + 1).last() == rows@[i as int]);
                    assert(swept_matches(rows@.take(i + 1), swept@));
                }
            }
            i = i + 1;
        }
        proof {
            assert(rows@.take(rows@.len() as int) =~= rows@);
        }
        Ok(swept)
    }

    /// One sweep cycle at a given time: range-scan the reverse index for
    /// composite keys below the encoding of `now + 1` — so a key expiring
    /// exactly at `now` is swept in this cycle — and hand the scanned rows
    /// to [`TransientTree::sweep_rows`], whose contract fixes the eviction
    /// and the output for every scan result.
    ///
    /// Every reported expiry is proved to be at or before `now`, and the
    /// pairs come out in nondecreasing timestamp order — the order the
    /// range scan visits the reverse index in, which the byte-order
    /// preserving encoding makes numeric.
    pub fn sweep_once_at(&self, now: u64) -> (r: Result<Vec<(u64, Vec<u8>)>, TtlError>)
        requires
            now < u64::MAX,
        ensures
            r matches Ok(swept) ==> forall|i: int| 0 <= i < swept@.len() ==> swept@[i].0 <= now,
            r matches Ok(swept) ==> forall|i: int, j: int|
                0 <= i < j < swept@.len() ==> swept@[i].0 <= swept@[j].0,
            !(r matches Err(TtlError::ClockOverflow)),
            !(r matches Err(TtlError::ClockUnavailable)),
    {
        let bound = encode_be(now + 1);
        let rows = match tree_scan_below(&self.times_keys, &bound) {
            Err(e) => return Err(TtlError::Store(e)),
            Ok(rs) => rs,
        };
        self.sweep_rows(&rows, now)
    }

    /// Explicit-mode `set` against the system clock.
    pub fn set(&self, key: &[u8], value: &[u8]) -> (r: Result<Option<Vec<u8>>, TtlError>) {
        match now_secs() {
            None => Err(TtlError::ClockUnavailable),
            Some(now) => self.set_at(key, value, now),
        }
    }

    /// Explicit-mode `get` against the system clock. A read never computes
    /// an expiry, so it never fails with `ClockOverflow`.
    pub fn get(&self, key: &[u8]) -> (r: Result<Option<Vec<u8>>, TtlError>)
        ensures
            !(r matches Err(TtlError::ClockOverflow)),
    {
        match now_secs() {
            None => Err(TtlError::ClockUnavailable),
            Some(now) => self.get_at(key, now),
        }
    }

    /// Explicit-mode `del` against the system clock. A delete never computes
    /// an expiry, so it never fails with `ClockOverflow`.
    pub fn del(&self, key: &[u8]) -> (r: Result<Option<Vec<u8>>, TtlError>)
        ensures
            !(r matches Err(TtlError::ClockOverflow)),
    {
        match now_secs() {
            None => Err(TtlError::ClockUnavailable),
            Some(now) => self.del_at(key, now),
        }
    }

    /// One sweep cycle against the system clock. The swept pairs come out
    /// in nondecreasing timestamp order, as from `sweep_once_at`. A clock
    /// reading at the very end of representable time leaves no room for the
    /// scan bound's timestamp arithmetic and fails with `ClockOverflow`.
    pub fn sweep_once(&self) -> (r: Result<Vec<(u64, Vec<u8>)>, TtlError>)
        ensures
            r matches Ok(swept) ==> forall|i: int, j: int|
                0 <= i < j < swept@.len() ==> swept@[i].0 <= swept@[j].0,
    {
        match now_secs() {
            None => Err(TtlError::ClockUnavailable),
            Some(now) => {
                if now == u64::MAX {
                    Err(TtlError::ClockOverflow)
                } else {
                    self.sweep_once_at(now)
                }
            },
        }
    }

    /// Observe an external write against the system clock.
    pub fn observe_insert(&self, key: &[u8]) -> (r: Result<(), TtlError>) {
        match now_secs() {
            None => Err(TtlError::ClockUnavailable),
            Some(now) => self.observe_insert_at(key, now),
        }
    }
}

} // verus!
