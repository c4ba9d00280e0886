//! The forward-index row format, and the decisions the layer reads from it.
//!
//! Every operation of the store reads or removes a forward-index row and
//! then decides: is the key TTL-less, malformed, expired or live, and what
//! does that make of the operation's result? The underlying store's answers
//! are opaque, so these decisions are factored into functions that take the
//! returned row as an argument and carry exact contracts: each is verified
//! for every value the store could hand back.

use vstd::prelude::*;
use crate::bytes::be_value;
use crate::bytes::decode_be_prefix;
use crate::bytes::lemma_be_value_bound;
use crate::bytes::lemma_pow256_table;
use crate::model::classify_expiry;
use crate::model::del_op;
use crate::model::get_op;
use crate::model::peek;
use crate::model::purge;
use crate::model::spec_classify;
use crate::model::touch;
use crate::model::ExpiryStatus;
use crate::model::TtlModel;

verus! {

/// What a forward-index row names: the big-endian value of its eight bytes,
/// or nothing when no row exists or the row is not exactly eight bytes wide.
pub open spec fn spec_parse_forward_row(row: Option<Vec<u8>>) -> Option<u64> {
    match row {
        Option::None => Option::<u64>::None,
        Option::Some(b) => if b@.len() == 8 {
            Option::Some(be_value(b@) as u64)
        } else {
            Option::<u64>::None
        },
    }
}

/// Parse a forward-index row.
pub fn parse_forward_row(row: &Option<Vec<u8>>) -> (r: Option<u64>)
    ensures
        r == spec_parse_forward_row(*row),
{
    match row {
        None => None,
        Some(b) => {
            if b.len() == 8 {
                proof {
                    assert(b@.take(8) =~= b@);
                    lemma_be_value_bound(b@);
                    lemma_pow256_table();
                }
                Some(decode_be_prefix(b))
            } else {
                None
            }
        },
    }
}

/// What a reader does with a key, decided from its forward-index row.
#[derive(PartialEq, Eq, Structural, Clone, Copy, Debug)]
pub enum ReadDecision {
    /// No forward row: the key carries no TTL and reads as a miss.
    Miss,
    /// A row that names no timestamp: drop the orphan and read as a miss.
    DropOrphan,
    /// Logically expired: purge the primary entry, the forward row and the
    /// reverse row of this expiry, and read as a miss.
    Purge(u64),
    /// Live until the carried expiry: hand the read on to the primary tree.
    ReadPrimary(u64),
}

/// The read decision for a forward-index row at time `now`.
pub open spec fn spec_decide_read(row: Option<Vec<u8>>, now: u64) -> ReadDecision {
    match spec_parse_forward_row(row) {
        Option::None => if row is Some {
            ReadDecision::DropOrphan
        } else {
            ReadDecision::Miss
        },
        Option::Some(e) => if spec_classify(Option::Some(e), now) is Expired {
            ReadDecision::Purge(e)
        } else {
            ReadDecision::ReadPrimary(e)
        },
    }
}

/// Decide what to do with a key whose forward-index row is `row`, at `now`.
pub fn decide_read(row: &Option<Vec<u8>>, now: u64) -> (d: ReadDecision)
    ensures
        d == spec_decide_read(*row, now),
{
    match parse_forward_row(row) {
        None => {
            if row.is_some() {
                ReadDecision::DropOrphan
            } else {
                ReadDecision::Miss
            }
        },
        Some(e) => {
            match classify_expiry(Some(e), now) {
                ExpiryStatus::Expired => ReadDecision::Purge(e),
                _ => ReadDecision::ReadPrimary(e),
            }
        },
    }
}

/// What a delete returns: the value removed from the primary tree, but only
/// when the recorded expiry says the key was still alive at `now` — logical
/// expiry takes precedence over physical presence, and a key without a
/// record reads as a miss.
pub open spec fn spec_del_result(old: Option<Vec<u8>>, expiry: Option<u64>, now: u64) -> Option<
    Vec<u8>,
> {
    if spec_classify(expiry, now) is Live {
        old
    } else {
        Option::<Vec<u8>>::None
    }
}

/// The result a delete reports, from what the primary removal returned and
/// what the forward row had recorded.
pub fn del_result(old: Option<Vec<u8>>, expiry: Option<u64>, now: u64) -> (r: Option<Vec<u8>>)
    ensures
        r == spec_del_result(old, expiry, now),
{
    match classify_expiry(expiry, now) {
        ExpiryStatus::Live => old,
        _ => None,
    }
}

/// Which reverse row a rewrite leaves stale: the previously recorded expiry,
/// unless none was recorded or it equals the new expiry — in that case the
/// previous reverse row is the row just written, and deleting it would
/// orphan the key from the sweep.
pub open spec fn spec_stale_expiry(old_row: Option<Vec<u8>>, expiry: u64) -> Option<u64> {
    match spec_parse_forward_row(old_row) {
        Option::Some(e) => if e != expiry {
            Option::Some(e)
        } else {
            Option::<u64>::None
        },
        Option::None => Option::<u64>::None,
    }
}

/// The stale reverse-row expiry a rewrite must clear, if any.
pub fn stale_expiry(old_row: &Option<Vec<u8>>, expiry: u64) -> (r: Option<u64>)
    ensures
        r == spec_stale_expiry(*old_row, expiry),
{
    match parse_forward_row(old_row) {
        Some(e) => if e != expiry {
            Some(e)
        } else {
            None
        },
        None => None,
    }
}

/// What an optional byte string holds, as a mathematical value.
pub open spec fn opt_view(o: Option<Vec<u8>>) -> Option<Seq<u8>> {
    match o {
        Option::Some(v) => Option::Some(v@),
        Option::None => Option::<Seq<u8>>::None,
    }
}

/// The read decision agrees with the model: when a key's forward row names
/// what the model's forward index records — a malformed or missing row
/// records nothing — the decision taken on the row is branch-for-branch the
/// transition `get_op` takes on the model, result included.
pub proof fn lemma_decide_read_matches_model(
    m: TtlModel,
    k: Seq<u8>,
    row: Option<Vec<u8>>,
    now: u64,
)
    requires
        spec_parse_forward_row(row) == peek(m, k),
    ensures
        spec_decide_read(row, now) is Miss || spec_decide_read(row, now) is DropOrphan ==> get_op(
            m,
            k,
            now,
        ) == ((m, Option::<Seq<u8>>::None)),
        spec_decide_read(row, now) matches ReadDecision::Purge(e) ==> peek(m, k) == Option::Some(e)
            && get_op(m, k, now) == ((purge(m, k), Option::<Seq<u8>>::None)),
        spec_decide_read(row, now) matches ReadDecision::ReadPrimary(e) ==> peek(m, k)
            == Option::Some(e) && get_op(m, k, now) == ((
            m,
            if m.primary.contains_key(k) {
                Option::Some(m.primary[k])
            } else {
                Option::<Seq<u8>>::None
            },
        )),
{
}

/// The delete result agrees with the model: when the removed primary value
/// and the recorded expiry name what the model holds for the key, the value
/// `del_result` reports is the one `del_op` reports.
pub proof fn lemma_del_result_matches_model(
    m: TtlModel,
    k: Seq<u8>,
    old: Option<Vec<u8>>,
    expiry: Option<u64>,
    now: u64,
)
    requires
        expiry == peek(m, k),
        opt_view(old) == (if m.primary.contains_key(k) {
            Option::Some(m.primary[k])
        } else {
            Option::<Seq<u8>>::None
        }),
    ensures
        opt_view(spec_del_result(old, expiry, now)) == del_op(m, k, now).1,
{
}

/// The stale-row rule agrees with the model: clearing the reverse row that
/// `spec_stale_expiry` names (none when the old and new expiries coincide)
/// and inserting the new one leaves exactly the reverse index that the
/// model's `touch` produces.
pub proof fn lemma_stale_expiry_matches_model(
    m: TtlModel,
    k: Seq<u8>,
    old_row: Option<Vec<u8>>,
    expiry: u64,
)
    requires
        spec_parse_forward_row(old_row) == peek(m, k),
    ensures
        touch(m, k, expiry).reverse == (match spec_stale_expiry(old_row, expiry) {
            Option::Some(e) => m.reverse.remove((e, k)),
            Option::None => m.reverse,
        }).insert((expiry, k)),
{
    let cleared = if m.forward.contains_key(k) {
        m.reverse.remove((m.forward[k], k))
    } else {
        m.reverse
    };
    let named = match spec_stale_expiry(old_row, expiry) {
        Option::Some(e) => m.reverse.remove((e, k)),
        Option::None => m.reverse,
    };
    assert(cleared.insert((expiry, k)) =~= named.insert((expiry, k)));
}

/// The swept output a reverse-index scan owes: of each scanned composite key
/// that is at least eight bytes wide, the big-endian value of its first
/// eight bytes and the entry key that follows them, in scan order; shorter
/// composite keys are orphans and are not reported.
pub open spec fn swept_matches(rows: Seq<(Vec<u8>, Vec<u8>)>, swept: Seq<(u64, Vec<u8>)>) -> bool
    decreases rows.len(),
{
    if rows.len() == 0 {
        swept.len() == 0
    } else {
        let ck = rows.last().0@;
        if ck.len() >= 8 {
            &&& swept.len() > 0
            &&& swept.last().0 as nat == be_value(ck.take(8))
            &&& swept.last().1@ == ck.skip(8)
            &&& swept_matches(rows.drop_last(), swept.drop_last())
        } else {
            swept_matches(rows.drop_last(), swept)
        }
    }
}

} // verus!
