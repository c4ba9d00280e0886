use sled_transient::bytes::{decode_be_prefix, encode_be, reverse_key, tail_from};
use sled_transient::model::{classify_expiry, ExpiryStatus};
use sled_transient::rows::{decide_read, del_result, parse_forward_row, stale_expiry, ReadDecision};
use sled_transient::{TransientTree, TtlError};

fn temp_db() -> sled::Db {
    sled::Config::new().temporary(true).open().unwrap()
}

fn forward_tree(db: &sled::Db, name: &[u8]) -> sled::Tree {
    db.open_tree([b"__transient_times_".as_ref(), name].concat()).unwrap()
}

fn reverse_tree(db: &sled::Db, name: &[u8]) -> sled::Tree {
    db.open_tree([b"__transient_keys_".as_ref(), name].concat()).unwrap()
}

#[test]
fn ttl_boundary_scenario() {
    let db = temp_db();
    let tt = TransientTree::new(&db, 3, b"salut").unwrap();
    assert_eq!(tt.set_at(b"lol", b"kero", 0).unwrap(), None);
    assert_eq!(tt.get_at(b"lol", 1).unwrap(), Some(b"kero".to_vec()));
    assert_eq!(tt.get_at(b"lol", 2).unwrap(), Some(b"kero".to_vec()));
    // At t = 3 the key is logically expired, regardless of any sweep.
    assert_eq!(tt.get_at(b"lol", 3).unwrap(), None);
    // The lazy read purged every row.
    let primary = db.open_tree(b"salut").unwrap();
    assert_eq!(primary.get(b"lol").unwrap(), None);
    assert_eq!(forward_tree(&db, b"salut").get(b"lol").unwrap(), None);
    assert_eq!(reverse_tree(&db, b"salut").len(), 0);
}

#[test]
fn sweep_evicts_expired_rows() {
    let db = temp_db();
    let tt = TransientTree::new(&db, 3, b"s").unwrap();
    tt.set_at(b"a", b"1", 0).unwrap();
    tt.set_at(b"b", b"2", 0).unwrap();
    // Nothing has expired at t = 2: expiries are at t = 3.
    let swept = tt.sweep_once_at(2).unwrap();
    assert_eq!(swept.len(), 0);
    // A key expiring exactly at the polled time is swept in that cycle.
    let mut swept = tt.sweep_once_at(3).unwrap();
    swept.sort();
    assert_eq!(
        swept,
        vec![(3, b"a".to_vec()), (3, b"b".to_vec())]
    );
    let primary = db.open_tree(b"s").unwrap();
    assert_eq!(primary.get(b"a").unwrap(), None);
    assert_eq!(primary.get(b"b").unwrap(), None);
    assert_eq!(forward_tree(&db, b"s").len(), 0);
    assert_eq!(reverse_tree(&db, b"s").len(), 0);
}

#[test]
fn expired_key_get_and_sweep_agree() {
    // Lazy read first, sweep second.
    let db = temp_db();
    let tt = TransientTree::new(&db, 3, b"s").unwrap();
    tt.set_at(b"k", b"v", 0).unwrap();
    assert_eq!(tt.get_at(b"k", 3).unwrap(), None);
    assert_eq!(tt.sweep_once_at(3).unwrap(), vec![]);
    assert_eq!(forward_tree(&db, b"s").len(), 0);
    assert_eq!(reverse_tree(&db, b"s").len(), 0);

    // Sweep first, lazy read second: same outcome, same index state.
    let db2 = temp_db();
    let tt2 = TransientTree::new(&db2, 3, b"s").unwrap();
    tt2.set_at(b"k", b"v", 0).unwrap();
    assert_eq!(tt2.sweep_once_at(3).unwrap(), vec![(3, b"k".to_vec())]);
    assert_eq!(tt2.get_at(b"k", 3).unwrap(), None);
    assert_eq!(forward_tree(&db2, b"s").len(), 0);
    assert_eq!(reverse_tree(&db2, b"s").len(), 0);
}

#[test]
fn sweep_reports_in_timestamp_order() {
    let db = temp_db();
    let tt = TransientTree::new(&db, 3, b"s").unwrap();
    // Written at t = 2, 0, 1: expiries 5, 3, 4.
    tt.set_at(b"c", b"3", 2).unwrap();
    tt.set_at(b"a", b"1", 0).unwrap();
    tt.set_at(b"b", b"2", 1).unwrap();
    let swept = tt.sweep_once_at(5).unwrap();
    assert_eq!(
        swept,
        vec![(3, b"a".to_vec()), (4, b"b".to_vec()), (5, b"c".to_vec())]
    );
}

#[test]
fn reset_on_rewrite_scenario() {
    let db = temp_db();
    let tt = TransientTree::new(&db, 3, b"s").unwrap();
    tt.set_at(b"lol", b"kero", 0).unwrap();
    let old = tt.set_at(b"lol", b"kero", 1).unwrap();
    assert_eq!(old, Some(b"kero".to_vec()));
    // The original deadline (t = 3) has passed, the new one (t = 4) has not.
    assert_eq!(tt.get_at(b"lol", 3).unwrap(), Some(b"kero".to_vec()));
    assert_eq!(tt.get_at(b"lol", 4).unwrap(), None);
}

#[test]
fn reset_keeps_reverse_index_clean() {
    let db = temp_db();
    let tt = TransientTree::new(&db, 3, b"s").unwrap();
    tt.set_at(b"k", b"v", 0).unwrap();
    tt.set_at(b"k", b"v", 1).unwrap();
    // The stale reverse row for the old expiry is gone; one row remains.
    assert_eq!(reverse_tree(&db, b"s").len(), 1);
    // Rewriting within the same second keeps the single row as well.
    tt.set_at(b"k", b"v", 1).unwrap();
    assert_eq!(reverse_tree(&db, b"s").len(), 1);
}

#[test]
fn delete_live_returns_value_and_clears_indices() {
    let db = temp_db();
    let tt = TransientTree::new(&db, 3, b"s").unwrap();
    tt.set_at(b"k", b"v", 0).unwrap();
    assert_eq!(tt.del_at(b"k", 1).unwrap(), Some(b"v".to_vec()));
    assert_eq!(forward_tree(&db, b"s").len(), 0);
    assert_eq!(reverse_tree(&db, b"s").len(), 0);
    assert_eq!(db.open_tree(b"s").unwrap().get(b"k").unwrap(), None);
}

#[test]
fn delete_expired_reads_as_miss() {
    let db = temp_db();
    let tt = TransientTree::new(&db, 3, b"s").unwrap();
    tt.set_at(b"k", b"v", 0).unwrap();
    // Logically expired at t = 5 though never swept: the delete reports a miss.
    assert_eq!(tt.del_at(b"k", 5).unwrap(), None);
    assert_eq!(forward_tree(&db, b"s").len(), 0);
    assert_eq!(reverse_tree(&db, b"s").len(), 0);
}

#[test]
fn delete_without_record_reads_as_miss() {
    let db = temp_db();
    let tt = TransientTree::new(&db, 3, b"s").unwrap();
    assert_eq!(tt.del_at(b"k", 0).unwrap(), None);
}

#[test]
fn get_without_ttl_record_is_a_miss() {
    let db = temp_db();
    let tt = TransientTree::new(&db, 3, b"s").unwrap();
    // Written behind the layer's back and never observed: no forward row,
    // so the TTL-aware read treats it as a miss.
    db.open_tree(b"s").unwrap().insert(b"k", b"v").unwrap();
    assert_eq!(tt.get_at(b"k", 0).unwrap(), None);
}

#[test]
fn live_record_without_primary_reads_as_miss() {
    let db = temp_db();
    let tt = TransientTree::new(&db, 3, b"s").unwrap();
    // A forward row claims the key is live, but no primary entry exists:
    // the read hands on to the primary tree and returns its answer.
    forward_tree(&db, b"s").insert(b"k", encode_be(10)).unwrap();
    assert_eq!(tt.get_at(b"k", 5).unwrap(), None);
}

#[test]
fn set_returns_previous_value_even_expired() {
    let db = temp_db();
    let tt = TransientTree::new(&db, 3, b"s").unwrap();
    assert_eq!(tt.set_at(b"k", b"v1", 0).unwrap(), None);
    // t = 10 is far past expiry, but set overwrites unconditionally and
    // returns whatever the primary write returned.
    assert_eq!(tt.set_at(b"k", b"v2", 10).unwrap(), Some(b"v1".to_vec()));
    assert_eq!(tt.get_at(b"k", 11).unwrap(), Some(b"v2".to_vec()));
}

#[test]
fn reactive_write_becomes_transient() {
    let db = temp_db();
    let tt = TransientTree::new(&db, 3, b"s").unwrap();
    // An external writer uses the raw container...
    tt.primary_tree().insert(b"k", b"v").unwrap();
    // ...and the observer indexes the event at t = 0.
    tt.observe_insert_at(b"k", 0).unwrap();
    assert_eq!(tt.peek_expiry(b"k").unwrap(), Some(3));
    assert_eq!(tt.get_at(b"k", 2).unwrap(), Some(b"v".to_vec()));
    // One sweep past expiry removes the physical row too.
    let swept = tt.sweep_once_at(3).unwrap();
    assert_eq!(swept, vec![(3, b"k".to_vec())]);
    assert_eq!(tt.primary_tree().get(b"k").unwrap(), None);
}

#[test]
fn reactive_delete_releases_indices() {
    let db = temp_db();
    let tt = TransientTree::new(&db, 3, b"s").unwrap();
    tt.primary_tree().insert(b"k", b"v").unwrap();
    tt.observe_insert_at(b"k", 0).unwrap();
    tt.primary_tree().remove(b"k").unwrap();
    tt.observe_remove(b"k").unwrap();
    assert_eq!(forward_tree(&db, b"s").len(), 0);
    assert_eq!(reverse_tree(&db, b"s").len(), 0);
}

#[test]
fn expiry_overflow_is_reported() {
    let db = temp_db();
    let tt = TransientTree::new(&db, 5, b"s").unwrap();
    assert!(matches!(
        tt.set_at(b"k", b"v", u64::MAX - 1),
        Err(TtlError::ClockOverflow)
    ));
    assert!(matches!(
        tt.observe_insert_at(b"k", u64::MAX - 1),
        Err(TtlError::ClockOverflow)
    ));
    // The overflow is detected before anything is written.
    assert_eq!(db.open_tree(b"s").unwrap().get(b"k").unwrap(), None);
}

#[test]
fn peek_expiry_reads_forward_index() {
    let db = temp_db();
    let tt = TransientTree::new(&db, 3, b"s").unwrap();
    assert_eq!(tt.peek_expiry(b"k").unwrap(), None);
    tt.set_at(b"k", b"v", 7).unwrap();
    assert_eq!(tt.peek_expiry(b"k").unwrap(), Some(10));
}

#[test]
fn malformed_forward_row_self_corrects() {
    let db = temp_db();
    let tt = TransientTree::new(&db, 3, b"s").unwrap();
    // A forward row that cannot name a timestamp reads as no record...
    forward_tree(&db, b"s").insert(b"k", b"xyz").unwrap();
    assert_eq!(tt.peek_expiry(b"k").unwrap(), None);
    // ...and a read drops the orphan.
    assert_eq!(tt.get_at(b"k", 0).unwrap(), None);
    assert_eq!(forward_tree(&db, b"s").get(b"k").unwrap(), None);
}

#[test]
fn short_reverse_row_is_dropped_by_sweep() {
    let db = temp_db();
    let tt = TransientTree::new(&db, 3, b"s").unwrap();
    // Three zero bytes sort below the scan bound but name no timestamp.
    reverse_tree(&db, b"s").insert(vec![0u8, 0, 0], vec![0u8, 0, 0]).unwrap();
    let swept = tt.sweep_once_at(100).unwrap();
    assert_eq!(swept.len(), 0);
    assert_eq!(reverse_tree(&db, b"s").len(), 0);
}

#[test]
fn duplicate_shares_the_keyspace() {
    let db = temp_db();
    let tt = TransientTree::new(&db, 3, b"s").unwrap();
    assert_eq!(tt.ttl(), 3);
    let other = tt.duplicate();
    assert_eq!(other.ttl(), 3);
    tt.set_at(b"k", b"v", 0).unwrap();
    assert_eq!(other.get_at(b"k", 1).unwrap(), Some(b"v".to_vec()));
}

#[test]
fn clock_based_calls_round_trip() {
    let db = temp_db();
    // A day-long TTL: the entry cannot expire while this test runs.
    let tt = TransientTree::new(&db, 86_400, b"s").unwrap();
    assert_eq!(tt.set(b"k", b"v").unwrap(), None);
    assert_eq!(tt.get(b"k").unwrap(), Some(b"v".to_vec()));
    let swept = tt.sweep_once().unwrap();
    assert_eq!(swept.len(), 0);
    assert_eq!(tt.del(b"k").unwrap(), Some(b"v".to_vec()));
    assert_eq!(tt.get(b"k").unwrap(), None);
}

#[test]
fn encode_be_is_big_endian() {
    assert_eq!(encode_be(0), vec![0u8; 8]);
    assert_eq!(encode_be(0x0102), vec![0, 0, 0, 0, 0, 0, 1, 2]);
    assert_eq!(
        encode_be(u64::MAX),
        vec![0xff, 0xff, 0xff, 0xff, 0xff, 0xff, 0xff, 0xff]
    );
    assert_eq!(encode_be(3), 3u64.to_be_bytes().to_vec());
}

#[test]
fn decode_inverts_encode() {
    for x in [0u64, 1, 255, 256, 0xdead_beef, u64::MAX] {
        assert_eq!(decode_be_prefix(&encode_be(x)), x);
    }
    // Only the first eight bytes are read.
    let mut long = encode_be(7);
    long.extend_from_slice(b"key");
    assert_eq!(decode_be_prefix(&long), 7);
}

#[test]
fn encoding_preserves_order() {
    // Lexicographic comparison of the encodings equals numeric comparison.
    assert!(encode_be(5) < encode_be(1000));
    assert!(encode_be(255) < encode_be(256));
    assert!(encode_be(0x0100_0000) > encode_be(0xff_ffff));
}

#[test]
fn reverse_key_layout() {
    let rk = reverse_key(3, &b"lol".to_vec());
    assert_eq!(rk, vec![0, 0, 0, 0, 0, 0, 0, 3, b'l', b'o', b'l']);
    assert_eq!(tail_from(&rk, 8), b"lol".to_vec());
}

#[test]
fn parse_forward_row_cases() {
    assert_eq!(parse_forward_row(&None), None);
    assert_eq!(parse_forward_row(&Some(vec![1, 2, 3])), None);
    assert_eq!(parse_forward_row(&Some(vec![0u8; 9])), None);
    assert_eq!(parse_forward_row(&Some(encode_be(7))), Some(7));
    assert_eq!(parse_forward_row(&Some(encode_be(u64::MAX))), Some(u64::MAX));
}

#[test]
fn decide_read_cases() {
    assert_eq!(decide_read(&None, 5), ReadDecision::Miss);
    assert_eq!(decide_read(&Some(vec![1, 2, 3]), 5), ReadDecision::DropOrphan);
    assert_eq!(decide_read(&Some(encode_be(5)), 5), ReadDecision::Purge(5));
    assert_eq!(decide_read(&Some(encode_be(4)), 5), ReadDecision::Purge(4));
    assert_eq!(decide_read(&Some(encode_be(6)), 5), ReadDecision::ReadPrimary(6));
}

#[test]
fn del_result_cases() {
    let v = Some(b"v".to_vec());
    // Live: the removed value is reported.
    assert_eq!(del_result(v.clone(), Some(6), 5), v);
    // Logically expired: a miss, even though a value was physically removed.
    assert_eq!(del_result(v.clone(), Some(5), 5), None);
    // No TTL record: a miss.
    assert_eq!(del_result(v, None, 5), None);
}

#[test]
fn stale_expiry_cases() {
    assert_eq!(stale_expiry(&None, 7), None);
    assert_eq!(stale_expiry(&Some(encode_be(7)), 7), None);
    assert_eq!(stale_expiry(&Some(encode_be(4)), 7), Some(4));
    assert_eq!(stale_expiry(&Some(vec![1, 2, 3]), 7), None);
}

#[test]
fn sweep_rows_reports_well_formed_rows_only() {
    let db = temp_db();
    let tt = TransientTree::new(&db, 3, b"s").unwrap();
    tt.set_at(b"a", b"1", 0).unwrap();
    // Hand the sweep one well-formed row and one orphan, as a scan would.
    let rows = vec![
        (vec![0u8, 0, 0], vec![0u8, 0, 0]),
        (reverse_key(3, &b"a".to_vec()), b"a".to_vec()),
    ];
    let swept = tt.sweep_rows(&rows, 10).unwrap();
    assert_eq!(swept, vec![(3, b"a".to_vec())]);
    assert_eq!(db.open_tree(b"s").unwrap().get(b"a").unwrap(), None);
    assert_eq!(forward_tree(&db, b"s").get(b"a").unwrap(), None);
}

#[test]
fn classify_expiry_cases() {
    assert_eq!(classify_expiry(None, 5), ExpiryStatus::Absent);
    assert_eq!(classify_expiry(Some(5), 5), ExpiryStatus::Expired);
    assert_eq!(classify_expiry(Some(4), 5), ExpiryStatus::Expired);
    assert_eq!(classify_expiry(Some(6), 5), ExpiryStatus::Live);
}
