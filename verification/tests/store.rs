use rudis::db::State;

#[test]
fn unset_key_is_absent() {
    let db = State::new();
    assert!(db.get("missing").is_none());
}

#[test]
fn unset_key_stays_absent_after_other_writes() {
    let mut db = State::new();
    db.set("a".to_string(), "1".as_bytes().to_vec(), None, 0);
    db.set("b".to_string(), "2".as_bytes().to_vec(), Some(50), 0);
    assert!(db.get("c").is_none());
    db.purge_expired_keys(100);
    assert!(db.get("c").is_none());
}

#[test]
fn set_without_ttl_survives_any_purge() {
    let mut db = State::new();
    db.set("k".to_string(), "v".as_bytes().to_vec(), None, 0);
    assert_eq!(db.get("k"), Some("v".as_bytes().to_vec()));
    db.purge_expired_keys(u64::MAX);
    assert_eq!(db.get("k"), Some("v".as_bytes().to_vec()));
}

#[test]
fn ttl_value_readable_before_deadline_gone_after() {
    let mut db = State::new();
    let notify = db.set("k".to_string(), "v".as_bytes().to_vec(), Some(1000), 0);
    assert!(notify);
    assert_eq!(db.get("k"), Some("v".as_bytes().to_vec()));
    let wake = db.purge_expired_keys(500);
    assert_eq!(wake, Some(1000));
    assert_eq!(db.get("k"), Some("v".as_bytes().to_vec()));
    let wake = db.purge_expired_keys(1000);
    assert_eq!(wake, None);
    assert!(db.get("k").is_none());
}

#[test]
fn overwrite_without_ttl_retires_old_expiration() {
    let mut db = State::new();
    db.set("k".to_string(), "v1".as_bytes().to_vec(), Some(1000), 0);
    db.set("k".to_string(), "v2".as_bytes().to_vec(), None, 10);
    assert_eq!(db.next_expiration(), None);
    db.purge_expired_keys(1000);
    assert_eq!(db.get("k"), Some("v2".as_bytes().to_vec()));
    db.purge_expired_keys(u64::MAX);
    assert_eq!(db.get("k"), Some("v2".as_bytes().to_vec()));
}

#[test]
fn overwrite_with_new_ttl_replaces_expiration() {
    let mut db = State::new();
    db.set("k".to_string(), "v1".as_bytes().to_vec(), Some(1000), 0);
    db.set("k".to_string(), "v2".as_bytes().to_vec(), Some(5000), 0);
    let wake = db.purge_expired_keys(1000);
    assert_eq!(wake, Some(5000));
    assert_eq!(db.get("k"), Some("v2".as_bytes().to_vec()));
    db.purge_expired_keys(5000);
    assert!(db.get("k").is_none());
}

#[test]
fn notify_only_for_a_sooner_expiration() {
    let mut db = State::new();
    assert!(db.set("a".to_string(), "1".as_bytes().to_vec(), Some(5000), 0));
    assert!(!db.set("b".to_string(), "2".as_bytes().to_vec(), Some(9000), 0));
    assert!(db.set("c".to_string(), "3".as_bytes().to_vec(), Some(1000), 0));
    assert!(!db.set("d".to_string(), "4".as_bytes().to_vec(), None, 0));
}

#[test]
fn equal_deadlines_both_evicted() {
    let mut db = State::new();
    db.set("a".to_string(), "1".as_bytes().to_vec(), Some(1000), 0);
    db.set("b".to_string(), "2".as_bytes().to_vec(), Some(1000), 0);
    assert_eq!(db.next_expiration(), Some(1000));
    db.purge_expired_keys(1000);
    assert!(db.get("a").is_none());
    assert!(db.get("b").is_none());
}

#[test]
fn purge_reports_soonest_remaining_deadline() {
    let mut db = State::new();
    db.set("late".to_string(), "l".as_bytes().to_vec(), Some(9000), 0);
    db.set("soon".to_string(), "s".as_bytes().to_vec(), Some(2000), 0);
    assert_eq!(db.next_expiration(), Some(2000));
    let wake = db.purge_expired_keys(2000);
    assert_eq!(wake, Some(9000));
    assert!(db.get("soon").is_none());
    assert_eq!(db.get("late"), Some("l".as_bytes().to_vec()));
}

#[test]
fn get_does_not_purge_stale_entries() {
    let mut db = State::new();
    db.set("k".to_string(), "v".as_bytes().to_vec(), Some(100), 0);
    // past the deadline but before any purge pass, the value is still read
    assert_eq!(db.get("k"), Some("v".as_bytes().to_vec()));
}

#[test]
fn shutdown_stops_purging() {
    let mut db = State::new();
    db.set("k".to_string(), "v".as_bytes().to_vec(), Some(100), 0);
    assert!(!db.is_shutdown());
    db.set_shutdown();
    assert!(db.is_shutdown());
    assert_eq!(db.purge_expired_keys(u64::MAX), None);
    assert_eq!(db.get("k"), Some("v".as_bytes().to_vec()));
}

#[test]
fn ttl_saturates_at_the_largest_instant() {
    let mut db = State::new();
    db.set("k".to_string(), "v".as_bytes().to_vec(), Some(u64::MAX), 10);
    assert_eq!(db.next_expiration(), Some(u64::MAX));
}

#[test]
fn empty_value_round_trips() {
    let mut db = State::new();
    db.set("k".to_string(), Vec::new(), None, 0);
    assert_eq!(db.get("k"), Some(Vec::new()));
}
