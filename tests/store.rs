use yande_popular::store::{RETENTION_SECS, DB};

#[test]
fn insert_then_contains() {
    let mut db = DB::init();
    assert!(!db.contains(101));
    db.insert(101, 1_000);
    assert!(db.contains(101));
    assert_eq!(db.recorded_at(101), Some(1_000));
    assert!(!db.contains(102));
}

#[test]
fn reinsert_resets_age() {
    let mut db = DB::init();
    db.insert(5, 100);
    db.insert(5, 900);
    assert_eq!(db.recorded_at(5), Some(900));
    assert_eq!(db.evict_older_than(500, 1_000), Vec::<i64>::new());
    assert!(db.contains(5));
}

#[test]
fn eviction_boundary_is_exclusive() {
    let mut db = DB::init();
    db.insert(1, 1_000);
    db.insert(2, 999);
    db.insert(3, 2_000);
    let gone = db.evict_older_than(1_000, 2_000);
    assert_eq!(gone, vec![2]);
    assert!(db.contains(1));
    assert!(!db.contains(2));
    assert!(db.contains(3));
}

#[test]
fn retention_is_a_week() {
    let mut db = DB::init();
    db.insert(7, 0);
    db.insert(8, 1);
    assert_eq!(RETENTION_SECS, 7 * 24 * 60 * 60);
    let gone = db.auto_remove(RETENTION_SECS + 1);
    assert_eq!(gone, vec![7]);
    assert!(db.contains(8));
}

#[test]
fn record_from_the_future_is_kept() {
    let mut db = DB::init();
    db.insert(9, 5_000);
    assert!(db.evict_older_than(0, 10).is_empty());
    assert!(db.contains(9));
}

#[test]
fn round_trip_insert_contains_evict() {
    let mut db = DB::init();
    db.insert(42, 10);
    assert!(db.contains(42));
    db.evict_older_than(0, 10);
    assert!(db.contains(42));
    db.evict_older_than(0, 11);
    assert!(!db.contains(42));
}
