use corro_types::{ActorId, BookError, Booked, Bookie, KnownDbVersion, Timestamp};
use rangemap::RangeInclusiveSet;

fn ts(time: u64) -> Timestamp {
    Timestamp { time, id: 7 }
}

fn current(db_version: i64) -> KnownDbVersion {
    KnownDbVersion::Current { db_version, last_seq: 0, ts: ts(1) }
}

fn seqs(ranges: &[(i64, i64)]) -> RangeInclusiveSet<i64> {
    let mut s = RangeInclusiveSet::new();
    for &(lo, hi) in ranges {
        s.insert(lo..=hi);
    }
    s
}

fn partial(ranges: &[(i64, i64)], last_seq: i64, time: u64) -> KnownDbVersion {
    KnownDbVersion::Partial { seqs: seqs(ranges), last_seq, ts: ts(time) }
}

#[test]
fn increasing_current_inserts_track_last_and_contains() {
    let mut booked = Booked::new();
    assert_eq!(booked.last(), None);
    for v in [1i64, 2, 5, 9] {
        assert_eq!(booked.insert(v, current(v * 10)), Ok(()));
    }
    assert_eq!(booked.last(), Some(9));
    for v in 0..12 {
        assert_eq!(booked.contains(v), [1, 2, 5, 9].contains(&v));
    }
}

#[test]
fn adjacent_equal_entries_keep_their_versions() {
    let mut booked = Booked::new();
    assert_eq!(booked.insert(3, KnownDbVersion::Cleared), Ok(()));
    assert_eq!(booked.insert(4, KnownDbVersion::Cleared), Ok(()));
    assert_eq!(booked.insert(6, KnownDbVersion::Cleared), Ok(()));
    assert!(booked.contains(3) && booked.contains(4) && !booked.contains(5) && booked.contains(6));
    assert_eq!(booked.last(), Some(6));
}

#[test]
fn partial_merge_takes_union() {
    let mut booked = Booked::new();
    assert_eq!(booked.insert(4, partial(&[(0, 2)], 9, 5)), Ok(()));
    assert_eq!(booked.insert(4, partial(&[(5, 6)], 9, 5)), Ok(()));
    let held = booked.get(4).unwrap();
    assert!(*held == partial(&[(0, 2), (5, 6)], 9, 5));
    assert!(*held != partial(&[(0, 2)], 9, 5));
}

#[test]
fn partial_merge_with_itself_is_a_no_op() {
    let mut booked = Booked::new();
    assert_eq!(booked.insert(4, partial(&[(0, 2), (4, 4)], 9, 5)), Ok(()));
    assert_eq!(booked.insert(4, partial(&[(0, 2), (4, 4)], 9, 5)), Ok(()));
    assert!(*booked.get(4).unwrap() == partial(&[(0, 2), (4, 4)], 9, 5));
}

#[test]
fn partial_merge_with_divergent_last_seq_is_refused() {
    let mut booked = Booked::new();
    assert_eq!(booked.insert(4, partial(&[(0, 2)], 9, 5)), Ok(()));
    assert_eq!(booked.insert(4, partial(&[(3, 3)], 8, 5)), Err(BookError::DivergentLastSeq));
    assert!(*booked.get(4).unwrap() == partial(&[(0, 2)], 9, 5));
}

#[test]
fn partial_merge_with_divergent_timestamp_is_refused() {
    let mut booked = Booked::new();
    assert_eq!(booked.insert(4, partial(&[(0, 2)], 9, 5)), Ok(()));
    assert_eq!(booked.insert(4, partial(&[(3, 3)], 9, 6)), Err(BookError::DivergentTimestamp));
    assert!(*booked.get(4).unwrap() == partial(&[(0, 2)], 9, 5));
}

#[test]
fn partial_over_current_or_cleared_is_refused() {
    let mut booked = Booked::new();
    assert_eq!(booked.insert(1, current(10)), Ok(()));
    assert_eq!(booked.insert(2, KnownDbVersion::Cleared), Ok(()));
    assert_eq!(booked.insert(1, partial(&[(0, 0)], 1, 1)), Err(BookError::PartialOverComplete));
    assert_eq!(booked.insert(2, partial(&[(0, 0)], 1, 1)), Err(BookError::PartialOverComplete));
    assert!(*booked.get(1).unwrap() == current(10));
    assert!(*booked.get(2).unwrap() == KnownDbVersion::Cleared);
}

#[test]
fn current_promotes_partial() {
    let mut booked = Booked::new();
    assert_eq!(booked.insert(1, partial(&[(0, 0)], 3, 1)), Ok(()));
    assert_eq!(booked.insert(1, current(10)), Ok(()));
    assert!(*booked.get(1).unwrap() == current(10));
}

#[test]
fn current_over_other_current_or_cleared_is_refused() {
    let mut booked = Booked::new();
    assert_eq!(booked.insert(1, current(10)), Ok(()));
    assert_eq!(booked.insert(1, current(10)), Ok(()));
    assert_eq!(booked.insert(1, current(11)), Err(BookError::DivergentCurrent));
    assert_eq!(booked.insert(2, KnownDbVersion::Cleared), Ok(()));
    assert_eq!(booked.insert(2, current(20)), Err(BookError::CurrentOverCleared));
    assert!(*booked.get(1).unwrap() == current(10));
}

#[test]
fn scenario_current_then_cleared() {
    let mut bookie = Bookie::new();
    let a = ActorId(0xA);
    let entry = KnownDbVersion::Current { db_version: 10, last_seq: 0, ts: ts(1) };
    assert_eq!(bookie.add(a, 1, entry), Ok(()));
    assert!(bookie.contains(a, 1));
    assert_eq!(bookie.last(&a), Some(1));
    assert_eq!(bookie.add(a, 1, KnownDbVersion::Cleared), Ok(()));
    assert!(*bookie.get(a).unwrap().get(1).unwrap() == KnownDbVersion::Cleared);
    assert_eq!(bookie.last(&a), Some(1));
}

#[test]
fn unknown_actor_has_nothing() {
    let mut bookie = Bookie::new();
    let a = ActorId(1);
    let b = ActorId(2);
    assert!(!bookie.contains(a, 1));
    assert_eq!(bookie.last(&a), None);
    assert_eq!(bookie.add(a, 3, current(1)), Ok(()));
    assert!(!bookie.contains(b, 3));
    assert_eq!(bookie.last(&b), None);
    assert!(bookie.get(b).is_none());
}

#[test]
fn for_actor_is_idempotent() {
    let mut bookie = Bookie::new();
    let a = ActorId(5);
    bookie.for_actor(a);
    assert_eq!(bookie.get(a).unwrap().last(), None);
    assert_eq!(bookie.add(a, 2, current(1)), Ok(()));
    bookie.for_actor(a);
    bookie.for_actor(a);
    assert!(bookie.contains(a, 2));
    assert_eq!(bookie.last(&a), Some(2));
}

#[test]
fn failed_add_still_creates_the_ledger() {
    let mut bookie = Bookie::new();
    let a = ActorId(8);
    assert_eq!(bookie.add(a, 1, partial(&[(0, 0)], 1, 1)), Ok(()));
    assert_eq!(bookie.add(a, 1, partial(&[(1, 1)], 2, 1)), Err(BookError::DivergentLastSeq));
    assert!(bookie.contains(a, 1));
}

#[test]
fn known_version_clone_keeps_content() {
    let p = partial(&[(0, 3)], 3, 2);
    assert!(p.clone() == p);
    assert!(p.duplicate().same_as(&p));
    assert!(!current(1).same_as(&KnownDbVersion::Cleared));
}
