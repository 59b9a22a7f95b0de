//! Window-buffer and driver behaviour on concrete observation sequences.

use netspy::config::ConfigError;
use netspy::driver::step;
use netspy::window::WindowBuffer;

fn addr(s: &str) -> String {
    s.to_string()
}

fn obs(s: &str) -> Option<String> {
    Some(s.to_string())
}

#[test]
fn window_zero_rejected() {
    // A zero window is a configuration error, before any observation.
    let r = WindowBuffer::new(0);
    assert!(matches!(r, Err(ConfigError::ZeroWindow)));
}

#[test]
fn window_positive_accepted() {
    let buf = WindowBuffer::new(10).unwrap();
    assert_eq!(buf.size(), 10);
    assert_eq!(buf.count_at(0, &addr("10.0.0.1")), 0);
}

#[test]
fn scenario_window_three() {
    // t=0: A; t=1: B, A; t=2: C. Snapshot: {A:2, B:1, C:1};
    // ranked: [(A,2), (B,1), (C,1)], the tie broken lexically.
    let mut buf = WindowBuffer::new(3).unwrap();
    assert!(step(&mut buf, obs("A"), 0).is_some());
    assert!(step(&mut buf, obs("B"), 1).is_some());
    assert!(step(&mut buf, obs("A"), 1).is_some());
    let report = step(&mut buf, obs("C"), 2).unwrap();
    assert_eq!(
        report,
        vec![(addr("A"), 2u128), (addr("B"), 1u128), (addr("C"), 1u128)]
    );
    let snap = buf.snapshot();
    assert_eq!(snap.count_of(&addr("A")), 2);
    assert_eq!(snap.count_of(&addr("B")), 1);
    assert_eq!(snap.count_of(&addr("C")), 1);
}

#[test]
fn invalid_observation_changes_nothing() {
    // An unclassifiable observation neither mutates any bin nor reports.
    let mut buf = WindowBuffer::new(3).unwrap();
    step(&mut buf, obs("A"), 0);
    let before = buf.count_at(0, &addr("A"));
    let r = step(&mut buf, None, 0);
    assert!(r.is_none());
    assert_eq!(buf.count_at(0, &addr("A")), before);
    assert_eq!(buf.snapshot().count_of(&addr("A")), 1);
}

#[test]
fn slot_reuse_resets_count() {
    // Window of 2: A lands in slot 0, traffic moves to slot 1, and when A
    // lands on slot 0 again a full window later, the slot is cleared first:
    // its bin holds exactly the one new observation.
    let mut buf = WindowBuffer::new(2).unwrap();
    step(&mut buf, obs("A"), 0);
    step(&mut buf, obs("A"), 0);
    assert_eq!(buf.count_at(0, &addr("A")), 2);
    step(&mut buf, obs("B"), 1);
    let report = step(&mut buf, obs("A"), 2).unwrap();
    assert_eq!(buf.count_at(0, &addr("A")), 1);
    assert_eq!(report, vec![(addr("A"), 1u128), (addr("B"), 1u128)]);
}

#[test]
fn same_slot_window_apart_resets() {
    // The same address a full window of seconds apart, with nothing in
    // between: the second observation's advance still clears the slot, so
    // the bin does not accumulate across the boundary.
    let mut buf = WindowBuffer::new(2).unwrap();
    step(&mut buf, obs("A"), 0);
    step(&mut buf, obs("A"), 0);
    assert_eq!(buf.count_at(0, &addr("A")), 2);
    let report = step(&mut buf, obs("A"), 2).unwrap();
    assert_eq!(buf.count_at(0, &addr("A")), 1);
    assert_eq!(report, vec![(addr("A"), 1u128)]);
}

#[test]
fn same_second_accumulates() {
    // Within one second the slot stays as it is: repeated advances are
    // idempotent and counts accumulate.
    let mut buf = WindowBuffer::new(3).unwrap();
    step(&mut buf, obs("A"), 5);
    let report = step(&mut buf, obs("A"), 5).unwrap();
    assert_eq!(report, vec![(addr("A"), 2u128)]);
}

#[test]
fn count_vanishes_when_slot_reused() {
    // Window of 2: A recorded at t=0 vanishes once slot 0 is reused at t=2.
    let mut buf = WindowBuffer::new(2).unwrap();
    step(&mut buf, obs("A"), 0);
    step(&mut buf, obs("B"), 1);
    let report = step(&mut buf, obs("C"), 2).unwrap();
    assert_eq!(buf.snapshot().count_of(&addr("A")), 0);
    assert_eq!(report, vec![(addr("B"), 1u128), (addr("C"), 1u128)]);
}

#[test]
fn window_one_drops_previous_second() {
    // Window of 1: both observations map to slot 0, but the second lands in
    // a later second, so the slot is cleared before recording B: the
    // snapshot is {B:1} and A has vanished.
    let mut buf = WindowBuffer::new(1).unwrap();
    step(&mut buf, obs("A"), 0);
    let report = step(&mut buf, obs("B"), 1).unwrap();
    assert_eq!(report, vec![(addr("B"), 1u128)]);
    assert_eq!(buf.snapshot().count_of(&addr("A")), 0);
}

#[test]
fn totals_sum_over_slots() {
    // The same address observed in different slots is summed by snapshot.
    let mut buf = WindowBuffer::new(3).unwrap();
    step(&mut buf, obs("A"), 0);
    step(&mut buf, obs("A"), 1);
    step(&mut buf, obs("A"), 2);
    assert_eq!(buf.snapshot().count_of(&addr("A")), 3);
    assert_eq!(buf.count_at(0, &addr("A")), 1);
    assert_eq!(buf.count_at(1, &addr("A")), 1);
    assert_eq!(buf.count_at(2, &addr("A")), 1);
}

#[test]
fn snapshot_idempotent() {
    // Repeated snapshots with no intervening observation agree, and rank
    // orders them identically.
    let mut buf = WindowBuffer::new(4).unwrap();
    step(&mut buf, obs("a"), 0);
    step(&mut buf, obs("b"), 0);
    step(&mut buf, obs("a"), 1);
    let s1 = buf.snapshot();
    let s2 = buf.snapshot();
    assert_eq!(s1.count_of(&addr("a")), s2.count_of(&addr("a")));
    assert_eq!(s1.count_of(&addr("b")), s2.count_of(&addr("b")));
    let r1 = netspy::rank::rank(s1);
    let r2 = netspy::rank::rank(s2);
    assert_eq!(r1, r2);
    assert_eq!(r1, vec![(addr("a"), 2u128), (addr("b"), 1u128)]);
}
