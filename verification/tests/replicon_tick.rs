use std::cmp::Ordering;

use bevy_replicon::replicon_tick::RepliconTick;

#[test]
fn tick_comparison() {
    assert_eq!(RepliconTick::new(0), RepliconTick::new(0));
    assert!(RepliconTick::new(0) < RepliconTick::new(1));
    assert!(RepliconTick::new(0) > RepliconTick::new(u32::MAX));
}

#[test]
fn tick_value_roundtrip() {
    assert_eq!(RepliconTick::new(42).get(), 42);
    assert_eq!(RepliconTick::default().get(), 0);
}

#[test]
fn tick_compare_wraps() {
    let tick = RepliconTick::new(u32::MAX - 1);
    assert_eq!(tick.compare(&RepliconTick::new(u32::MAX - 1)), Ordering::Equal);
    assert_eq!(tick.compare(&RepliconTick::new(3)), Ordering::Less);
    assert_eq!(RepliconTick::new(3).compare(&tick), Ordering::Greater);
}

#[test]
fn tick_half_range_is_older_both_ways() {
    let a = RepliconTick::new(10);
    let b = RepliconTick::new(10 + 0x8000_0000);
    assert_eq!(a.compare(&b), Ordering::Less);
    assert_eq!(b.compare(&a), Ordering::Less);
}

#[test]
fn tick_arithmetic_wraps() {
    let tick = RepliconTick::new(u32::MAX);
    let next = tick + 2;
    assert_eq!(next.get(), 1);
    assert_eq!(next - tick, 2);
    assert_eq!((next - 2).get(), u32::MAX);
    assert!(next > tick);

    let mut counter = RepliconTick::new(u32::MAX);
    counter += 1;
    assert_eq!(counter.get(), 0);
    counter -= 1;
    assert_eq!(counter.get(), u32::MAX);
}

#[test]
fn tick_advance_by_half_range_is_newer() {
    let tick = RepliconTick::new(7);
    let ahead = tick + u32::MAX / 2;
    assert!(ahead > tick);
    assert!(tick < ahead);
}
