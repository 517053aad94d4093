use gpbeam::diskguard::{has_room, needed_space};

#[test]
fn zero_need_always_fits() {
    assert!(has_room(0, 0, 0));
    assert!(has_room(1_000_000, 0, 0));
}

#[test]
fn absurd_need_does_not_fit() {
    assert!(!has_room(1_000_000_000_000, u64::MAX - 1, 1));
    assert!(!has_room(1_000_000_000_000, u64::MAX, u64::MAX));
}

#[test]
fn headroom_counts() {
    assert!(has_room(100, 60, 40));
    assert!(!has_room(100, 61, 40));
    assert_eq!(needed_space(60, 40), 100);
    assert_eq!(needed_space(u64::MAX, 1), u64::MAX);
}
