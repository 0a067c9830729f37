use shaman_core::win::TimerHolders;

#[test]
fn the_first_holder_raises_and_the_last_releases() {
    let mut holders = TimerHolders::new();
    assert!(holders.acquire(), "first guard raises the resolution");
    assert!(!holders.acquire());
    assert!(!holders.release());
    assert!(holders.release(), "last guard gives it back");
    assert!(holders.release(), "a stray release still asks to give it back");
    assert!(holders.acquire(), "and the count did not go negative");
}

#[test]
fn a_fresh_count_has_room_for_a_guard() {
    let mut holders = TimerHolders::new();
    assert!(!holders.is_full());
    holders.acquire();
    assert!(!holders.is_full());
}
