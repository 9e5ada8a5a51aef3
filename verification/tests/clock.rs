use bare_metal::clock::{delay_ms, TickCounter};

#[test]
fn counter_starts_at_zero_and_ticks() {
    let mut c = TickCounter::new();
    assert_eq!(c.millis(), 0);
    c.tick();
    c.tick();
    assert_eq!(c.millis(), 2);
}

#[test]
fn counter_wraps() {
    let mut c = TickCounter::from_millis(u32::MAX);
    c.tick();
    assert_eq!(c.millis(), 0);
}

#[test]
fn delay_lasts_exactly_ms_ticks() {
    let mut c = TickCounter::from_millis(100);
    let d = delay_ms(&c, 3);
    for _ in 0..3 {
        assert!(d.is_pending(&c));
        c.tick();
    }
    assert!(!d.is_pending(&c));
}

#[test]
fn delay_across_wrap() {
    let mut c = TickCounter::from_millis(u32::MAX - 1);
    let d = delay_ms(&c, 3);
    c.tick();
    c.tick();
    assert_eq!(c.millis(), 0);
    assert!(d.is_pending(&c));
    c.tick();
    assert!(!d.is_pending(&c));
}

#[test]
fn zero_delay_is_never_pending() {
    let c = TickCounter::from_millis(5);
    assert!(!delay_ms(&c, 0).is_pending(&c));
}

#[test]
fn delay_of_1000() {
    let c = TickCounter::from_millis(0);
    let d = delay_ms(&c, 1000);
    assert!(d.is_pending(&TickCounter::from_millis(999)));
    assert!(!d.is_pending(&TickCounter::from_millis(1000)));
    assert!(!d.is_pending(&TickCounter::from_millis(5000)));
}
