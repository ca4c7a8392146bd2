use rustos::timer::{divisor_bytes, get_ticks, get_uptime_ms, handle_interrupt, sleep_target, Timer};

#[test]
fn ticks_are_ten_milliseconds() {
    let mut t = Timer::new();
    let mut none = None;
    assert_eq!(get_uptime_ms(&t), 0);
    for _ in 0..7 {
        assert_eq!(handle_interrupt(&mut t, &mut none), None);
    }
    assert_eq!(get_ticks(&t), 7);
    assert_eq!(get_uptime_ms(&t), 70);
}

#[test]
fn uptime_never_decreases() {
    let mut t = Timer::new();
    let mut last = t.get_uptime_ms();
    for _ in 0..50 {
        t.tick();
        let now = t.get_uptime_ms();
        assert!(now >= last);
        last = now;
    }
}

#[test]
fn pit_divisor_for_one_hundred_hertz() {
    assert_eq!(1193182 / 100, 11931);
    assert_eq!(divisor_bytes(), (0x9b, 0x2e));
}

#[test]
fn sleep_target_saturates() {
    assert_eq!(sleep_target(100, 50), 150);
    assert_eq!(sleep_target(usize::MAX - 1, 5), usize::MAX);
}
