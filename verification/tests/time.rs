use ztunnel::time::{Clock, Converter, Debouncer, Instant, SystemTime, MAX_NANOS};

const SECOND: i128 = 1_000_000_000;

fn converter() -> Converter {
    Converter::new(Clock {
        now: Instant::from_nanos(5 * SECOND).unwrap(),
        sys_now: SystemTime::from_nanos(1_700_000_000 * SECOND + 123).unwrap(),
    })
}

#[test]
fn test_converter() {
    let conv = converter();
    let now = Instant::from_nanos(9 * SECOND).unwrap();
    let sys_now = conv.instant_to_system_time(now).unwrap();
    let moved = SystemTime::from_nanos(sys_now.nanos() + SECOND).unwrap();
    let later = conv.system_time_to_instant(moved);
    assert_eq!(later, Instant::from_nanos(10 * SECOND));
}

#[test]
fn conversion_is_exact() {
    let conv = converter();
    let now = Instant::from_nanos(2 * SECOND).unwrap();
    assert_eq!(
        conv.instant_to_system_time(now),
        SystemTime::from_nanos(1_699_999_997 * SECOND + 123)
    );
    assert_eq!(Instant::from_nanos(MAX_NANOS + 1), None);
    assert!(Instant::from_nanos(MAX_NANOS).is_some());
}

#[test]
fn elapsed_time_is_never_negative() {
    let conv = converter();
    assert_eq!(conv.elapsed_nanos(Instant::from_nanos(7 * SECOND).unwrap()), 2_000_000_000);
    assert_eq!(conv.elapsed_nanos(Instant::from_nanos(SECOND).unwrap()), 0);
    assert_eq!(conv.subsec_nanos(), 123);
}

#[test]
fn debouncer_extends_up_to_the_last_deadline() {
    let mut debouncer = Debouncer::new(1_000, 100, 250);
    assert_eq!(debouncer.deadline(), 1_100);
    debouncer.extend(1_080);
    assert_eq!(debouncer.deadline(), 1_180);
    debouncer.extend(1_160);
    assert_eq!(debouncer.deadline(), 1_250);
    debouncer.extend(1_240);
    assert_eq!(debouncer.deadline(), 1_250);
}

#[test]
fn debouncer_with_a_short_limit() {
    assert_eq!(Debouncer::new(10, 100, 50).deadline(), 60);
}
