use pin_logger::internal::{pin_state_for_name, PinLogger};
use pin_logger::simple;
use pin_logger::test_pin::TestPin;

#[test]
fn new_logger_starts_low() {
    let logger = PinLogger::<3>::new();
    assert_eq!(logger.pin_state(), 0);
    assert_eq!(logger.levels(), [false, false, false]);
}

#[test]
fn pin_log_reports_before_and_after() {
    let mut logger = PinLogger::<3>::new();
    let t = logger.pin_log(2);
    assert_eq!(&t.before, b"000");
    assert_eq!(&t.after, b"010");
    assert_eq!(t.levels, [false, true, false]);
    assert_eq!(logger.pin_state(), 2);
    assert_eq!(logger.levels(), [false, true, false]);
}

#[test]
fn consecutive_logs_chain() {
    let mut logger = PinLogger::<2>::new();
    let names = ["Start", "Middle", "End"];
    let mut previous_after = *b"00";
    for name in names {
        let state = pin_state_for_name(names, name).unwrap();
        let t = logger.pin_log(state);
        assert_eq!(t.before, previous_after);
        previous_after = t.after;
    }
    assert_eq!(&previous_after, b"11");
}

#[test]
fn logging_the_same_state_twice() {
    let mut logger = PinLogger::<2>::new();
    logger.pin_log(1);
    let t = logger.pin_log(1);
    assert_eq!(t.before, t.after);
    assert_eq!(&t.after, b"10");
}

#[test]
fn simple_logger_for_registry() {
    let names = ["Start", "Middle", "End"];
    let mut logger = simple::PinLogger::<2>::new(&names);
    assert_eq!(logger.pin_state(), 0);
    assert_eq!(logger.levels(), [false, false]);
    let t = logger.pin_log(3);
    assert_eq!(&t.before, b"00");
    assert_eq!(&t.after, b"11");
    assert_eq!(t.levels, [true, true]);
    let t = logger.pin_log(2);
    assert_eq!(&t.before, b"11");
    assert_eq!(&t.after, b"01");
    assert_eq!(logger.levels(), [false, true]);
}

#[test]
fn test_pin_keeps_its_number() {
    assert_eq!(TestPin::new(0).number(), 0);
    assert_eq!(TestPin::new(7).number(), 7);
    assert_eq!(TestPin::new(255).number(), 255);
}
