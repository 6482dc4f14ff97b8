use anim8::easing::Easing;
use anim8::easing::EasingDriver;
use anim8::easing::LinearEasing;
use anim8::easing::Mode;
use anim8::units::Fraction;
use anim8::units::Milliseconds;

#[test]
fn linear_easing_rejects_zero_duration() {
    assert!(LinearEasing::new(Milliseconds(0)).is_none());
    assert!(LinearEasing::new(Milliseconds(20)).is_some());
}

#[test]
fn linear_easing_progress_is_time_over_duration() {
    let easing = LinearEasing::new(Milliseconds(20)).unwrap();
    assert_eq!(easing.duration(), Milliseconds(20));
    assert_eq!(easing.value_at(Milliseconds(0)), Fraction { num: 0, den: 20 });
    assert_eq!(easing.value_at(Milliseconds(5)), Fraction { num: 5, den: 20 });
    assert_eq!(easing.value_at(Milliseconds(20)), Fraction { num: 20, den: 20 });
}

#[test]
fn easing_driver_wraps_elapsed_time() {
    let easing = LinearEasing::new(Milliseconds(20)).unwrap();
    let driver = EasingDriver::new(easing, Mode::Loop);
    assert_eq!(driver.drive(Milliseconds(5)), Fraction { num: 5, den: 20 });
    assert_eq!(driver.drive(Milliseconds(20)), Fraction { num: 0, den: 20 });
    assert_eq!(driver.drive(Milliseconds(30)), Fraction { num: 10, den: 20 });
    assert_eq!(driver.drive(Milliseconds(45)), Fraction { num: 5, den: 20 });
}
