use anim8::driver::Driver;
use anim8::driver::Error;
use anim8::driver::LinearEasing;
use anim8::driver::Looper;
use anim8::units::Fraction;
use anim8::units::Milliseconds;

#[test]
fn linear_easing_is_identity() {
    let easing = LinearEasing::new();
    let norm = Fraction { num: 3, den: 8 };
    assert_eq!(easing.map_norm(norm), norm);
}

#[test]
fn linear_step() {
    let steps = 20;

    let driver = Driver::new(10, 20, Milliseconds(steps)).unwrap();

    for i in 0..=steps {
        println!("{} ms: {:?}", i, driver.step(Milliseconds(i)));
    }
}

#[test]
fn looper() {
    let steps = 60;

    let driver = Driver::new(10, 20, Milliseconds(20)).unwrap();

    let looper = Looper::new(driver, Some(5));

    for i in 0..=steps {
        println!("{} ms: {:?}\n", i, looper.step(Milliseconds(i)));
    }
}

#[test]
fn driver_boundary() {
    let driver = Driver::new(10, 20, Milliseconds(20)).unwrap();
    assert_eq!(driver.step(Milliseconds(0)), Some(10));
    assert_eq!(driver.step(Milliseconds(10)), Some(15));
    assert_eq!(driver.step(Milliseconds(20)), Some(20));
}

#[test]
fn driver_out_of_range_is_absent() {
    let driver = Driver::new(10, 20, Milliseconds(20)).unwrap();
    assert_eq!(driver.step(Milliseconds(21)), None);
    assert_eq!(driver.step(Milliseconds(1000)), None);
}

#[test]
fn zero_duration_rejected() {
    assert_eq!(Driver::new(10, 20, Milliseconds(0)), Err(Error::ZeroDuration));
    assert_eq!(Driver::new(-5, 5, Milliseconds(0)), Err(Error::ZeroDuration));
}

#[test]
fn driver_monotonic_upward() {
    let driver = Driver::new(-100, 100, Milliseconds(37)).unwrap();
    let mut previous = driver.step(Milliseconds(0)).unwrap();
    for i in 1..=37 {
        let current = driver.step(Milliseconds(i)).unwrap();
        assert!(previous <= current);
        assert!(-100 <= current && current <= 100);
        previous = current;
    }
}

#[test]
fn driver_monotonic_downward() {
    let driver = Driver::new(100, -100, Milliseconds(37)).unwrap();
    let mut previous = driver.step(Milliseconds(0)).unwrap();
    for i in 1..=37 {
        let current = driver.step(Milliseconds(i)).unwrap();
        assert!(previous >= current);
        assert!(-100 <= current && current <= 100);
        previous = current;
    }
}

#[test]
fn step_idempotent() {
    let driver = Driver::new(3, 90, Milliseconds(13)).unwrap();
    assert_eq!(driver.step(Milliseconds(7)), driver.step(Milliseconds(7)));

    let looper = Looper::new(driver, None);
    assert_eq!(looper.step(Milliseconds(31)), looper.step(Milliseconds(31)));
}

#[test]
fn degenerate_animation_is_constant() {
    let driver = Driver::new(7, 7, Milliseconds(50)).unwrap();
    for i in 0..=50 {
        assert_eq!(driver.step(Milliseconds(i)), Some(7));
    }
    let looper = Looper::new(driver, None);
    for i in 0..=200 {
        assert_eq!(looper.step(Milliseconds(i)), 7);
    }
}

#[test]
fn looper_scenario() {
    let driver = Driver::new(10, 20, Milliseconds(20)).unwrap();
    let looper = Looper::new(driver, None);
    assert_eq!(looper.step(Milliseconds(20)), 10);
    assert_eq!(looper.step(Milliseconds(40)), 10);
    assert_eq!(looper.step(Milliseconds(30)), 15);
}

#[test]
fn looper_first_cycle_matches_driver() {
    let driver = Driver::new(10, 20, Milliseconds(20)).unwrap();
    let looper = Looper::new(driver, None);
    for t in 0..20 {
        assert_eq!(looper.step(Milliseconds(t)), driver.step(Milliseconds(t)).unwrap());
    }
}

#[test]
fn looper_periodic() {
    let driver = Driver::new(10, 20, Milliseconds(20)).unwrap();
    let looper = Looper::new(driver, None);
    for t in 0..=100 {
        assert_eq!(looper.step(Milliseconds(t)), looper.step(Milliseconds(t + 20)));
    }
}

#[test]
fn looper_holds_final_value() {
    let driver = Driver::new(10, 20, Milliseconds(20)).unwrap();
    let looper = Looper::new(driver, Some(2));
    assert_eq!(looper.step(Milliseconds(39)), driver.step(Milliseconds(19)).unwrap());
    assert_eq!(looper.step(Milliseconds(40)), 20);
    assert_eq!(looper.step(Milliseconds(41)), 20);
    assert_eq!(looper.step(Milliseconds(1000)), 20);
}

#[test]
fn looper_zero_iterations_starts_completed() {
    let driver = Driver::new(10, 20, Milliseconds(20)).unwrap();
    let looper = Looper::new(driver, Some(0));
    assert_eq!(looper.step(Milliseconds(0)), 20);
    assert_eq!(looper.step(Milliseconds(5)), 20);
}
