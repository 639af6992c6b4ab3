use triathalon_of_life::driver::{Action, Driver, Signal, CLOCK_SKIP};

#[test]
fn clock_skips_ten_frames() {
    assert_eq!(CLOCK_SKIP, 10);
}

#[test]
fn new_driver_is_paused() {
    let driver = Driver::new();
    assert!(!driver.is_playing());
}

#[test]
fn paused_driver_never_steps() {
    let mut driver = Driver::new();
    for _ in 0..35 {
        assert_eq!(driver.react(Signal::Frame), Action::Draw);
    }
    assert!(!driver.is_playing());
}

#[test]
fn toggle_flips_the_running_state() {
    let mut driver = Driver::new();
    assert_eq!(driver.react(Signal::TogglePlay), Action::Nothing);
    assert!(driver.is_playing());
    assert_eq!(driver.react(Signal::TogglePlay), Action::Nothing);
    assert!(!driver.is_playing());
}

#[test]
fn running_driver_steps_on_every_tenth_frame() {
    let mut driver = Driver::new();
    driver.react(Signal::TogglePlay);
    for frame in 1..=40 {
        let expected = if frame % 10 == 0 { Action::Step } else { Action::Draw };
        assert_eq!(driver.react(Signal::Frame), expected);
    }
}

#[test]
fn clock_runs_on_while_paused() {
    let mut driver = Driver::new();
    for _ in 0..7 {
        assert_eq!(driver.react(Signal::Frame), Action::Draw);
    }
    driver.react(Signal::TogglePlay);
    assert_eq!(driver.react(Signal::Frame), Action::Draw);
    assert_eq!(driver.react(Signal::Frame), Action::Draw);
    assert_eq!(driver.react(Signal::Frame), Action::Step);
    assert_eq!(driver.react(Signal::Frame), Action::Draw);
}

#[test]
fn toggle_does_not_move_the_clock() {
    let mut driver = Driver::new();
    driver.react(Signal::TogglePlay);
    for _ in 0..9 {
        assert_eq!(driver.react(Signal::Frame), Action::Draw);
    }
    driver.react(Signal::TogglePlay);
    driver.react(Signal::TogglePlay);
    assert_eq!(driver.react(Signal::Frame), Action::Step);
}

#[test]
fn reseed_changes_nothing_in_the_driver() {
    let mut driver = Driver::new();
    driver.react(Signal::TogglePlay);
    for _ in 0..9 {
        driver.react(Signal::Frame);
    }
    let before = driver;
    assert_eq!(driver.react(Signal::Reseed), Action::Reseed);
    assert_eq!(driver, before);
    assert_eq!(driver.react(Signal::Frame), Action::Step);
}

#[test]
fn step_is_not_due_on_the_frame_of_a_pause() {
    let mut driver = Driver::new();
    driver.react(Signal::TogglePlay);
    for _ in 0..9 {
        driver.react(Signal::Frame);
    }
    driver.react(Signal::TogglePlay);
    assert_eq!(driver.react(Signal::Frame), Action::Draw);
}
