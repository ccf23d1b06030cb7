use statesync::clock::{adjust_simulation_speed, CommandFrameTicker};
use statesync::error::SyncError;

fn ticker() -> CommandFrameTicker {
    // one frame per 16_000 microseconds
    CommandFrameTicker::new(16_000, 0)
}

#[test]
fn offset_equal_to_lag_changes_nothing() {
    let mut t = ticker();
    t.set_command_frame(50);
    assert!(adjust_simulation_speed(200, 1000, &mut t).is_ok());
    assert_eq!(t.command_frame(), 50);
    assert_eq!(t.speed_sixteenths(), 16);
}

#[test]
fn severe_desync_hard_resets_to_server_plus_lag() {
    let mut t = ticker();
    t.set_command_frame(50);
    assert!(adjust_simulation_speed(-40, 1000, &mut t).is_ok());
    assert_eq!(t.command_frame(), 1200);
    assert_eq!(t.speed_sixteenths(), 16);
}

#[test]
fn offset_20_sets_factor_1_125() {
    let mut t = ticker();
    assert!(adjust_simulation_speed(20, 1000, &mut t).is_ok());
    assert_eq!(t.speed_sixteenths(), 18);
    assert_eq!(t.speed_sixteenths() as f32 / 16.0, 1.125);
    assert_eq!(t.command_frame(), 0);
}

#[test]
fn offset_10_sets_factor_1_0625() {
    let mut t = ticker();
    assert!(adjust_simulation_speed(10, 1000, &mut t).is_ok());
    assert_eq!(t.speed_sixteenths(), 17);
    assert_eq!(t.speed_sixteenths() as f32 / 16.0, 1.0625);
}

#[test]
fn offset_minus_20_sets_factor_0_875() {
    let mut t = ticker();
    assert!(adjust_simulation_speed(-20, 1000, &mut t).is_ok());
    assert_eq!(t.speed_sixteenths(), 14);
    assert_eq!(t.speed_sixteenths() as f32 / 16.0, 0.875);
}

#[test]
fn offset_minus_5_sets_factor_0_9375() {
    let mut t = ticker();
    assert!(adjust_simulation_speed(-5, 1000, &mut t).is_ok());
    assert_eq!(t.speed_sixteenths(), 15);
    assert_eq!(t.speed_sixteenths() as f32 / 16.0, 0.9375);
}

#[test]
fn offset_zero_sets_factor_one() {
    let mut t = ticker();
    assert!(adjust_simulation_speed(0, 1000, &mut t).is_ok());
    assert_eq!(t.speed_sixteenths(), 16);
    assert_eq!(t.speed_sixteenths() as f32 / 16.0, 1.0);
}

#[test]
fn hard_reset_near_frame_limit_is_refused() {
    let mut t = ticker();
    let r = adjust_simulation_speed(-40, u32::MAX - 100, &mut t);
    assert_eq!(r, Err(SyncError::FrameOutOfRange(u32::MAX - 100)));
    assert_eq!(t.command_frame(), 0);
}

#[test]
fn try_tick_advances_only_after_effective_duration() {
    let mut t = ticker();
    assert!(!t.try_tick(15_999));
    assert_eq!(t.command_frame(), 0);
    assert!(t.try_tick(16_000));
    assert_eq!(t.command_frame(), 1);
    // the next frame is measured from the last tick
    assert!(!t.try_tick(31_999));
    assert!(t.try_tick(32_000));
    assert_eq!(t.command_frame(), 2);
}

#[test]
fn slowdown_lengthens_effective_duration() {
    let mut t = ticker();
    // factor 14/16 of 16_000 micros = 14_000 micros
    assert!(adjust_simulation_speed(-20, 1000, &mut t).is_ok());
    assert!(!t.try_tick(13_999));
    assert!(t.try_tick(14_000));
    assert_eq!(t.command_frame(), 1);
}
