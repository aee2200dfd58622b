use thermostat_pi::control_thermostat::{
    apply_step, control_thermostat, record_relay_change, thermostat_action, ControlStep,
    ThermostatAction, TIME_BUFFER,
};
use thermostat_pi::shared_data::{DateTimeValue, SharedData};

const SECOND: i128 = 1_000_000_000;

fn state(temp_e4: i64, setting: u16, on: bool, changed: i128) -> SharedData {
    SharedData::new(true, temp_e4, setting, on, DateTimeValue { unix_nanos: changed, offset_seconds: 0 })
}

#[test]
fn turns_on_below_setting() {
    let sd = state(540000, 55, false, 0);
    assert_eq!(thermostat_action(&sd, 121 * SECOND), ThermostatAction::TurnOn);
}

#[test]
fn turns_off_above_setting() {
    let sd = state(560001, 55, true, 0);
    assert_eq!(thermostat_action(&sd, 121 * SECOND), ThermostatAction::TurnOff);
}

#[test]
fn keeps_when_already_right() {
    assert_eq!(thermostat_action(&state(540000, 55, true, 0), 1000 * SECOND), ThermostatAction::Keep);
    assert_eq!(thermostat_action(&state(560000, 55, false, 0), 1000 * SECOND), ThermostatAction::Keep);
}

#[test]
fn off_once_the_setting_is_reached() {
    assert_eq!(thermostat_action(&state(550000, 55, true, 0), 1000 * SECOND), ThermostatAction::TurnOff);
    assert_eq!(thermostat_action(&state(550000, 55, false, 0), 1000 * SECOND), ThermostatAction::Keep);
    assert_eq!(thermostat_action(&state(549999, 55, true, 0), 1000 * SECOND), ThermostatAction::Keep);
}

#[test]
fn waits_out_the_buffer() {
    let changed = 5_000 * SECOND;
    let sd = state(400000, 55, false, changed);
    let buffer = TIME_BUFFER as i128 * SECOND;
    assert_eq!(thermostat_action(&sd, changed + buffer), ThermostatAction::Keep);
    assert_eq!(thermostat_action(&sd, changed + buffer + 1), ThermostatAction::TurnOn);
    assert_eq!(thermostat_action(&sd, changed - 1), ThermostatAction::Keep);
}

#[test]
fn extreme_times_do_not_overflow() {
    let sd = state(400000, 55, false, i128::MAX);
    assert_eq!(thermostat_action(&sd, i128::MAX), ThermostatAction::Keep);
    let sd = state(400000, 55, false, i128::MIN);
    assert_eq!(thermostat_action(&sd, i128::MAX), ThermostatAction::TurnOn);
}

#[test]
fn no_change_right_after_a_change() {
    let mut sd = state(400000, 55, false, 0);
    let step = ControlStep { now: 200 * SECOND, action: thermostat_action(&sd, 200 * SECOND) };
    assert_eq!(step.action, ThermostatAction::TurnOn);
    apply_step(&mut sd, step);
    assert!(sd.is_thermostat_on());
    assert_eq!(sd.thermostat_change_datetime().unix_nanos, 200 * SECOND);
    // now far above the setting, but within the buffer
    sd.set_current_temp(900000);
    assert_eq!(thermostat_action(&sd, 320 * SECOND), ThermostatAction::Keep);
    assert_eq!(thermostat_action(&sd, 321 * SECOND), ThermostatAction::TurnOff);
}

#[test]
fn record_relay_change_sets_flag_and_time() {
    let mut sd = state(400000, 55, false, 0);
    record_relay_change(&mut sd, true, 42);
    assert!(sd.is_thermostat_on());
    assert_eq!(sd.thermostat_change_datetime().unix_nanos, 42);
    assert_eq!(sd.current_temp(), 400000);
    assert_eq!(sd.thermostat_value(), 55);
}

#[test]
fn control_thermostat_uses_the_clock() {
    // the relay changed at the epoch, so the buffer has long passed
    let sd = state(400000, 55, false, 0);
    let step = control_thermostat(&sd);
    assert!(step.now > 0);
    assert_eq!(step.action, ThermostatAction::TurnOn);
    // a change "now" blocks any switch
    let sd = state(400000, 55, false, step.now);
    assert_eq!(control_thermostat(&sd).action, ThermostatAction::Keep);
}

#[test]
fn keep_step_changes_nothing() {
    let mut sd = state(400000, 55, true, 7);
    apply_step(&mut sd, ControlStep { now: 99, action: ThermostatAction::Keep });
    assert!(sd.is_thermostat_on());
    assert_eq!(sd.thermostat_change_datetime().unix_nanos, 7);
}

#[test]
fn startup_never_heats_before_a_reading() {
    let sd = SharedData::at_startup(55);
    for now in [0, 121 * SECOND, 1_000_000 * SECOND, i128::MAX] {
        assert_eq!(thermostat_action(&sd, now), ThermostatAction::Keep);
    }
}

#[test]
fn recorded_command_is_not_repeated() {
    let mut sd = state(100000, 55, false, 0);
    record_relay_change(&mut sd, true, 10 * SECOND);
    for now in [0, 10 * SECOND, 131 * SECOND, 1_000_000 * SECOND] {
        assert_ne!(thermostat_action(&sd, now), ThermostatAction::TurnOn);
    }
    let mut sd = state(900000, 55, true, 0);
    record_relay_change(&mut sd, false, 10 * SECOND);
    for now in [0, 131 * SECOND, 1_000_000 * SECOND] {
        assert_ne!(thermostat_action(&sd, now), ThermostatAction::TurnOff);
    }
}
