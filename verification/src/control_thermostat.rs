//! When the heater relay switches: on below the setting, off once it is
//! reached, and never within two minutes of its last change.

use vstd::prelude::*;
use crate::shared_data::{spec_at_startup, DateTimeValue, SharedData, SharedDataView};

verus! {

/// Minimum time, in seconds, before the thermostat can change state again.
pub const TIME_BUFFER: i64 = 120;

/// The minimum time between two relay changes, in nanoseconds.
pub open spec fn time_buffer_nanos() -> int {
    TIME_BUFFER * 1_000_000_000
}

/// The setting in the temperature's unit (ten-thousandths of a degree).
pub open spec fn setting_e4(v: SharedDataView) -> int {
    v.thermostat_value * 10000
}

/// What the relay has to do.
#[derive(Debug, Clone, Copy, PartialEq, Eq, Structural)]
pub enum ThermostatAction {
    TurnOn,
    TurnOff,
    Keep,
}

/// The decision at time `now` (nanoseconds since the Unix epoch): once more
/// than the buffer has passed since the last change, the heater is to be on
/// while the temperature is below the setting and off otherwise, so a relay
/// that is off goes on below the setting and one that is on goes off at or
/// above it.  In every other case the relay stays as it is.
pub open spec fn spec_thermostat_action(v: SharedDataView, now: int) -> ThermostatAction {
    if now - v.thermostat_change_datetime.unix_nanos > time_buffer_nanos() {
        if v.current_temp >= setting_e4(v) && v.thermostat_on {
            ThermostatAction::TurnOff
        } else if v.current_temp < setting_e4(v) && !v.thermostat_on {
            ThermostatAction::TurnOn
        } else {
            ThermostatAction::Keep
        }
    } else {
        ThermostatAction::Keep
    }
}

/// The state after the relay was switched to `on` at time `at`, an instant
/// of the clock, which reads UTC.
pub open spec fn spec_record_relay_change(v: SharedDataView, on: bool, at: i128) -> SharedDataView {
    SharedDataView {
        thermostat_on: on,
        thermostat_change_datetime: DateTimeValue { unix_nanos: at, offset_seconds: 0 },
        ..v
    }
}

/// Decides what the relay has to do at time `now`.
pub fn thermostat_action(sd: &SharedData, now: i128) -> (r: ThermostatAction)
    ensures
        r == spec_thermostat_action(sd@, now as int),
{
    let last = sd.thermostat_change_datetime().unix_nanos;
    let buffer: i128 = TIME_BUFFER as i128 * 1_000_000_000;
    let passed = if last > i128::MAX - buffer {
        false
    } else {
        now > last + buffer
    };
    if !passed {
        return ThermostatAction::Keep;
    }
    let temp_now = sd.current_temp() as i128;
    let setting = sd.thermostat_value() as i128 * 10000;
    let on = sd.is_thermostat_on();
    if temp_now >= setting && on {
        ThermostatAction::TurnOff
    } else if temp_now < setting && !on {
        ThermostatAction::TurnOn
    } else {
        ThermostatAction::Keep
    }
}

/// The current time as nanoseconds since the Unix epoch.
///
/// Calls `time::OffsetDateTime::now_utc` and converts the instant with
/// `unix_timestamp_nanos`.  Nothing is promised of the value: it is the
/// system clock's.
#[verifier::external_body]
pub(crate) fn now_unix_nanos() -> (r: i128) {
    time::OffsetDateTime::now_utc().unix_timestamp_nanos()
}

/// One decision of the control loop: the time it was taken at and the action.
#[derive(Debug, Clone, Copy)]
pub struct ControlStep {
    pub now: i128,
    pub action: ThermostatAction,
}

/// Looks at the clock and decides whether the relay has to change.
///
/// The caller switches the relay and, once that succeeded, records the change
/// with `record_relay_change` at `now`.
pub fn control_thermostat(sd: &SharedData) -> (r: ControlStep)
    ensures
        r.action == spec_thermostat_action(sd@, r.now as int),
{
    let now = now_unix_nanos();
    ControlStep { now, action: thermostat_action(sd, now) }
}

/// Notes that the relay was switched to `on` at time `at`.
pub fn record_relay_change(sd: &mut SharedData, on: bool, at: i128)
    ensures
        final(sd)@ == spec_record_relay_change(old(sd)@, on, at),
{
    sd.set_thermostat_on(on);
    sd.set_thermostat_change_datetime(DateTimeValue { unix_nanos: at, offset_seconds: 0 });
}

/// Applies a decision once the relay has been switched accordingly.
pub fn apply_step(sd: &mut SharedData, step: ControlStep)
    ensures
        final(sd)@ == match step.action {
            ThermostatAction::TurnOn => spec_record_relay_change(old(sd)@, true, step.now),
            ThermostatAction::TurnOff => spec_record_relay_change(old(sd)@, false, step.now),
            ThermostatAction::Keep => old(sd)@,
        },
{
    match step.action {
        ThermostatAction::TurnOn => record_relay_change(sd, true, step.now),
        ThermostatAction::TurnOff => record_relay_change(sd, false, step.now),
        ThermostatAction::Keep => {},
    }
}

/// The relay never changes within the buffer after a change: whatever the
/// temperature and the setting do meanwhile, every decision taken up to two
/// minutes after a change keeps the relay as it is.
pub proof fn law_no_change_within_buffer(v: SharedDataView, on: bool, at: i128, t: int)
    requires
        t - at <= time_buffer_nanos(),
    ensures
        spec_thermostat_action(spec_record_relay_change(v, on, at), t)
            == ThermostatAction::Keep,
{
}

/// A switch only ever goes the right way: it turns the heater on only when
/// it is off and the temperature is below the setting, and off only when it
/// is on and the temperature has reached the setting.
pub proof fn law_switch_direction(v: SharedDataView, now: int)
    ensures
        spec_thermostat_action(v, now) == ThermostatAction::TurnOn ==> !v.thermostat_on
            && v.current_temp < setting_e4(v) && now - v.thermostat_change_datetime.unix_nanos
            > time_buffer_nanos(),
        spec_thermostat_action(v, now) == ThermostatAction::TurnOff ==> v.thermostat_on
            && v.current_temp >= setting_e4(v) && now - v.thermostat_change_datetime.unix_nanos
            > time_buffer_nanos(),
{
}

/// A heater that is off is never turned on once the setting is reached.
pub proof fn law_no_heating_at_setting(v: SharedDataView, now: int)
    requires
        v.current_temp >= setting_e4(v),
    ensures
        spec_thermostat_action(v, now) != ThermostatAction::TurnOn,
{
}

/// After a change is recorded, the same command is never issued again: the
/// next change, if any, goes the other way.
pub proof fn law_no_repeated_command(v: SharedDataView, on: bool, at: i128, t: int)
    ensures
        spec_thermostat_action(spec_record_relay_change(v, on, at), t)
            != (if on { ThermostatAction::TurnOn } else { ThermostatAction::TurnOff }),
{
}

/// Once the buffer has passed, a heater that is off below the setting is
/// turned on, and one that is on at or above the setting is turned off.
pub proof fn law_switch_when_due(v: SharedDataView, now: int)
    requires
        now - v.thermostat_change_datetime.unix_nanos > time_buffer_nanos(),
    ensures
        !v.thermostat_on && v.current_temp < setting_e4(v) ==> spec_thermostat_action(v, now)
            == ThermostatAction::TurnOn,
        v.thermostat_on && v.current_temp >= setting_e4(v) ==> spec_thermostat_action(v, now)
            == ThermostatAction::TurnOff,
{
}

/// Until the first reading arrives the heater stays off: the startup
/// temperature lies above the setting, so no decision turns the relay on.
pub proof fn law_startup_keeps_heater_off(initial_thermostat_value: u16, now: int)
    ensures
        spec_thermostat_action(spec_at_startup(initial_thermostat_value), now)
            == ThermostatAction::Keep,
{
}

} // verus!
