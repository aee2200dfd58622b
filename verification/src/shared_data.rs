//! The state that the web handlers and the background tasks share.

use vstd::prelude::*;

verus! {

/// An instant with the UTC offset it is shown at: nanoseconds since the Unix
/// epoch and the offset in seconds east of UTC.
#[derive(Debug, Clone, Copy, PartialEq, Eq, Structural)]
pub struct DateTimeValue {
    pub unix_nanos: i128,
    pub offset_seconds: i32,
}

/// What `SharedData` holds, as plain values.
pub struct SharedDataView {
    pub continue_background_tasks: bool,
    /// Ten-thousandths of a degree Fahrenheit.
    pub current_temp: i64,
    /// The desired minimum temperature, in whole degrees Fahrenheit.
    pub thermostat_value: u16,
    pub thermostat_on: bool,
    /// When the relay last changed.
    pub thermostat_change_datetime: DateTimeValue,
}

/// The values shared across all tasks of the application.
#[derive(Clone, Copy)]
pub struct SharedData {
    continue_background_tasks: bool,
    current_temp: i64,
    thermostat_value: u16,
    thermostat_on: bool,
    thermostat_change_datetime: DateTimeValue,
}

impl View for SharedData {
    type V = SharedDataView;

    closed spec fn view(&self) -> SharedDataView {
        SharedDataView {
            continue_background_tasks: self.continue_background_tasks,
            current_temp: self.current_temp,
            thermostat_value: self.thermostat_value,
            thermostat_on: self.thermostat_on,
            thermostat_change_datetime: self.thermostat_change_datetime,
        }
    }
}

/// The values the application starts with: background tasks running, the
/// temperature taken as five degrees above the setting until the first
/// reading, the relay off, and its last change at the Unix epoch (in UTC).
pub open spec fn spec_at_startup(initial_thermostat_value: u16) -> SharedDataView {
    SharedDataView {
        continue_background_tasks: true,
        current_temp: ((initial_thermostat_value + 5) * 10000) as i64,
        thermostat_value: initial_thermostat_value,
        thermostat_on: false,
        thermostat_change_datetime: DateTimeValue { unix_nanos: 0, offset_seconds: 0 },
    }
}

impl SharedData {
    /// Builds the shared values from their parts.
    pub fn new(
        continue_background_tasks: bool,
        current_temp: i64,
        thermostat_value: u16,
        thermostat_on: bool,
        thermostat_change_datetime: DateTimeValue,
    ) -> (r: SharedData)
        ensures
            r@ == (SharedDataView {
                continue_background_tasks,
                current_temp,
                thermostat_value,
                thermostat_on,
                thermostat_change_datetime,
            }),
    {
        SharedData {
            continue_background_tasks,
            current_temp,
            thermostat_value,
            thermostat_on,
            thermostat_change_datetime,
        }
    }

    /// The values the application starts with (see `spec_at_startup`).
    pub fn at_startup(initial_thermostat_value: u16) -> (r: SharedData)
        ensures
            r@ == spec_at_startup(initial_thermostat_value),
            r@.thermostat_value == initial_thermostat_value,
            r@.current_temp == initial_thermostat_value * 10000 + 50000,
            !r@.thermostat_on,
            r@.continue_background_tasks,
    {
        let t: i64 = (initial_thermostat_value as i64 + 5) * 10000;
        SharedData::new(
            true,
            t,
            initial_thermostat_value,
            false,
            DateTimeValue { unix_nanos: 0, offset_seconds: 0 },
        )
    }

    pub fn continue_background_tasks(&self) -> (r: bool)
        ensures
            r == self@.continue_background_tasks,
    {
        self.continue_background_tasks
    }

    pub fn set_continue_background_tasks(&mut self, new_val: bool)
        ensures
            final(self)@ == (SharedDataView { continue_background_tasks: new_val, ..old(self)@ }),
    {
        self.continue_background_tasks = new_val;
    }

    /// The last temperature read, in ten-thousandths of a degree Fahrenheit.
    pub fn current_temp(&self) -> (r: i64)
        ensures
            r == self@.current_temp,
    {
        self.current_temp
    }

    pub fn set_current_temp(&mut self, new_val: i64)
        ensures
            final(self)@ == (SharedDataView { current_temp: new_val, ..old(self)@ }),
    {
        self.current_temp = new_val;
    }

    /// The desired minimum temperature, in whole degrees Fahrenheit.
    pub fn thermostat_value(&self) -> (r: u16)
        ensures
            r == self@.thermostat_value,
    {
        self.thermostat_value
    }

    pub fn set_thermostat_value(&mut self, new_val: u16)
        ensures
            final(self)@ == (SharedDataView { thermostat_value: new_val, ..old(self)@ }),
    {
        self.thermostat_value = new_val;
    }

    /// Whether the heater relay is on.
    pub fn is_thermostat_on(&self) -> (r: bool)
        ensures
            r == self@.thermostat_on,
    {
        self.thermostat_on
    }

    pub fn set_thermostat_on(&mut self, new_val: bool)
        ensures
            final(self)@ == (SharedDataView { thermostat_on: new_val, ..old(self)@ }),
    {
        self.thermostat_on = new_val;
    }

    /// When the relay last changed, with the offset it was written at.
    pub fn thermostat_change_datetime(&self) -> (r: DateTimeValue)
        ensures
            r == self@.thermostat_change_datetime,
    {
        self.thermostat_change_datetime
    }

    pub fn set_thermostat_change_datetime(&mut self, dt: DateTimeValue)
        ensures
            final(self)@ == (SharedDataView { thermostat_change_datetime: dt, ..old(self)@ }),
    {
        self.thermostat_change_datetime = dt;
    }
}

/// The application starts from the configured setting: the setting is the
/// given one, the temperature is taken as five degrees Fahrenheit above it,
/// the relay is off, the background tasks run and the last change lies at
/// the Unix epoch.
pub proof fn law_startup_follows_setting(initial_thermostat_value: u16)
    ensures
        spec_at_startup(initial_thermostat_value).thermostat_value == initial_thermostat_value,
        spec_at_startup(initial_thermostat_value).current_temp == initial_thermostat_value
            * 10000 + 5 * 10000,
        !spec_at_startup(initial_thermostat_value).thermostat_on,
        spec_at_startup(initial_thermostat_value).continue_background_tasks,
        spec_at_startup(initial_thermostat_value).thermostat_change_datetime.unix_nanos == 0,
{
}

/// What a background loop does after a round.
#[derive(Debug, Clone, Copy, PartialEq, Eq, Structural)]
pub enum LoopStep {
    Continue,
    Stop,
}

/// The stop decision of the background loops (reading the sensor, controlling
/// the relay): after each round a loop stops once the background tasks have
/// been told to end, and goes on otherwise.
pub fn background_step(sd: &SharedData) -> (r: LoopStep)
    ensures
        r == (if sd@.continue_background_tasks { LoopStep::Continue } else { LoopStep::Stop }),
{
    if sd.continue_background_tasks() {
        LoopStep::Continue
    } else {
        LoopStep::Stop
    }
}

} // verus!
