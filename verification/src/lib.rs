//! Verified core of a Raspberry Pi workshop thermostat: parsing of the
//! one-wire sensor file, the relay decision with its minimum switching
//! interval, the shared state that the web handlers and background tasks
//! read and write, the record pushed to cloud storage, and the settings of
//! the temperature-storing service.

pub mod decimal;
pub mod sensor;
pub mod shared_data;
pub mod control_thermostat;
pub mod configuration;
pub mod temp_record;
