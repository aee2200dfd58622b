# thermostat_pi

A workshop thermostat for a Raspberry Pi: a one-wire probe gives the
temperature, a relay on GPIO 17 switches the heater, an HTTP interface sets
and reports the desired minimum temperature, and every reading is pushed to
cloud storage.

`src/` is the verified library (Verus):

- `sensor` reads the probe's `w1_slave` file and converts its reading
  exactly to ten-thousandths of a degree Fahrenheit;
- `control_thermostat` decides when the relay switches, never within two
  minutes of its last change;
- `shared_data` holds the values that all tasks share;
- `temp_record` builds the record that is pushed to storage, and reads a
  stored record's date and the day it is filed under;
- `configuration` builds the storing service's settings from environment
  variables and its database connection strings;
- `decimal` parses and writes decimal numbers.

`app/` is the program around it. Run without arguments it is the
thermostat (relay, file reads, HTTP server, background tasks); with
`push-temp` it is the cloud function that stores records in DynamoDB; with
`push-temp-local` it is the local service that stores them in PostgreSQL.
