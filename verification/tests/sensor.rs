use thermostat_pi::sensor::{device_file, parse_w1_slave, read_temp, SensorReading};
use thermostat_pi::shared_data::SharedData;

const GOOD: &str = "4b 01 4b 46 7f ff 05 10 e1 : crc=e1 YES\n4b 01 4b 46 7f ff 05 10 e1 t=20687\n";

#[test]
fn reading_is_converted_to_fahrenheit() {
    // 20.687 C = 69.2366 F
    assert_eq!(parse_w1_slave(GOOD.as_bytes()), SensorReading::Temperature(692366));
}

#[test]
fn freezing_and_boiling_points() {
    let zero = "aa : crc=aa YES\naa t=0\n";
    assert_eq!(parse_w1_slave(zero.as_bytes()), SensorReading::Temperature(320000));
    let boiling = "aa : crc=aa YES\naa t=100000\n";
    assert_eq!(parse_w1_slave(boiling.as_bytes()), SensorReading::Temperature(2120000));
    let minus_forty = "aa : crc=aa YES\naa t=-40000";
    assert_eq!(parse_w1_slave(minus_forty.as_bytes()), SensorReading::Temperature(-400000));
}

#[test]
fn crc_not_confirmed_means_not_ready() {
    let bad_crc = "4b 01 4b 46 7f ff 05 10 e1 : crc=e1 NO\n4b 01 t=20687\n";
    assert_eq!(parse_w1_slave(bad_crc.as_bytes()), SensorReading::NotReady);
}

#[test]
fn crlf_line_endings() {
    let text = "x : crc=e1 YES\r\nx t=1000\r\n";
    assert_eq!(parse_w1_slave(text.as_bytes()), SensorReading::Temperature(338000));
}

#[test]
fn malformed_files() {
    for text in [
        "",
        "YE\n",
        "crc YES",
        "crc YES\n",
        "crc YES\n\n",
        "crc YES\nno marker here\n",
        "crc YES\nt=\n",
        "crc YES\nt=1.2.3\n",
        "crc YES\nt=.\n",
        "crc YES\nt=-\n",
        "crc YES\nt=1e3\n",
        "crc YES\nt=1234567890.123456789\n",
        "crc YES\nt=abc\n",
        "crc YES\nt=99999999999999999999\n",
        "\u{20ac}a\n",
    ] {
        assert_eq!(parse_w1_slave(text.as_bytes()), SensorReading::Malformed, "{text:?}");
    }
}

#[test]
fn not_ready_when_line_is_short_ascii() {
    assert_eq!(parse_w1_slave(b"abc\n"), SensorReading::NotReady);
    // a three-byte character at the end can be cut off: not ready
    assert_eq!(parse_w1_slave("ab\u{20ac}\n".as_bytes()), SensorReading::NotReady);
}

#[test]
fn first_marker_wins() {
    let text = "x YES\nq t=2000 t=5000\n";
    assert_eq!(parse_w1_slave(text.as_bytes()), SensorReading::Malformed);
    let text = "x YES\nqt=-2000\n";
    assert_eq!(parse_w1_slave(text.as_bytes()), SensorReading::Temperature(284000));
}

#[test]
fn read_temp_stores_only_readings() {
    let mut sd = SharedData::at_startup(55);
    assert_eq!(read_temp("crc NO\n", &mut sd), SensorReading::NotReady);
    assert_eq!(sd.current_temp(), 600000);
    assert_eq!(read_temp(GOOD, &mut sd), SensorReading::Temperature(692366));
    assert_eq!(sd.current_temp(), 692366);
    assert_eq!(read_temp("", &mut sd), SensorReading::Malformed);
    assert_eq!(sd.current_temp(), 692366);
}

#[test]
fn device_file_takes_last_readable_directory() {
    let entries = vec![
        Some("/sys/bus/w1/devices/28-0001".to_string()),
        Some("/sys/bus/w1/devices/28-0002".to_string()),
    ];
    assert_eq!(device_file(&entries), Ok("/sys/bus/w1/devices/28-0002/w1_slave".to_string()));
    assert_eq!(device_file(&vec![]), Ok(String::new()));
    let entries = vec![Some("a".to_string()), None, Some("b".to_string())];
    assert_eq!(device_file(&entries), Err(1));
}

#[test]
fn fractional_readings_are_rounded() {
    let read = |t: &str| parse_w1_slave(format!("x YES\nx t={t}\n").as_bytes());
    assert_eq!(read("20687.5"), SensorReading::Temperature(692375));
    assert_eq!(read("12.5"), SensorReading::Temperature(320225));
    assert_eq!(read(".5"), SensorReading::Temperature(320009));
    assert_eq!(read("5."), SensorReading::Temperature(320090));
    assert_eq!(read("0.00001"), SensorReading::Temperature(320000));
    // halves round away from zero
    assert_eq!(read("0.25"), SensorReading::Temperature(320005));
    assert_eq!(read("-17778.25"), SensorReading::Temperature(-9));
    assert_eq!(read("+20687"), SensorReading::Temperature(692366));
    assert_eq!(read("123456789.123456789"), SensorReading::Temperature(2222542204));
}
