use thermostat_pi::shared_data::{DateTimeValue, SharedData};
use thermostat_pi::temp_record::{
    bool_string, record_day, stored_date, temp_record, temp_record_at, DateParseError, StoredDate,
};

const EPOCH: DateTimeValue = DateTimeValue { unix_nanos: 0, offset_seconds: 0 };

#[test]
fn record_at_the_epoch() {
    let sd = SharedData::new(true, 692366, 55, true, EPOCH);
    let r = temp_record_at(&sd, 0).unwrap();
    assert_eq!(r.record_date, "1969-12-31T18:00:00-06:00");
    assert!(r.thermostat_on);
    assert_eq!(r.temperature, 692366);
    assert_eq!(r.thermostat_value, 55);
}

#[test]
fn record_with_fraction_of_a_second() {
    let sd = SharedData::new(true, 0, 70, false, EPOCH);
    let r = temp_record_at(&sd, 1_664_843_918_500_000_000).unwrap();
    assert_eq!(r.record_date, "2022-10-03T18:38:38.5-06:00");
    assert!(!r.thermostat_on);
    assert_eq!(r.thermostat_value, 70);
}

#[test]
fn record_out_of_range_instant() {
    let sd = SharedData::at_startup(55);
    assert!(temp_record_at(&sd, i128::MAX).is_none());
}

#[test]
fn record_now() {
    let sd = SharedData::at_startup(55);
    let (now, r) = temp_record(&sd);
    assert!(now > 0);
    let r = r.unwrap();
    assert!(r.record_date.ends_with("-06:00"));
    assert_eq!(r.temperature, 600000);
}

#[test]
fn bool_strings() {
    assert_eq!(bool_string(true), true.to_string());
    assert_eq!(bool_string(false), false.to_string());
}

#[test]
fn record_days() {
    assert_eq!(record_day("2022-10-03T18:38:38-06:00"), Some("2022-10-03".to_string()));
    assert_eq!(record_day("2022-10-03"), Some("2022-10-03".to_string()));
    assert_eq!(record_day("2022-10-0"), None);
    assert_eq!(record_day(""), None);
    // the tenth byte falls inside a two-byte character
    assert_eq!(record_day("2022-10-0\u{e9}xx"), None);
    assert_eq!(record_day("2022-10-\u{e9}xx"), Some("2022-10-\u{e9}".to_string()));
}

#[test]
fn stored_date_keeps_the_records_offset() {
    // 18:38 at UTC-6 is past midnight in UTC: the day is the record's own
    let d = stored_date("2022-10-03T22:38:38.25-06:00").unwrap();
    assert_eq!(
        d,
        StoredDate {
            unix_seconds: 1_664_858_318,
            subsec_nanos: 250_000_000,
            offset_seconds: -21600,
            year: 2022,
            month: 10,
            day: 3,
        }
    );
}

#[test]
fn stored_date_in_utc() {
    let d = stored_date("1970-01-01T00:00:00Z").unwrap();
    assert_eq!((d.unix_seconds, d.subsec_nanos, d.offset_seconds), (0, 0, 0));
    assert_eq!((d.year, d.month, d.day), (1970, 1, 1));
}

#[test]
fn stored_date_rejects_other_text() {
    for text in ["", "2022-10-03", "2022-10-03 18:38:38", "2022-13-03T18:38:38-06:00", "yesterday"] {
        assert_eq!(stored_date(text), Err(DateParseError::NotRfc3339), "{text}");
    }
}

#[test]
fn stored_date_of_a_sent_record() {
    let sd = SharedData::at_startup(55);
    let r = temp_record_at(&sd, 1_664_843_918_500_000_000).unwrap();
    let d = stored_date(&r.record_date).unwrap();
    assert_eq!(d.unix_seconds, 1_664_843_918);
    assert_eq!(d.subsec_nanos, 500_000_000);
    assert_eq!(d.offset_seconds, -21600);
    assert_eq!((d.year, d.month, d.day), (2022, 10, 3));
    assert_eq!(record_day(&r.record_date), Some("2022-10-03".to_string()));
}
