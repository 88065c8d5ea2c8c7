use historical_weather::calendar::{CalendarDate, Timestamp, MAX_YEAR, MIN_YEAR};
use historical_weather::data_access::{
    load_data, measurement_from_row, measurements_from_rows, parse_date_string,
    parse_temperature, DateParseError, LoadError, RowError, TemperatureMeasurement,
    TemperatureParseError,
};

#[test]
fn test_correct_string() {
    let fake_date = "2020010110".to_owned();
    let res = parse_date_string(&fake_date).unwrap();
    assert_eq!(res.date(), CalendarDate::new(2020, 1, 1));
    assert_eq!(res.hour(), 10);
}

#[test]
fn date_string_may_run_on() {
    let res = parse_date_string("1999123123 and more").unwrap();
    assert_eq!(res.date(), CalendarDate::new(1999, 12, 31));
    assert_eq!(res.hour(), 23);
    assert_eq!(res.year(), 1999);
}

#[test]
fn date_string_takes_signs_and_short_hours() {
    let res = parse_date_string("-0010203+4").unwrap();
    assert_eq!(res.date(), CalendarDate::new(-1, 2, 3));
    assert_eq!(res.hour(), 4);
    let res = parse_date_string("202002299").unwrap();
    assert_eq!(res.date(), CalendarDate::new(2020, 2, 29));
    assert_eq!(res.hour(), 9);
}

#[test]
fn date_string_errors() {
    assert_eq!(parse_date_string("").err(), Some(DateParseError::Year));
    assert_eq!(parse_date_string("20x0010110").err(), Some(DateParseError::Year));
    assert_eq!(parse_date_string("2020").err(), Some(DateParseError::Month));
    assert_eq!(parse_date_string("2020-10110").err(), Some(DateParseError::Month));
    assert_eq!(parse_date_string("202001").err(), Some(DateParseError::Day));
    assert_eq!(parse_date_string("202001 110").err(), Some(DateParseError::Day));
    assert_eq!(parse_date_string("20200101").err(), Some(DateParseError::Hour));
    assert_eq!(parse_date_string("20200101ab").err(), Some(DateParseError::Hour));
    assert_eq!(parse_date_string("2020023010").err(), Some(DateParseError::NoSuchDay));
    assert_eq!(parse_date_string("2021022910").err(), Some(DateParseError::NoSuchDay));
    assert_eq!(parse_date_string("2020000110").err(), Some(DateParseError::NoSuchDay));
    assert_eq!(parse_date_string("2020130110").err(), Some(DateParseError::NoSuchDay));
    assert_eq!(parse_date_string("2020010010").err(), Some(DateParseError::NoSuchDay));
    assert_eq!(parse_date_string("2020010124").err(), Some(DateParseError::NoSuchHour));
    assert_eq!(parse_date_string("２０２００１０１１０").err(), Some(DateParseError::Year));
}

#[test]
fn timestamps_hold_days_that_exist() {
    assert!(Timestamp::from_ymd_h(2020, 2, 29, 0).is_some());
    assert!(Timestamp::from_ymd_h(2021, 2, 29, 0).is_none());
    assert!(Timestamp::from_ymd_h(1900, 2, 29, 0).is_none());
    assert!(Timestamp::from_ymd_h(2000, 2, 29, 0).is_some());
    assert!(Timestamp::from_ymd_h(2020, 4, 31, 0).is_none());
    assert!(Timestamp::from_ymd_h(2020, 12, 31, 23).is_some());
    assert!(Timestamp::from_ymd_h(2020, 12, 31, 24).is_none());
    assert!(Timestamp::from_ymd_h(2020, 0, 1, 0).is_none());
    assert!(Timestamp::from_ymd_h(2020, 1, 0, 0).is_none());
    assert!(Timestamp::from_ymd_h(MAX_YEAR, 12, 31, 0).is_some());
    assert!(Timestamp::from_ymd_h(MAX_YEAR + 1, 1, 1, 0).is_none());
    assert!(Timestamp::from_ymd_h(MIN_YEAR, 1, 1, 0).is_some());
    assert!(Timestamp::from_ymd_h(MIN_YEAR - 1, 12, 31, 0).is_none());
    assert!(CalendarDate::new(2024, 2, 29).is_valid());
    assert!(!CalendarDate::new(2023, 2, 29).is_valid());
}

#[test]
fn measurement_keeps_what_it_was_made_of() {
    let at = Timestamp::from_ymd_h(2020, 1, 1, 10).unwrap();
    let m = TemperatureMeasurement::new(at, -2400);
    assert_eq!(m.temperature(), -2400);
    assert_eq!(m.timestamp().date(), CalendarDate::new(2020, 1, 1));
    assert_eq!(m.timestamp().hour(), 10);
}

#[test]
fn temperature_text() {
    assert_eq!(parse_temperature("15.0"), Ok(15000));
    assert_eq!(parse_temperature("  -2.4"), Ok(-2400));
    assert_eq!(parse_temperature("-999"), Ok(-999000));
    assert_eq!(parse_temperature(" \t+0.125\u{a0}\n"), Ok(125));
    assert_eq!(parse_temperature("7."), Ok(7000));
    assert_eq!(parse_temperature(".5"), Ok(500));
    assert_eq!(parse_temperature("-.05"), Ok(-50));
    assert_eq!(parse_temperature("0003.1000"), Ok(3100));
    assert_eq!(parse_temperature("-0"), Ok(0));
    assert_eq!(parse_temperature("2147483.647"), Ok(i32::MAX));
    assert_eq!(parse_temperature("-2147483.648"), Ok(i32::MIN));
}

#[test]
fn temperature_text_errors() {
    assert_eq!(parse_temperature(""), Err(TemperatureParseError::Malformed));
    assert_eq!(parse_temperature("   "), Err(TemperatureParseError::Malformed));
    assert_eq!(parse_temperature("."), Err(TemperatureParseError::Malformed));
    assert_eq!(parse_temperature("-"), Err(TemperatureParseError::Malformed));
    assert_eq!(parse_temperature("+."), Err(TemperatureParseError::Malformed));
    assert_eq!(parse_temperature("1.2.3"), Err(TemperatureParseError::Malformed));
    assert_eq!(parse_temperature("1 2"), Err(TemperatureParseError::Malformed));
    assert_eq!(parse_temperature("1e3"), Err(TemperatureParseError::Malformed));
    assert_eq!(parse_temperature("NaN"), Err(TemperatureParseError::Malformed));
    assert_eq!(parse_temperature("inf"), Err(TemperatureParseError::Malformed));
    assert_eq!(parse_temperature("--1"), Err(TemperatureParseError::Malformed));
    assert_eq!(parse_temperature("1.0001"), Err(TemperatureParseError::TooPrecise));
    assert_eq!(parse_temperature("99999999999.0001"), Err(TemperatureParseError::TooPrecise));
    assert_eq!(parse_temperature("2147483.648"), Err(TemperatureParseError::OutOfRange));
    assert_eq!(parse_temperature("-2147483.649"), Err(TemperatureParseError::OutOfRange));
    assert_eq!(parse_temperature("2147484"), Err(TemperatureParseError::OutOfRange));
    assert_eq!(
        parse_temperature("123456789012345678901234567890"),
        Err(TemperatureParseError::OutOfRange)
    );
}

fn row(fields: &[&str]) -> Option<Vec<String>> {
    Some(fields.iter().map(|f| f.to_string()).collect())
}

#[test]
fn row_gives_a_measurement() {
    let m = measurement_from_row(&row(&["44", "2020010110", "3", "  -2.4", "87.0", "eor"])).unwrap();
    assert_eq!(m.timestamp().date(), CalendarDate::new(2020, 1, 1));
    assert_eq!(m.timestamp().hour(), 10);
    assert_eq!(m.temperature(), -2400);
}

#[test]
fn row_errors() {
    assert_eq!(measurement_from_row(&None).err(), Some(RowError::Unreadable));
    assert_eq!(measurement_from_row(&row(&[])).err(), Some(RowError::NoDate));
    assert_eq!(measurement_from_row(&row(&["44"])).err(), Some(RowError::NoDate));
    assert_eq!(
        measurement_from_row(&row(&["44", "20200101"])).err(),
        Some(RowError::Date(DateParseError::Hour))
    );
    assert_eq!(
        measurement_from_row(&row(&["44", "2020010110"])).err(),
        Some(RowError::NoTemperature)
    );
    assert_eq!(
        measurement_from_row(&row(&["44", "2020010110", "3"])).err(),
        Some(RowError::NoTemperature)
    );
    assert_eq!(
        measurement_from_row(&row(&["44", "2020010110", "3", "warm"])).err(),
        Some(RowError::Temperature(TemperatureParseError::Malformed))
    );
    assert_eq!(
        measurement_from_row(&row(&["44", "2020013210", "3", "warm"])).err(),
        Some(RowError::Date(DateParseError::NoSuchDay))
    );
}

#[test]
fn rows_give_measurements_in_order() {
    let rows = vec![
        row(&["44", "2020010110", "3", "15.0"]),
        row(&["44", "2020010111", "3", "6.0"]),
        row(&["44", "2019101011", "3", "6.0"]),
    ];
    let loaded = measurements_from_rows(&rows).unwrap();
    assert_eq!(loaded.len(), 3);
    assert_eq!(loaded[0].temperature(), 15000);
    assert_eq!(loaded[1].timestamp().hour(), 11);
    assert_eq!(loaded[2].timestamp().date(), CalendarDate::new(2019, 10, 10));
    assert_eq!(measurements_from_rows(&Vec::new()).unwrap().len(), 0);
}

#[test]
fn rows_report_the_first_that_is_wrong() {
    let rows = vec![
        row(&["44", "2020010110", "3", "15.0"]),
        row(&["44", "2020010111", "3", "1.23456"]),
        None,
    ];
    assert_eq!(
        measurements_from_rows(&rows).err(),
        Some(LoadError { row: 1, error: RowError::Temperature(TemperatureParseError::TooPrecise) })
    );
}

#[test]
fn data_file_content_is_read_behind_its_header() {
    let content = "STATIONS_ID;MESS_DATUM;QN_9;TT_TU;RF_TU;eor\n\
                   \x20      1766;2020010110;    3;  15.0;   87.0;eor\n\
                   \x20      1766;2020010111;    3;   6.0;   80.0;eor\n\
                   \x20      1766;2019101011;    3;  -0.3;   80.0;eor\n";
    let loaded = load_data(content.as_bytes()).unwrap();
    assert_eq!(loaded.len(), 3);
    assert_eq!(loaded[0].temperature(), 15000);
    assert_eq!(loaded[0].timestamp().date(), CalendarDate::new(2020, 1, 1));
    assert_eq!(loaded[0].timestamp().hour(), 10);
    assert_eq!(loaded[1].temperature(), 6000);
    assert_eq!(loaded[2].temperature(), -300);
    assert_eq!(loaded[2].timestamp().date(), CalendarDate::new(2019, 10, 10));
}

#[test]
fn data_file_content_with_only_a_header_is_empty() {
    assert_eq!(load_data(b"STATIONS_ID;MESS_DATUM;QN_9;TT_TU;RF_TU;eor\n").unwrap().len(), 0);
    assert_eq!(load_data(b"").unwrap().len(), 0);
}

#[test]
fn data_file_content_errors() {
    let uneven = "a;b;c;d\n1;2020010110;3;1.0\n1;2020010111\n";
    assert_eq!(load_data(uneven.as_bytes()).err(), Some(LoadError { row: 1, error: RowError::Unreadable }));
    let no_text = b"a;b;c;d\n1;2020010110;3;\xff\n";
    assert_eq!(load_data(no_text).err(), Some(LoadError { row: 0, error: RowError::Unreadable }));
    let commas = "a,b,c,d\n1,2020010110,3,1.0\n";
    assert_eq!(load_data(commas.as_bytes()).err(), Some(LoadError { row: 0, error: RowError::NoDate }));
    let bad_date = "a;b;c;d\n1;2020010110;3;1.0\n1;20200101;3;1.0\n";
    assert_eq!(
        load_data(bad_date.as_bytes()).err(),
        Some(LoadError { row: 1, error: RowError::Date(DateParseError::Hour) })
    );
}
