use weather_frontend::datetime::{parse_time, DurationWrapper};
use weather_frontend::error::DataError;
use weather_frontend::measure::parse_measurement;
use weather_frontend::requests::{
    dates_from_keys, parse_dates_response, parse_latest_date_response, Endpoints,
};
use weather_frontend::series::{
    build_series, parse_readings_response, reading_from_record, Reading,
};
use weather_frontend::json::Field;
use weather_frontend::state::{ApplicationData, Event};
use weather_frontend::util::find_extremes;

fn at(seconds: u32) -> DurationWrapper {
    DurationWrapper { seconds, nanos: 0 }
}

fn points(values: &[i64]) -> Vec<(DurationWrapper, i64)> {
    values.iter().enumerate().map(|(i, v)| (at(i as u32), *v)).collect()
}

#[test]
fn parse_time_midnight_is_zero() {
    let r = parse_time(&"2024-01-01T00:00:00Z".to_string());
    assert_eq!(r, Ok(at(0)));
}

#[test]
fn parse_time_afternoon() {
    let r = parse_time(&"2024-01-01T13:05:30Z".to_string());
    assert_eq!(r, Ok(at(13 * 3600 + 5 * 60 + 30)));
}

#[test]
fn parse_time_converts_to_utc() {
    let r = parse_time(&"2024-01-01T13:05:30+02:00".to_string());
    assert_eq!(r, Ok(at(11 * 3600 + 5 * 60 + 30)));
    let r = parse_time(&"2024-01-01T23:30:00-01:00".to_string());
    assert_eq!(r, Ok(at(30 * 60)));
}

#[test]
fn parse_time_keeps_fraction() {
    let r = parse_time(&"2024-01-01T00:00:01.25Z".to_string());
    assert_eq!(r, Ok(DurationWrapper { seconds: 1, nanos: 250_000_000 }));
}

#[test]
fn parse_time_rejects_non_rfc3339() {
    assert_eq!(parse_time(&"not-a-date".to_string()), Err(DataError::MalformedTimestamp));
    assert_eq!(parse_time(&"2024-01-01 12:00".to_string()), Err(DataError::MalformedTimestamp));
}

#[test]
fn same_compares_offsets() {
    assert!(at(5).same(&at(5)));
    assert!(!at(5).same(&DurationWrapper { seconds: 5, nanos: 1 }));
}

#[test]
fn parse_measurement_values() {
    assert_eq!(parse_measurement("20.0"), Some(20_000_000));
    assert_eq!(parse_measurement("20"), Some(20_000_000));
    assert_eq!(parse_measurement("-1.7"), Some(-1_700_000));
    assert_eq!(parse_measurement("0.000001"), Some(1));
    assert_eq!(parse_measurement("3.14159265"), Some(3_141_592));
    assert_eq!(parse_measurement("-0.0000009"), Some(0));
    assert_eq!(parse_measurement("1000000000000"), Some(1_000_000_000_000_000_000));
}

#[test]
fn parse_measurement_negative_exponent() {
    assert_eq!(parse_measurement("1.5e-6"), Some(1));
    assert_eq!(parse_measurement("-9.5e-6"), Some(-9));
    assert_eq!(parse_measurement("5E-1"), Some(500_000));
    assert_eq!(parse_measurement("1e-7"), Some(0));
    assert_eq!(parse_measurement("123456789e-99999999999999999999"), Some(0));
}

#[test]
fn parse_measurement_refuses() {
    assert_eq!(parse_measurement("2.5e1"), None);
    assert_eq!(parse_measurement("1e-"), None);
    assert_eq!(parse_measurement("1e"), None);
    assert_eq!(parse_measurement("1e-2x"), None);
    assert_eq!(parse_measurement(""), None);
    assert_eq!(parse_measurement("-"), None);
    assert_eq!(parse_measurement("12."), None);
    assert_eq!(parse_measurement(".5"), None);
    assert_eq!(parse_measurement("1e5"), None);
    assert_eq!(parse_measurement("1.2.3"), None);
    assert_eq!(parse_measurement("1000000000001"), None);
}

#[test]
fn find_extremes_empty_gives_seeds() {
    assert_eq!(find_extremes(&Vec::new()), (1000, -1000));
}

#[test]
fn find_extremes_floor_and_ceil() {
    let data = points(&[3_200_000, -1_700_000, 9_900_000]);
    assert_eq!(find_extremes(&data), (-2, 10));
}

#[test]
fn find_extremes_whole_values() {
    let data = points(&[20_000_000, 25_000_000]);
    assert_eq!(find_extremes(&data), (20, 25));
    let data = points(&[-5_000_000]);
    assert_eq!(find_extremes(&data), (-5, -5));
}

#[test]
fn find_extremes_all_above_thousand() {
    let data = points(&[2_000_500_000]);
    assert_eq!(find_extremes(&data), (2000, 2001));
    let data = points(&[1_500_250_000, 1_200_000_000, 1_800_000_000]);
    assert_eq!(find_extremes(&data), (1200, 1800));
}

#[test]
fn find_extremes_all_below_minus_thousand() {
    let data = points(&[-2_000_500_000, -1_500_000_001]);
    assert_eq!(find_extremes(&data), (-2001, -1500));
}

#[test]
fn find_extremes_beyond_seeds() {
    let data = points(&[2_000_000_000, -3_000_500_000]);
    assert_eq!(find_extremes(&data), (-3001, 2000));
}

fn reading(ts: &str, t: i64, h: i64) -> Reading {
    Reading { timestamp: ts.to_string(), temperature: t, humidity: h }
}

#[test]
fn build_series_one_point_per_reading() {
    let readings = vec![
        reading("2024-01-01T00:00:00Z", 1, 2),
        reading("2024-01-01T00:10:00Z", 3, 4),
        reading("2024-01-01T00:05:00Z", 5, 6),
    ];
    let snap = build_series(&readings).unwrap();
    assert_eq!(snap.temperature.len(), readings.len());
    assert_eq!(snap.humidity.len(), readings.len());
    assert_eq!(snap.temperature, vec![(at(0), 1), (at(600), 3), (at(300), 5)]);
    assert_eq!(snap.humidity, vec![(at(0), 2), (at(600), 4), (at(300), 6)]);
}

#[test]
fn build_series_empty() {
    let snap = build_series(&Vec::new()).unwrap();
    assert!(snap.temperature.is_empty());
    assert!(snap.humidity.is_empty());
}

#[test]
fn build_series_bad_timestamp() {
    let readings = vec![reading("2024-01-01T00:00:00Z", 1, 2), reading("later", 3, 4)];
    assert_eq!(build_series(&readings).err(), Some(DataError::MalformedTimestamp));
}

const DAY: &str = r#"[{"timestamp":"2024-01-01T00:00:00Z","temperature":20.0,"humidity":50.0},{"timestamp":"2024-01-01T12:00:00Z","temperature":25.0,"humidity":40.0}]"#;

#[test]
fn end_to_end_refresh() {
    let endpoints = Endpoints::new("http://host:3500".to_string());
    let latest = parse_latest_date_response("\"20240101\"").unwrap();
    assert_eq!(latest, "20240101");
    assert_eq!(endpoints.readings_url(&latest), "http://host:3500/get/20240101");

    let mut state = ApplicationData::new(latest);
    let date = state.handle_event(Event::Refresh).unwrap();
    assert!(state.processing);
    assert_eq!(date, "20240101");

    let snap = parse_readings_response(DAY).unwrap();
    assert_eq!(state.handle_event(Event::Delivered(snap)), None);
    assert!(!state.processing);
    assert_eq!(state.temperature, vec![(at(0), 20_000_000), (at(12 * 3600), 25_000_000)]);
    assert_eq!(state.humidity, vec![(at(0), 50_000_000), (at(12 * 3600), 40_000_000)]);
    assert_eq!(find_extremes(&state.temperature), (20, 25));
}

#[test]
fn last_delivery_wins() {
    let mut state = ApplicationData::new("A".to_string());
    assert_eq!(state.handle_event(Event::Refresh), Some("A".to_string()));
    assert_eq!(state.handle_event(Event::SelectDate("B".to_string())), Some("B".to_string()));
    assert_eq!(state.current_date, "B");
    assert!(state.processing);
    let from_b = parse_readings_response(
        r#"[{"timestamp":"2024-01-02T01:00:00Z","temperature":1.5,"humidity":10}]"#,
    )
    .unwrap();
    let from_a = parse_readings_response(DAY).unwrap();
    state.handle_event(Event::Delivered(from_b));
    state.handle_event(Event::Delivered(from_a));
    assert_eq!(state.temperature, vec![(at(0), 20_000_000), (at(12 * 3600), 25_000_000)]);
    assert_eq!(state.current_date, "B");
    assert!(!state.processing);
}

#[test]
fn readings_response_errors() {
    assert_eq!(parse_readings_response("not json").err(), Some(DataError::DecodeError));
    assert_eq!(parse_readings_response("{\"a\":1}").err(), Some(DataError::DecodeError));
    assert_eq!(
        parse_readings_response(r#"[{"timestamp":"2024-01-01T00:00:00Z","temperature":1.0}]"#).err(),
        Some(DataError::MissingField)
    );
    assert_eq!(
        parse_readings_response(r#"[{"timestamp":"2024-01-01T00:00:00Z","temperature":"warm","humidity":1}]"#).err(),
        Some(DataError::DecodeError)
    );
    assert_eq!(
        parse_readings_response(r#"[{"timestamp":"yesterday","temperature":1,"humidity":1}]"#).err(),
        Some(DataError::MalformedTimestamp)
    );
    assert_eq!(parse_readings_response("[]").map(|s| s.temperature.len()), Ok(0));
    let tiny = parse_readings_response(
        r#"[{"timestamp":"2024-01-01T00:00:00Z","temperature":0.0000025,"humidity":-0.00000001}]"#,
    )
    .unwrap();
    assert_eq!(tiny.temperature, vec![(at(0), 2)]);
    assert_eq!(tiny.humidity, vec![(at(0), 0)]);
}

#[test]
fn record_with_negative_value() {
    let rec = vec![
        ("humidity".to_string(), Field::Number("55.5".to_string())),
        ("temperature".to_string(), Field::Number("-3.25".to_string())),
        ("timestamp".to_string(), Field::Text("2024-01-01T06:00:00Z".to_string())),
    ];
    let r = reading_from_record(&rec).unwrap();
    assert_eq!((r.temperature, r.humidity), (-3_250_000, 55_500_000));
    assert_eq!(r.timestamp, "2024-01-01T06:00:00Z");
}

#[test]
fn dates_response_labels() {
    let v = parse_dates_response(r#"["20240101","20231231"]"#).unwrap();
    assert_eq!(
        v,
        vec![
            ("01/01/2024".to_string(), "20240101".to_string()),
            ("12/31/2023".to_string(), "20231231".to_string())
        ]
    );
    assert_eq!(parse_dates_response("[]"), Ok(vec![]));
}

#[test]
fn dates_response_errors() {
    assert_eq!(parse_dates_response("[1, 2]"), Err(DataError::DecodeError));
    assert_eq!(parse_dates_response(r#"["20241301"]"#), Err(DataError::DecodeError));
    assert_eq!(dates_from_keys(vec!["nope".to_string()]), Err(DataError::DecodeError));
}

#[test]
fn latest_date_response() {
    assert_eq!(parse_latest_date_response("\"20240315\""), Ok("20240315".to_string()));
    assert_eq!(parse_latest_date_response("20240315"), Err(DataError::DecodeError));
}

#[test]
fn endpoint_urls() {
    let e = Endpoints::new("http://10.0.0.2:3500".to_string());
    assert_eq!(e.latest_date_url(), "http://10.0.0.2:3500/dates/latest");
    assert_eq!(e.dates_url(), "http://10.0.0.2:3500/dates");
    assert_eq!(e.readings_url(&"20240101".to_string()), "http://10.0.0.2:3500/get/20240101");
}
