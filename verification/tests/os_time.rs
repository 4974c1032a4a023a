//! Tests of `os.time` on a date table and of `os.date` on a timestamp.
use shingetsu::error::LibError;
use shingetsu::os_time::{date, time_from_table, DateOutput, OsTimeInput};

fn at(year: i64, month: i64, day: i64, hour: i64, min: i64, sec: i64) -> OsTimeInput {
    OsTimeInput { year, month, day, hour, min, sec }
}

fn bad(r: Result<i64, LibError>) -> (usize, String, String) {
    match r {
        Err(LibError::BadArgument { position, expected, got, .. }) => (position, expected, got),
        other => panic!("expected a bad argument, got {:?}", other),
    }
}

#[test]
fn epoch_and_known_instants() {
    assert_eq!(time_from_table(&at(1970, 1, 1, 0, 0, 0)).unwrap(), 0);
    assert_eq!(time_from_table(&at(2000, 1, 1, 12, 0, 0)).unwrap(), 946_728_000);
    assert_eq!(time_from_table(&at(2024, 2, 29, 23, 59, 59)).unwrap(), 1_709_251_199);
    assert_eq!(time_from_table(&at(1969, 12, 31, 23, 59, 59)).unwrap(), -1);
}

#[test]
fn table_fields_are_checked_in_order() {
    assert_eq!(
        bad(time_from_table(&at(2024, 13, 1, 0, 0, 0))),
        (1, "month in 1..12".to_string(), "13".to_string())
    );
    assert_eq!(
        bad(time_from_table(&at(2023, 2, 29, 0, 0, 0))),
        (1, "valid date".to_string(), "day was not in range".to_string())
    );
    assert_eq!(
        bad(time_from_table(&at(12000, 1, 1, 0, 0, 0))),
        (1, "valid date".to_string(), "year was not in range".to_string())
    );
    assert_eq!(
        bad(time_from_table(&at(2024, 1, 1, 24, 0, 0))),
        (1, "valid time".to_string(), "hour was not in range".to_string())
    );
    assert_eq!(
        bad(time_from_table(&at(2024, 1, 1, 0, 0, 60))),
        (1, "valid time".to_string(), "second was not in range".to_string())
    );
}

#[test]
fn byte_sized_fields_wrap() {
    // The hour is taken as a byte: 256 reads as 0.
    assert_eq!(time_from_table(&at(1970, 1, 1, 256, 0, 0)).unwrap(), 0);
}

#[test]
fn dates_in_utc() {
    match date(Some("!%Y-%m-%d %H:%M:%S"), 946_728_000, None).unwrap() {
        DateOutput::Text(t) => assert_eq!(t, "2000-01-01 12:00:00"),
        other => panic!("unexpected {:?}", other),
    }
    match date(Some("!*t"), 0, Some(3600)).unwrap() {
        DateOutput::Table(t) => {
            assert_eq!((t.year, t.month, t.day, t.hour), (1970, 1, 1, 0));
            assert_eq!(t.wday, 5);
            assert_eq!(t.yday, 1);
            assert!(!t.isdst);
        },
        other => panic!("unexpected {:?}", other),
    }
}

#[test]
fn dates_in_the_local_zone() {
    match date(Some("%H:%M"), 0, Some(-5 * 3600)).unwrap() {
        DateOutput::Text(t) => assert_eq!(t, "19:00"),
        other => panic!("unexpected {:?}", other),
    }
    match date(Some("*t"), 0, Some(-5 * 3600)).unwrap() {
        DateOutput::Table(t) => assert_eq!((t.year, t.month, t.day, t.wday, t.yday), (1969, 12, 31, 4, 365)),
        other => panic!("unexpected {:?}", other),
    }
    match date(None, 0, None).unwrap() {
        DateOutput::Text(t) => assert_eq!(t, "Thu Jan  1 00:00:00 1970"),
        other => panic!("unexpected {:?}", other),
    }
}

#[test]
fn timestamps_out_of_range() {
    match date(Some("!%Y"), i64::MAX, None) {
        Err(LibError::BadArgument { position, expected, got, .. }) => {
            assert_eq!(position, 2);
            assert_eq!(expected, "valid timestamp");
            assert_eq!(got, "timestamp was not in range");
        },
        other => panic!("unexpected {:?}", other),
    }
}
