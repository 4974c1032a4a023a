//! Tests of `os.date` formatting.
use shingetsu::os_date::{date_table, strftime, DateFields};

fn day() -> DateFields {
    // Tuesday, 5 March 2024, 14:07:09 UTC (day 65 of the year).
    DateFields {
        year: 2024,
        month: 3,
        day: 5,
        hour: 14,
        minute: 7,
        second: 9,
        weekday: 2,
        ordinal: 65,
        offset_seconds: 0,
    }
}

#[test]
fn composite_formats() {
    assert_eq!(strftime(&day(), "%c"), "Tue Mar  5 14:07:09 2024");
    assert_eq!(strftime(&day(), "%x"), "03/05/24");
    assert_eq!(strftime(&day(), "%X"), "14:07:09");
}

#[test]
fn names_and_numbers() {
    let d = day();
    assert_eq!(strftime(&d, "%a %A %b %h %B"), "Tue Tuesday Mar Mar March");
    assert_eq!(strftime(&d, "%d|%e|%H|%I|%j|%m|%M|%p|%S|%w|%y|%Y"), "05| 5|14|02|065|03|07|PM|09|2|24|2024");
    assert_eq!(strftime(&d, "%U %W"), "10 10");
}

#[test]
fn percent_and_unknown_specifiers() {
    let d = day();
    assert_eq!(strftime(&d, "100%%"), "100%");
    assert_eq!(strftime(&d, "%q"), "%q");
    assert_eq!(strftime(&d, "end%"), "end%");
    assert_eq!(strftime(&d, "plain ünïcode"), "plain ünïcode");
}

#[test]
fn offsets_and_midnight() {
    let mut d = day();
    d.offset_seconds = -(5 * 3600 + 30 * 60);
    d.hour = 0;
    assert_eq!(strftime(&d, "%z %Z %I %p"), "-0530 UTC-05:30 12 AM");
    d.offset_seconds = 3600;
    assert_eq!(strftime(&d, "%z %Z"), "+0100 UTC+01:00");
    d.offset_seconds = 0;
    assert_eq!(strftime(&d, "%Z"), "UTC");
}

#[test]
fn small_and_negative_years() {
    let mut d = day();
    d.year = 7;
    assert_eq!(strftime(&d, "%Y %y"), "0007 07");
    d.year = -45;
    assert_eq!(strftime(&d, "%Y %y"), "-045 -45");
}

#[test]
fn date_tables() {
    let t = date_table(&day());
    assert_eq!((t.year, t.month, t.day, t.hour, t.min, t.sec), (2024, 3, 5, 14, 7, 9));
    assert_eq!((t.wday, t.yday, t.isdst), (3, 65, false));
}
