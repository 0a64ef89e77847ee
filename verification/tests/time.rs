//! Moments as text.

use wand_render::time::{civil_from_days, iso8601_from_unix_seconds, iso8601_now};

#[test]
fn formats_known_epochs() {
    assert_eq!(iso8601_from_unix_seconds(0), "1970-01-01T00:00:00Z");
    assert_eq!(iso8601_from_unix_seconds(1_700_000_000), "2023-11-14T22:13:20Z");
    assert_eq!(iso8601_from_unix_seconds(951_782_400), "2000-02-29T00:00:00Z");
}

#[test]
fn now_is_well_formed() {
    let now = iso8601_now();
    assert_eq!(now.len(), 20, "unexpected ISO-8601 length: {now}");
    assert!(now.ends_with('Z'));
    assert!(now.starts_with("20"));
}

#[test]
fn leap_days_follow_the_calendar() {
    assert_eq!(iso8601_from_unix_seconds(4_107_542_399), "2100-02-28T23:59:59Z");
    assert_eq!(iso8601_from_unix_seconds(4_107_542_400), "2100-03-01T00:00:00Z");
    assert_eq!(iso8601_from_unix_seconds(1_709_164_800), "2024-02-29T00:00:00Z");
    assert_eq!(iso8601_from_unix_seconds(1_735_689_599), "2024-12-31T23:59:59Z");
}

#[test]
fn moments_before_1970_count_backwards() {
    assert_eq!(iso8601_from_unix_seconds(-1), "1969-12-31T23:59:59Z");
    assert_eq!(iso8601_from_unix_seconds(-62_167_219_200), "0000-01-01T00:00:00Z");
    assert_eq!(iso8601_from_unix_seconds(-62_167_219_201), "-001-12-31T23:59:59Z");
    assert_eq!(iso8601_from_unix_seconds(253_402_300_800), "10000-01-01T00:00:00Z");
    assert_eq!(iso8601_from_unix_seconds(i64::MAX), "292277026596-12-04T15:30:07Z");
    assert_eq!(iso8601_from_unix_seconds(i64::MIN), "-292277022657-01-27T08:29:52Z");
}

/// Day after day for more than two periods of the calendar, counted by hand.
#[test]
fn days_follow_each_other() {
    let lengths = [31u32, 28, 31, 30, 31, 30, 31, 31, 30, 31, 30, 31];
    let (mut year, mut month, mut day) = (1600i64, 1usize, 1u32);
    let mut seconds: i64 = -11_676_096_000;
    while year < 2450 {
        let expected = format!("{year:04}-{month:02}-{day:02}T00:00:00Z");
        assert_eq!(iso8601_from_unix_seconds(seconds), expected);
        let leap = year % 4 == 0 && (year % 100 != 0 || year % 400 == 0);
        let last = if month == 2 && leap { 29 } else { lengths[month - 1] };
        if day < last {
            day += 1;
        } else {
            day = 1;
            month += 1;
            if month > 12 {
                month = 1;
                year += 1;
            }
        }
        seconds += 86_400;
    }
}

#[test]
fn days_are_those_of_the_calendar() {
    assert_eq!(civil_from_days(0), (1970, 1, 1));
    assert_eq!(civil_from_days(-1), (1969, 12, 31));
    assert_eq!(civil_from_days(11_016), (2000, 2, 29));
    assert_eq!(civil_from_days(11_017), (2000, 3, 1));
    assert_eq!(civil_from_days(-719_528), (0, 1, 1));
}
