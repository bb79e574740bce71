use kubizone::decimal::{parse_decimal, to_decimal};
use kubizone::serial::{date_serial, next_serial, rotate_serial, utc_day_at, utc_today, UtcDate};

fn day(year: i32, month: u8, day: u8) -> UtcDate {
    UtcDate { year, month, day }
}

#[test]
fn serial_of_a_day() {
    assert_eq!(date_serial(day(2024, 1, 1)), Some(2024010100));
    assert_eq!(date_serial(day(2023, 12, 31)), Some(2023123100));
    assert_eq!(date_serial(day(0, 1, 1)), Some(10100));
    assert_eq!(date_serial(day(4294, 12, 31)), Some(4294123100));
}

#[test]
fn days_without_a_serial() {
    assert_eq!(date_serial(day(4295, 1, 1)), None);
    assert_eq!(date_serial(day(-1, 1, 1)), None);
    assert_eq!(date_serial(day(2024, 0, 1)), None);
    assert_eq!(date_serial(day(2024, 13, 1)), None);
    assert_eq!(date_serial(day(2024, 1, 0)), None);
    assert_eq!(date_serial(day(2024, 1, 32)), None);
}

#[test]
fn next_serial_is_date_based_when_possible() {
    assert_eq!(next_serial(2024010100, 1), 2024010100);
    assert_eq!(next_serial(2024010100, 2023123105), 2024010100);
    assert_eq!(next_serial(2024010100, 2024010099), 2024010100);
}

#[test]
fn next_serial_counts_up_within_a_day() {
    assert_eq!(next_serial(2024010100, 2024010100), 2024010101);
    assert_eq!(next_serial(2024010100, 2024010101), 2024010102);
    assert_eq!(next_serial(2024010100, 2024020100), 2024020101);
    assert_eq!(next_serial(0, 0), 1);
    assert_eq!(next_serial(0, u32::MAX - 1), u32::MAX);
}

#[test]
fn serials_rise_strictly_over_a_run_of_renders() {
    let days = [
        day(2024, 1, 1),
        day(2024, 1, 1),
        day(2024, 1, 1),
        day(2024, 1, 2),
        day(2023, 6, 1),
        day(2024, 1, 2),
        day(2025, 12, 31),
    ];
    let mut serial: u32 = 1;
    for d in days {
        let next = rotate_serial(d, serial).unwrap();
        assert!(next > serial);
        assert!(next >= date_serial(d).unwrap());
        serial = next;
    }
    assert_eq!(serial, 2025123100);
}

#[test]
fn rotation_fails_without_a_next_serial() {
    assert_eq!(rotate_serial(day(2024, 1, 1), u32::MAX), None);
    assert_eq!(rotate_serial(day(5000, 1, 1), 1), None);
    assert_eq!(rotate_serial(day(2024, 1, 1), 7), Some(2024010100));
    assert_eq!(rotate_serial(day(2024, 1, 1), 2024010100), Some(2024010101));
}

#[test]
fn decimal_digits() {
    assert_eq!(to_decimal(0), "0");
    assert_eq!(to_decimal(7), "7");
    assert_eq!(to_decimal(10), "10");
    assert_eq!(to_decimal(360), "360");
    assert_eq!(to_decimal(2024010100), "2024010100");
    assert_eq!(to_decimal(u64::MAX), "18446744073709551615");
}

#[test]
fn decimal_parsing() {
    let parse = |s: &str, from: usize| parse_decimal(&s.chars().collect(), from);
    assert_eq!(parse("0", 0), Some(0));
    assert_eq!(parse("42", 0), Some(42));
    assert_eq!(parse("zf-2024010100", 3), Some(2024010100));
    assert_eq!(parse("4294967295", 0), Some(u32::MAX));
    assert_eq!(parse("4294967296", 0), None);
    assert_eq!(parse("99999999999999999999999999", 0), None);
    assert_eq!(parse("", 0), None);
    assert_eq!(parse("12", 2), None);
    assert_eq!(parse("007", 0), None);
    assert_eq!(parse("00", 0), None);
    assert_eq!(parse("12a", 0), None);
    assert_eq!(parse("-1", 0), None);
    assert_eq!(parse("+1", 0), None);
    assert_eq!(parse("١٢", 0), None);
}

#[test]
fn day_of_a_second() {
    assert_eq!(utc_day_at(0), Some(day(1970, 1, 1)));
    assert_eq!(utc_day_at(86399), Some(day(1970, 1, 1)));
    assert_eq!(utc_day_at(86400), Some(day(1970, 1, 2)));
    assert_eq!(utc_day_at(1_546_300_800), Some(day(2019, 1, 1)));
    assert_eq!(utc_day_at(1_709_251_199), Some(day(2024, 2, 29)));
    assert_eq!(utc_day_at(1_709_251_200), Some(day(2024, 3, 1)));
    // The last second of the year 9999, and the first of the year 10000.
    assert_eq!(utc_day_at(253_402_300_799), Some(day(9999, 12, 31)));
    assert_eq!(utc_day_at(253_402_300_800), None);
    assert_eq!(utc_day_at(i64::MAX as u64), None);
    assert_eq!(utc_day_at(i64::MAX as u64 + 1), None);
    assert_eq!(utc_day_at(u64::MAX), None);
}

#[test]
fn the_clock_shows_a_calendar_day() {
    let today = utc_today().unwrap();
    assert!((2024..2100).contains(&today.year));
    assert!((1..=12).contains(&today.month));
    assert!((1..=31).contains(&today.day));
    assert!(date_serial(today).is_some());
}
