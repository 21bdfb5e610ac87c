use chrono::{NaiveDate, NaiveTime};
use rapla_ical_proxy::calendar::{format_date, format_hour_minute, Date, Time};
use rapla_ical_proxy::text::{decimal_len, push_decimal, push_padded, push_signed_decimal};

fn chrono_date_text(y: i32, m: u32, d: u32) -> String {
    NaiveDate::from_ymd_opt(y, m, d).unwrap().format("%Y-%m-%d").to_string()
}

#[test]
fn date_text_is_zero_padded() {
    assert_eq!(format_date(&Date { year: 2024, month: 3, day: 5 }), "2024-03-05");
    assert_eq!(format_date(&Date { year: 999, month: 12, day: 31 }), "0999-12-31");
    assert_eq!(format_date(&Date { year: 0, month: 1, day: 1 }), "0000-01-01");
}

#[test]
fn date_text_signs_years_outside_four_digits() {
    assert_eq!(format_date(&Date { year: 10000, month: 1, day: 1 }), "+10000-01-01");
    assert_eq!(format_date(&Date { year: -1, month: 6, day: 15 }), "-0001-06-15");
    assert_eq!(format_date(&Date { year: -262143, month: 1, day: 1 }), "-262143-01-01");
}

#[test]
fn date_text_agrees_with_chrono() {
    let samples = [
        (2024, 2, 29),
        (1, 1, 1),
        (0, 7, 4),
        (-1, 12, 31),
        (-44, 3, 15),
        (9999, 12, 31),
        (10000, 1, 1),
        (262142, 12, 31),
        (-262143, 1, 1),
    ];
    for (y, m, d) in samples {
        assert_eq!(
            format_date(&Date { year: y, month: m, day: d }),
            chrono_date_text(y, m, d),
            "date {y}-{m}-{d}"
        );
    }
}

#[test]
fn hour_minute_text_agrees_with_chrono() {
    for (h, m) in [(0, 0), (8, 5), (12, 30), (23, 59)] {
        let expected = NaiveTime::from_hms_opt(h, m, 17).unwrap().format("%H:%M").to_string();
        assert_eq!(format_hour_minute(&Time { hour: h, minute: m, second: 17 }), expected);
    }
    assert_eq!(format_hour_minute(&Time { hour: 9, minute: 7, second: 0 }), "09:07");
}

#[test]
fn decimal_pieces() {
    assert_eq!(decimal_len(0), 1);
    assert_eq!(decimal_len(9), 1);
    assert_eq!(decimal_len(10), 2);
    assert_eq!(decimal_len(u64::MAX), 20);
    let mut s = String::from("x");
    push_decimal(&mut s, 1234567890123);
    assert_eq!(s, "x1234567890123");
    let mut s = String::new();
    push_padded(&mut s, 7, 3);
    push_padded(&mut s, 12345, 2);
    assert_eq!(s, "00712345");
    let mut s = String::new();
    push_signed_decimal(&mut s, -42);
    push_signed_decimal(&mut s, i64::MIN);
    assert_eq!(s, format!("-42{}", i64::MIN));
}
