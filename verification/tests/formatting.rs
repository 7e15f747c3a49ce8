use avadhi::calendar::{day_number, Date};
use avadhi::sessions::DaySpan;
use avadhi::text::{decimal_string, format_date, format_time_of_day, parse_date, span_label, str_contains};
use avadhi::api::{work_span_data, work_span_data_checked};

#[test]
fn decimal_renders_exactly() {
    assert_eq!(decimal_string(0), "0");
    assert_eq!(decimal_string(7), "7");
    assert_eq!(decimal_string(510), "510");
    assert_eq!(decimal_string(1000000), "1000000");
}

#[test]
fn date_renders_zero_padded() {
    assert_eq!(format_date(&Date { year: 2025, month: 6, day: 10 }), "2025-06-10");
    assert_eq!(format_date(&Date { year: 987, month: 12, day: 1 }), "0987-12-01");
}

#[test]
fn time_renders_zero_padded() {
    assert_eq!(format_time_of_day(9 * 3600), "09:00:00");
    assert_eq!(format_time_of_day(17 * 3600 + 30 * 60), "17:30:00");
    assert_eq!(format_time_of_day(45 * 60), "00:45:00");
    assert_eq!(format_time_of_day(86399), "23:59:59");
}

#[test]
fn label_truncates_toward_zero() {
    assert_eq!(span_label(8 * 3600 + 30 * 60), "8h 30m");
    assert_eq!(span_label(0), "0h 0m");
    assert_eq!(span_label(59), "0h 0m");
    assert_eq!(span_label(3600 + 59 * 60 + 59), "1h 59m");
    assert_eq!(span_label(26 * 3600), "26h 0m");
}

#[test]
fn label_agrees_with_minute_count() {
    // h * 60 + m recombines to the truncated minute count.
    for &secs in &[0u64, 59, 60, 3599, 3600, 30600, 86399, 123456] {
        let label = span_label(secs);
        let h: u64 = label.split('h').next().unwrap().parse().unwrap();
        let m: u64 = label.split(' ').nth(1).unwrap().trim_end_matches('m').parse().unwrap();
        assert!(m < 60);
        assert_eq!(h * 60 + m, secs / 60);
    }
}

#[test]
fn parse_date_accepts_canonical_form() {
    assert_eq!(parse_date("2025-06-10"), Some(Date { year: 2025, month: 6, day: 10 }));
    assert_eq!(parse_date("0001-01-01"), Some(Date { year: 1, month: 1, day: 1 }));
    assert_eq!(parse_date("9999-12-31"), Some(Date { year: 9999, month: 12, day: 31 }));
    assert_eq!(parse_date("2024-02-29"), Some(Date { year: 2024, month: 2, day: 29 }));
}

#[test]
fn parse_date_rejects_everything_else() {
    assert_eq!(parse_date(""), None);
    assert_eq!(parse_date("2025-6-10"), None);
    assert_eq!(parse_date("2025/06/10"), None);
    assert_eq!(parse_date("2025-13-01"), None);
    assert_eq!(parse_date("2025-00-10"), None);
    assert_eq!(parse_date("2025-02-30"), None);
    assert_eq!(parse_date("2023-02-29"), None);
    assert_eq!(parse_date("0000-01-01"), None);
    assert_eq!(parse_date("2025-06-10x"), None);
    assert_eq!(parse_date("not a date"), None);
}

#[test]
fn parse_inverts_format() {
    let dates = [
        Date { year: 2025, month: 6, day: 10 },
        Date { year: 2024, month: 2, day: 29 },
        Date { year: 1, month: 1, day: 1 },
        Date { year: 9999, month: 12, day: 31 },
    ];
    for d in dates {
        assert_eq!(parse_date(&format_date(&d)), Some(d));
    }
}

#[test]
fn work_span_example_renders_all_fields() {
    // One session 2025-06-10 09:00 to 17:30.
    let day = day_number(&Date { year: 2025, month: 6, day: 10 });
    let sp = DaySpan {
        date: Date { year: 2025, month: 6, day: 10 },
        first_secs: day * 86400 + 9 * 3600,
        last_secs: day * 86400 + 17 * 3600 + 30 * 60,
    };
    let w = work_span_data(&sp);
    assert_eq!(w.date, "2025-06-10");
    assert_eq!(w.first_boot, "09:00:00");
    assert_eq!(w.last_shutdown, "17:30:00");
    assert_eq!(w.total_span_minutes, 510);
    assert_eq!(w.total_span, "8h 30m");
}

#[test]
fn overnight_span_shows_end_time_of_day() {
    let day = day_number(&Date { year: 2025, month: 6, day: 10 });
    let sp = DaySpan {
        date: Date { year: 2025, month: 6, day: 10 },
        first_secs: day * 86400 + 23 * 3600 + 30 * 60,
        last_secs: (day + 1) * 86400 + 45 * 60,
    };
    let w = work_span_data(&sp);
    assert_eq!(w.first_boot, "23:30:00");
    assert_eq!(w.last_shutdown, "00:45:00");
    assert_eq!(w.total_span_minutes, 75);
    assert_eq!(w.total_span, "1h 15m");
}

#[test]
fn oversized_span_is_refused() {
    let day = day_number(&Date { year: 1, month: 1, day: 1 });
    let sp = DaySpan {
        date: Date { year: 1, month: 1, day: 1 },
        first_secs: day * 86400,
        // Nearly ten thousand years of minutes overflows the wire field.
        last_secs: day * 86400 + (i32::MAX as u64 + 1) * 60,
    };
    assert!(work_span_data_checked(&sp).is_none());
    let small = DaySpan { first_secs: sp.first_secs, last_secs: sp.first_secs + 60, ..sp };
    assert!(work_span_data_checked(&small).is_some());
}

#[test]
fn substring_search_by_characters() {
    assert!(str_contains("row level policy violated", "policy"));
    assert!(str_contains("abc", ""));
    assert!(str_contains("abc", "abc"));
    assert!(!str_contains("abc", "abcd"));
    assert!(!str_contains("permissive", "permission"));
    assert!(str_contains("aaab", "aab"));
}
