use daysum::text::{
    format_entry_line, format_hours_minutes, format_label_line, format_percent,
    format_total_line, share_tenths,
};

#[test]
fn hours_and_minutes() {
    assert_eq!(format_hours_minutes(0), "00:00");
    assert_eq!(format_hours_minutes(59), "00:00");
    assert_eq!(format_hours_minutes(60), "00:01");
    assert_eq!(format_hours_minutes(3599), "00:59");
    assert_eq!(format_hours_minutes(3600), "01:00");
    assert_eq!(format_hours_minutes(5400), "01:30");
    assert_eq!(format_hours_minutes(36_000), "10:00");
    assert_eq!(format_hours_minutes(359_999), "99:59");
    assert_eq!(format_hours_minutes(360_000), "100:00");
}

#[test]
fn hours_and_minutes_agree_with_the_formatter() {
    for seconds in [0i64, 1, 61, 3600, 5400, 86_399, 1_000_000, -1, -59, -60, -3599, -3600, -3700, -90_000]
    {
        let hours = seconds / 3600;
        let minutes = (seconds - hours * 3600) / 60;
        assert_eq!(
            format_hours_minutes(seconds as i128),
            format!("{:02}:{:02}", hours, minutes),
            "{}",
            seconds
        );
    }
}

#[test]
fn negative_spans_keep_their_sign() {
    assert_eq!(format_hours_minutes(-59), "00:00");
    assert_eq!(format_hours_minutes(-60), "00:-1");
    assert_eq!(format_hours_minutes(-3600), "-1:00");
    assert_eq!(format_hours_minutes(-3700), "-1:-1");
    assert_eq!(format_hours_minutes(-36_000 - 600), "-10:-10");
}

#[test]
fn the_widest_spans() {
    let hours = i128::MAX / 3600;
    let minutes = (i128::MAX - hours * 3600) / 60;
    assert_eq!(format_hours_minutes(i128::MAX), format!("{:02}:{:02}", hours, minutes));
    let hours = i128::MIN / 3600;
    let minutes = (i128::MIN - hours * 3600) / 60;
    assert_eq!(format_hours_minutes(i128::MIN), format!("{:02}:{:02}", hours, minutes));
}

#[test]
fn shares_in_tenths_of_a_percent() {
    assert_eq!(share_tenths(0, 1), Some(0));
    assert_eq!(share_tenths(1, 1), Some(1000));
    assert_eq!(share_tenths(1, 2), Some(500));
    assert_eq!(share_tenths(1, 3), Some(333));
    assert_eq!(share_tenths(2, 3), Some(667));
    assert_eq!(share_tenths(3600, 5400), Some(667));
    assert_eq!(share_tenths(1800, 5400), Some(333));
    assert_eq!(share_tenths(1, 2000), Some(1));
    assert_eq!(share_tenths(1, 2001), Some(0));
    assert_eq!(share_tenths(1999, 2000), Some(1000));
    assert_eq!(share_tenths(u64::MAX as i128, u64::MAX as i128), Some(1000));
    assert_eq!(share_tenths(u64::MAX as i128 - 1, u64::MAX as i128), Some(1000));
    assert_eq!(share_tenths(u64::MAX as i128 / 2, u64::MAX as i128), Some(500));
}

#[test]
fn no_share_without_a_whole() {
    assert_eq!(share_tenths(0, 0), None);
    assert_eq!(share_tenths(1, 0), None);
    assert_eq!(share_tenths(1, -1), None);
    assert_eq!(share_tenths(-1, 5), None);
    assert_eq!(share_tenths(6, 5), None);
    assert_eq!(share_tenths(1, u64::MAX as i128 + 1), None);
    assert_eq!(share_tenths(i128::MAX, i128::MAX), None);
    assert_eq!(share_tenths(i128::MIN, i128::MIN), None);
}

#[test]
fn percent_has_one_decimal_place() {
    assert_eq!(format_percent(0, 1), "0.0");
    assert_eq!(format_percent(1, 1), "100.0");
    assert_eq!(format_percent(1, 3), "33.3");
    assert_eq!(format_percent(2, 3), "66.7");
    assert_eq!(format_percent(1, 8), "12.5");
    assert_eq!(format_percent(1, 1000), "0.1");
    assert_eq!(format_percent(0, 0), "NaN");
    assert_eq!(format_percent(5, 0), "NaN");
    assert_eq!(format_percent(-5, 10), "NaN");
}

#[test]
fn percent_agrees_with_floats_away_from_ties() {
    for (part, whole) in [(3600i64, 5400i64), (1800, 5400), (1, 7), (5, 7), (123, 4567), (4566, 4567), (1, 1)] {
        let frac: f32 = part as f32 / whole as f32;
        assert_eq!(
            format_percent(part as i128, whole as i128),
            format!("{:.1}", frac * 100f32)
        );
    }
}

#[test]
fn the_total_line() {
    assert_eq!(format_total_line(0), "Total: 00:00h");
    assert_eq!(format_total_line(5400), "Total: 01:30h");
    assert_eq!(format_total_line(86_400), "Total: 24:00h");
}

#[test]
fn the_label_line_fills_the_label_to_sixteen() {
    assert_eq!(format_label_line("work", 3600, 5400), "work            : 01:00h, 66.7%");
    assert_eq!(format_label_line("", 0, 5400), "                : 00:00h, 0.0%");
    assert_eq!(format_label_line("0123456789abcdef", 60, 60), "0123456789abcdef: 00:01h, 100.0%");
    assert_eq!(format_label_line("0123456789abcdefg", 60, 60), "0123456789abcdefg: 00:01h, 100.0%");
    for label in ["", "a", "work", "\u{e9}t\u{e9}", "0123456789abcde", "0123456789abcdefgh"] {
        assert_eq!(
            format_label_line(label, 3600, 5400),
            format!("{:16}: {:02}:{:02}h, {:.1}%", label, 1, 0, 66.7f32)
        );
    }
}

#[test]
fn the_entry_line() {
    assert_eq!(
        format_entry_line("Thu, 1 Jan 1970 01:00:00 +0100", "work"),
        "Thu, 1 Jan 1970 01:00:00 +0100: work"
    );
    assert_eq!(format_entry_line("", ""), ": ");
}
