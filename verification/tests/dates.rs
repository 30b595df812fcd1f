use taskcore::date::{
    add_days, date_le_exec, days_in_month, due_date_part, format_date, is_leap_year_exec,
    moment_seconds_exec, parse_date, parse_due, parse_time, Date, Moment,
};

fn d(year: u32, month: u32, day: u32) -> Date {
    Date { year, month, day }
}

#[test]
fn parse_date_accepts_plain_dates() {
    assert_eq!(parse_date("2024-01-15"), Some(d(2024, 1, 15)));
    assert_eq!(parse_date("1999-12-31"), Some(d(1999, 12, 31)));
    assert_eq!(parse_date("0001-01-01"), Some(d(1, 1, 1)));
}

#[test]
fn parse_date_rejects_bad_shapes() {
    assert_eq!(parse_date(""), None);
    assert_eq!(parse_date("2024-1-5"), None);
    assert_eq!(parse_date("2024/01/15"), None);
    assert_eq!(parse_date("2024-01-15T"), None);
    assert_eq!(parse_date("garbage!!!"), None);
}

#[test]
fn parse_date_rejects_impossible_dates() {
    assert_eq!(parse_date("2024-00-10"), None);
    assert_eq!(parse_date("2024-13-01"), None);
    assert_eq!(parse_date("2024-02-30"), None);
    assert_eq!(parse_date("2023-02-29"), None);
    assert_eq!(parse_date("2024-04-31"), None);
    assert_eq!(parse_date("2024-01-00"), None);
}

#[test]
fn leap_years_follow_the_gregorian_rule() {
    assert!(is_leap_year_exec(2024));
    assert!(!is_leap_year_exec(2023));
    assert!(!is_leap_year_exec(1900));
    assert!(is_leap_year_exec(2000));
    assert_eq!(days_in_month(2024, 2), 29);
    assert_eq!(days_in_month(1900, 2), 28);
    assert_eq!(days_in_month(2024, 4), 30);
    assert_eq!(days_in_month(2024, 12), 31);
}

#[test]
fn format_date_zero_pads() {
    assert_eq!(format_date(d(2024, 1, 5)), "2024-01-05");
    assert_eq!(format_date(d(33, 11, 30)), "0033-11-30");
}

#[test]
fn add_days_walks_the_calendar() {
    assert_eq!(add_days(d(2024, 1, 15), 1), d(2024, 1, 16));
    assert_eq!(add_days(d(2024, 1, 15), 7), d(2024, 1, 22));
    assert_eq!(add_days(d(2024, 1, 31), 30), d(2024, 3, 1));
    assert_eq!(add_days(d(2023, 1, 31), 30), d(2023, 3, 2));
    assert_eq!(add_days(d(2024, 12, 31), 1), d(2025, 1, 1));
    assert_eq!(add_days(d(2024, 2, 28), 1), d(2024, 2, 29));
    assert_eq!(add_days(d(2023, 2, 28), 1), d(2023, 3, 1));
}

#[test]
fn date_order_is_chronological() {
    assert!(date_le_exec(d(2024, 1, 15), d(2024, 1, 15)));
    assert!(date_le_exec(d(2024, 1, 15), d(2024, 1, 16)));
    assert!(date_le_exec(d(2023, 12, 31), d(2024, 1, 1)));
    assert!(!date_le_exec(d(2024, 2, 1), d(2024, 1, 31)));
}

#[test]
fn parse_time_reads_both_lengths() {
    assert_eq!(parse_time("10:30"), Some((10, 30, 0)));
    assert_eq!(parse_time("10:30:45"), Some((10, 30, 45)));
    assert_eq!(parse_time("23:59:59"), Some((23, 59, 59)));
    assert_eq!(parse_time("24:00"), None);
    assert_eq!(parse_time("10:60"), None);
    assert_eq!(parse_time("10:30:60"), None);
    assert_eq!(parse_time("10-30"), None);
    assert_eq!(parse_time("1:30"), None);
}

#[test]
fn parse_due_defaults_bare_dates_to_end_of_day() {
    let m = parse_due("2024-01-15").unwrap();
    assert_eq!(m.date, d(2024, 1, 15));
    assert_eq!((m.hour, m.minute, m.second), (23, 59, 59));
}

#[test]
fn parse_due_reads_date_and_time() {
    let m = parse_due("2024-01-15T10:30").unwrap();
    assert_eq!(m.date, d(2024, 1, 15));
    assert_eq!((m.hour, m.minute, m.second), (10, 30, 0));
    let m = parse_due("2024-01-15T10:30:45").unwrap();
    assert_eq!((m.hour, m.minute, m.second), (10, 30, 45));
}

#[test]
fn parse_due_rejects_malformed_text() {
    assert_eq!(parse_due("2024-01-15T10:30:45T"), None);
    assert_eq!(parse_due("T10:30"), None);
    assert_eq!(parse_due("2024-01-15T"), None);
    assert_eq!(parse_due("2024-01-15 10:30"), None);
    assert_eq!(parse_due("soon"), None);
}

#[test]
fn due_date_part_takes_ten_characters_before_a_time() {
    assert_eq!(due_date_part("2024-01-15"), Some(d(2024, 1, 15)));
    assert_eq!(due_date_part("2024-01-15T10:30"), Some(d(2024, 1, 15)));
    assert_eq!(due_date_part("2024-01-15Tnonsense"), Some(d(2024, 1, 15)));
    assert_eq!(due_date_part("2024-01-15x"), None);
    assert_eq!(due_date_part("shortT"), None);
    assert_eq!(due_date_part("bad"), None);
}

#[test]
fn moment_seconds_differences_measure_time() {
    let base = Moment { date: d(2024, 1, 15), hour: 10, minute: 0, second: 0 };
    let later = Moment { date: d(2024, 1, 15), hour: 10, minute: 5, second: 0 };
    assert_eq!(
        moment_seconds_exec(&later) - moment_seconds_exec(&base),
        300
    );
    let next_day = Moment { date: d(2024, 1, 16), hour: 10, minute: 0, second: 0 };
    assert_eq!(
        moment_seconds_exec(&next_day) - moment_seconds_exec(&base),
        86400
    );
    let across_leap_day = Moment { date: d(2024, 3, 1), hour: 0, minute: 0, second: 0 };
    let feb_start = Moment { date: d(2024, 2, 1), hour: 0, minute: 0, second: 0 };
    assert_eq!(
        moment_seconds_exec(&across_leap_day) - moment_seconds_exec(&feb_start),
        29 * 86400
    );
}
