use ruptime::elapsed::{parse_uptime, parse_uptime_seconds, ElapsedTime, ParseError};
use ruptime::loadavg::{parse_loadavg, LoadAverage};
use ruptime::render::{format_uptime, format_users, pretty_line, status_line, UptimeFormat};
use ruptime::sessions::count_sessions;
use ruptime::text::split_tokens;

fn et(days: u64, hours: u64, minutes: u64) -> ElapsedTime {
    ElapsedTime { days, hours, minutes }
}

#[test]
fn decomposition_brackets_seconds() {
    for secs in [0u64, 59, 60, 3599, 3600, 3725, 86399, 86400, 90061, 1_000_000_007, u64::MAX] {
        let t = ElapsedTime::from_seconds(secs);
        let covered = t.days as u128 * 86400 + t.hours as u128 * 3600 + t.minutes as u128 * 60;
        assert!(covered <= secs as u128);
        assert!((secs as u128) < covered + 60);
        assert!(t.hours < 24 && t.minutes < 60);
    }
}

#[test]
fn from_seconds_exact_values() {
    assert_eq!(ElapsedTime::from_seconds(90061), et(1, 1, 1));
    assert_eq!(ElapsedTime::from_seconds(59), et(0, 0, 0));
    assert_eq!(ElapsedTime::from_seconds(172800 + 3 * 3600 + 7 * 60 + 59), et(2, 3, 7));
}

#[test]
fn parse_uptime_truncates() {
    assert_eq!(parse_uptime("3725.5 123.45"), Ok(et(0, 1, 2)));
}

#[test]
fn parse_uptime_forms() {
    assert_eq!(parse_uptime("  90061\n"), Ok(et(1, 1, 1)));
    assert_eq!(parse_uptime("120."), Ok(et(0, 0, 2)));
    assert_eq!(parse_uptime(".5 7"), Ok(et(0, 0, 0)));
    assert_eq!(parse_uptime("18446744073709551615.99"), Ok(ElapsedTime::from_seconds(u64::MAX)));
}

#[test]
fn parse_uptime_float_literals() {
    assert_eq!(parse_uptime_seconds("1e3"), Ok(1000));
    assert_eq!(parse_uptime_seconds("1e3 5"), Ok(1000));
    assert_eq!(parse_uptime_seconds("+42"), Ok(42));
    assert_eq!(parse_uptime_seconds("3.7255e3"), Ok(3725));
    assert_eq!(parse_uptime("3.7255E+3"), Ok(et(0, 1, 2)));
    assert_eq!(parse_uptime_seconds("-0.0"), Ok(0));
    assert_eq!(parse_uptime_seconds("-0.99"), Ok(0));
    assert_eq!(parse_uptime_seconds("12345e-2"), Ok(123));
    assert_eq!(parse_uptime_seconds(".5e1"), Ok(5));
    assert_eq!(parse_uptime_seconds("7.e2"), Ok(700));
    assert_eq!(parse_uptime_seconds("0e99999999999999999999999"), Ok(0));
    assert_eq!(parse_uptime_seconds("5e-99999999999999999999999"), Ok(0));
    assert_eq!(parse_uptime_seconds("1844674407370955161.5e1"), Ok(u64::MAX));
}

#[test]
fn parse_uptime_float_errors() {
    assert_eq!(parse_uptime_seconds("-1.5"), Err(ParseError));
    assert_eq!(parse_uptime_seconds("-1e0"), Err(ParseError));
    assert_eq!(parse_uptime_seconds("inf"), Err(ParseError));
    assert_eq!(parse_uptime_seconds("NaN"), Err(ParseError));
    assert_eq!(parse_uptime_seconds("1e"), Err(ParseError));
    assert_eq!(parse_uptime_seconds("1e+"), Err(ParseError));
    assert_eq!(parse_uptime_seconds("e5"), Err(ParseError));
    assert_eq!(parse_uptime_seconds("+"), Err(ParseError));
    assert_eq!(parse_uptime_seconds(".e1"), Err(ParseError));
    assert_eq!(parse_uptime_seconds("1e3x"), Err(ParseError));
    assert_eq!(parse_uptime_seconds("1e20"), Err(ParseError));
    assert_eq!(parse_uptime_seconds("1e99999999999999999999999"), Err(ParseError));
}

#[test]
fn parse_uptime_errors() {
    assert_eq!(parse_uptime(""), Err(ParseError));
    assert_eq!(parse_uptime("   \t\n"), Err(ParseError));
    assert_eq!(parse_uptime("abc 1.0"), Err(ParseError));
    assert_eq!(parse_uptime("."), Err(ParseError));
    assert_eq!(parse_uptime("1.2.3"), Err(ParseError));
    assert_eq!(parse_uptime("-5.0"), Err(ParseError));
    assert_eq!(parse_uptime("18446744073709551616"), Err(ParseError));
}

#[test]
fn compact_minutes_only() {
    assert_eq!(format_uptime(et(0, 0, 5), UptimeFormat::Compact), "5 min");
}

#[test]
fn verbose_days_hours_minutes() {
    assert_eq!(format_uptime(et(2, 3, 7), UptimeFormat::Verbose), "2 days, 3 hours, 7 minutes");
}

#[test]
fn compact_single_day() {
    assert_eq!(format_uptime(et(1, 0, 0), UptimeFormat::Compact), "1 day, 0 min");
}

#[test]
fn compact_hours_pad_minutes() {
    assert_eq!(format_uptime(et(0, 3, 7), UptimeFormat::Compact), "3:07");
    assert_eq!(format_uptime(et(12, 23, 59), UptimeFormat::Compact), "12 days, 23:59");
    assert_eq!(format_uptime(et(0, 1, 0), UptimeFormat::Compact), "1:00");
}

#[test]
fn verbose_minutes_only() {
    assert_eq!(format_uptime(et(0, 0, 0), UptimeFormat::Verbose), "0 minutes");
    assert_eq!(format_uptime(et(1, 0, 42), UptimeFormat::Verbose), "1 day, 42 minutes");
}

#[test]
fn formatting_is_repeatable() {
    for kind in [UptimeFormat::Compact, UptimeFormat::Verbose] {
        let t = et(3, 4, 5);
        assert_eq!(format_uptime(t, kind), format_uptime(t, kind));
    }
}

fn buffer(len: usize, tags: &[(usize, u8)]) -> Vec<u8> {
    let mut b = vec![0u8; len];
    for &(i, v) in tags {
        b[i] = v;
    }
    b
}

#[test]
fn sessions_single_record() {
    assert_eq!(count_sessions(&buffer(384, &[(0, 7)])), 1);
    assert_eq!(count_sessions(&buffer(384, &[(0, 0)])), 0);
    assert_eq!(count_sessions(&buffer(400, &[(0, 7), (384, 7)])), 1);
}

#[test]
fn sessions_several_records() {
    assert_eq!(count_sessions(&[]), 0);
    assert_eq!(count_sessions(&buffer(383, &[(0, 7)])), 0);
    assert_eq!(count_sessions(&buffer(384 * 4, &[(0, 7), (384, 8), (768, 7), (1152, 7), (1, 7)])), 3);
    assert_eq!(count_sessions(&buffer(384 * 2, &[(5, 7), (390, 7)])), 0);
}

#[test]
fn loadavg_first_three_tokens() {
    let l = parse_loadavg("0.15 0.20 0.10 2/300 1234").unwrap();
    assert_eq!((l.one.as_str(), l.five.as_str(), l.fifteen.as_str()), ("0.15", "0.20", "0.10"));
    assert_eq!(l.render(), "0.15, 0.20, 0.10");
}

#[test]
fn loadavg_too_few_tokens() {
    assert!(matches!(parse_loadavg("0.15 0.20"), Err(ParseError)));
    assert!(matches!(parse_loadavg(""), Err(ParseError)));
    let l = parse_loadavg("\t1.00\n 2.00   3.00").unwrap();
    assert_eq!(l.render(), "1.00, 2.00, 3.00");
}

#[test]
fn tokens_split_on_unicode_space() {
    assert_eq!(split_tokens(" a\u{a0}bc\u{3000}\n d "), vec!["a", "bc", "d"]);
    assert!(split_tokens(" \t ").is_empty());
}

#[test]
fn users_plural() {
    assert_eq!(format_users(0), "0 users");
    assert_eq!(format_users(1), "1 user");
    assert_eq!(format_users(12), "12 users");
}

#[test]
fn full_lines() {
    let load = LoadAverage { one: "0.15".to_string(), five: "0.20".to_string(), fifteen: "0.10".to_string() };
    assert_eq!(
        status_line("10:20:30", et(2, 3, 7), 1, &load),
        " 10:20:30 up 2 days, 3:07, 1 user, load average: 0.15, 0.20, 0.10"
    );
    assert_eq!(pretty_line(et(0, 1, 2)), "up 1 hours, 2 minutes");
}
