use worklog::datetime::{days_in_month, is_leap, Date, Timestamp};
use worklog::errors::ParseError;
use worklog::parse::{is_ignored, parse_date, parse_line, parse_lines, parse_time, parse_u32};
use worklog::YEAR;

fn ts(day: u32, month: u32, hour: u32, minute: u32) -> Timestamp {
    Timestamp { date: Date { year: YEAR, month, day }, hour, minute }
}

#[test]
fn parse_u32_plain() {
    assert_eq!(parse_u32("0"), Ok(0));
    assert_eq!(parse_u32("7"), Ok(7));
    assert_eq!(parse_u32("007"), Ok(7));
    assert_eq!(parse_u32("4294967295"), Ok(u32::MAX));
}

#[test]
fn parse_u32_rejects() {
    assert_eq!(parse_u32(""), Err(ParseError::NonNumeric));
    assert_eq!(parse_u32("1a"), Err(ParseError::NonNumeric));
    assert_eq!(parse_u32("-1"), Err(ParseError::NonNumeric));
    assert_eq!(parse_u32("4294967296"), Err(ParseError::NonNumeric));
    assert_eq!(parse_u32("99999999999999999999"), Err(ParseError::NonNumeric));
}

#[test]
fn parse_date_plain() {
    assert_eq!(parse_date("1.3", YEAR), Ok(Date { year: YEAR, month: 3, day: 1 }));
    assert_eq!(parse_date("01.03", YEAR), Ok(Date { year: YEAR, month: 3, day: 1 }));
    assert_eq!(parse_date("31.12", YEAR), Ok(Date { year: YEAR, month: 12, day: 31 }));
}

#[test]
fn parse_date_errors() {
    assert_eq!(parse_date("0103", YEAR), Err(ParseError::MissingMonth));
    assert_eq!(parse_date("1.", YEAR), Err(ParseError::NonNumeric));
    assert_eq!(parse_date(".3", YEAR), Err(ParseError::NonNumeric));
    assert_eq!(parse_date("1.x", YEAR), Err(ParseError::NonNumeric));
    assert_eq!(parse_date("32.1", YEAR), Err(ParseError::OutOfRange));
    assert_eq!(parse_date("0.1", YEAR), Err(ParseError::OutOfRange));
    assert_eq!(parse_date("1.13", YEAR), Err(ParseError::OutOfRange));
    assert_eq!(parse_date("1.0", YEAR), Err(ParseError::OutOfRange));
}

#[test]
fn leap_year_2020() {
    assert!(is_leap(2020));
    assert!(!is_leap(2021));
    assert!(!is_leap(1900));
    assert!(is_leap(2000));
    assert_eq!(days_in_month(2020, 2), 29);
    assert_eq!(days_in_month(2021, 2), 28);
    assert_eq!(days_in_month(2020, 4), 30);
    assert_eq!(days_in_month(2020, 12), 31);
    assert_eq!(days_in_month(2020, 0), 0);
    assert_eq!(days_in_month(2020, 13), 0);
    assert_eq!(parse_date("29.2", 2020), Ok(Date { year: 2020, month: 2, day: 29 }));
    assert_eq!(parse_date("30.2", 2020), Err(ParseError::OutOfRange));
    assert_eq!(parse_date("29.2", 2021), Err(ParseError::OutOfRange));
}

#[test]
fn parse_time_plain() {
    let d = Date { year: YEAR, month: 3, day: 1 };
    assert_eq!(parse_time("9:05", &d), Ok(Timestamp { date: d, hour: 9, minute: 5 }));
    assert_eq!(parse_time("0:00", &d), Ok(Timestamp { date: d, hour: 0, minute: 0 }));
    assert_eq!(parse_time("23:59", &d), Ok(Timestamp { date: d, hour: 23, minute: 59 }));
}

#[test]
fn parse_time_errors() {
    let d = Date { year: YEAR, month: 3, day: 1 };
    assert_eq!(parse_time("0900", &d), Err(ParseError::MissingMinute));
    assert_eq!(parse_time("9:0a", &d), Err(ParseError::NonNumeric));
    assert_eq!(parse_time("24:00", &d), Err(ParseError::OutOfRange));
    assert_eq!(parse_time("9:60", &d), Err(ParseError::OutOfRange));
    assert_eq!(parse_time(":30", &d), Err(ParseError::NonNumeric));
}

#[test]
fn line_with_comment() {
    let u = parse_line("01.03 09:00 12:00 lunch").unwrap();
    assert_eq!(u.from, ts(1, 3, 9, 0));
    assert_eq!(u.to, ts(1, 3, 12, 0));
    assert_eq!(u.comment.as_deref(), Some("lunch"));
}

#[test]
fn line_without_comment() {
    let u = parse_line("01.03 09:00 12:00").unwrap();
    assert_eq!(u.from, ts(1, 3, 9, 0));
    assert_eq!(u.to, ts(1, 3, 12, 0));
    assert_eq!(u.comment, None);
}

#[test]
fn comment_takes_the_rest_of_the_line() {
    let u = parse_line("01.03 09:00 12:00 lunch with the team").unwrap();
    assert_eq!(u.comment.as_deref(), Some("lunch with the team"));
}

#[test]
fn extra_whitespace_between_tokens() {
    let u = parse_line("  1.3   9:00\t12:00   x").unwrap();
    assert_eq!(u.from, ts(1, 3, 9, 0));
    assert_eq!(u.to, ts(1, 3, 12, 0));
    assert_eq!(u.comment.as_deref(), Some("x"));
}

#[test]
fn missing_tokens() {
    assert_eq!(parse_line(""), Err(ParseError::MissingDate));
    assert_eq!(parse_line("   "), Err(ParseError::MissingDate));
    assert_eq!(parse_line("01.03"), Err(ParseError::MissingStartTime));
    assert_eq!(parse_line("01.03 09:00"), Err(ParseError::MissingEndTime));
}

#[test]
fn non_numeric_minute() {
    assert_eq!(parse_line("01.03 09:0a 10:00"), Err(ParseError::NonNumeric));
}

#[test]
fn error_messages() {
    assert_eq!(ParseError::MissingDate.message(), "missing date");
    assert_eq!(ParseError::MissingStartTime.message(), "missing start time");
    assert_eq!(ParseError::MissingEndTime.message(), "missing end time");
    assert_eq!(ParseError::MissingMonth.message(), "missing month");
    assert_eq!(ParseError::MissingMinute.message(), "missing minute");
    assert_eq!(ParseError::NonNumeric.message(), "invalid number");
    assert_eq!(ParseError::OutOfRange.message(), "value out of range");
}

#[test]
fn ignored_lines() {
    assert!(is_ignored(""));
    assert!(is_ignored("# a comment"));
    assert!(is_ignored("#01.03 09:00 10:00"));
    assert!(!is_ignored("01.03 09:00 10:00"));
    assert!(!is_ignored(" # not at the start"));
}

#[test]
fn ignored_lines_contribute_no_units() {
    let lines = vec![
        String::from("# header"),
        String::from(""),
        String::from("01.03 09:00 10:00"),
        String::from("# trailing"),
    ];
    let units = parse_lines(&lines).unwrap();
    assert_eq!(units.len(), 1);
    assert_eq!(units[0].from, ts(1, 3, 9, 0));
}

#[test]
fn error_carries_the_original_line_number() {
    let lines = vec![
        String::from("# header"),
        String::from(""),
        String::from("01.03 09:00 10:00"),
        String::from("02.03 09:00"),
    ];
    let e = parse_lines(&lines).unwrap_err();
    assert_eq!(e.line_number, 4);
    assert_eq!(e.error, ParseError::MissingEndTime);
}

#[test]
fn fail_fast_on_first_bad_line() {
    let lines = vec![
        String::from("01.03 09:00 10:00"),
        String::from("bad"),
        String::from("02.03 09:00 10:00"),
    ];
    let e = parse_lines(&lines).unwrap_err();
    assert_eq!(e.line_number, 2);
    assert_eq!(e.error, ParseError::MissingStartTime);
}

#[test]
fn empty_file_parses_to_no_units() {
    let lines: Vec<String> = Vec::new();
    let units = parse_lines(&lines).unwrap();
    assert!(units.is_empty());
}
