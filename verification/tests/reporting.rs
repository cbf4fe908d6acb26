use worklog::datetime::{Date, Timestamp};
use worklog::format::{
    format_date, format_duration, format_time, report_line, total_line, u32_to_string,
    u64_to_string,
};
use worklog::parse::{parse_date, parse_line, parse_time};
use worklog::workunit::{get_total_minutes, Workunit};
use worklog::YEAR;

fn unit(from_h: u32, from_m: u32, to_h: u32, to_m: u32) -> Workunit {
    let date = Date { year: YEAR, month: 3, day: 1 };
    Workunit {
        from: Timestamp { date, hour: from_h, minute: from_m },
        to: Timestamp { date, hour: to_h, minute: to_m },
        comment: None,
    }
}

#[test]
fn numbers_to_strings() {
    assert_eq!(u64_to_string(0), "0");
    assert_eq!(u64_to_string(7), "7");
    assert_eq!(u64_to_string(60), "60");
    assert_eq!(u64_to_string(12345), "12345");
    assert_eq!(u32_to_string(4294967295), "4294967295");
}

#[test]
fn duration_eight_hours_thirty() {
    let u = unit(9, 0, 17, 30);
    assert_eq!(u.duration_minutes(), 510);
    assert_eq!(format_duration(510), "8h30min");
}

#[test]
fn durations_format_like_their_parts() {
    assert_eq!(format_duration(0), "0h0min");
    assert_eq!(format_duration(59), "0h59min");
    assert_eq!(format_duration(60), "1h0min");
    assert_eq!(format_duration(225), "3h45min");
    assert_eq!(format_duration(-480), "-8h0min");
    assert_eq!(format_duration(-90), "-1h-30min");
    assert_eq!(format_duration(-30), "0h-30min");
    assert_eq!(format_duration(-60), "-1h0min");
}

#[test]
fn totals_sum_durations() {
    let units = vec![unit(10, 0, 11, 0), unit(12, 0, 14, 45)];
    let total = get_total_minutes(&units);
    assert_eq!(total, 225);
    assert_eq!(format_duration(total), "3h45min");
}

#[test]
fn total_of_no_units_is_zero() {
    let units: Vec<Workunit> = Vec::new();
    assert_eq!(get_total_minutes(&units), 0);
}

#[test]
fn negative_and_zero_intervals_are_accepted() {
    let u = parse_line("01.03 17:00 09:00").unwrap();
    assert_eq!(u.duration_minutes(), -480);
    assert_eq!(format_duration(u.duration_minutes()), "-8h0min");

    let z = parse_line("01.03 09:00 09:00").unwrap();
    assert_eq!(z.duration_minutes(), 0);
    assert_eq!(format_duration(z.duration_minutes()), "0h0min");

    let total = get_total_minutes(&vec![u, z]);
    assert_eq!(total, -480);
}

#[test]
fn date_round_trip() {
    let d = parse_date("01.03", YEAR).unwrap();
    let text = format_date(&d);
    assert_eq!(text, "1.3");
    assert_eq!(parse_date(&text, YEAR), Ok(d));
}

#[test]
fn time_round_trip() {
    let date = Date { year: YEAR, month: 3, day: 1 };
    let t = parse_time("09:05", &date).unwrap();
    let text = format_time(&t);
    assert_eq!(text, "9:5");
    assert_eq!(parse_time(&text, &date), Ok(t));
}

#[test]
fn line_components_round_trip() {
    let u = parse_line("7.11 8:05 23:59 note").unwrap();
    let date_text = format_date(&u.from.date);
    let from_text = format_time(&u.from);
    let to_text = format_time(&u.to);
    let again = parse_line(&format!("{} {} {} note", date_text, from_text, to_text)).unwrap();
    assert_eq!(again.from, u.from);
    assert_eq!(again.to, u.to);
    assert_eq!(again.comment, u.comment);
}

#[test]
fn report_lines() {
    let line = report_line(
        "2020-03-01 09:00:00",
        "2020-03-01 17:30:00",
        510,
        &Some(String::from("standup")),
    );
    assert_eq!(line, "2020-03-01 09:00:00 - 2020-03-01 17:30:00: 8h30min standup");

    let bare = report_line("a", "b", 0, &None);
    assert_eq!(bare, "a - b: 0h0min");
}

#[test]
fn summary_line() {
    assert_eq!(total_line(225), "Total working time: 3h45min");
    assert_eq!(total_line(0), "Total working time: 0h0min");
}

#[test]
fn units_report_validity() {
    assert!(unit(9, 0, 17, 30).valid());
    let mut bad = unit(9, 0, 17, 30);
    bad.to.hour = 24;
    assert!(!bad.valid());
    let mut bad_date = unit(9, 0, 10, 0);
    bad_date.from.date.day = 32;
    assert!(!bad_date.valid());
}
