use serverless_pipelines_in_rust::store::parse_input_date;
use serverless_pipelines_in_rust::time::{
    classify_hour, day_number, days_in_month, duration_minutes, in_same_month, is_leap_year,
    month_start_of, parse_date, Date, TimeOfDay, Timestamp,
};
use serverless_pipelines_in_rust::PipelineError;

fn ts(year: u32, month: u8, day: u8, hour: u8, minute: u8, second: u8) -> Timestamp {
    Timestamp { date: Date { year, month, day }, hour, minute, second }
}

#[test]
fn boundary_classification() {
    assert_eq!(classify_hour(4), TimeOfDay::Night);
    assert_eq!(classify_hour(5), TimeOfDay::Morning);
    assert_eq!(classify_hour(11), TimeOfDay::Morning);
    assert_eq!(classify_hour(12), TimeOfDay::Afternoon);
    assert_eq!(classify_hour(16), TimeOfDay::Afternoon);
    assert_eq!(classify_hour(17), TimeOfDay::Evening);
    assert_eq!(classify_hour(20), TimeOfDay::Evening);
    assert_eq!(classify_hour(21), TimeOfDay::Night);
}

#[test]
fn classification_covers_whole_day() {
    for h in 0u8..24 {
        let expected = if (5..12).contains(&h) {
            TimeOfDay::Morning
        } else if (12..17).contains(&h) {
            TimeOfDay::Afternoon
        } else if (17..21).contains(&h) {
            TimeOfDay::Evening
        } else {
            TimeOfDay::Night
        };
        assert_eq!(classify_hour(h), expected);
    }
}

#[test]
fn parse_valid_date() {
    let d = parse_date("2024-03-05".as_bytes()).expect("should parse");
    assert_eq!(d, Date { year: 2024, month: 3, day: 5 });
}

#[test]
fn parse_leap_day() {
    assert_eq!(
        parse_date("2024-02-29".as_bytes()),
        Some(Date { year: 2024, month: 2, day: 29 })
    );
    assert_eq!(parse_date("2023-02-29".as_bytes()), None);
    assert_eq!(parse_date("1900-02-29".as_bytes()), None);
    assert_eq!(
        parse_date("2000-02-29".as_bytes()),
        Some(Date { year: 2000, month: 2, day: 29 })
    );
}

#[test]
fn parse_rejects_malformed_input() {
    assert_eq!(parse_date("garbage".as_bytes()), None);
    assert_eq!(parse_date("2024-13-01".as_bytes()), None);
    assert_eq!(parse_date("2024-00-10".as_bytes()), None);
    assert_eq!(parse_date("2024-04-31".as_bytes()), None);
    assert_eq!(parse_date("2024-03-00".as_bytes()), None);
    assert_eq!(parse_date("2024/03/05".as_bytes()), None);
    assert_eq!(parse_date("24-03-05".as_bytes()), None);
    assert_eq!(parse_date("2024-03-055".as_bytes()), None);
    assert_eq!(parse_date("0000-01-01".as_bytes()), None);
}

#[test]
fn input_parse_error_is_fatal_variant() {
    assert_eq!(
        parse_input_date("not a date".as_bytes()),
        Err(PipelineError::InputParse)
    );
    assert_eq!(
        parse_input_date("2024-03-05".as_bytes()),
        Ok(Date { year: 2024, month: 3, day: 5 })
    );
}

#[test]
fn leap_year_rules() {
    assert!(is_leap_year(2024));
    assert!(!is_leap_year(2023));
    assert!(!is_leap_year(1900));
    assert!(is_leap_year(2000));
    assert_eq!(days_in_month(2024, 2), 29);
    assert_eq!(days_in_month(2023, 2), 28);
    assert_eq!(days_in_month(2024, 4), 30);
    assert_eq!(days_in_month(2024, 12), 31);
}

#[test]
fn day_numbers_count_from_year_one() {
    assert_eq!(day_number(Date { year: 1, month: 1, day: 1 }), 0);
    assert_eq!(day_number(Date { year: 1, month: 1, day: 2 }), 1);
    assert_eq!(day_number(Date { year: 1, month: 2, day: 1 }), 31);
    assert_eq!(day_number(Date { year: 2, month: 1, day: 1 }), 365);
    // 2024-03-01 is one leap day after 2024-02-29.
    let feb29 = day_number(Date { year: 2024, month: 2, day: 29 });
    let mar1 = day_number(Date { year: 2024, month: 3, day: 1 });
    assert_eq!(mar1, feb29 + 1);
}

#[test]
fn month_truncation() {
    let d = Date { year: 2024, month: 3, day: 17 };
    assert_eq!(month_start_of(&d), Date { year: 2024, month: 3, day: 1 });
    assert!(in_same_month(&d, &Date { year: 2024, month: 3, day: 1 }));
    assert!(!in_same_month(&d, &Date { year: 2024, month: 4, day: 17 }));
    assert!(!in_same_month(&d, &Date { year: 2023, month: 3, day: 17 }));
}

#[test]
fn durations_truncate_whole_minutes() {
    let p = ts(2024, 3, 5, 8, 0, 0);
    assert_eq!(duration_minutes(&p, &ts(2024, 3, 5, 8, 15, 0)), 15);
    // 90 seconds is one whole minute.
    assert_eq!(duration_minutes(&p, &ts(2024, 3, 5, 8, 1, 30)), 1);
    // A trip across midnight.
    assert_eq!(
        duration_minutes(&ts(2024, 3, 5, 23, 50, 0), &ts(2024, 3, 6, 0, 10, 0)),
        20
    );
    // A dropoff before the pickup truncates toward zero.
    assert_eq!(duration_minutes(&ts(2024, 3, 5, 8, 1, 30), &p), -1);
    assert_eq!(duration_minutes(&p, &p), 0);
}
