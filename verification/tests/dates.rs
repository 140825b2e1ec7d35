use dott::calendar::date_to_epoch_days;
use dott::dates::{days_by_clock, days_from, days_until, parse_date, parse_prose_date, read_prose_date};

fn text(s: &str) -> Option<String> {
    Some(s.to_string())
}

#[test]
fn parse_date_iso() {
    assert_eq!(parse_date("2026-04-19"), Some("2026-04-19".to_string()));
}

#[test]
fn parse_date_embedded_in_timestamp() {
    assert_eq!(parse_date("Expires: 2027-01-15T00:00:00Z"), Some("2027-01-15".to_string()));
}

#[test]
fn parse_date_returns_first_match() {
    assert_eq!(parse_date("reg 2020-01-01 exp 2030-12-31"), Some("2020-01-01".to_string()));
}

#[test]
fn parse_date_none() {
    assert_eq!(parse_date("no dates here"), None);
    assert_eq!(parse_date(""), None);
    assert_eq!(parse_date("2026-1-1"), None); // non-zero-padded rejected
}

#[test]
fn parse_date_starts_inside_a_longer_number() {
    assert_eq!(parse_date("12026-04-190"), text("2026-04-19"));
    assert_eq!(parse_date("2026-04-1"), None);
    assert_eq!(parse_date("2026/04/19"), None);
    assert_eq!(parse_date("9999-99-99"), text("9999-99-99"));
}

#[test]
fn parse_date_after_other_scripts() {
    assert_eq!(parse_date("läuft ab → 2027-01-15 ✓"), text("2027-01-15"));
    assert_eq!(parse_date("２０２７-01-15"), None);
}

#[test]
fn a_date_is_found_in_itself() {
    let found = parse_date("x 2020-01-01 y").unwrap();
    assert_eq!(parse_date(&found), Some(found.clone()));
}

#[test]
fn prose_dates() {
    assert_eq!(parse_prose_date("Registered on 26th February 2015"), text("2015-02-26"));
    assert_eq!(parse_prose_date("1st JANUARY 1900"), text("1900-01-01"));
    assert_eq!(parse_prose_date("31 december 2099 at noon"), text("2099-12-31"));
    assert_eq!(parse_prose_date("3rd\tMay\n2021"), text("2021-05-03"));
}

#[test]
fn prose_dates_out_of_range() {
    assert_eq!(parse_prose_date("0th May 2020"), None);
    assert_eq!(parse_prose_date("32nd May 2020"), None);
    assert_eq!(parse_prose_date("1st May 1899"), None);
    assert_eq!(parse_prose_date("1st May 2100"), None);
    assert_eq!(parse_prose_date("1st Mai 2020"), None);
    assert_eq!(parse_prose_date("May 2020"), None);
    assert_eq!(parse_prose_date(""), None);
    assert_eq!(parse_prose_date("first May 2020"), None);
    assert_eq!(parse_prose_date("1st May 2020."), None);
}

#[test]
fn prose_dates_skip_what_is_none() {
    assert_eq!(parse_prose_date("32nd May 2020 2nd June 2021"), text("2021-06-02"));
    assert_eq!(parse_prose_date("1 2 3 4th July 1976"), text("1976-07-04"));
}

#[test]
fn prose_dates_drop_letters_of_any_script() {
    assert_eq!(parse_prose_date("5é March 2003"), text("2003-03-05"));
    assert_eq!(parse_prose_date("5th\u{a0}March\u{2003}2003"), text("2003-03-05"));
    assert_eq!(parse_prose_date("5. March 2003"), None);
}

#[test]
fn a_prose_date_is_found_as_a_date() {
    let found = parse_prose_date("on 9th November 1989").unwrap();
    assert_eq!(found, "1989-11-09");
    assert_eq!(parse_date(&found), Some(found.clone()));
}

#[test]
fn months_in_words() {
    let names = [
        "january", "february", "march", "april", "may", "june", "july", "august", "september",
        "october", "november", "december",
    ];
    for (i, m) in names.iter().enumerate() {
        assert_eq!(read_prose_date("7", m, "2024"), Some(format!("2024-{:02}-07", i + 1)));
    }
    assert_eq!(read_prose_date("+7", "may", "+2024"), text("2024-05-07"));
    assert_eq!(read_prose_date("-7", "may", "2024"), None);
    assert_eq!(read_prose_date("7", "may", "99999999999"), None);
}

#[test]
fn epoch_days() {
    assert_eq!(date_to_epoch_days(1970, 1, 1), 0);
    assert_eq!(date_to_epoch_days(1969, 12, 31), -1);
    assert_eq!(date_to_epoch_days(2000, 3, 1), 11017);
    assert_eq!(date_to_epoch_days(2026, 4, 19), 20562);
    assert_eq!(date_to_epoch_days(1, 1, 1), -719162);
}

#[test]
fn the_day_after_is_one_more() {
    assert_eq!(date_to_epoch_days(2024, 2, 29), date_to_epoch_days(2024, 2, 28) + 1);
    assert_eq!(date_to_epoch_days(2024, 3, 1), date_to_epoch_days(2024, 2, 29) + 1);
    assert_eq!(date_to_epoch_days(2023, 3, 1), date_to_epoch_days(2023, 2, 28) + 1);
    assert_eq!(date_to_epoch_days(1900, 3, 1), date_to_epoch_days(1900, 2, 28) + 1);
    assert_eq!(date_to_epoch_days(2025, 1, 1), date_to_epoch_days(2024, 12, 31) + 1);
}

#[test]
fn days_between() {
    assert_eq!(days_from("1970-01-11", 0), Some(10));
    assert_eq!(days_from("1970-01-11", 86399), Some(10));
    assert_eq!(days_from("1970-01-11", 86400), Some(9));
    assert_eq!(days_from("1970-01-01", 86400 * 400), Some(-400));
    assert_eq!(days_from("1970-1-2", 0), Some(1));
    assert_eq!(days_from("1970-01-02T00", 0), None);
    assert_eq!(days_from("soon", 0), None);
    assert_eq!(days_from("", 0), None);
}

#[test]
fn days_by_what_a_clock_reads() {
    assert_eq!(days_by_clock("1970-01-11", Some(86400)), Some(9));
    assert_eq!(days_by_clock("1970-01-11", None), None);
    assert_eq!(days_by_clock("soon", Some(0)), None);
}

#[test]
fn days_until_by_the_clock() {
    let now = std::time::SystemTime::now()
        .duration_since(std::time::UNIX_EPOCH)
        .unwrap()
        .as_secs() as i64
        / 86400;
    let left = days_until("2000-01-01").unwrap();
    assert!(left == 10957 - now || left == 10956 - now);
    assert_eq!(days_until("2000-01-xx"), None);
}
