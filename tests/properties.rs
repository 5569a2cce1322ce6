use celes::Country;
use shiptracker::builder::data_builder;
use shiptracker::calc::{
    calc_layover_times, calc_longest_delay, calc_total_shipment_time, calc_transfers,
    filter_layover_time, generate_locales_list, longest_transfer,
};
use shiptracker::error::ShipError;
use shiptracker::extract::{find_token, parse_line, parse_raw_records, Token};
use shiptracker::locale::{locale_token, parse_raw_locale, set_locales, set_null_locales};
use shiptracker::record::Record;
use shiptracker::timestamp::{diff_naive_datetime, parse_naive_datetime, Timestamp};

fn ts(s: &str) -> Timestamp {
    parse_naive_datetime(s).unwrap()
}

fn rec(dt: &str, status: &str, locale: Option<&str>) -> Record {
    Record {
        datetime: ts(dt),
        status: status.to_string(),
        locale: locale.map(|l| l.to_string()),
    }
}

fn usa() -> String {
    Country::the_united_states_of_america().to_string()
}

fn lines(v: &[&str]) -> Vec<String> {
    v.iter().map(|s| s.to_string()).collect()
}

#[test]
fn timestamp_fields_are_read() {
    let t = ts("2017-01-23 16:02:24");
    assert_eq!(
        t,
        Timestamp { year: 2017, month: 1, day: 23, hour: 16, minute: 2, second: 24 }
    );
}

#[test]
fn timestamp_rejects_missing_day() {
    assert!(parse_naive_datetime("2017-02-30 10:00:00").is_none());
    assert!(parse_naive_datetime("2017-13-01 10:00:00").is_none());
    assert!(parse_naive_datetime("2017-01-01 24:00:00").is_none());
    assert!(parse_naive_datetime("2016-02-29 10:00:00").is_some());
}

#[test]
fn leap_second_reads_as_fifty_nine() {
    assert_eq!(ts("2016-12-31 23:59:60").second, 59);
}

#[test]
fn minutes_round_toward_zero() {
    let a = ts("2017-01-23 16:02:24");
    let b = ts("2017-01-23 16:03:23");
    assert_eq!(diff_naive_datetime(&a, &b), 0);
    assert_eq!(diff_naive_datetime(&b, &a), 0);
    let c = ts("2017-01-23 16:04:25");
    assert_eq!(diff_naive_datetime(&c, &a), -2);
}

#[test]
fn minutes_across_a_leap_day() {
    let a = ts("2016-02-28 00:00:00");
    let b = ts("2016-03-01 00:00:00");
    assert_eq!(diff_naive_datetime(&a, &b), 2 * 1440);
}

#[test]
fn tokens_are_found_anywhere() {
    let line = "Arrived 16:02:24 on 2017-01-23";
    assert_eq!(find_token(line, Token::Date), Some(20));
    assert_eq!(find_token(line, Token::Time), Some(8));
    assert_eq!(find_token(line, Token::Status), Some(0));
    let r = parse_line(line).unwrap();
    assert_eq!(r.datetime, ts("2017-01-23 16:02:24"));
    assert_eq!(r.status, "Arrived 16:02:24 on 2017-01-23");
    assert_eq!(r.locale, None);
}

#[test]
fn status_runs_from_first_letter() {
    let r = parse_line("2017-01-23, 16:02:24, Departed Facility in CINCINNATI HUB,OH-USA").unwrap();
    assert_eq!(r.status, "Departed Facility in CINCINNATI HUB,OH-USA");
}

#[test]
fn joined_fields_still_parse() {
    let r = parse_line("2017-01-2316:02:24Departed").unwrap();
    assert_eq!(r.datetime, ts("2017-01-23 16:02:24"));
    assert_eq!(r.status, "Departed");
}

#[test]
fn malformed_lines_are_reported() {
    let missing_time = lines(&["2017-01-23, 16:02:24, Processed", "2017-01-23, Departed"]);
    assert_eq!(parse_raw_records(missing_time).unwrap_err(), ShipError::MalformedLine(1));
    let missing_status = lines(&["2017-01-23, 16:02:24, 5"]);
    assert_eq!(parse_raw_records(missing_status).unwrap_err(), ShipError::MalformedLine(0));
    let bad_date = lines(&["2017-02-30, 16:02:24, Departed"]);
    assert_eq!(data_builder(bad_date).unwrap_err(), ShipError::MalformedLine(0));
}

#[test]
fn records_sorted_and_stable() {
    let data = lines(&[
        "2017-01-23, 16:02:24, Second a",
        "2017-01-23, 14:48:08, First",
        "2017-01-23, 16:02:24, Second b",
        "2016-12-31, 23:00:00, Earliest",
    ]);
    let recs = parse_raw_records(data).unwrap();
    let statuses: Vec<&str> = recs.iter().map(|r| r.status.as_str()).collect();
    assert_eq!(statuses, vec!["Earliest", "First", "Second a", "Second b"]);
}

#[test]
fn empty_line_list_gives_no_records() {
    assert_eq!(parse_raw_records(Vec::new()).unwrap().len(), 0);
}

#[test]
fn locale_resolves_us() {
    assert_eq!(parse_raw_locale("Package moved to customs office; Maimi, US"), Some(usa()));
    assert_eq!(
        parse_raw_locale("Departed Facility in CINCINNATI HUB,OH-USA"),
        Some(usa())
    );
    assert_eq!(parse_raw_locale("Customs status updated;"), None);
}

#[test]
fn locale_token_picks_rightmost_nonempty() {
    assert_eq!(locale_token("Customs status updated;"), Some("updated".to_string()));
    assert_eq!(locale_token("Maimi, US"), Some("US".to_string()));
    assert_eq!(locale_token("a,,"), Some("a".to_string()));
    assert_eq!(locale_token("Canada"), Some("Canada".to_string()));
    assert_eq!(locale_token(""), None);
    assert_eq!(locale_token(";;;"), Some(";".to_string()));
    assert_eq!(locale_token(";"), None);
    assert_eq!(locale_token("x y;;"), Some("x y".to_string()));
}

#[test]
fn propagation_fills_forward() {
    let recs = vec![
        rec("2017-01-23 10:00:00", "a", None),
        rec("2017-01-23 11:00:00", "b", Some("Canada")),
        rec("2017-01-23 12:00:00", "c", None),
        rec("2017-01-23 13:00:00", "d", Some("Mexico")),
        rec("2017-01-23 14:00:00", "e", None),
    ];
    let filled = set_null_locales(recs).unwrap();
    let locs: Vec<String> = filled.iter().map(|r| r.locale.clone().unwrap()).collect();
    assert_eq!(locs, vec!["", "Canada", "Canada", "Mexico", "Mexico"]);
}

#[test]
fn propagation_twice_changes_nothing() {
    let recs = vec![
        rec("2017-01-23 10:00:00", "a", None),
        rec("2017-01-23 11:00:00", "b", Some("Canada")),
        rec("2017-01-23 12:00:00", "c", None),
    ];
    let once = set_null_locales(recs).unwrap();
    let twice = set_null_locales(once.clone()).unwrap();
    assert_eq!(once, twice);
}

#[test]
fn two_line_scenario() {
    let data = lines(&[
        "2017-01-23, 16:02:24, Departed Facility in CINCINNATI HUB,OH-USA",
        "2017-01-24, 18:10:36, Customs status updated;",
    ]);
    let base = set_locales(parse_raw_records(data.clone()).unwrap()).unwrap();
    assert_eq!(base[0].locale, Some(usa()));
    assert_eq!(base[1].locale, None);
    let recs = data_builder(data).unwrap();
    assert_eq!(recs.len(), 2);
    assert_eq!(recs[0].locale, Some(usa()));
    assert_eq!(recs[1].locale, Some(usa()));
    // 2017-01-23 16:02:24 to 2017-01-24 18:10:36 is one day, 2 h 8 min 12 s.
    assert_eq!(calc_total_shipment_time(&recs).unwrap(), 1568);
    let delay = calc_longest_delay(&recs).unwrap();
    assert_eq!(delay.minutes, 1568);
    assert_eq!(delay.from, recs[0]);
    assert_eq!(delay.to, recs[1]);
    let layovers = calc_layover_times(&recs).unwrap();
    assert_eq!(layovers.len(), 1);
    assert_eq!(layovers[0].to.locale, Some(usa()));
    assert_eq!(layovers[0].from, recs[0]);
    assert_eq!(layovers[0].to, recs[1]);
    assert_eq!(layovers[0].minutes, 1568);
}

#[test]
fn single_record_boundary() {
    let recs = data_builder(lines(&["2017-01-23, 16:02:24, Arrived in Canada"])).unwrap();
    assert_eq!(calc_total_shipment_time(&recs).unwrap(), 0);
    assert_eq!(calc_longest_delay(&recs).unwrap_err(), ShipError::EmptyInput);
    let layovers = calc_layover_times(&recs).unwrap();
    assert_eq!(layovers.len(), 1);
    assert_eq!(layovers[0].minutes, 0);
}

#[test]
fn empty_records_are_rejected() {
    let recs: Vec<Record> = Vec::new();
    assert_eq!(calc_total_shipment_time(&recs).unwrap_err(), ShipError::EmptyInput);
    assert_eq!(calc_longest_delay(&recs).unwrap_err(), ShipError::EmptyInput);
    assert_eq!(calc_layover_times(&recs).unwrap_err(), ShipError::EmptyInput);
    assert_eq!(calc_transfers(&recs).unwrap().len(), 0);
}

#[test]
fn unknown_locale_is_reported() {
    let recs = vec![rec("2017-01-23 10:00:00", "a", Some("Canada"))];
    assert_eq!(filter_layover_time(&recs, "Mexico").unwrap_err(), ShipError::LocaleNotFound);
}

#[test]
fn total_is_sum_of_steps() {
    let recs = vec![
        rec("2017-01-23 10:00:05", "a", Some("Canada")),
        rec("2017-01-23 10:30:05", "b", Some("Canada")),
        rec("2017-01-23 12:00:05", "c", Some("Mexico")),
        rec("2017-01-24 09:15:05", "d", Some("Mexico")),
    ];
    let total = calc_total_shipment_time(&recs).unwrap();
    let steps: i64 = calc_transfers(&recs).unwrap().iter().map(|t| t.minutes).sum();
    assert_eq!(total, steps);
    assert_eq!(total, 1395);
}

#[test]
fn longest_delay_takes_first_of_equal_steps() {
    let recs = vec![
        rec("2017-01-23 10:00:00", "a", Some("Canada")),
        rec("2017-01-23 11:00:00", "b", Some("Canada")),
        rec("2017-01-23 11:10:00", "c", Some("Canada")),
        rec("2017-01-23 12:10:00", "d", Some("Canada")),
    ];
    let delay = calc_longest_delay(&recs).unwrap();
    assert_eq!(delay.minutes, 60);
    assert_eq!(delay.from.status, "a");
    assert_eq!(delay.to.status, "b");
    for t in calc_transfers(&recs).unwrap() {
        assert!(t.minutes <= delay.minutes);
    }
    let again = longest_transfer(calc_transfers(&recs).unwrap());
    assert_eq!(again.from.status, "a");
}

#[test]
fn layovers_span_first_to_last_occurrence() {
    let recs = vec![
        rec("2017-01-23 10:00:00", "a", Some("Canada")),
        rec("2017-01-23 11:00:00", "b", Some("Mexico")),
        rec("2017-01-23 12:00:00", "c", Some("Canada")),
        rec("2017-01-23 12:30:00", "d", Some("Mexico")),
        rec("2017-01-23 13:00:00", "e", Some("Peru")),
    ];
    assert_eq!(generate_locales_list(&recs), vec!["Canada", "Mexico", "Peru"]);
    let layovers = calc_layover_times(&recs).unwrap();
    let spans: Vec<(String, String, i64)> = layovers
        .iter()
        .map(|t| (t.from.status.clone(), t.to.status.clone(), t.minutes))
        .collect();
    assert_eq!(
        spans,
        vec![
            ("a".to_string(), "c".to_string(), 120),
            ("b".to_string(), "d".to_string(), 90),
            ("e".to_string(), "e".to_string(), 0),
        ]
    );
}

#[test]
fn record_setters() {
    let mut r = Record::new(ts("2017-01-23 16:02:24"), "x".to_string()).unwrap();
    assert_eq!(r.locale, None);
    r.set_locale(Some("Canada".to_string()));
    assert_eq!(r.locale, Some("Canada".to_string()));
}
