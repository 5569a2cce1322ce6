use celes::Country;
use shiptracker::calc::{calc_transfers, filter_layover_time, generate_locales_list};
use shiptracker::extract::parse_raw_records;
use shiptracker::locale::{parse_raw_locale, set_locales, set_null_locales};
use shiptracker::record::Record;
use shiptracker::timestamp::{diff_naive_datetime, parse_naive_datetime, Timestamp};
use shiptracker::transfer::Transfer;

fn ts(s: &str) -> Timestamp {
    parse_naive_datetime(s).unwrap()
}

fn usa() -> String {
    Country::the_united_states_of_america().to_string()
}

fn two_usa_records() -> Vec<Record> {
    vec![
        Record {
            datetime: ts("2017-01-23 16:02:24"),
            status: "Departed Facility in CINCINNATI HUB,OH-USA".to_string(),
            locale: Some(usa()),
        },
        Record {
            datetime: ts("2017-01-24 18:10:36"),
            status: "Customs status updated;".to_string(),
            locale: Some(usa()),
        },
    ]
}

#[test]
fn create_datetime() {
    assert!(parse_naive_datetime("2017-01-23 16:02:24").is_some())
}

#[test]
fn get_raw_locale() {
    assert!(parse_raw_locale("Package moved to customs office; Maimi, US").is_some())
}

#[test]
fn raw_records() {
    let str_recs = vec![
        "2017-01-23, 16:02:24, Departed Facility in CINCINNATI HUB,OH-USA".to_string(),
        "2017-01-23, 14:48:08, Processed at CINCINNATI HUB,OH-USA".to_string(),
    ];
    assert!(parse_raw_records(str_recs).is_ok())
}

#[test]
fn set_empty_locale() {
    let recs = vec![Record {
        datetime: ts("2017-01-23 16:02:24"),
        status: "Departed Facility in CINCINNATI HUB,OH-USA".to_string(),
        locale: None,
    }];
    assert!(set_locales(recs).is_ok())
}

#[test]
fn set_nulls() {
    let recs = vec![
        Record {
            datetime: ts("2017-01-23 16:02:24"),
            status: "Departed Facility in CINCINNATI HUB,OH-USA".to_string(),
            locale: Some(usa()),
        },
        Record {
            datetime: ts("2017-01-24 18:10:36"),
            status: "Customs status updated;".to_string(),
            locale: None,
        },
    ];
    let new_recs = set_null_locales(recs).unwrap();
    assert_eq!(new_recs[0].locale, new_recs[1].locale)
}

#[test]
fn test_diff_naive_datetime() {
    let dt_1 = ts("2017-01-22 15:23:58");
    let dt_2 = ts("2017-01-23 16:02:24");
    let sum = diff_naive_datetime(&dt_1, &dt_2);
    assert_eq!(sum, 1478);
}

#[test]
fn test_transfers() {
    let recs = two_usa_records();
    let transfers = calc_transfers(&recs);
    assert!(transfers.is_ok());
}

#[test]
fn gen_locales_vec() {
    let recs = two_usa_records();
    let locales = generate_locales_list(&recs);
    assert_eq!(locales[0], usa())
}

#[test]
fn filter_for_good_locale() {
    let recs = two_usa_records();
    let search_locale = usa();
    assert!(filter_layover_time(&recs, &search_locale).is_ok())
}

#[test]
#[should_panic]
fn filter_for_bad_locale() {
    let recs = two_usa_records();
    let search_locale = Country::canada().to_string();
    filter_layover_time(&recs, &search_locale).unwrap();
}

#[test]
fn record_good_input() {
    let dt = ts("2017-01-23 16:02:24");
    assert!(Record::new(dt, "Package arrived at destination".to_string()).is_ok())
}

#[test]
fn transfer_good_input() {
    let recs = vec![
        Record {
            datetime: ts("2017-01-23 16:02:24"),
            status: "Departed Facility in CINCINNATI HUB,OH-USA".to_string(),
            locale: Some(usa()),
        },
        Record {
            datetime: ts("2017-01-24 18:10:36"),
            status: "Customs status updated;".to_string(),
            locale: None,
        },
    ];
    assert!(Transfer::new(recs[0].clone(), recs[1].clone(), 69).is_ok());
}
