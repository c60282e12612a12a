//! Unit checks of the calendar, the textual forms, the sent log and the
//! notification identifiers.

use studyplan::calendar::{Date, day_number, next_date, leap_year, month_days, date_instant};
use studyplan::model::{day_before_marker, same_day_marker, custom_marker, summary_marker, Slot};
use studyplan::notify::notif_id;
use studyplan::scheduler::bootstrap_watermark;
use studyplan::sentlog::SentLog;
use studyplan::timetext::{parse_date, parse_time, parse_datetime, format_date, format_instant};

#[test]
fn known_day_numbers() {
    assert_eq!(day_number(&Date { year: 0, month: 1, day: 1 }), 0);
    assert_eq!(day_number(&Date { year: 0, month: 1, day: 2 }), 1);
    assert_eq!(day_number(&Date { year: 1970, month: 1, day: 1 }), 719528);
    assert_eq!(day_number(&Date { year: 2024, month: 6, day: 10 }), 739412);
}

#[test]
fn successor_steps_through_month_and_year_ends() {
    let n = next_date(&Date { year: 2024, month: 2, day: 28 });
    assert_eq!((n.year, n.month, n.day), (2024, 2, 29));
    let n = next_date(&Date { year: 2023, month: 2, day: 28 });
    assert_eq!((n.year, n.month, n.day), (2023, 3, 1));
    let n = next_date(&Date { year: 2024, month: 12, day: 31 });
    assert_eq!((n.year, n.month, n.day), (2025, 1, 1));
    let d = Date { year: 2024, month: 6, day: 10 };
    assert_eq!(day_number(&next_date(&d)), day_number(&d) + 1);
}

#[test]
fn leap_year_rules() {
    assert!(leap_year(2024));
    assert!(!leap_year(1900));
    assert!(leap_year(2000));
    assert!(!leap_year(2023));
    assert_eq!(month_days(2024, 2), 29);
    assert_eq!(month_days(1900, 2), 28);
    assert_eq!(month_days(2024, 4), 30);
}

#[test]
fn instants_count_seconds() {
    let d = Date { year: 2024, month: 6, day: 10 };
    assert_eq!(date_instant(&d, 10, 0, 0), 63885232800);
    let before_midnight = parse_datetime("2024-06-10T23:59:59").unwrap();
    let midnight = parse_datetime("2024-06-11T00:00:00").unwrap();
    assert_eq!(midnight - before_midnight, 1);
}

#[test]
fn date_parsing_accepts_only_real_zero_padded_dates() {
    assert!(parse_date("2024-06-10").is_some());
    assert!(parse_date("2024-02-29").is_some());
    assert!(parse_date("2023-02-29").is_none());
    assert!(parse_date("2024-02-30").is_none());
    assert!(parse_date("2024-13-01").is_none());
    assert!(parse_date("2024-00-10").is_none());
    assert!(parse_date("2024-06-00").is_none());
    assert!(parse_date("2024-6-10").is_none());
    assert!(parse_date("24-06-10").is_none());
    assert!(parse_date("2024/06/10").is_none());
    assert!(parse_date("").is_none());
    let d = parse_date("2024-06-10").unwrap();
    assert_eq!((d.year, d.month, d.day), (2024, 6, 10));
    assert_eq!(format_date(&d), "2024-06-10");
}

#[test]
fn time_parsing_accepts_only_zero_padded_times() {
    let t = parse_time("08:05").unwrap();
    assert_eq!((t.hour, t.minute), (8, 5));
    assert!(parse_time("23:59").is_some());
    assert!(parse_time("24:00").is_none());
    assert!(parse_time("08:60").is_none());
    assert!(parse_time("8:00").is_none());
    assert!(parse_time("08-00").is_none());
    assert!(parse_time("").is_none());
    assert!(parse_time("ab:cd").is_none());
}

#[test]
fn datetime_parsing_matches_its_parts() {
    assert!(parse_datetime("2024-06-10T08:00:00").is_some());
    assert!(parse_datetime("2024-06-10 08:00:00").is_none());
    assert!(parse_datetime("2024-06-10T08:00:60").is_none());
    assert!(parse_datetime("2024-06-10T08:00").is_none());
    let d = Date { year: 2024, month: 6, day: 10 };
    assert_eq!(
        parse_datetime("2024-06-10T07:59:50").unwrap(),
        date_instant(&d, 7, 59, 50)
    );
}

#[test]
fn marker_composition_is_exact() {
    assert_eq!(day_before_marker("2024-06-10", "08:00"), "day-before:2024-06-10:08:00");
    assert_eq!(same_day_marker("2024-06-10", "08:00"), "same-day:2024-06-10:08:00");
    assert_eq!(custom_marker("2024-06-10", "09:00", 30), "custom:2024-06-10:09:00:30");
    assert_eq!(custom_marker("2024-06-10", "09:00", 1005), "custom:2024-06-10:09:00:1005");
    let d = Date { year: 2024, month: 6, day: 10 };
    assert_eq!(summary_marker(Slot::Morning, &d), "summary-morning:2024-06-10");
    assert_eq!(summary_marker(Slot::Afternoon, &d), "summary-afternoon:2024-06-10");
    assert_eq!(summary_marker(Slot::Evening, &d), "summary-evening:2024-06-10");
}

#[test]
fn bootstrap_watermark_formula() {
    assert_eq!(bootstrap_watermark(None, 1000000), 1000000 - 65);
    assert_eq!(bootstrap_watermark(Some(1000000 - 10), 1000000), 1000000 - 10);
    assert_eq!(bootstrap_watermark(Some(0), 1000000), 1000000 - 86400);
}

#[test]
fn sent_log_caps_at_five_hundred_fifo() {
    let mut log = SentLog::new();
    for i in 0..501u32 {
        log.record(format!("summary-morning:{:04}-01-01", i));
    }
    assert_eq!(log.len(), 500);
    assert!(!log.contains_marker(&"summary-morning:0000-01-01".to_string()));
    assert!(log.contains_marker(&"summary-morning:0001-01-01".to_string()));
    assert!(log.contains_marker(&"summary-morning:0500-01-01".to_string()));
}

#[test]
fn sent_log_rebuild_keeps_newest_entries() {
    let entries: Vec<String> = (0..600u32).map(|i| format!("e:{:04}-01-01", i)).collect();
    let log = SentLog::from_entries(entries);
    assert_eq!(log.len(), 500);
    assert!(!log.contains_marker(&"e:0099-01-01".to_string()));
    assert!(log.contains_marker(&"e:0100-01-01".to_string()));
    assert!(log.contains_marker(&"e:0599-01-01".to_string()));
}

#[test]
fn sent_log_prune_keeps_today_and_tomorrow_tags() {
    let mut log = SentLog::from_entries(vec![
        "summary-morning:2024-06-09".to_string(),
        "summary-morning:2024-06-10".to_string(),
        "summary-evening:2024-06-11".to_string(),
        "untagged".to_string(),
        "summary-evening:2024-07-10".to_string(),
    ]);
    let today = Date { year: 2024, month: 6, day: 10 };
    let tomorrow = Date { year: 2024, month: 6, day: 11 };
    log.prune(&today, &tomorrow);
    assert_eq!(
        log.entries().clone(),
        vec![
            "summary-morning:2024-06-10".to_string(),
            "summary-evening:2024-06-11".to_string(),
        ]
    );
}

#[test]
fn notif_id_is_stable_positive_and_odd() {
    assert_eq!(notif_id("a"), 1678518573);
    assert_eq!(notif_id("a"), notif_id("a"));
    for seed in ["", "a", "same-day:2024-06-10:08:00", "summary-morning:2024-06-10"] {
        let id = notif_id(seed);
        assert!(id >= 1);
        assert_eq!(id % 2, 1);
    }
    assert_ne!(
        notif_id("same-day:2024-06-10:08:00"),
        notif_id("day-before:2024-06-10:08:00")
    );
}

#[test]
fn clock_reads_a_valid_moment() {
    let m = studyplan::clock::read_clock().expect("clock within modelled years");
    assert!(m.date.month >= 1 && m.date.month <= 12);
    assert!(m.date.day >= 1 && m.date.day <= 31);
    assert!(m.hour <= 23 && m.minute <= 59 && m.second <= 59);
    assert!(m.instant() > 0);
}

#[test]
fn instant_formatting_round_trips() {
    for s in [
        "2024-06-10T07:59:50",
        "0000-01-01T00:00:00",
        "9999-12-31T23:59:59",
        "2024-02-29T12:30:00",
        "2024-12-31T23:59:59",
        "2024-06-10T09:58:55",
    ] {
        let t = parse_datetime(s).unwrap();
        assert_eq!(format_instant(t), s);
    }
    assert_eq!(format_instant(0), "0000-01-01T00:00:00");
    assert_eq!(format_instant(86400), "0000-01-02T00:00:00");
}
