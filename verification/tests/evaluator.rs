//! Window-evaluator behaviour: rule targets, window boundaries, malformed
//! records, and the briefing bodies.

use studyplan::calendar::Date;
use studyplan::evaluate::{eval_event, evaluate_window, in_window, day_counts};
use studyplan::model::{Event, Reminders, ReminderRule, Settings, SlotConfig, NoteContent};
use studyplan::sentlog::SentLog;
use studyplan::timetext::parse_datetime;

fn rule(enabled: bool, time: &str) -> ReminderRule {
    ReminderRule { enabled, time: time.to_string() }
}

fn event(date: &str, title: &str, time_start: &str, reminders: Option<Reminders>) -> Event {
    Event {
        id: String::from("ev"),
        date: date.to_string(),
        title: title.to_string(),
        time_start: time_start.to_string(),
        completed: false,
        reminders,
        sent_markers: Vec::new(),
    }
}

fn settings(morning: bool, afternoon: bool, evening: bool) -> Settings {
    Settings {
        morning: SlotConfig { enabled: morning, time: "07:30".to_string() },
        afternoon: SlotConfig { enabled: afternoon, time: "14:00".to_string() },
        evening: SlotConfig { enabled: evening, time: "21:00".to_string() },
    }
}

#[test]
fn window_is_open_at_start_closed_at_end() {
    let t = parse_datetime("2024-06-10T08:00:00").unwrap();
    assert!(!in_window(t, t, t + 10));
    assert!(in_window(t, t - 1, t));
    assert!(in_window(t, t - 1, t + 1));
    assert!(!in_window(t, t + 1, t - 1));
}

#[test]
fn target_equal_to_start_is_excluded() {
    let start = parse_datetime("2024-06-10T08:00:00").unwrap();
    let ev = event(
        "2024-06-10",
        "Algebra",
        "",
        Some(Reminders {
            day_before: None,
            same_day: Some(rule(true, "08:00")),
            custom_remind_minutes: None,
        }),
    );
    let (notes, _) = eval_event(ev, start, start + 60);
    assert_eq!(notes.len(), 0);
}

#[test]
fn target_equal_to_end_is_included() {
    let end = parse_datetime("2024-06-10T08:00:00").unwrap();
    let ev = event(
        "2024-06-10",
        "Algebra",
        "",
        Some(Reminders {
            day_before: None,
            same_day: Some(rule(true, "08:00")),
            custom_remind_minutes: None,
        }),
    );
    let (notes, updated) = eval_event(ev, end - 60, end);
    assert_eq!(notes.len(), 1);
    assert_eq!(notes[0].marker, "same-day:2024-06-10:08:00");
    assert_eq!(updated.sent_markers.len(), 1);
}

#[test]
fn day_before_targets_previous_day() {
    // Event on the 11th, day-before rule at 20:00: the target instant is
    // the 10th at 20:00.
    let ev = event(
        "2024-06-11",
        "Exam",
        "09:00",
        Some(Reminders {
            day_before: Some(rule(true, "20:00")),
            same_day: None,
            custom_remind_minutes: None,
        }),
    );
    let t = parse_datetime("2024-06-10T20:00:00").unwrap();
    let (notes, _) = eval_event(ev, t - 30, t + 30);
    assert_eq!(notes.len(), 1);
    assert_eq!(notes[0].marker, "day-before:2024-06-11:20:00");
    assert!(matches!(notes[0].content, NoteContent::DayBefore { .. }));
}

#[test]
fn custom_offset_counts_minutes_before_start() {
    // Start 09:00, 30 minutes before: target 08:30, marker keyed by date,
    // start and offset.
    let ev = event(
        "2024-06-10",
        "Lab",
        "09:00",
        Some(Reminders {
            day_before: None,
            same_day: None,
            custom_remind_minutes: Some(30),
        }),
    );
    let t = parse_datetime("2024-06-10T08:30:00").unwrap();
    let (notes, _) = eval_event(ev, t - 1, t);
    assert_eq!(notes.len(), 1);
    assert_eq!(notes[0].marker, "custom:2024-06-10:09:00:30");
    assert!(matches!(notes[0].content, NoteContent::Custom { minutes_before: 30, .. }));
}

#[test]
fn custom_offset_crosses_midnight_backward() {
    // Start 00:10 on the 11th, 30 minutes before: target 23:40 on the 10th.
    let ev = event(
        "2024-06-11",
        "Shuttle",
        "00:10",
        Some(Reminders {
            day_before: None,
            same_day: None,
            custom_remind_minutes: Some(30),
        }),
    );
    let t = parse_datetime("2024-06-10T23:40:00").unwrap();
    let (notes, _) = eval_event(ev, t - 1, t);
    assert_eq!(notes.len(), 1);
    assert_eq!(notes[0].marker, "custom:2024-06-11:00:10:30");
}

#[test]
fn malformed_fields_skip_only_that_rule() {
    // A bad time string and a bad calendar day never fire and never error;
    // a rule with zero or negative offset is skipped too.
    let bad_time = event(
        "2024-06-10",
        "A",
        "",
        Some(Reminders {
            day_before: None,
            same_day: Some(rule(true, "8:00")),
            custom_remind_minutes: None,
        }),
    );
    let bad_date = event(
        "2024-02-30",
        "B",
        "",
        Some(Reminders {
            day_before: None,
            same_day: Some(rule(true, "08:00")),
            custom_remind_minutes: None,
        }),
    );
    let zero_offset = event(
        "2024-06-10",
        "C",
        "09:00",
        Some(Reminders {
            day_before: None,
            same_day: None,
            custom_remind_minutes: Some(0),
        }),
    );
    let start = parse_datetime("2024-06-09T00:00:00").unwrap();
    let end = parse_datetime("2024-06-12T00:00:00").unwrap();
    for ev in [bad_time, bad_date, zero_offset] {
        let (notes, updated) = eval_event(ev, start, end);
        assert_eq!(notes.len(), 0);
        assert_eq!(updated.sent_markers.len(), 0);
    }
}

#[test]
fn disabled_rule_never_fires() {
    let ev = event(
        "2024-06-10",
        "Algebra",
        "",
        Some(Reminders {
            day_before: None,
            same_day: Some(rule(false, "08:00")),
            custom_remind_minutes: None,
        }),
    );
    let start = parse_datetime("2024-06-09T00:00:00").unwrap();
    let end = parse_datetime("2024-06-12T00:00:00").unwrap();
    let (notes, _) = eval_event(ev, start, end);
    assert_eq!(notes.len(), 0);
}

#[test]
fn all_three_rules_fire_in_rule_order() {
    // One wide window catches day-before, same-day and custom at once; the
    // markers appear in rule order and all land on the event.
    let ev = event(
        "2024-06-11",
        "Exam",
        "09:00",
        Some(Reminders {
            day_before: Some(rule(true, "20:00")),
            same_day: Some(rule(true, "07:00")),
            custom_remind_minutes: Some(15),
        }),
    );
    let start = parse_datetime("2024-06-10T00:00:00").unwrap();
    let end = parse_datetime("2024-06-12T00:00:00").unwrap();
    let (notes, updated) = eval_event(ev, start, end);
    let markers: Vec<String> = notes.iter().map(|n| n.marker.clone()).collect();
    assert_eq!(
        markers,
        vec![
            "day-before:2024-06-11:20:00".to_string(),
            "same-day:2024-06-11:07:00".to_string(),
            "custom:2024-06-11:09:00:15".to_string(),
        ]
    );
    assert_eq!(updated.sent_markers, markers);
}

#[test]
fn replaying_the_same_window_is_idempotent() {
    let ev = event(
        "2024-06-10",
        "Algebra",
        "",
        Some(Reminders {
            day_before: None,
            same_day: Some(rule(true, "08:00")),
            custom_remind_minutes: None,
        }),
    );
    let start = parse_datetime("2024-06-10T07:59:00").unwrap();
    let end = parse_datetime("2024-06-10T08:01:00").unwrap();
    let (first, updated) = eval_event(ev, start, end);
    assert_eq!(first.len(), 1);
    let (again, _) = eval_event(updated, start, end);
    assert_eq!(again.len(), 0);
}

#[test]
fn evening_reports_completed_of_total_and_tomorrow_separately() {
    // One of two events today completed, three events tomorrow: the evening
    // slot emits a completed/total summary and a separate tomorrow preview,
    // both under the evening marker.
    let mut done = event("2024-06-10", "Done", "08:00", None);
    done.completed = true;
    let events = vec![
        done,
        event("2024-06-10", "Open", "18:00", None),
        event("2024-06-11", "T1", "09:00", None),
        event("2024-06-11", "T2", "10:00", None),
        event("2024-06-11", "T3", "11:00", None),
    ];
    let today = Date { year: 2024, month: 6, day: 10 };
    let tomorrow = Date { year: 2024, month: 6, day: 11 };
    let start = parse_datetime("2024-06-10T20:59:00").unwrap();
    let end = parse_datetime("2024-06-10T21:01:00").unwrap();
    let mut log = SentLog::new();
    let (notes, _, changed) = evaluate_window(
        events,
        &settings(false, false, true),
        &today,
        &tomorrow,
        start,
        end,
        &mut log,
    );
    assert!(!changed);
    assert_eq!(notes.len(), 2);
    assert_eq!(notes[0].marker, "summary-evening:2024-06-10");
    assert_eq!(notes[1].marker, "summary-evening:2024-06-10");
    assert!(matches!(
        notes[0].content,
        NoteContent::EveningSummary { completed_today: 1, total_today: 2 }
    ));
    assert!(matches!(notes[1].content, NoteContent::TomorrowPreview { tomorrow_count: 3 }));
    assert!(log.contains_marker(&"summary-evening:2024-06-10".to_string()));
}

#[test]
fn evening_with_only_tomorrow_previews_tomorrow() {
    let events = vec![event("2024-06-11", "T1", "09:00", None)];
    let today = Date { year: 2024, month: 6, day: 10 };
    let tomorrow = Date { year: 2024, month: 6, day: 11 };
    let start = parse_datetime("2024-06-10T20:59:00").unwrap();
    let end = parse_datetime("2024-06-10T21:01:00").unwrap();
    let mut log = SentLog::new();
    let (notes, _, _) = evaluate_window(
        events,
        &settings(false, false, true),
        &today,
        &tomorrow,
        start,
        end,
        &mut log,
    );
    assert_eq!(notes.len(), 1);
    assert!(matches!(notes[0].content, NoteContent::TomorrowPreview { tomorrow_count: 1 }));
}

#[test]
fn afternoon_is_suppressed_when_nothing_remains() {
    // Both of today's events completed: afternoon (and morning) stay
    // silent; evening still reports two of two.
    let mut a = event("2024-06-10", "A", "08:00", None);
    a.completed = true;
    let mut b = event("2024-06-10", "B", "09:00", None);
    b.completed = true;
    let events = vec![a, b];
    let today = Date { year: 2024, month: 6, day: 10 };
    let tomorrow = Date { year: 2024, month: 6, day: 11 };
    let start = parse_datetime("2024-06-10T00:00:00").unwrap();
    let end = parse_datetime("2024-06-10T23:00:00").unwrap();
    let mut log = SentLog::new();
    let (notes, _, _) = evaluate_window(
        events,
        &settings(true, true, true),
        &today,
        &tomorrow,
        start,
        end,
        &mut log,
    );
    assert_eq!(notes.len(), 1);
    assert_eq!(notes[0].marker, "summary-evening:2024-06-10");
    assert!(matches!(
        notes[0].content,
        NoteContent::EveningSummary { completed_today: 2, total_today: 2 }
    ));
}

#[test]
fn counts_ignore_events_with_unparseable_dates() {
    let events = vec![
        event("2024-06-10", "A", "08:00", None),
        event("not-a-date", "B", "09:00", None),
        event("2024-6-10", "C", "10:00", None),
    ];
    let today = Date { year: 2024, month: 6, day: 10 };
    let tomorrow = Date { year: 2024, month: 6, day: 11 };
    let c = day_counts(&events, &today, &tomorrow);
    assert_eq!(c.total_today, 1);
    assert_eq!(c.pending_today, 1);
    assert_eq!(c.tomorrow_count, 0);
}

#[test]
fn two_events_sharing_date_and_time_both_fire() {
    // Two events with the same same-day rule share the marker string but
    // keep it in their own marker sets; both fire their own notification.
    let reminders = || Some(Reminders {
        day_before: None,
        same_day: Some(rule(true, "08:00")),
        custom_remind_minutes: None,
    });
    let events = vec![
        event("2024-06-10", "First", "09:00", reminders()),
        event("2024-06-10", "Second", "10:00", reminders()),
    ];
    let today = Date { year: 2024, month: 6, day: 10 };
    let tomorrow = Date { year: 2024, month: 6, day: 11 };
    let start = parse_datetime("2024-06-10T07:59:00").unwrap();
    let end = parse_datetime("2024-06-10T08:01:00").unwrap();
    let mut log = SentLog::new();
    let (notes, out_events, changed) = evaluate_window(
        events,
        &settings(false, false, false),
        &today,
        &tomorrow,
        start,
        end,
        &mut log,
    );
    assert!(changed);
    assert_eq!(notes.len(), 2);
    assert_eq!(notes[0].marker, notes[1].marker);
    assert_eq!(out_events[0].sent_markers.len(), 1);
    assert_eq!(out_events[1].sent_markers.len(), 1);
}
