//! End-to-end scheduler scenarios: single events through ticks of the
//! state machine.

use studyplan::calendar::Date;
use studyplan::clock::Moment;
use studyplan::model::{Event, Reminders, ReminderRule, Settings, SlotConfig, NoteContent};
use studyplan::scheduler::AppState;
use studyplan::sentlog::SentLog;
use studyplan::timetext::parse_datetime;

fn rule(enabled: bool, time: &str) -> ReminderRule {
    ReminderRule { enabled, time: time.to_string() }
}

fn event(date: &str, title: &str, time_start: &str, reminders: Option<Reminders>) -> Event {
    Event {
        id: String::from("ev-1"),
        date: date.to_string(),
        title: title.to_string(),
        time_start: time_start.to_string(),
        completed: false,
        reminders,
        sent_markers: Vec::new(),
    }
}

fn quiet_settings() -> Settings {
    Settings {
        morning: SlotConfig { enabled: false, time: "07:30".to_string() },
        afternoon: SlotConfig { enabled: false, time: "14:00".to_string() },
        evening: SlotConfig { enabled: false, time: "21:00".to_string() },
    }
}

fn same_day_only(time: &str) -> Option<Reminders> {
    Some(Reminders {
        day_before: None,
        same_day: Some(rule(true, time)),
        custom_remind_minutes: None,
    })
}

#[test]
fn same_day_fires_once_in_window() {
    // Tick window ("2024-06-10T07:59:50", "2024-06-10T08:00:10"]: the 08:00
    // same-day rule fires once and its marker is recorded on the event.
    let wm = parse_datetime("2024-06-10T07:59:50").unwrap();
    let mut state = AppState { watermark: wm, sent_log: SentLog::new() };
    let now = Moment { date: Date { year: 2024, month: 6, day: 10 }, hour: 8, minute: 0, second: 10 };
    let events = vec![event("2024-06-10", "Algebra", "09:00", same_day_only("08:00"))];
    let out = state.tick(events, &quiet_settings(), &now);
    assert_eq!(out.notifications.len(), 1);
    assert_eq!(out.notifications[0].marker, "same-day:2024-06-10:08:00");
    assert!(matches!(out.notifications[0].content, NoteContent::SameDay { .. }));
    assert!(out.events_changed);
    assert_eq!(out.events[0].sent_markers, vec!["same-day:2024-06-10:08:00".to_string()]);
    assert_eq!(state.watermark, parse_datetime("2024-06-10T08:00:10").unwrap());
}

#[test]
fn same_day_does_not_refire_next_tick() {
    // A second tick with window ("2024-06-10T08:00:10", "2024-06-10T08:01:10"]
    // sees the marker and fires nothing.
    let wm = parse_datetime("2024-06-10T07:59:50").unwrap();
    let mut state = AppState { watermark: wm, sent_log: SentLog::new() };
    let now1 = Moment { date: Date { year: 2024, month: 6, day: 10 }, hour: 8, minute: 0, second: 10 };
    let events = vec![event("2024-06-10", "Algebra", "09:00", same_day_only("08:00"))];
    let out1 = state.tick(events, &quiet_settings(), &now1);
    assert_eq!(out1.notifications.len(), 1);
    let now2 = Moment { date: Date { year: 2024, month: 6, day: 10 }, hour: 8, minute: 1, second: 10 };
    let out2 = state.tick(out1.events, &quiet_settings(), &now2);
    assert_eq!(out2.notifications.len(), 0);
    assert!(!out2.events_changed);
}

#[test]
fn morning_summary_fires_once_with_count() {
    // Morning briefing at 07:30 with two pending events today: exactly one
    // summary, body count 2; a repeat tick the same day stays silent.
    let settings = Settings {
        morning: SlotConfig { enabled: true, time: "07:30".to_string() },
        afternoon: SlotConfig { enabled: false, time: "14:00".to_string() },
        evening: SlotConfig { enabled: false, time: "21:00".to_string() },
    };
    let wm = parse_datetime("2024-06-10T07:29:00").unwrap();
    let mut state = AppState { watermark: wm, sent_log: SentLog::new() };
    let now = Moment { date: Date { year: 2024, month: 6, day: 10 }, hour: 7, minute: 31, second: 0 };
    let events = vec![
        event("2024-06-10", "Algebra", "09:00", None),
        event("2024-06-10", "Physics", "11:00", None),
    ];
    let out = state.tick(events, &settings, &now);
    assert_eq!(out.notifications.len(), 1);
    assert_eq!(out.notifications[0].marker, "summary-morning:2024-06-10");
    assert!(matches!(
        out.notifications[0].content,
        NoteContent::MorningSummary { pending_today: 2 }
    ));
    assert!(!out.events_changed);
    assert!(state
        .sent_log
        .contains_marker(&"summary-morning:2024-06-10".to_string()));
    let now2 = Moment { date: Date { year: 2024, month: 6, day: 10 }, hour: 9, minute: 0, second: 0 };
    // a later window no longer contains 07:30, and the marker blocks it
    let out2 = state.tick(out.events, &settings, &now2);
    assert_eq!(out2.notifications.len(), 0);
}

#[test]
fn missing_watermark_bootstraps_sixty_five_seconds_back() {
    // Watermark file missing at startup, real time 10:00:00: the bootstrap
    // watermark is 09:58:55, and a target inside (09:58:55, 10:00:00]
    // fires on the first tick.
    let now_instant = parse_datetime("2024-06-10T10:00:00").unwrap();
    let mut state = AppState::start(None, Vec::new(), now_instant);
    assert_eq!(state.watermark, parse_datetime("2024-06-10T09:58:55").unwrap());
    let now = Moment { date: Date { year: 2024, month: 6, day: 10 }, hour: 10, minute: 0, second: 0 };
    let events = vec![event("2024-06-10", "Algebra", "10:30", same_day_only("09:59"))];
    let out = state.tick(events, &quiet_settings(), &now);
    assert_eq!(out.notifications.len(), 1);
    assert_eq!(out.notifications[0].marker, "same-day:2024-06-10:09:59");
}

#[test]
fn stale_watermark_is_clamped_to_one_day() {
    // A watermark three days old is clamped to now - 24h before the first
    // evaluation; older targets are skipped for good.
    let now_instant = parse_datetime("2024-06-10T10:00:00").unwrap();
    let stale = parse_datetime("2024-06-07T10:00:00").unwrap();
    let state = AppState::start(Some(stale), Vec::new(), now_instant);
    assert_eq!(state.watermark, parse_datetime("2024-06-09T10:00:00").unwrap());
}

#[test]
fn recent_watermark_is_kept() {
    let now_instant = parse_datetime("2024-06-10T10:00:00").unwrap();
    let recent = parse_datetime("2024-06-10T09:59:00").unwrap();
    let state = AppState::start(Some(recent), Vec::new(), now_instant);
    assert_eq!(state.watermark, recent);
}

#[test]
fn clock_moving_backward_fires_nothing_and_keeps_watermark() {
    // A tick whose now precedes the watermark is an empty window; the
    // watermark does not move backward.
    let wm = parse_datetime("2024-06-10T08:00:00").unwrap();
    let mut state = AppState { watermark: wm, sent_log: SentLog::new() };
    let now = Moment { date: Date { year: 2024, month: 6, day: 10 }, hour: 7, minute: 0, second: 0 };
    let events = vec![event("2024-06-10", "Algebra", "09:00", same_day_only("07:30"))];
    let out = state.tick(events, &quiet_settings(), &now);
    assert_eq!(out.notifications.len(), 0);
    assert_eq!(state.watermark, wm);
}

#[test]
fn hour_jump_between_ticks_catches_up_exactly_once() {
    // The clock leaps hours between two ticks: the rule inside the jump
    // fires in the tick that first covers it, and never again.
    let wm = parse_datetime("2024-06-10T07:00:00").unwrap();
    let mut state = AppState { watermark: wm, sent_log: SentLog::new() };
    let events = vec![event("2024-06-10", "Algebra", "15:00", same_day_only("09:30"))];
    let now1 = Moment { date: Date { year: 2024, month: 6, day: 10 }, hour: 7, minute: 1, second: 0 };
    let out1 = state.tick(events, &quiet_settings(), &now1);
    assert_eq!(out1.notifications.len(), 0);
    let now2 = Moment { date: Date { year: 2024, month: 6, day: 10 }, hour: 14, minute: 0, second: 0 };
    let out2 = state.tick(out1.events, &quiet_settings(), &now2);
    assert_eq!(out2.notifications.len(), 1);
    assert_eq!(out2.notifications[0].marker, "same-day:2024-06-10:09:30");
    let now3 = Moment { date: Date { year: 2024, month: 6, day: 10 }, hour: 14, minute: 1, second: 0 };
    let out3 = state.tick(out2.events, &quiet_settings(), &now3);
    assert_eq!(out3.notifications.len(), 0);
}

#[test]
fn midnight_tick_prunes_stale_log_entries() {
    // At 00:00 the sent log keeps only entries tagged with today's or
    // tomorrow's date.
    let entries = vec![
        "summary-morning:2024-06-09".to_string(),
        "summary-evening:2024-06-10".to_string(),
        "summary-morning:2024-06-11".to_string(),
    ];
    let wm = parse_datetime("2024-06-09T23:59:30").unwrap();
    let mut state = AppState { watermark: wm, sent_log: SentLog::from_entries(entries) };
    let now = Moment { date: Date { year: 2024, month: 6, day: 10 }, hour: 0, minute: 0, second: 20 };
    let _ = state.tick(Vec::new(), &quiet_settings(), &now);
    assert_eq!(
        state.sent_log.entries().clone(),
        vec![
            "summary-evening:2024-06-10".to_string(),
            "summary-morning:2024-06-11".to_string(),
        ]
    );
}
