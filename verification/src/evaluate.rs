//! The window evaluator: the pure heart of the engine. Given a snapshot of
//! events and settings, a half-open time window `(start, end]` and the
//! current marker state, it decides exactly which reminders fire now, and
//! which markers must be persisted so they never fire again.

use vstd::prelude::*;
use crate::calendar::{Date, instant_of};
use crate::timetext::{
    is_date_seq, is_time_seq, date_of_seq, seq_hour, seq_minute, parse_date, parse_time,
};
use crate::model::{
    Event, ReminderRule, Notification, NoteContent, Settings, SlotConfig, Slot,
    day_before_marker_seq, same_day_marker_seq, custom_marker_seq, summary_marker_seq,
    day_before_marker, same_day_marker, custom_marker, summary_marker,
    lemma_event_marker_kinds_distinct, lemma_summary_markers_distinct, markers_of, views_of,
};
use crate::sentlog::{SentLog, spec_record};

verus! {

/// Largest custom offset, in minutes, the engine honours; anything beyond is
/// treated like an unparseable field and skipped.
pub const MAX_CUSTOM_MINUTES: i64 = 1_000_000_000;

/// Membership in the evaluation window: open at `start`, closed at `end`.
/// A window with `end < start` (a clock that moved backward) contains
/// nothing.
pub open spec fn in_window_spec(t: int, start: int, end: int) -> bool {
    start < t && t <= end
}

pub fn in_window(t: i64, start: i64, end: i64) -> (b: bool)
    ensures
        b == in_window_spec(t as int, start as int, end as int),
{
    start < t && t <= end
}

/// Whether marker `m` is among the rendered markers `ms`.
pub open spec fn has_marker(ms: Seq<String>, m: Seq<char>) -> bool {
    exists|i: int| 0 <= i < ms.len() && ms[i]@ == m
}

fn vec_has_marker(ms: &Vec<String>, m: &String) -> (b: bool)
    ensures
        b == has_marker(ms@, m@),
{
    let mut i: usize = 0;
    while i < ms.len()
        invariant
            i <= ms@.len(),
            forall|j: int| 0 <= j < i ==> ms@[j]@ != m@,
        decreases ms@.len() - i,
    {
        if ms[i].eq(m) {
            return true;
        }
        i += 1;
    }
    false
}

// ---- day-before rule ----------------------------------------------------

pub open spec fn db_present(ev: Event) -> bool {
    ev.reminders is Some && ev.reminders->Some_0.day_before is Some
}

pub open spec fn db_rule(ev: Event) -> ReminderRule {
    ev.reminders->Some_0.day_before->Some_0
}

/// The rule applies: present, enabled, and its date and time parse.
pub open spec fn db_well_formed(ev: Event) -> bool {
    &&& db_present(ev)
    &&& db_rule(ev).enabled
    &&& is_date_seq(ev.date@)
    &&& is_time_seq(db_rule(ev).time@)
}

/// Target instant: the rule's time of day, one day before the event's date.
pub open spec fn db_target(ev: Event) -> int {
    instant_of(
        date_of_seq(ev.date@),
        seq_hour(db_rule(ev).time@),
        seq_minute(db_rule(ev).time@),
        0,
    ) - 86400
}

pub open spec fn db_marker(ev: Event) -> Seq<char> {
    day_before_marker_seq(ev.date@, db_rule(ev).time@)
}

/// The day-before rule fires in this window: applicable, target inside the
/// window, and not already marked sent on the event.
pub open spec fn due_day_before(ev: Event, start: int, end: int) -> bool {
    &&& db_well_formed(ev)
    &&& in_window_spec(db_target(ev), start, end)
    &&& !has_marker(ev.sent_markers@, db_marker(ev))
}

// ---- same-day rule ------------------------------------------------------

pub open spec fn sd_present(ev: Event) -> bool {
    ev.reminders is Some && ev.reminders->Some_0.same_day is Some
}

pub open spec fn sd_rule(ev: Event) -> ReminderRule {
    ev.reminders->Some_0.same_day->Some_0
}

pub open spec fn sd_well_formed(ev: Event) -> bool {
    &&& sd_present(ev)
    &&& sd_rule(ev).enabled
    &&& is_date_seq(ev.date@)
    &&& is_time_seq(sd_rule(ev).time@)
}

/// Target instant: the rule's time of day on the event's date.
pub open spec fn sd_target(ev: Event) -> int {
    instant_of(
        date_of_seq(ev.date@),
        seq_hour(sd_rule(ev).time@),
        seq_minute(sd_rule(ev).time@),
        0,
    )
}

pub open spec fn sd_marker(ev: Event) -> Seq<char> {
    same_day_marker_seq(ev.date@, sd_rule(ev).time@)
}

pub open spec fn due_same_day(ev: Event, start: int, end: int) -> bool {
    &&& sd_well_formed(ev)
    &&& in_window_spec(sd_target(ev), start, end)
    &&& !has_marker(ev.sent_markers@, sd_marker(ev))
}

// ---- custom-offset rule -------------------------------------------------

pub open spec fn cu_present(ev: Event) -> bool {
    ev.reminders is Some && ev.reminders->Some_0.custom_remind_minutes is Some
}

pub open spec fn cu_minutes(ev: Event) -> int {
    ev.reminders->Some_0.custom_remind_minutes->Some_0 as int
}

/// The rule applies: a positive in-range offset, a start time, and a date
/// that parses.
pub open spec fn cu_well_formed(ev: Event) -> bool {
    &&& cu_present(ev)
    &&& 0 < cu_minutes(ev) <= MAX_CUSTOM_MINUTES
    &&& is_date_seq(ev.date@)
    &&& is_time_seq(ev.time_start@)
}

/// Target instant: the event's start instant, the offset earlier.
pub open spec fn cu_target(ev: Event) -> int {
    instant_of(
        date_of_seq(ev.date@),
        seq_hour(ev.time_start@),
        seq_minute(ev.time_start@),
        0,
    ) - cu_minutes(ev) * 60
}

pub open spec fn cu_marker(ev: Event) -> Seq<char> {
    custom_marker_seq(ev.date@, ev.time_start@, cu_minutes(ev))
}

pub open spec fn due_custom(ev: Event, start: int, end: int) -> bool {
    &&& cu_well_formed(ev)
    &&& in_window_spec(cu_target(ev), start, end)
    &&& !has_marker(ev.sent_markers@, cu_marker(ev))
}

// ---- one event ----------------------------------------------------------

/// The markers this event's rules fire in the window, in rule order.
pub open spec fn event_fire_markers(ev: Event, start: int, end: int) -> Seq<Seq<char>> {
    (if due_day_before(ev, start, end) {
        seq![db_marker(ev)]
    } else {
        Seq::empty()
    }) + (if due_same_day(ev, start, end) {
        seq![sd_marker(ev)]
    } else {
        Seq::empty()
    }) + (if due_custom(ev, start, end) {
        seq![cu_marker(ev)]
    } else {
        Seq::empty()
    })
}

/// What a notification emitted for this event must say, by its marker.
pub open spec fn note_for_event_ok(n: Notification, ev: Event) -> bool {
    &&& (n.marker@ == db_marker(ev) ==> (match n.content {
        NoteContent::DayBefore { title, time_start } => title@ == ev.title@ && time_start@
            == ev.time_start@,
        _ => false,
    }))
    &&& (n.marker@ == sd_marker(ev) ==> (match n.content {
        NoteContent::SameDay { title, time_start } => title@ == ev.title@ && time_start@
            == ev.time_start@,
        _ => false,
    }))
    &&& (n.marker@ == cu_marker(ev) ==> (match n.content {
        NoteContent::Custom { title, minutes_before } => title@ == ev.title@ && minutes_before
            == cu_minutes(ev),
        _ => false,
    }))
}

/// `post` is `pre` after the window: unchanged except that the fired
/// markers were appended to its sent markers.
pub open spec fn event_updated(pre: Event, post: Event, start: int, end: int) -> bool {
    &&& post.id == pre.id
    &&& post.date == pre.date
    &&& post.title == pre.title
    &&& post.time_start == pre.time_start
    &&& post.completed == pre.completed
    &&& post.reminders == pre.reminders
    &&& views_of(post.sent_markers@) == views_of(pre.sent_markers@) + event_fire_markers(pre, start, end)
}

/// Check the day-before rule; the marker to fire, if due.
fn check_day_before(ev: &Event, start: i64, end: i64) -> (r: Option<String>)
    ensures
        match r {
            Some(m) => due_day_before(*ev, start as int, end as int) && m@ == db_marker(*ev),
            None => !due_day_before(*ev, start as int, end as int),
        },
{
    let rs = match &ev.reminders {
        Some(rs) => rs,
        None => { return None; },
    };
    let rule = match &rs.day_before {
        Some(r) => r,
        None => { return None; },
    };
    if !rule.enabled {
        return None;
    }
    let d = match parse_date(ev.date.as_str()) {
        Some(d) => d,
        None => { return None; },
    };
    let t = match parse_time(rule.time.as_str()) {
        Some(t) => t,
        None => { return None; },
    };
    let target: i64 = crate::calendar::date_instant(&d, t.hour, t.minute, 0) - 86400;
    if !in_window(target, start, end) {
        return None;
    }
    let m = day_before_marker(ev.date.as_str(), rule.time.as_str());
    if vec_has_marker(&ev.sent_markers, &m) {
        return None;
    }
    Some(m)
}

/// Check the same-day rule; the marker to fire, if due.
fn check_same_day(ev: &Event, start: i64, end: i64) -> (r: Option<String>)
    ensures
        match r {
            Some(m) => due_same_day(*ev, start as int, end as int) && m@ == sd_marker(*ev),
            None => !due_same_day(*ev, start as int, end as int),
        },
{
    let rs = match &ev.reminders {
        Some(rs) => rs,
        None => { return None; },
    };
    let rule = match &rs.same_day {
        Some(r) => r,
        None => { return None; },
    };
    if !rule.enabled {
        return None;
    }
    let d = match parse_date(ev.date.as_str()) {
        Some(d) => d,
        None => { return None; },
    };
    let t = match parse_time(rule.time.as_str()) {
        Some(t) => t,
        None => { return None; },
    };
    let target: i64 = crate::calendar::date_instant(&d, t.hour, t.minute, 0);
    if !in_window(target, start, end) {
        return None;
    }
    let m = same_day_marker(ev.date.as_str(), rule.time.as_str());
    if vec_has_marker(&ev.sent_markers, &m) {
        return None;
    }
    Some(m)
}

/// Check the custom-offset rule; the marker to fire, if due.
fn check_custom(ev: &Event, start: i64, end: i64) -> (r: Option<String>)
    ensures
        match r {
            Some(m) => due_custom(*ev, start as int, end as int) && m@ == cu_marker(*ev),
            None => !due_custom(*ev, start as int, end as int),
        },
{
    let rs = match &ev.reminders {
        Some(rs) => rs,
        None => { return None; },
    };
    let mins: i64 = match rs.custom_remind_minutes {
        Some(n) => n,
        None => { return None; },
    };
    if mins <= 0 || mins > MAX_CUSTOM_MINUTES {
        return None;
    }
    let d = match parse_date(ev.date.as_str()) {
        Some(d) => d,
        None => { return None; },
    };
    let t = match parse_time(ev.time_start.as_str()) {
        Some(t) => t,
        None => { return None; },
    };
    let target: i64 = crate::calendar::date_instant(&d, t.hour, t.minute, 0) - mins * 60;
    if !in_window(target, start, end) {
        return None;
    }
    let m = custom_marker(ev.date.as_str(), ev.time_start.as_str(), mins as u64);
    if vec_has_marker(&ev.sent_markers, &m) {
        return None;
    }
    Some(m)
}

/// Evaluate one event against the window: the notifications to dispatch,
/// and the event with the fired markers appended.
pub fn eval_event(ev: Event, start: i64, end: i64) -> (r: (Vec<Notification>, Event))
    ensures
        markers_of(r.0@) == event_fire_markers(
            ev,
            start as int,
            end as int,
        ),
        forall|k: int| 0 <= k < r.0@.len() ==> note_for_event_ok(#[trigger] r.0@[k], ev),
        event_updated(ev, r.1, start as int, end as int),
{
    let ghost ev0 = ev;
    let fire_db = check_day_before(&ev, start, end);
    let fire_sd = check_same_day(&ev, start, end);
    let fire_cu = check_custom(&ev, start, end);
    let mins_val: i64 = match &ev.reminders {
        Some(rs) => match rs.custom_remind_minutes {
            Some(n) => n,
            None => 0,
        },
        None => 0,
    };
    let Event { id, date, title, time_start, completed, reminders, sent_markers } = ev;
    let mut sent_markers = sent_markers;
    let mut notes: Vec<Notification> = Vec::new();
    if let Some(m) = fire_db {
        notes.push(
            Notification {
                marker: m.clone(),
                content: NoteContent::DayBefore {
                    title: title.clone(),
                    time_start: time_start.clone(),
                },
            },
        );
        sent_markers.push(m);
    }
    if let Some(m) = fire_sd {
        notes.push(
            Notification {
                marker: m.clone(),
                content: NoteContent::SameDay {
                    title: title.clone(),
                    time_start: time_start.clone(),
                },
            },
        );
        sent_markers.push(m);
    }
    if let Some(m) = fire_cu {
        notes.push(
            Notification {
                marker: m.clone(),
                content: NoteContent::Custom { title: title.clone(), minutes_before: mins_val },
            },
        );
        sent_markers.push(m);
    }
    let out = Event { id, date, title, time_start, completed, reminders, sent_markers };
    proof {
        lemma_event_marker_kinds_distinct(
            ev0.date@,
            db_rule(ev0).time@,
            sd_rule(ev0).time@,
            ev0.time_start@,
            cu_minutes(ev0),
        );
        assert(markers_of(notes@) =~= event_fire_markers(
            ev0,
            start as int,
            end as int,
        ));
        assert(views_of(out.sent_markers@) =~= views_of(ev0.sent_markers@) + event_fire_markers(ev0, start as int, end as int));
    }
    (notes, out)
}

// ---- counts over the snapshot -------------------------------------------

/// Whether an event lies on calendar day `d`: its date string parses and
/// denotes exactly `d`.
pub open spec fn on_day(ev: Event, d: Date) -> bool {
    is_date_seq(ev.date@) && date_of_seq(ev.date@) == d
}

/// How many events lie on day `d`.
pub open spec fn count_on_day(evs: Seq<Event>, d: Date) -> int
    decreases evs.len(),
{
    if evs.len() == 0 {
        0
    } else {
        count_on_day(evs.drop_last(), d) + if on_day(evs.last(), d) {
            1int
        } else {
            0int
        }
    }
}

/// How many events lie on day `d` and are not completed.
pub open spec fn count_pending_on_day(evs: Seq<Event>, d: Date) -> int
    decreases evs.len(),
{
    if evs.len() == 0 {
        0
    } else {
        count_pending_on_day(evs.drop_last(), d) + if on_day(evs.last(), d) && !evs.last().completed {
            1int
        } else {
            0int
        }
    }
}

/// The three counts the global briefings derive their bodies from.
#[derive(Clone, Copy, Debug)]
pub struct DayCounts {
    pub total_today: usize,
    pub pending_today: usize,
    pub tomorrow_count: usize,
}

pub open spec fn spec_day_counts(evs: Seq<Event>, today: Date, tomorrow: Date) -> DayCounts {
    DayCounts {
        total_today: count_on_day(evs, today) as usize,
        pending_today: count_pending_on_day(evs, today) as usize,
        tomorrow_count: count_on_day(evs, tomorrow) as usize,
    }
}

pub fn event_on_day(ev: &Event, d: &Date) -> (b: bool)
    ensures
        b == on_day(*ev, *d),
{
    match parse_date(ev.date.as_str()) {
        Some(pd) => pd.year == d.year && pd.month == d.month && pd.day == d.day,
        None => false,
    }
}

/// Count the snapshot's events on today and tomorrow.
pub fn day_counts(events: &Vec<Event>, today: &Date, tomorrow: &Date) -> (c: DayCounts)
    ensures
        c == spec_day_counts(events@, *today, *tomorrow),
        c.pending_today <= c.total_today <= events@.len(),
        c.tomorrow_count <= events@.len(),
{
    let n: usize = events.len();
    let mut total: usize = 0;
    let mut pending: usize = 0;
    let mut tomorrow_n: usize = 0;
    let mut i: usize = 0;
    proof {
        assert(events@.subrange(0, 0) =~= Seq::<Event>::empty());
    }
    while i < n
        invariant
            n == events@.len(),
            i <= n,
            pending <= total <= i,
            tomorrow_n <= i,
            total == count_on_day(events@.subrange(0, i as int), *today),
            pending == count_pending_on_day(events@.subrange(0, i as int), *today),
            tomorrow_n == count_on_day(events@.subrange(0, i as int), *tomorrow),
        decreases n - i,
    {
        let ev = &events[i];
        proof {
            assert(events@.subrange(0, i + 1).drop_last() =~= events@.subrange(0, i as int));
            assert(events@.subrange(0, i + 1).last() == events@[i as int]);
        }
        if event_on_day(ev, today) {
            total += 1;
            if !ev.completed {
                pending += 1;
            }
        }
        if event_on_day(ev, tomorrow) {
            tomorrow_n += 1;
        }
        i += 1;
    }
    proof {
        assert(events@.subrange(0, n as int) =~= events@);
    }
    DayCounts { total_today: total, pending_today: pending, tomorrow_count: tomorrow_n }
}

// ---- global briefings ---------------------------------------------------

pub open spec fn slot_cfg(s: Settings, slot: Slot) -> SlotConfig {
    match slot {
        Slot::Morning => s.morning,
        Slot::Afternoon => s.afternoon,
        Slot::Evening => s.evening,
    }
}

/// The content gate of each slot: morning and afternoon need something
/// pending today, evening needs anything today or tomorrow.
pub open spec fn slot_gate(slot: Slot, c: DayCounts) -> bool {
    match slot {
        Slot::Morning => c.pending_today > 0,
        Slot::Afternoon => c.pending_today > 0,
        Slot::Evening => c.total_today > 0 || c.tomorrow_count > 0,
    }
}

/// Target instant of a slot: its configured time, today.
pub open spec fn slot_target(cfg: SlotConfig, today: Date) -> int {
    instant_of(today, seq_hour(cfg.time@), seq_minute(cfg.time@), 0)
}

/// The slot fires in this window: enabled, time parses, target inside the
/// window, gate holds, and its marker is not in the sent log.
pub open spec fn due_slot(
    s: Settings,
    slot: Slot,
    today: Date,
    c: DayCounts,
    start: int,
    end: int,
    log: Seq<Seq<char>>,
) -> bool {
    &&& slot_cfg(s, slot).enabled
    &&& is_time_seq(slot_cfg(s, slot).time@)
    &&& in_window_spec(slot_target(slot_cfg(s, slot), today), start, end)
    &&& slot_gate(slot, c)
    &&& !log.contains(summary_marker_seq(slot, today))
}

/// The briefing markers fired in this window, slot order; the evening
/// marker appears once per evening notification.
pub open spec fn global_fire_markers(
    s: Settings,
    today: Date,
    c: DayCounts,
    start: int,
    end: int,
    log: Seq<Seq<char>>,
) -> Seq<Seq<char>> {
    (if due_slot(s, Slot::Morning, today, c, start, end, log) {
        seq![summary_marker_seq(Slot::Morning, today)]
    } else {
        Seq::empty()
    }) + (if due_slot(s, Slot::Afternoon, today, c, start, end, log) {
        seq![summary_marker_seq(Slot::Afternoon, today)]
    } else {
        Seq::empty()
    }) + (if due_slot(s, Slot::Evening, today, c, start, end, log) && c.total_today > 0 {
        seq![summary_marker_seq(Slot::Evening, today)]
    } else {
        Seq::empty()
    }) + (if due_slot(s, Slot::Evening, today, c, start, end, log) && c.tomorrow_count > 0 {
        seq![summary_marker_seq(Slot::Evening, today)]
    } else {
        Seq::empty()
    })
}

/// What a briefing notification must say, by its marker.
pub open spec fn global_note_ok(n: Notification, today: Date, c: DayCounts) -> bool {
    &&& (n.marker@ == summary_marker_seq(Slot::Morning, today) ==> (match n.content {
        NoteContent::MorningSummary { pending_today } => pending_today == c.pending_today,
        _ => false,
    }))
    &&& (n.marker@ == summary_marker_seq(Slot::Afternoon, today) ==> (match n.content {
        NoteContent::AfternoonSummary { remaining_today } => remaining_today == c.pending_today,
        _ => false,
    }))
    &&& (n.marker@ == summary_marker_seq(Slot::Evening, today) ==> (match n.content {
        NoteContent::EveningSummary { completed_today, total_today } => c.total_today > 0
            && completed_today == c.total_today - c.pending_today && total_today == c.total_today,
        NoteContent::TomorrowPreview { tomorrow_count } => c.tomorrow_count > 0 && tomorrow_count
            == c.tomorrow_count,
        _ => false,
    }))
}

/// The sent log after the three slots were checked against `log` and the
/// due ones recorded, slot order.
pub open spec fn global_log_after(
    s: Settings,
    today: Date,
    c: DayCounts,
    start: int,
    end: int,
    log: Seq<Seq<char>>,
) -> Seq<Seq<char>> {
    let l1 = if due_slot(s, Slot::Morning, today, c, start, end, log) {
        spec_record(log, summary_marker_seq(Slot::Morning, today))
    } else {
        log
    };
    let l2 = if due_slot(s, Slot::Afternoon, today, c, start, end, log) {
        spec_record(l1, summary_marker_seq(Slot::Afternoon, today))
    } else {
        l1
    };
    if due_slot(s, Slot::Evening, today, c, start, end, log) {
        spec_record(l2, summary_marker_seq(Slot::Evening, today))
    } else {
        l2
    }
}

/// Whether this slot is enabled, its time parses, and the target falls in
/// the window.
fn slot_time_in_window(cfg: &SlotConfig, today: &Date, start: i64, end: i64) -> (b: bool)
    requires
        today.valid(),
    ensures
        b == (cfg.enabled && is_time_seq(cfg.time@) && in_window_spec(
            slot_target(*cfg, *today),
            start as int,
            end as int,
        )),
{
    if !cfg.enabled {
        return false;
    }
    match parse_time(cfg.time.as_str()) {
        Some(t) => in_window(crate::calendar::date_instant(today, t.hour, t.minute, 0), start, end),
        None => false,
    }
}

/// The shape of the evening slot's notifications at the tail of a note
/// list: when the slot fires and today has events, the completed/total
/// summary is present (just before the preview if tomorrow also has
/// events); when tomorrow has events, the preview closes the list.
pub open spec fn evening_notes_ok(
    notes: Seq<Notification>,
    s: Settings,
    today: Date,
    c: DayCounts,
    start: int,
    end: int,
    log: Seq<Seq<char>>,
) -> bool {
    &&& (due_slot(s, Slot::Evening, today, c, start, end, log) && c.total_today > 0 ==> (
    match notes[notes.len() - 1 - (if c.tomorrow_count > 0 {
        1int
    } else {
        0int
    })].content {
        NoteContent::EveningSummary { .. } => true,
        _ => false,
    }))
    &&& (due_slot(s, Slot::Evening, today, c, start, end, log) && c.tomorrow_count > 0 ==> (
    match notes[notes.len() - 1].content {
        NoteContent::TomorrowPreview { .. } => true,
        _ => false,
    }))
}

/// Evaluate the three global briefings against the window, recording the
/// markers of the ones that fire.
pub fn eval_globals(
    settings: &Settings,
    today: &Date,
    c: DayCounts,
    start: i64,
    end: i64,
    log: &mut SentLog,
) -> (notes: Vec<Notification>)
    requires
        old(log).wf(),
        today.valid(),
        c.pending_today <= c.total_today,
    ensures
        final(log).wf(),
        markers_of(notes@) == global_fire_markers(
            *settings,
            *today,
            c,
            start as int,
            end as int,
            old(log)@,
        ),
        forall|k: int|
            0 <= k < notes@.len() ==> global_note_ok(#[trigger] notes@[k], *today, c),
        evening_notes_ok(notes@, *settings, *today, c, start as int, end as int, old(log)@),
        final(log)@ == global_log_after(
            *settings,
            *today,
            c,
            start as int,
            end as int,
            old(log)@,
        ),
{
    let morning_marker = summary_marker(Slot::Morning, today);
    let afternoon_marker = summary_marker(Slot::Afternoon, today);
    let evening_marker = summary_marker(Slot::Evening, today);
    let morning_due = slot_time_in_window(&settings.morning, today, start, end)
        && c.pending_today > 0 && !log.contains_marker(&morning_marker);
    let afternoon_due = slot_time_in_window(&settings.afternoon, today, start, end)
        && c.pending_today > 0 && !log.contains_marker(&afternoon_marker);
    let evening_due = slot_time_in_window(&settings.evening, today, start, end)
        && (c.total_today > 0 || c.tomorrow_count > 0) && !log.contains_marker(&evening_marker);
    let mut notes: Vec<Notification> = Vec::new();
    if morning_due {
        notes.push(
            Notification {
                marker: morning_marker.clone(),
                content: NoteContent::MorningSummary { pending_today: c.pending_today },
            },
        );
        log.record(morning_marker);
    }
    if afternoon_due {
        notes.push(
            Notification {
                marker: afternoon_marker.clone(),
                content: NoteContent::AfternoonSummary { remaining_today: c.pending_today },
            },
        );
        log.record(afternoon_marker);
    }
    if evening_due {
        if c.total_today > 0 {
            notes.push(
                Notification {
                    marker: evening_marker.clone(),
                    content: NoteContent::EveningSummary {
                        completed_today: c.total_today - c.pending_today,
                        total_today: c.total_today,
                    },
                },
            );
        }
        if c.tomorrow_count > 0 {
            notes.push(
                Notification {
                    marker: evening_marker.clone(),
                    content: NoteContent::TomorrowPreview { tomorrow_count: c.tomorrow_count },
                },
            );
        }
        log.record(evening_marker);
    }
    proof {
        lemma_summary_markers_distinct(*today, *today);
        assert(markers_of(notes@) =~= global_fire_markers(
            *settings,
            *today,
            c,
            start as int,
            end as int,
            old(log)@,
        ));
    }
    notes
}

// ---- the whole window ---------------------------------------------------

/// The per-event markers fired across the snapshot, event order.
pub open spec fn all_event_markers(evs: Seq<Event>, start: int, end: int) -> Seq<Seq<char>>
    decreases evs.len(),
{
    if evs.len() == 0 {
        Seq::empty()
    } else {
        event_fire_markers(evs[0], start, end) + all_event_markers(evs.drop_first(), start, end)
    }
}

/// One tick's pure evaluation: the notifications to dispatch, the events
/// with their new markers, and whether any event changed.
pub fn evaluate_window(
    events: Vec<Event>,
    settings: &Settings,
    today: &Date,
    tomorrow: &Date,
    start: i64,
    end: i64,
    log: &mut SentLog,
) -> (r: (Vec<Notification>, Vec<Event>, bool))
    requires
        old(log).wf(),
        today.valid(),
        tomorrow.valid(),
    ensures
        final(log).wf(),
        r.1@.len() == events@.len(),
        forall|i: int|
            0 <= i < events@.len() ==> event_updated(
                events@[i],
                #[trigger] r.1@[i],
                start as int,
                end as int,
            ),
        markers_of(r.0@) == all_event_markers(
            events@,
            start as int,
            end as int,
        ) + global_fire_markers(
            *settings,
            *today,
            spec_day_counts(events@, *today, *tomorrow),
            start as int,
            end as int,
            old(log)@,
        ),
        forall|k: int|
            0 <= k < all_event_markers(events@, start as int, end as int).len()
                ==> exists|j: int|
                0 <= j < events@.len() && event_fire_markers(events@[j], start as int, end as int)
                    .contains((#[trigger] r.0@[k]).marker@) && note_for_event_ok(
                    r.0@[k],
                    events@[j],
                ),
        forall|k: int|
            all_event_markers(events@, start as int, end as int).len() <= k < r.0@.len()
                ==> global_note_ok(
                #[trigger] r.0@[k],
                *today,
                spec_day_counts(events@, *today, *tomorrow),
            ),
        evening_notes_ok(
            r.0@,
            *settings,
            *today,
            spec_day_counts(events@, *today, *tomorrow),
            start as int,
            end as int,
            old(log)@,
        ),
        r.2 == (all_event_markers(events@, start as int, end as int).len() > 0),
        final(log)@ == global_log_after(
            *settings,
            *today,
            spec_day_counts(events@, *today, *tomorrow),
            start as int,
            end as int,
            old(log)@,
        ),
{
    let ghost evs0 = events@;
    let ghost s_i = start as int;
    let ghost e_i = end as int;
    let c: DayCounts = day_counts(&events, today, tomorrow);
    let mut remaining = events;
    let mut out_events: Vec<Event> = Vec::new();
    let mut notes: Vec<Notification> = Vec::new();
    proof {
        assert(evs0.subrange(0, evs0.len() as int) =~= evs0);
        assert(markers_of(notes@) + all_event_markers(evs0, s_i, e_i)
            =~= all_event_markers(evs0, s_i, e_i));
    }
    while remaining.len() > 0
        invariant
            s_i == start as int,
            e_i == end as int,
            out_events@.len() + remaining@.len() == evs0.len(),
            remaining@ == evs0.subrange(out_events@.len() as int, evs0.len() as int),
            forall|j: int|
                0 <= j < out_events@.len() ==> event_updated(
                    evs0[j],
                    #[trigger] out_events@[j],
                    s_i,
                    e_i,
                ),
            all_event_markers(evs0, s_i, e_i) == markers_of(notes@)
                + all_event_markers(remaining@, s_i, e_i),
            forall|k: int|
                0 <= k < notes@.len() ==> exists|j: int|
                    0 <= j < out_events@.len() && event_fire_markers(evs0[j], s_i, e_i).contains(
                        (#[trigger] notes@[k]).marker@,
                    ) && note_for_event_ok(notes@[k], evs0[j]),
        decreases remaining@.len(),
    {
        let ghost i = out_events@.len() as int;
        let ghost pre_notes = notes@;
        let ghost pre_out = out_events@;
        let ghost n_all = evs0.len() as int;
        let ev = remaining.remove(0);
        proof {
            assert(evs0.subrange(i, n_all)[0] == evs0[i]);
            assert(ev == evs0[i]);
            assert(remaining@ =~= evs0.subrange(i + 1, n_all));
            assert(evs0.subrange(i, n_all).drop_first() =~= evs0.subrange(i + 1, n_all));
            assert(all_event_markers(evs0.subrange(i, n_all), s_i, e_i) == event_fire_markers(
                evs0[i],
                s_i,
                e_i,
            ) + all_event_markers(evs0.subrange(i + 1, n_all), s_i, e_i));
        }
        let (mut ns, ev2) = eval_event(ev, start, end);
        let ghost ns0 = ns@;
        notes.append(&mut ns);
        out_events.push(ev2);
        proof {
            assert(event_updated(evs0[i], ev2, s_i, e_i));
            assert forall|j: int|
                0 <= j < out_events@.len() implies event_updated(
                evs0[j],
                #[trigger] out_events@[j],
                s_i,
                e_i,
            ) by {
                if j < i {
                    assert(out_events@[j] == pre_out[j]);
                } else {
                    assert(out_events@[j] == ev2);
                }
            }
            assert(markers_of(notes@) =~= markers_of(pre_notes) + markers_of(ns0));
            assert(markers_of(ns0) == event_fire_markers(evs0[i], s_i, e_i));
            assert(markers_of(pre_notes) + (event_fire_markers(evs0[i], s_i, e_i)
                + all_event_markers(evs0.subrange(i + 1, n_all), s_i, e_i)) =~= (markers_of(
                pre_notes,
            ) + event_fire_markers(evs0[i], s_i, e_i)) + all_event_markers(
                evs0.subrange(i + 1, n_all),
                s_i,
                e_i,
            ));
            assert(all_event_markers(evs0, s_i, e_i) == markers_of(notes@) + all_event_markers(
                remaining@,
                s_i,
                e_i,
            ));
            assert forall|k: int|
                0 <= k < notes@.len() implies exists|j: int|
                0 <= j < out_events@.len() && event_fire_markers(evs0[j], s_i, e_i).contains(
                    (#[trigger] notes@[k]).marker@,
                ) && note_for_event_ok(notes@[k], evs0[j]) by {
                if k < pre_notes.len() {
                    assert(notes@[k] == pre_notes[k]);
                } else {
                    let k2 = k - pre_notes.len();
                    assert(notes@[k] == ns0[k2]);
                    assert(markers_of(ns0)[k2] == ns0[k2].marker@);
                    assert(event_fire_markers(evs0[i], s_i, e_i)[k2] == notes@[k].marker@);
                    assert(event_fire_markers(evs0[i], s_i, e_i).contains(notes@[k].marker@));
                    assert(note_for_event_ok(notes@[k], evs0[i]));
                }
            }
        }
    }
    let changed: bool = notes.len() > 0;
    proof {
        assert(remaining@ =~= Seq::<Event>::empty());
        assert(all_event_markers(remaining@, s_i, e_i) =~= Seq::<Seq<char>>::empty());
        assert(markers_of(notes@) + Seq::<Seq<char>>::empty()
            =~= markers_of(notes@));
        assert(markers_of(notes@) == all_event_markers(
            evs0,
            s_i,
            e_i,
        ));
    }
    let ghost event_notes = notes@;
    let mut glob = eval_globals(settings, today, c, start, end, log);
    let ghost glob0 = glob@;
    notes.append(&mut glob);
    proof {
        assert(markers_of(notes@) =~= markers_of(event_notes) + markers_of(glob0));
        let gl = glob0.len() as int;
        assert(markers_of(glob0).len() == gl);
        if due_slot(*settings, Slot::Evening, *today, c, s_i, e_i, old(log)@) {
            if c.tomorrow_count > 0 {
                assert(gl >= 1);
                assert(notes@[notes@.len() - 1] == glob0[gl - 1]);
            }
            if c.total_today > 0 {
                let k: int = if c.tomorrow_count > 0 {
                    1
                } else {
                    0
                };
                assert(gl >= k + 1);
                assert(notes@[notes@.len() - 1 - k] == glob0[gl - 1 - k]);
            }
        }
    }
    (notes, out_events, changed)
}

} // verus!
