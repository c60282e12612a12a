//! The reminder data model: events with their per-event reminder rules and
//! sent markers, the global briefing settings, and the notifications the
//! evaluator emits. Markers are the content-addressed idempotence keys; their
//! exact composition (rule kind + date + time, or slot + date) is what
//! prevents duplicate firing, so it is pinned down here character by
//! character.

use vstd::prelude::*;
use vstd::string::{StrSliceExecFns, StringExecFns};
use vstd::arithmetic::div_mod::{lemma_div_decreases, lemma_div_pos_is_pos, lemma_mod_bound};
use crate::calendar::Date;
use crate::timetext::{date_seq, digit_char};

verus! {

/// One per-event rule: fire at `time` (a `HH:MM` string) when enabled.
#[derive(Clone, Debug)]
pub struct ReminderRule {
    pub enabled: bool,
    pub time: String,
}

/// The reminder rules an event may carry.
#[derive(Clone, Debug)]
pub struct Reminders {
    /// Fire the day before the event, at the given time of day.
    pub day_before: Option<ReminderRule>,
    /// Fire on the event's day, at the given time of day.
    pub same_day: Option<ReminderRule>,
    /// Fire this many minutes before the event's start time.
    pub custom_remind_minutes: Option<i64>,
}

/// A calendar event as the store holds it.
#[derive(Clone, Debug)]
pub struct Event {
    pub id: String,
    /// Calendar date, `YYYY-MM-DD`.
    pub date: String,
    pub title: String,
    /// Start time `HH:MM`, or empty when the event has none.
    pub time_start: String,
    pub completed: bool,
    pub reminders: Option<Reminders>,
    /// Markers of per-event reminders already fired; grows, never shrinks.
    pub sent_markers: Vec<String>,
}

/// One exam of the career record, as the exams widget reads it.
#[derive(Clone, Debug)]
pub struct Exam {
    /// `YYYY-MM-DD`, or empty while not scheduled; unscheduled exams sort
    /// last.
    pub exam_date: String,
    pub title: String,
    /// `"passed"` hides the exam from the pending list.
    pub status: String,
}

/// One global briefing slot: enabled flag and fixed `HH:MM` fire time.
#[derive(Clone, Debug)]
pub struct SlotConfig {
    pub enabled: bool,
    pub time: String,
}

/// The three global briefing slots.
#[derive(Clone, Debug)]
pub struct Settings {
    pub morning: SlotConfig,
    pub afternoon: SlotConfig,
    pub evening: SlotConfig,
}

/// Which global briefing slot a marker or notification belongs to.
#[derive(Clone, Copy, Debug, PartialEq, Eq, Structural)]
pub enum Slot {
    Morning,
    Afternoon,
    Evening,
}

/// What a notification says; the body text proper is rendered by the host
/// from these derived values.
#[derive(Clone, Debug)]
pub enum NoteContent {
    /// Tomorrow: `title` at `time_start`.
    DayBefore { title: String, time_start: String },
    /// Today: `title` at `time_start`.
    SameDay { title: String, time_start: String },
    /// `title` begins in `minutes_before` minutes.
    Custom { title: String, minutes_before: i64 },
    /// Events still pending today.
    MorningSummary { pending_today: usize },
    /// Events still to complete today.
    AfternoonSummary { remaining_today: usize },
    /// Completed out of total today.
    EveningSummary { completed_today: usize, total_today: usize },
    /// Events scheduled tomorrow.
    TomorrowPreview { tomorrow_count: usize },
}

/// One notification to dispatch, keyed by the marker that makes it fire at
/// most once.
#[derive(Clone, Debug)]
pub struct Notification {
    pub marker: String,
    pub content: NoteContent,
}

/// The markers of a notification list, in order.
pub open spec fn markers_of(ns: Seq<Notification>) -> Seq<Seq<char>> {
    ns.map_values(|n: Notification| n.marker@)
}

/// The character views of a string list, in order.
pub open spec fn views_of(ss: Seq<String>) -> Seq<Seq<char>> {
    ss.map_values(|s: String| s@)
}

/// Decimal rendering of a non-negative number, most significant digit first.
pub open spec fn dec_seq(n: int) -> Seq<char>
    decreases n,
    when n >= 0
    via dec_seq_dec
{
    if n < 10 {
        seq![digit_char(n)]
    } else {
        dec_seq(n / 10).push(digit_char(n % 10))
    }
}

#[via_fn]
proof fn dec_seq_dec(n: int) {
    if n >= 10 {
        lemma_div_decreases(n, 10);
        lemma_div_pos_is_pos(n, 10);
    }
}

/// Marker of a day-before reminder: `day-before:<date>:<time>`.
pub open spec fn day_before_marker_seq(date: Seq<char>, time: Seq<char>) -> Seq<char> {
    "day-before:"@ + date + ":"@ + time
}

/// Marker of a same-day reminder: `same-day:<date>:<time>`.
pub open spec fn same_day_marker_seq(date: Seq<char>, time: Seq<char>) -> Seq<char> {
    "same-day:"@ + date + ":"@ + time
}

/// Marker of a custom-offset reminder: `custom:<date>:<start>:<minutes>`,
/// keyed by the offset too so distinct offsets on one event never collide.
pub open spec fn custom_marker_seq(date: Seq<char>, start: Seq<char>, minutes: int) -> Seq<char> {
    "custom:"@ + date + ":"@ + start + ":"@ + dec_seq(minutes)
}

/// Marker of a global briefing: `summary-<slot>:<date>`.
pub open spec fn summary_marker_seq(slot: Slot, d: Date) -> Seq<char> {
    (match slot {
        Slot::Morning => "summary-morning:"@,
        Slot::Afternoon => "summary-afternoon:"@,
        Slot::Evening => "summary-evening:"@,
    }) + date_seq(d)
}

/// Markers of distinct per-event rule kinds never collide, whatever dates
/// and times they carry: each kind has its own prefix.
pub proof fn lemma_event_marker_kinds_distinct(
    date: Seq<char>,
    t1: Seq<char>,
    t2: Seq<char>,
    start: Seq<char>,
    minutes: int,
)
    ensures
        day_before_marker_seq(date, t1) != same_day_marker_seq(date, t2),
        day_before_marker_seq(date, t1) != custom_marker_seq(date, start, minutes),
        same_day_marker_seq(date, t2) != custom_marker_seq(date, start, minutes),
{
    reveal_strlit("day-before:");
    reveal_strlit("same-day:");
    reveal_strlit("custom:");
    assert(day_before_marker_seq(date, t1)[0] == 'd');
    assert(same_day_marker_seq(date, t2)[0] == 's');
    assert(custom_marker_seq(date, start, minutes)[0] == 'c');
}

/// The decimal rendering is never empty.
proof fn lemma_dec_seq_len(n: int)
    requires
        0 <= n,
    ensures
        dec_seq(n).len() >= 1,
    decreases n,
{
    if n >= 10 {
        lemma_div_decreases(n, 10);
        lemma_div_pos_is_pos(n, 10);
        lemma_dec_seq_len(n / 10);
    }
}

/// Distinct numbers render to distinct decimal strings.
proof fn lemma_dec_seq_injective(a: int, b: int)
    requires
        0 <= a,
        0 <= b,
        a != b,
    ensures
        dec_seq(a) != dec_seq(b),
    decreases a + b,
{
    if a < 10 && b < 10 {
        assert(digit_char(a) != digit_char(b));
        assert(dec_seq(a)[0] == digit_char(a));
    } else if a < 10 {
        lemma_div_decreases(b, 10);
        lemma_div_pos_is_pos(b, 10);
        lemma_dec_seq_len(b / 10);
        assert(dec_seq(b).len() >= 2);
    } else if b < 10 {
        lemma_div_decreases(a, 10);
        lemma_div_pos_is_pos(a, 10);
        lemma_dec_seq_len(a / 10);
        assert(dec_seq(a).len() >= 2);
    } else {
        lemma_div_decreases(a, 10);
        lemma_div_pos_is_pos(a, 10);
        lemma_div_decreases(b, 10);
        lemma_div_pos_is_pos(b, 10);
        lemma_mod_bound(a, 10);
        lemma_mod_bound(b, 10);
        if a / 10 == b / 10 {
            assert(a % 10 != b % 10) by {
                vstd::arithmetic::div_mod::lemma_fundamental_div_mod(a, 10);
                vstd::arithmetic::div_mod::lemma_fundamental_div_mod(b, 10);
            }
            assert(digit_char(a % 10) != digit_char(b % 10));
            assert(dec_seq(a).last() == digit_char(a % 10));
            assert(dec_seq(b).last() == digit_char(b % 10));
        } else {
            lemma_dec_seq_injective(a / 10, b / 10);
            if dec_seq(a) == dec_seq(b) {
                assert(dec_seq(a).drop_last() == dec_seq(a / 10));
                assert(dec_seq(b).drop_last() == dec_seq(b / 10));
            }
        }
    }
}

/// A shared prefix cancels: equal concatenations with the same left part
/// have equal right parts.
proof fn lemma_concat_cancel(p: Seq<char>, x: Seq<char>, y: Seq<char>)
    requires
        p + x == p + y,
    ensures
        x == y,
{
    assert((p + x).len() == p.len() + x.len());
    assert((p + y).len() == p.len() + y.len());
    assert(x.len() == y.len());
    assert forall|i: int| 0 <= i < x.len() implies x[i] == y[i] by {
        assert((p + x)[p.len() + i] == x[i]);
        assert((p + y)[p.len() + i] == y[i]);
    }
    assert(x =~= y);
}

/// Distinct custom offsets on the same event never collide: the offset is
/// part of the marker.
pub proof fn lemma_custom_offsets_distinct(date: Seq<char>, start: Seq<char>, m1: int, m2: int)
    requires
        0 <= m1,
        0 <= m2,
        m1 != m2,
    ensures
        custom_marker_seq(date, start, m1) != custom_marker_seq(date, start, m2),
{
    lemma_dec_seq_injective(m1, m2);
    let p = "custom:"@ + date + ":"@ + start + ":"@;
    assert(custom_marker_seq(date, start, m1) =~= p + dec_seq(m1));
    assert(custom_marker_seq(date, start, m2) =~= p + dec_seq(m2));
    if custom_marker_seq(date, start, m1) == custom_marker_seq(date, start, m2) {
        lemma_concat_cancel(p, dec_seq(m1), dec_seq(m2));
    }
}

/// Markers of distinct briefing slots never collide, whatever the date:
/// the slot names differ.
pub proof fn lemma_summary_markers_distinct(d1: Date, d2: Date)
    ensures
        summary_marker_seq(Slot::Morning, d1) != summary_marker_seq(Slot::Afternoon, d2),
        summary_marker_seq(Slot::Morning, d1) != summary_marker_seq(Slot::Evening, d2),
        summary_marker_seq(Slot::Afternoon, d1) != summary_marker_seq(Slot::Evening, d2),
{
    reveal_strlit("summary-morning:");
    reveal_strlit("summary-afternoon:");
    reveal_strlit("summary-evening:");
    assert(summary_marker_seq(Slot::Morning, d1)[8] == 'm');
    assert(summary_marker_seq(Slot::Afternoon, d2)[8] == 'a');
    assert(summary_marker_seq(Slot::Evening, d2)[8] == 'e');
    assert(summary_marker_seq(Slot::Morning, d1).len() == 16 + date_seq(d1).len());
    assert(summary_marker_seq(Slot::Afternoon, d2).len() == 18 + date_seq(d2).len());
}

/// A per-event marker and a briefing marker never collide: the prefixes
/// differ in their first character.
pub proof fn lemma_event_summary_distinct(
    date: Seq<char>,
    time: Seq<char>,
    start: Seq<char>,
    minutes: int,
    slot: Slot,
    d: Date,
)
    ensures
        day_before_marker_seq(date, time) != summary_marker_seq(slot, d),
        same_day_marker_seq(date, time) != summary_marker_seq(slot, d),
        custom_marker_seq(date, start, minutes) != summary_marker_seq(slot, d),
{
    reveal_strlit("day-before:");
    reveal_strlit("same-day:");
    reveal_strlit("custom:");
    reveal_strlit("summary-morning:");
    reveal_strlit("summary-afternoon:");
    reveal_strlit("summary-evening:");
    assert(day_before_marker_seq(date, time)[1] == 'a');
    assert(same_day_marker_seq(date, time)[1] == 'a');
    assert(custom_marker_seq(date, start, minutes)[1] == 'u');
    assert(summary_marker_seq(slot, d)[1] == 'u');
    assert(day_before_marker_seq(date, time)[2] == 'y');
    assert(same_day_marker_seq(date, time)[2] == 'm');
    assert(custom_marker_seq(date, start, minutes)[2] == 's');
    assert(summary_marker_seq(slot, d)[2] == 'm');
}

/// Decimal rendering of a non-negative number.
pub fn decimal_str(n: u64) -> (s: String)
    ensures
        s@ == dec_seq(n as int),
    decreases n,
{
    if n < 10 {
        crate::timetext::small_digit_string(n as u32)
    } else {
        proof {
            lemma_div_decreases(n as int, 10);
            lemma_mod_bound(n as int, 10);
        }
        let mut s = decimal_str(n / 10);
        s.append(crate::timetext::small_digit_string((n % 10) as u32).as_str());
        proof {
            assert(s@ =~= dec_seq(n as int));
        }
        s
    }
}

pub fn day_before_marker(date: &str, time: &str) -> (m: String)
    ensures
        m@ == day_before_marker_seq(date@, time@),
{
    let mut m = String::from_str("day-before:");
    m.append(date);
    m.append(":");
    m.append(time);
    proof {
        assert(m@ =~= day_before_marker_seq(date@, time@));
    }
    m
}

pub fn same_day_marker(date: &str, time: &str) -> (m: String)
    ensures
        m@ == same_day_marker_seq(date@, time@),
{
    let mut m = String::from_str("same-day:");
    m.append(date);
    m.append(":");
    m.append(time);
    proof {
        assert(m@ =~= same_day_marker_seq(date@, time@));
    }
    m
}

pub fn custom_marker(date: &str, start: &str, minutes: u64) -> (m: String)
    ensures
        m@ == custom_marker_seq(date@, start@, minutes as int),
{
    let mut m = String::from_str("custom:");
    m.append(date);
    m.append(":");
    m.append(start);
    m.append(":");
    m.append(decimal_str(minutes).as_str());
    proof {
        assert(m@ =~= custom_marker_seq(date@, start@, minutes as int));
    }
    m
}

pub fn summary_marker(slot: Slot, d: &Date) -> (m: String)
    requires
        d.valid(),
    ensures
        m@ == summary_marker_seq(slot, *d),
{
    let mut m = match slot {
        Slot::Morning => String::from_str("summary-morning:"),
        Slot::Afternoon => String::from_str("summary-afternoon:"),
        Slot::Evening => String::from_str("summary-evening:"),
    };
    m.append(crate::timetext::format_date(d).as_str());
    proof {
        assert(m@ =~= summary_marker_seq(slot, *d));
    }
    m
}

} // verus!
