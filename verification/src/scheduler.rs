//! The scheduler's state and its tick: the stateful shell around the pure
//! window evaluator. It owns the watermark (the exclusive lower bound of the
//! next window) and the sent log, bootstraps them at process start, and on
//! every tick evaluates the window `(watermark, now]`, advances the
//! watermark monotonically, and runs the midnight sweep.

use vstd::prelude::*;
use crate::calendar::{Date, next_date, next_date_spec};
use crate::clock::Moment;
use crate::model::{Event, Settings, Notification, markers_of, views_of};
use crate::sentlog::{SentLog, SENT_LOG_CAP, keep_tagged};
use crate::timetext::date_seq;
use crate::evaluate::{
    evaluate_window, all_event_markers, event_fire_markers, global_fire_markers, global_log_after,
    global_note_ok, note_for_event_ok, event_updated, evening_notes_ok, spec_day_counts,
};

verus! {

/// How far behind `now` a fresh watermark starts: one missed 60-second tick,
/// with margin.
pub const BOOTSTRAP_LAG_SECONDS: i64 = 65;

/// The catch-up floor: a stale watermark is honoured at most this far back.
pub const CATCH_UP_FLOOR_SECONDS: i64 = 86400;

/// The scheduler's owned state, persisted after every tick.
pub struct AppState {
    /// Exclusive lower bound of the next evaluation window; never moves
    /// backward.
    pub watermark: i64,
    /// Markers of global briefings already fired.
    pub sent_log: SentLog,
}

/// What one tick asks the host to do: dispatch these notifications, and,
/// when any event changed, write the events back.
pub struct TickOutcome {
    pub notifications: Vec<Notification>,
    pub events: Vec<Event>,
    pub events_changed: bool,
}

/// The watermark a scheduler starts from: `now` minus the bootstrap lag when
/// nothing was persisted, else the stored value clamped to the catch-up
/// floor `now - 24h`.
pub open spec fn spec_bootstrap(stored: Option<i64>, now: int) -> int {
    match stored {
        None => now - BOOTSTRAP_LAG_SECONDS,
        Some(s) => if s < now - CATCH_UP_FLOOR_SECONDS {
            now - CATCH_UP_FLOOR_SECONDS
        } else {
            s as int
        },
    }
}

pub fn bootstrap_watermark(stored: Option<i64>, now: i64) -> (w: i64)
    requires
        0 <= now,
    ensures
        w == spec_bootstrap(stored, now as int),
{
    match stored {
        None => now - BOOTSTRAP_LAG_SECONDS,
        Some(s) => if s < now - CATCH_UP_FLOOR_SECONDS {
            now - CATCH_UP_FLOOR_SECONDS
        } else {
            s
        },
    }
}

impl AppState {
    pub open spec fn wf(self) -> bool {
        self.sent_log.wf()
    }

    /// Scheduler start: bootstrap the watermark from what was persisted (a
    /// missing or corrupt file arrives as `None`) and rebuild the sent log.
    /// The caller persists the returned watermark before the first tick.
    pub fn start(stored_watermark: Option<i64>, stored_entries: Vec<String>, now: i64) -> (s:
        AppState)
        requires
            0 <= now,
        ensures
            s.wf(),
            s.watermark == spec_bootstrap(stored_watermark, now as int),
            s.sent_log@ == (if stored_entries@.len() <= SENT_LOG_CAP {
                views_of(stored_entries@)
            } else {
                views_of(stored_entries@).subrange(
                    stored_entries@.len() - SENT_LOG_CAP,
                    stored_entries@.len() as int,
                )
            }),
    {
        AppState {
            watermark: bootstrap_watermark(stored_watermark, now),
            sent_log: SentLog::from_entries(stored_entries),
        }
    }

    /// One tick: evaluate the window `(watermark, now]` over the snapshot,
    /// advance the watermark to `now` (never backward), and at local
    /// midnight prune the sent log to entries tagged today or tomorrow.
    pub fn tick(&mut self, events: Vec<Event>, settings: &Settings, now: &Moment) -> (r:
        TickOutcome)
        requires
            old(self).wf(),
            now.wf(),
        ensures
            final(self).wf(),
            final(self).watermark as int == (if now.spec_instant() > old(self).watermark as int {
                now.spec_instant()
            } else {
                old(self).watermark as int
            }),
            r.events@.len() == events@.len(),
            forall|i: int|
                0 <= i < events@.len() ==> event_updated(
                    events@[i],
                    #[trigger] r.events@[i],
                    old(self).watermark as int,
                    now.spec_instant(),
                ),
            markers_of(r.notifications@) == all_event_markers(
                events@,
                old(self).watermark as int,
                now.spec_instant(),
            ) + global_fire_markers(
                *settings,
                now.date,
                spec_day_counts(events@, now.date, next_date_spec(now.date)),
                old(self).watermark as int,
                now.spec_instant(),
                old(self).sent_log@,
            ),
            forall|k: int|
                0 <= k < all_event_markers(
                    events@,
                    old(self).watermark as int,
                    now.spec_instant(),
                ).len() ==> exists|j: int|
                    0 <= j < events@.len() && event_fire_markers(
                        events@[j],
                        old(self).watermark as int,
                        now.spec_instant(),
                    ).contains((#[trigger] r.notifications@[k]).marker@) && note_for_event_ok(
                        r.notifications@[k],
                        events@[j],
                    ),
            forall|k: int|
                all_event_markers(events@, old(self).watermark as int, now.spec_instant()).len()
                    <= k < r.notifications@.len() ==> global_note_ok(
                    #[trigger] r.notifications@[k],
                    now.date,
                    spec_day_counts(events@, now.date, next_date_spec(now.date)),
                ),
            evening_notes_ok(
                r.notifications@,
                *settings,
                now.date,
                spec_day_counts(events@, now.date, next_date_spec(now.date)),
                old(self).watermark as int,
                now.spec_instant(),
                old(self).sent_log@,
            ),
            r.events_changed == (all_event_markers(
                events@,
                old(self).watermark as int,
                now.spec_instant(),
            ).len() > 0),
            final(self).sent_log@ == ({
                let after = global_log_after(
                    *settings,
                    now.date,
                    spec_day_counts(events@, now.date, next_date_spec(now.date)),
                    old(self).watermark as int,
                    now.spec_instant(),
                    old(self).sent_log@,
                );
                if now.hour == 0 && now.minute == 0 {
                    keep_tagged(after, date_seq(now.date), date_seq(next_date_spec(now.date)))
                } else {
                    after
                }
            }),
    {
        let end: i64 = now.instant();
        let start: i64 = self.watermark;
        let today: Date = now.date;
        let tomorrow: Date = next_date(&today);
        let (notifications, out_events, events_changed) = evaluate_window(
            events,
            settings,
            &today,
            &tomorrow,
            start,
            end,
            &mut self.sent_log,
        );
        if end > self.watermark {
            self.watermark = end;
        }
        if now.hour == 0 && now.minute == 0 {
            self.sent_log.prune(&today, &tomorrow);
        }
        TickOutcome { notifications, events: out_events, events_changed }
    }
}

} // verus!
