//! The engine's guarantees, stated and proved as laws over the evaluator's
//! specification: no duplicate firing, no missed firing within the catch-up
//! floor, idempotent replay, and window exactness.

use vstd::prelude::*;
use crate::calendar::Date;
use crate::model::{
    Event, Settings, Slot, views_of, summary_marker_seq, lemma_event_marker_kinds_distinct,
};
use crate::evaluate::{
    in_window_spec, has_marker, due_day_before, due_same_day, due_custom, db_marker, sd_marker,
    cu_marker, db_rule, sd_rule, event_fire_markers, event_updated, due_slot, DayCounts,
    global_fire_markers, global_log_after,
};
use crate::sentlog::{spec_record, tagged, SENT_LOG_CAP};
use crate::scheduler::{spec_bootstrap, BOOTSTRAP_LAG_SECONDS, CATCH_UP_FLOOR_SECONDS};
use crate::timetext::date_seq;

verus! {

/// A briefing marker is tagged with its own date, so the midnight sweep
/// keeps exactly the markers of the days it is told to keep.
pub proof fn lemma_summary_marker_tagged(slot: Slot, d: Date)
    ensures
        tagged(summary_marker_seq(slot, d), date_seq(d)),
{
    reveal_strlit("summary-morning:");
    reveal_strlit("summary-afternoon:");
    reveal_strlit("summary-evening:");
    let e = summary_marker_seq(slot, d);
    let ds = date_seq(d);
    assert(e[e.len() - 11] == ':');
    assert(e.subrange(e.len() - 10, e.len() as int) =~= ds);
}

/// Marker membership on an event is membership in the rendered views.
proof fn lemma_has_marker_views(ms: Seq<String>, m: Seq<char>)
    ensures
        has_marker(ms, m) == views_of(ms).contains(m),
{
    if has_marker(ms, m) {
        let i = choose|i: int| 0 <= i < ms.len() && ms[i]@ == m;
        assert(views_of(ms)[i] == m);
    }
    if views_of(ms).contains(m) {
        let i = choose|i: int| 0 <= i < views_of(ms).len() && views_of(ms)[i] == m;
        assert(ms[i]@ == m);
    }
}

/// After an update, each rule that fired has its marker on the event.
proof fn lemma_updated_has_fired(ev: Event, post: Event, a: int, b: int)
    requires
        event_updated(ev, post, a, b),
    ensures
        due_day_before(ev, a, b) ==> has_marker(post.sent_markers@, db_marker(ev)),
        due_same_day(ev, a, b) ==> has_marker(post.sent_markers@, sd_marker(ev)),
        due_custom(ev, a, b) ==> has_marker(post.sent_markers@, cu_marker(ev)),
{
    let pre_len = views_of(ev.sent_markers@).len() as int;
    let fired = event_fire_markers(ev, a, b);
    assert(pre_len == ev.sent_markers@.len());
    assert(views_of(post.sent_markers@).len() == post.sent_markers@.len());
    assert(views_of(post.sent_markers@).len() == pre_len + fired.len());
    assert(post.sent_markers@.len() == pre_len + fired.len());
    if due_day_before(ev, a, b) {
        assert(fired[0] == db_marker(ev));
        assert(views_of(post.sent_markers@)[pre_len] == db_marker(ev));
        assert(post.sent_markers@[pre_len]@ == db_marker(ev));
    }
    if due_same_day(ev, a, b) {
        let k: int = if due_day_before(ev, a, b) {
            1
        } else {
            0
        };
        assert(fired[k] == sd_marker(ev));
        assert(views_of(post.sent_markers@)[pre_len + k] == sd_marker(ev));
        assert(post.sent_markers@[pre_len + k]@ == sd_marker(ev));
    }
    if due_custom(ev, a, b) {
        let k: int = (if due_day_before(ev, a, b) {
            1int
        } else {
            0int
        }) + (if due_same_day(ev, a, b) {
            1int
        } else {
            0int
        });
        assert(fired[k] == cu_marker(ev));
        assert(views_of(post.sent_markers@)[pre_len + k] == cu_marker(ev));
        assert(post.sent_markers@[pre_len + k]@ == cu_marker(ev));
    }
}

/// An event's markers only grow: every marker present before the window is
/// still present after it.
pub proof fn lemma_markers_only_grow(ev: Event, post: Event, a: int, b: int, m: Seq<char>)
    requires
        event_updated(ev, post, a, b),
        has_marker(ev.sent_markers@, m),
    ensures
        has_marker(post.sent_markers@, m),
{
    let i = choose|i: int| 0 <= i < ev.sent_markers@.len() && ev.sent_markers@[i]@ == m;
    assert(views_of(ev.sent_markers@)[i] == m);
    assert(views_of(post.sent_markers@)[i] == m);
    assert(post.sent_markers@.len() == views_of(post.sent_markers@).len());
    assert(post.sent_markers@[i]@ == m);
}

/// No duplicate firing, per-event rules: once a rule fired in some window
/// and the event carries its marker, no later evaluation — in any window,
/// after any number of ticks or restarts — fires that rule again.
pub proof fn lemma_no_duplicate_event_firing(
    ev: Event,
    post: Event,
    a: int,
    b: int,
    a2: int,
    b2: int,
)
    requires
        event_updated(ev, post, a, b),
    ensures
        due_day_before(ev, a, b) ==> !due_day_before(post, a2, b2),
        due_same_day(ev, a, b) ==> !due_same_day(post, a2, b2),
        due_custom(ev, a, b) ==> !due_custom(post, a2, b2),
{
    lemma_updated_has_fired(ev, post, a, b);
    assert(db_marker(post) == db_marker(ev));
    assert(sd_marker(post) == sd_marker(ev));
    assert(cu_marker(post) == cu_marker(ev));
}

/// Window exactness: an instant equal to `start` is excluded, one equal to
/// `end` is included, and a backward window contains nothing.
pub proof fn lemma_window_exactness(t: int, start: int, end: int)
    ensures
        t == start ==> !in_window_spec(t, start, end),
        t == end && start < end ==> in_window_spec(t, start, end),
        end < start ==> !in_window_spec(t, start, end),
{
}

/// Adjacent windows partition time: an instant of the combined window lies
/// in exactly one of the two.
pub proof fn lemma_window_partition(t: int, a: int, b: int, c: int)
    requires
        a <= b <= c,
    ensures
        in_window_spec(t, a, c) == (in_window_spec(t, a, b) || in_window_spec(t, b, c)),
        !(in_window_spec(t, a, b) && in_window_spec(t, b, c)),
{
}

/// The bootstrap watermark covers the catch-up floor: any instant within
/// the last 24 hours that the stored watermark had not yet processed (or,
/// on a fresh start, within the bootstrap lag) lies in the first window.
pub proof fn lemma_bootstrap_covers(stored: Option<i64>, now: int, t: int)
    requires
        now - CATCH_UP_FLOOR_SECONDS < t <= now,
        stored matches Some(s) ==> s < t,
        stored is None ==> now - BOOTSTRAP_LAG_SECONDS < t,
    ensures
        in_window_spec(t, spec_bootstrap(stored, now), now),
{
}

/// No missed firing across two consecutive ticks: if a rule's target lies
/// in the combined window `(a, c]` and its marker is absent, then exactly
/// one of the two adjacent windows fires it.
pub proof fn lemma_exactly_once_two_ticks(ev: Event, post: Event, a: int, b: int, c: int)
    requires
        a <= b <= c,
        event_updated(ev, post, a, b),
    ensures
        due_day_before(ev, a, c) ==> (due_day_before(ev, a, b) || due_day_before(post, b, c)),
        due_day_before(ev, a, c) ==> !(due_day_before(ev, a, b) && due_day_before(post, b, c)),
        due_same_day(ev, a, c) ==> (due_same_day(ev, a, b) || due_same_day(post, b, c)),
        due_same_day(ev, a, c) ==> !(due_same_day(ev, a, b) && due_same_day(post, b, c)),
        due_custom(ev, a, c) ==> (due_custom(ev, a, b) || due_custom(post, b, c)),
        due_custom(ev, a, c) ==> !(due_custom(ev, a, b) && due_custom(post, b, c)),
{
    lemma_no_duplicate_event_firing(ev, post, a, b, b, c);
    lemma_event_marker_kinds_distinct(
        ev.date@,
        db_rule(ev).time@,
        sd_rule(ev).time@,
        ev.time_start@,
        crate::evaluate::cu_minutes(ev),
    );
    lemma_has_marker_views(ev.sent_markers@, db_marker(ev));
    lemma_has_marker_views(ev.sent_markers@, sd_marker(ev));
    lemma_has_marker_views(ev.sent_markers@, cu_marker(ev));
    lemma_has_marker_views(post.sent_markers@, db_marker(ev));
    lemma_has_marker_views(post.sent_markers@, sd_marker(ev));
    lemma_has_marker_views(post.sent_markers@, cu_marker(ev));
    let fired = event_fire_markers(ev, a, b);
    let pre = views_of(ev.sent_markers@);
    assert(views_of(post.sent_markers@) == pre + fired);
    if due_day_before(ev, a, c) && !due_day_before(ev, a, b) {
        // the target sits in the second window; the first tick fired at
        // most the other two rules, whose markers differ
        assert(in_window_spec(crate::evaluate::db_target(ev), b, c));
        assert(!fired.contains(db_marker(ev)));
        assert(!views_of(post.sent_markers@).contains(db_marker(ev))) by {
            if views_of(post.sent_markers@).contains(db_marker(ev)) {
                let i = choose|i: int|
                    0 <= i < views_of(post.sent_markers@).len() && views_of(post.sent_markers@)[i]
                        == db_marker(ev);
                if i < pre.len() {
                    assert(pre[i] == db_marker(ev));
                } else {
                    assert(fired[i - pre.len()] == db_marker(ev));
                }
            }
        }
        assert(due_day_before(post, b, c));
    }
    if due_same_day(ev, a, c) && !due_same_day(ev, a, b) {
        assert(in_window_spec(crate::evaluate::sd_target(ev), b, c));
        assert(!fired.contains(sd_marker(ev)));
        assert(!views_of(post.sent_markers@).contains(sd_marker(ev))) by {
            if views_of(post.sent_markers@).contains(sd_marker(ev)) {
                let i = choose|i: int|
                    0 <= i < views_of(post.sent_markers@).len() && views_of(post.sent_markers@)[i]
                        == sd_marker(ev);
                if i < pre.len() {
                    assert(pre[i] == sd_marker(ev));
                } else {
                    assert(fired[i - pre.len()] == sd_marker(ev));
                }
            }
        }
        assert(due_same_day(post, b, c));
    }
    if due_custom(ev, a, c) && !due_custom(ev, a, b) {
        assert(in_window_spec(crate::evaluate::cu_target(ev), b, c));
        assert(!fired.contains(cu_marker(ev)));
        assert(!views_of(post.sent_markers@).contains(cu_marker(ev))) by {
            if views_of(post.sent_markers@).contains(cu_marker(ev)) {
                let i = choose|i: int|
                    0 <= i < views_of(post.sent_markers@).len() && views_of(post.sent_markers@)[i]
                        == cu_marker(ev);
                if i < pre.len() {
                    assert(pre[i] == cu_marker(ev));
                } else {
                    assert(fired[i - pre.len()] == cu_marker(ev));
                }
            }
        }
        assert(due_custom(post, b, c));
    }
}

/// Idempotent replay, per event: re-evaluating the very same window with
/// the updated event fires nothing.
pub proof fn lemma_idempotent_replay_event(ev: Event, post: Event, a: int, b: int)
    requires
        event_updated(ev, post, a, b),
    ensures
        event_fire_markers(post, a, b) == Seq::<Seq<char>>::empty(),
{
    lemma_no_duplicate_event_firing(ev, post, a, b, a, b);
    if due_day_before(post, a, b) {
        assert(due_day_before(ev, a, b)) by {
            lemma_markers_only_grow_contra(ev, post, a, b, db_marker(ev));
        }
    }
    if due_same_day(post, a, b) {
        assert(due_same_day(ev, a, b)) by {
            lemma_markers_only_grow_contra(ev, post, a, b, sd_marker(ev));
        }
    }
    if due_custom(post, a, b) {
        assert(due_custom(ev, a, b)) by {
            lemma_markers_only_grow_contra(ev, post, a, b, cu_marker(ev));
        }
    }
    assert(event_fire_markers(post, a, b) =~= Seq::<Seq<char>>::empty());
}

/// Contrapositive step of marker growth: a marker absent after the update
/// was absent before it.
proof fn lemma_markers_only_grow_contra(ev: Event, post: Event, a: int, b: int, m: Seq<char>)
    requires
        event_updated(ev, post, a, b),
        !has_marker(post.sent_markers@, m),
    ensures
        !has_marker(ev.sent_markers@, m),
{
    if has_marker(ev.sent_markers@, m) {
        lemma_markers_only_grow(ev, post, a, b, m);
    }
}

/// Recording into a log under its cap loses nothing.
proof fn lemma_record_keeps(log: Seq<Seq<char>>, m: Seq<char>, x: Seq<char>)
    requires
        log.len() < SENT_LOG_CAP,
        log.contains(m),
    ensures
        spec_record(log, x).contains(m),
{
    let i = choose|i: int| 0 <= i < log.len() && log[i] == m;
    assert(spec_record(log, x)[i] == m);
}

/// The briefing markers recorded by a pass are in the resulting log,
/// provided the log has room; at the cap, first-in-first-out eviction may
/// age markers out by design.
pub proof fn lemma_global_log_after_contains(
    s: Settings,
    today: Date,
    c: DayCounts,
    a: int,
    b: int,
    log: Seq<Seq<char>>,
)
    requires
        log.len() + 3 <= SENT_LOG_CAP,
    ensures
        due_slot(s, Slot::Morning, today, c, a, b, log) ==> global_log_after(
            s,
            today,
            c,
            a,
            b,
            log,
        ).contains(summary_marker_seq(Slot::Morning, today)),
        due_slot(s, Slot::Afternoon, today, c, a, b, log) ==> global_log_after(
            s,
            today,
            c,
            a,
            b,
            log,
        ).contains(summary_marker_seq(Slot::Afternoon, today)),
        due_slot(s, Slot::Evening, today, c, a, b, log) ==> global_log_after(
            s,
            today,
            c,
            a,
            b,
            log,
        ).contains(summary_marker_seq(Slot::Evening, today)),
{
    let m1 = summary_marker_seq(Slot::Morning, today);
    let m2 = summary_marker_seq(Slot::Afternoon, today);
    let m3 = summary_marker_seq(Slot::Evening, today);
    let l1 = if due_slot(s, Slot::Morning, today, c, a, b, log) {
        spec_record(log, m1)
    } else {
        log
    };
    let l2 = if due_slot(s, Slot::Afternoon, today, c, a, b, log) {
        spec_record(l1, m2)
    } else {
        l1
    };
    if due_slot(s, Slot::Morning, today, c, a, b, log) {
        assert(l1[l1.len() - 1] == m1);
        if due_slot(s, Slot::Afternoon, today, c, a, b, log) {
            lemma_record_keeps(l1, m1, m2);
        }
        if due_slot(s, Slot::Evening, today, c, a, b, log) {
            lemma_record_keeps(l2, m1, m3);
        }
    }
    if due_slot(s, Slot::Afternoon, today, c, a, b, log) {
        assert(l2[l2.len() - 1] == m2);
        if due_slot(s, Slot::Evening, today, c, a, b, log) {
            lemma_record_keeps(l2, m2, m3);
        }
    }
    if due_slot(s, Slot::Evening, today, c, a, b, log) {
        let l3 = spec_record(l2, m3);
        assert(l3[l3.len() - 1] == m3);
    }
}

/// No duplicate firing, briefings: once a slot fired and its marker sits in
/// the log, the slot is not due again for that day, whatever window, gate
/// counts or settings a later tick sees.
pub proof fn lemma_no_duplicate_global_firing(
    s: Settings,
    s2: Settings,
    slot: Slot,
    today: Date,
    c: DayCounts,
    c2: DayCounts,
    a: int,
    b: int,
    a2: int,
    b2: int,
    log: Seq<Seq<char>>,
)
    requires
        log.len() + 3 <= SENT_LOG_CAP,
        due_slot(s, slot, today, c, a, b, log),
    ensures
        !due_slot(s2, slot, today, c2, a2, b2, global_log_after(s, today, c, a, b, log)),
{
    lemma_global_log_after_contains(s, today, c, a, b, log);
}

/// Idempotent replay, briefings: re-evaluating the same window against the
/// updated log fires no briefing. The headroom hypothesis is needed: at
/// the 500-entry cap, the first pass's own recording can evict another
/// slot's marker by first-in-first-out, and a replay would then re-fire
/// that slot — a corner inherent to the bounded log; the midnight sweep
/// keeps the log far below the cap in normal operation.
pub proof fn lemma_idempotent_replay_globals(
    s: Settings,
    today: Date,
    c: DayCounts,
    a: int,
    b: int,
    log: Seq<Seq<char>>,
)
    requires
        log.len() + 3 <= SENT_LOG_CAP,
    ensures
        global_fire_markers(s, today, c, a, b, global_log_after(s, today, c, a, b, log))
            == Seq::<Seq<char>>::empty(),
{
    let after = global_log_after(s, today, c, a, b, log);
    lemma_global_log_after_contains(s, today, c, a, b, log);
    if due_slot(s, Slot::Morning, today, c, a, b, after) {
        if log.contains(summary_marker_seq(Slot::Morning, today)) {
            lemma_log_after_supseteq(s, today, c, a, b, log, summary_marker_seq(Slot::Morning, today));
        }
        assert(due_slot(s, Slot::Morning, today, c, a, b, log));
        assert(false);
    }
    if due_slot(s, Slot::Afternoon, today, c, a, b, after) {
        if log.contains(summary_marker_seq(Slot::Afternoon, today)) {
            lemma_log_after_supseteq(
                s,
                today,
                c,
                a,
                b,
                log,
                summary_marker_seq(Slot::Afternoon, today),
            );
        }
        assert(due_slot(s, Slot::Afternoon, today, c, a, b, log));
        assert(false);
    }
    if due_slot(s, Slot::Evening, today, c, a, b, after) {
        if log.contains(summary_marker_seq(Slot::Evening, today)) {
            lemma_log_after_supseteq(s, today, c, a, b, log, summary_marker_seq(Slot::Evening, today));
        }
        assert(due_slot(s, Slot::Evening, today, c, a, b, log));
        assert(false);
    }
    assert(global_fire_markers(s, today, c, a, b, after) =~= Seq::<Seq<char>>::empty());
}

/// With room under the cap, recording loses nothing: anything in the log
/// before the pass is still there after it.
proof fn lemma_log_after_supseteq(
    s: Settings,
    today: Date,
    c: DayCounts,
    a: int,
    b: int,
    log: Seq<Seq<char>>,
    m: Seq<char>,
)
    requires
        log.len() + 3 <= SENT_LOG_CAP,
        log.contains(m),
    ensures
        global_log_after(s, today, c, a, b, log).contains(m),
{
    let m1 = summary_marker_seq(Slot::Morning, today);
    let m2 = summary_marker_seq(Slot::Afternoon, today);
    let m3 = summary_marker_seq(Slot::Evening, today);
    let l1 = if due_slot(s, Slot::Morning, today, c, a, b, log) {
        spec_record(log, m1)
    } else {
        log
    };
    let l2 = if due_slot(s, Slot::Afternoon, today, c, a, b, log) {
        spec_record(l1, m2)
    } else {
        l1
    };
    if due_slot(s, Slot::Morning, today, c, a, b, log) {
        lemma_record_keeps(log, m, m1);
    }
    if due_slot(s, Slot::Afternoon, today, c, a, b, log) {
        lemma_record_keeps(l1, m, m2);
    }
    if due_slot(s, Slot::Evening, today, c, a, b, log) {
        lemma_record_keeps(l2, m, m3);
    }
}

} // verus!
