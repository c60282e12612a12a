//! Widget snapshots: the filtered, ordered views of the event list that the
//! foreground widgets show — today's events by start time, and the current
//! Monday-to-Sunday week by date and start time.

use vstd::prelude::*;
use vstd::seq_lib::to_multiset_insert;
use vstd::string::{StrSliceExecFns, StringExecFns};
use crate::calendar::{Date, day_index, day_number};
use crate::timetext::{is_date_seq, date_of_seq};
use crate::model::{Event, Exam};
use crate::evaluate::on_day;

verus! {

/// Lexicographic order on character sequences, by scalar value.
pub open spec fn lex_le(a: Seq<char>, b: Seq<char>) -> bool
    decreases a.len(),
{
    if a.len() == 0 {
        true
    } else if b.len() == 0 {
        false
    } else if (a[0] as int) < (b[0] as int) {
        true
    } else if (a[0] as int) > (b[0] as int) {
        false
    } else {
        lex_le(a.drop_first(), b.drop_first())
    }
}

/// The order is total.
pub proof fn lemma_lex_le_total(a: Seq<char>, b: Seq<char>)
    ensures
        lex_le(a, b) || lex_le(b, a),
    decreases a.len(),
{
    if a.len() > 0 && b.len() > 0 && a[0] == b[0] {
        lemma_lex_le_total(a.drop_first(), b.drop_first());
    }
}

/// The order is transitive.
pub proof fn lemma_lex_le_trans(a: Seq<char>, b: Seq<char>, c: Seq<char>)
    requires
        lex_le(a, b),
        lex_le(b, c),
    ensures
        lex_le(a, c),
    decreases a.len(),
{
    if a.len() > 0 && b.len() > 0 && c.len() > 0 {
        if a[0] == b[0] && b[0] == c[0] {
            lemma_lex_le_trans(a.drop_first(), b.drop_first(), c.drop_first());
        }
    }
}

/// Compare two strings lexicographically by character.
fn str_le(a: &str, b: &str) -> (r: bool)
    ensures
        r == lex_le(a@, b@),
{
    let an: usize = a.unicode_len();
    let bn: usize = b.unicode_len();
    let mut i: usize = 0;
    proof {
        assert(a@.subrange(0, an as int) =~= a@);
        assert(b@.subrange(0, bn as int) =~= b@);
    }
    while i < an && i < bn
        invariant
            an == a@.len(),
            bn == b@.len(),
            i <= an,
            i <= bn,
            lex_le(a@, b@) == lex_le(a@.subrange(i as int, an as int), b@.subrange(i as int, bn as int)),
        decreases an - i,
    {
        let ghost sa = a@.subrange(i as int, an as int);
        let ghost sb = b@.subrange(i as int, bn as int);
        let ca = a.get_char(i);
        let cb = b.get_char(i);
        proof {
            assert(sa[0] == a@[i as int]);
            assert(sb[0] == b@[i as int]);
            assert(sa.drop_first() =~= a@.subrange(i + 1, an as int));
            assert(sb.drop_first() =~= b@.subrange(i + 1, bn as int));
        }
        if (ca as u32) < (cb as u32) {
            return true;
        }
        if (ca as u32) > (cb as u32) {
            return false;
        }
        proof {
            assert(ca == cb);
        }
        i += 1;
    }
    proof {
        if i >= an {
            assert(a@.subrange(i as int, an as int).len() == 0);
        } else {
            assert(b@.subrange(i as int, bn as int).len() == 0);
            assert(a@.subrange(i as int, an as int).len() > 0);
        }
    }
    i >= an
}

/// The key a widget view orders an event by: its start time for the today
/// view, its date followed by its start time for the week view.
pub open spec fn event_key(ev: Event, week: bool) -> Seq<char> {
    if week {
        ev.date@ + ev.time_start@
    } else {
        ev.time_start@
    }
}

/// A sequence of events ordered by the view's key.
pub open spec fn ordered_events(s: Seq<Event>, week: bool) -> bool {
    forall|i: int, j: int|
        0 <= i < j < s.len() ==> #[trigger] lex_le(event_key(s[i], week), event_key(s[j], week))
}

/// Compare two events by the view's key.
fn event_le(a: &Event, b: &Event, week: bool) -> (r: bool)
    ensures
        r == lex_le(event_key(*a, week), event_key(*b, week)),
{
    if week {
        let ka = a.date.clone().concat(a.time_start.as_str());
        let kb = b.date.clone().concat(b.time_start.as_str());
        str_le(ka.as_str(), kb.as_str())
    } else {
        str_le(a.time_start.as_str(), b.time_start.as_str())
    }
}

/// The insertion point for `x`: the first index whose key exceeds `x`'s,
/// scanning past equal keys so earlier events with the same key stay first.
fn find_position(v: &Vec<Event>, x: &Event, week: bool) -> (idx: usize)
    ensures
        idx <= v@.len(),
        forall|j: int|
            0 <= j < idx ==> #[trigger] lex_le(event_key(v@[j], week), event_key(*x, week)),
        idx < v@.len() ==> !lex_le(event_key(v@[idx as int], week), event_key(*x, week)),
{
    let mut i: usize = 0;
    while i < v.len()
        invariant
            i <= v@.len(),
            forall|j: int|
                0 <= j < i ==> #[trigger] lex_le(event_key(v@[j], week), event_key(*x, week)),
        decreases v@.len() - i,
    {
        if !event_le(&v[i], x, week) {
            return i;
        }
        i += 1;
    }
    i
}

/// Insert an event into a key-ordered vector, after any equal keys, keeping
/// the order and adding exactly that event.
fn insert_ordered(v: &mut Vec<Event>, x: Event, week: bool)
    requires
        ordered_events(old(v)@, week),
    ensures
        ordered_events(final(v)@, week),
        final(v)@.to_multiset() == old(v)@.to_multiset().insert(x),
{
    let ghost x0 = x;
    let idx: usize = find_position(v, &x, week);
    proof {
        if idx < v@.len() {
            lemma_lex_le_total(event_key(v@[idx as int], week), event_key(x0, week));
        }
    }
    let ghost pre = v@;
    v.insert(idx, x);
    proof {
        broadcast use to_multiset_insert;

        assert(v@.to_multiset() == pre.to_multiset().insert(x0));
        assert forall|i: int, j: int| 0 <= i < j < v@.len() implies #[trigger] lex_le(
            event_key(v@[i], week),
            event_key(v@[j], week),
        ) by {
            let n = idx as int;
            if i < n && j < n {
                assert(v@[i] == pre[i] && v@[j] == pre[j]);
            } else if i < n && j == n {
                assert(v@[i] == pre[i] && v@[j] == x0);
            } else if i < n && j > n {
                assert(v@[i] == pre[i] && v@[j] == pre[j - 1]);
            } else if i == n {
                assert(v@[i] == x0 && v@[j] == pre[j - 1]);
                assert(lex_le(event_key(x0, week), event_key(pre[n], week)));
                if j - 1 > n {
                    lemma_lex_le_trans(
                        event_key(x0, week),
                        event_key(pre[n], week),
                        event_key(pre[j - 1], week),
                    );
                }
            } else {
                assert(v@[i] == pre[i - 1] && v@[j] == pre[j - 1]);
            }
        }
    }
}

/// The events of the snapshot lying on day `d`, in snapshot order.
pub open spec fn select_on_day(evs: Seq<Event>, d: Date) -> Seq<Event>
    decreases evs.len(),
{
    if evs.len() == 0 {
        Seq::empty()
    } else {
        select_on_day(evs.drop_last(), d) + (if on_day(evs.last(), d) {
            seq![evs.last()]
        } else {
            Seq::empty()
        })
    }
}

/// Whether an event lies in the day-number range `[sow, eow]`.
pub open spec fn in_week(ev: Event, sow: int, eow: int) -> bool {
    is_date_seq(ev.date@) && sow <= day_index(date_of_seq(ev.date@)) <= eow
}

/// The events of the snapshot lying in the range, in snapshot order.
pub open spec fn select_in_week(evs: Seq<Event>, sow: int, eow: int) -> Seq<Event>
    decreases evs.len(),
{
    if evs.len() == 0 {
        Seq::empty()
    } else {
        select_in_week(evs.drop_last(), sow, eow) + (if in_week(evs.last(), sow, eow) {
            seq![evs.last()]
        } else {
            Seq::empty()
        })
    }
}

/// Monday-based weekday of a date: day 0 of the calendar, 0000-01-01, is a
/// Saturday in the proleptic Gregorian reckoning, so Monday falls on day
/// numbers congruent to 2 modulo 7.
pub open spec fn weekday_from_monday(d: Date) -> int {
    (day_index(d) + 5) % 7
}

/// The day-number range of the Monday-to-Sunday week holding `today`.
pub fn week_range(today: &Date) -> (r: (i64, i64))
    requires
        today.valid(),
    ensures
        r.0 == day_index(*today) - weekday_from_monday(*today),
        r.1 == r.0 + 6,
{
    let n: i64 = day_number(today);
    let sow: i64 = n - (n + 5) % 7;
    (sow, sow + 6)
}

/// Today's events, ordered by start time: the today widget's list.
pub fn today_events(events: Vec<Event>, d: &Date) -> (r: Vec<Event>)
    ensures
        ordered_events(r@, false),
        r@.to_multiset() == select_on_day(events@, *d).to_multiset(),
{
    let ghost evs0 = events@;
    let mut remaining = events;
    let n0: usize = remaining.len();
    let mut r: Vec<Event> = Vec::new();
    let mut i: usize = 0;
    proof {
        assert(evs0.subrange(0, 0) =~= Seq::<Event>::empty());
        assert(remaining@ =~= evs0.subrange(0, evs0.len() as int));
    }
    while remaining.len() > 0
        invariant
            n0 == evs0.len(),
            i + remaining@.len() == n0,
            remaining@ == evs0.subrange(i as int, evs0.len() as int),
            ordered_events(r@, false),
            r@.to_multiset() == select_on_day(evs0.subrange(0, i as int), *d).to_multiset(),
        decreases remaining@.len(),
    {
        let ghost prefix = evs0.subrange(0, i as int);
        let ghost next = evs0.subrange(0, i + 1);
        let ev = remaining.remove(0);
        proof {
            assert(evs0.subrange(i as int, evs0.len() as int)[0] == evs0[i as int]);
            assert(ev == evs0[i as int]);
            assert(remaining@ =~= evs0.subrange(i + 1, evs0.len() as int));
            assert(next.drop_last() =~= prefix);
            assert(next.last() == evs0[i as int]);
        }
        if crate::evaluate::event_on_day(&ev, d) {
            insert_ordered(&mut r, ev, false);
            proof {
                broadcast use vstd::seq_lib::group_to_multiset_ensures;

                assert(select_on_day(next, *d) =~= select_on_day(prefix, *d).push(
                    evs0[i as int],
                ));
                assert(select_on_day(next, *d).to_multiset() == select_on_day(
                    prefix,
                    *d,
                ).to_multiset().insert(evs0[i as int]));
            }
        } else {
            proof {
                assert(select_on_day(next, *d) =~= select_on_day(prefix, *d));
            }
        }
        i += 1;
    }
    proof {
        assert(evs0.subrange(0, evs0.len() as int) =~= evs0);
    }
    r
}

/// This week's events, ordered by date then start time: the week widget's
/// list. The week runs Monday to Sunday around `today`.
pub fn week_events(events: Vec<Event>, today: &Date) -> (r: Vec<Event>)
    requires
        today.valid(),
    ensures
        ordered_events(r@, true),
        r@.to_multiset() == select_in_week(
            events@,
            day_index(*today) - weekday_from_monday(*today),
            day_index(*today) - weekday_from_monday(*today) + 6,
        ).to_multiset(),
{
    let (sow, eow) = week_range(today);
    let ghost evs0 = events@;
    let mut remaining = events;
    let n0: usize = remaining.len();
    let mut r: Vec<Event> = Vec::new();
    let mut i: usize = 0;
    proof {
        assert(evs0.subrange(0, 0) =~= Seq::<Event>::empty());
        assert(remaining@ =~= evs0.subrange(0, evs0.len() as int));
    }
    while remaining.len() > 0
        invariant
            n0 == evs0.len(),
            i + remaining@.len() == n0,
            remaining@ == evs0.subrange(i as int, evs0.len() as int),
            sow == day_index(*today) - weekday_from_monday(*today),
            eow == sow + 6,
            ordered_events(r@, true),
            r@.to_multiset() == select_in_week(
                evs0.subrange(0, i as int),
                sow as int,
                eow as int,
            ).to_multiset(),
        decreases remaining@.len(),
    {
        let ghost prefix = evs0.subrange(0, i as int);
        let ghost next = evs0.subrange(0, i + 1);
        let ev = remaining.remove(0);
        proof {
            assert(evs0.subrange(i as int, evs0.len() as int)[0] == evs0[i as int]);
            assert(ev == evs0[i as int]);
            assert(remaining@ =~= evs0.subrange(i + 1, evs0.len() as int));
            assert(next.drop_last() =~= prefix);
            assert(next.last() == evs0[i as int]);
        }
        let inside = match crate::timetext::parse_date(ev.date.as_str()) {
            Some(pd) => {
                let dn: i64 = day_number(&pd);
                sow <= dn && dn <= eow
            },
            None => false,
        };
        if inside {
            insert_ordered(&mut r, ev, true);
            proof {
                broadcast use vstd::seq_lib::group_to_multiset_ensures;

                assert(select_in_week(next, sow as int, eow as int) =~= select_in_week(
                    prefix,
                    sow as int,
                    eow as int,
                ).push(evs0[i as int]));
                assert(select_in_week(next, sow as int, eow as int).to_multiset()
                    == select_in_week(prefix, sow as int, eow as int).to_multiset().insert(
                    evs0[i as int],
                ));
            }
        } else {
            proof {
                assert(select_in_week(next, sow as int, eow as int) =~= select_in_week(
                    prefix,
                    sow as int,
                    eow as int,
                ));
            }
        }
        i += 1;
    }
    proof {
        assert(evs0.subrange(0, evs0.len() as int) =~= evs0);
    }
    r
}

/// An exam still to be taken: anything whose status is not `passed`.
pub open spec fn exam_pending(e: Exam) -> bool {
    e.status@ != "passed"@
}

/// The key the exams widget orders by: the exam date, with unscheduled
/// exams (an empty date) keyed `zzzz` so they sort after any real date.
pub open spec fn exam_key(e: Exam) -> Seq<char> {
    if e.exam_date@.len() == 0 {
        "zzzz"@
    } else {
        e.exam_date@
    }
}

/// A sequence of exams ordered by date.
pub open spec fn ordered_exams(s: Seq<Exam>) -> bool {
    forall|i: int, j: int|
        0 <= i < j < s.len() ==> #[trigger] lex_le(exam_key(s[i]), exam_key(s[j]))
}

/// The pending exams of the record, in record order.
pub open spec fn select_pending(s: Seq<Exam>) -> Seq<Exam>
    decreases s.len(),
{
    if s.len() == 0 {
        Seq::empty()
    } else {
        select_pending(s.drop_last()) + (if exam_pending(s.last()) {
            seq![s.last()]
        } else {
            Seq::empty()
        })
    }
}

/// Compare two exams by their date key.
fn exam_le(a: &Exam, b: &Exam) -> (r: bool)
    ensures
        r == lex_le(exam_key(*a), exam_key(*b)),
{
    let ka = if a.exam_date.as_str().is_empty() {
        String::from_str("zzzz")
    } else {
        a.exam_date.clone()
    };
    let kb = if b.exam_date.as_str().is_empty() {
        String::from_str("zzzz")
    } else {
        b.exam_date.clone()
    };
    str_le(ka.as_str(), kb.as_str())
}

/// The insertion point for `x` among date-ordered exams, after equal keys.
fn find_exam_position(v: &Vec<Exam>, x: &Exam) -> (idx: usize)
    ensures
        idx <= v@.len(),
        forall|j: int| 0 <= j < idx ==> #[trigger] lex_le(exam_key(v@[j]), exam_key(*x)),
        idx < v@.len() ==> !lex_le(exam_key(v@[idx as int]), exam_key(*x)),
{
    let mut i: usize = 0;
    while i < v.len()
        invariant
            i <= v@.len(),
            forall|j: int| 0 <= j < i ==> #[trigger] lex_le(exam_key(v@[j]), exam_key(*x)),
        decreases v@.len() - i,
    {
        if !exam_le(&v[i], x) {
            return i;
        }
        i += 1;
    }
    i
}

/// Insert an exam into a date-ordered vector, keeping the order and adding
/// exactly that exam.
fn insert_exam(v: &mut Vec<Exam>, x: Exam)
    requires
        ordered_exams(old(v)@),
    ensures
        ordered_exams(final(v)@),
        final(v)@.to_multiset() == old(v)@.to_multiset().insert(x),
{
    let ghost x0 = x;
    let idx: usize = find_exam_position(v, &x);
    proof {
        if idx < v@.len() {
            lemma_lex_le_total(exam_key(v@[idx as int]), exam_key(x0));
        }
    }
    let ghost pre = v@;
    v.insert(idx, x);
    proof {
        broadcast use to_multiset_insert;

        assert(v@.to_multiset() == pre.to_multiset().insert(x0));
        assert forall|i: int, j: int| 0 <= i < j < v@.len() implies #[trigger] lex_le(
            exam_key(v@[i]),
            exam_key(v@[j]),
        ) by {
            let n = idx as int;
            if i < n && j < n {
                assert(v@[i] == pre[i] && v@[j] == pre[j]);
            } else if i < n && j == n {
                assert(v@[i] == pre[i] && v@[j] == x0);
            } else if i < n && j > n {
                assert(v@[i] == pre[i] && v@[j] == pre[j - 1]);
            } else if i == n {
                assert(v@[i] == x0 && v@[j] == pre[j - 1]);
                assert(lex_le(exam_key(x0), exam_key(pre[n])));
                if j - 1 > n {
                    lemma_lex_le_trans(exam_key(x0), exam_key(pre[n]), exam_key(pre[j - 1]));
                }
            } else {
                assert(v@[i] == pre[i - 1] && v@[j] == pre[j - 1]);
            }
        }
    }
}

/// The exams still to be taken, ordered by date with unscheduled ones
/// last: the exams widget's list.
pub fn pending_exams(exams: Vec<Exam>) -> (r: Vec<Exam>)
    ensures
        ordered_exams(r@),
        r@.to_multiset() == select_pending(exams@).to_multiset(),
{
    let ghost xs0 = exams@;
    let mut remaining = exams;
    let n0: usize = remaining.len();
    let mut r: Vec<Exam> = Vec::new();
    let mut i: usize = 0;
    proof {
        assert(xs0.subrange(0, 0) =~= Seq::<Exam>::empty());
        assert(remaining@ =~= xs0.subrange(0, xs0.len() as int));
    }
    while remaining.len() > 0
        invariant
            n0 == xs0.len(),
            i + remaining@.len() == n0,
            remaining@ == xs0.subrange(i as int, xs0.len() as int),
            ordered_exams(r@),
            r@.to_multiset() == select_pending(xs0.subrange(0, i as int)).to_multiset(),
        decreases remaining@.len(),
    {
        let ghost prefix = xs0.subrange(0, i as int);
        let ghost next = xs0.subrange(0, i + 1);
        let x = remaining.remove(0);
        proof {
            assert(xs0.subrange(i as int, xs0.len() as int)[0] == xs0[i as int]);
            assert(x == xs0[i as int]);
            assert(remaining@ =~= xs0.subrange(i + 1, xs0.len() as int));
            assert(next.drop_last() =~= prefix);
            assert(next.last() == xs0[i as int]);
        }
        let keep = !x.status.eq(&String::from_str("passed"));
        if keep {
            insert_exam(&mut r, x);
            proof {
                broadcast use vstd::seq_lib::group_to_multiset_ensures;

                assert(select_pending(next) =~= select_pending(prefix).push(xs0[i as int]));
                assert(select_pending(next).to_multiset() == select_pending(
                    prefix,
                ).to_multiset().insert(xs0[i as int]));
            }
        } else {
            proof {
                assert(select_pending(next) =~= select_pending(prefix));
            }
        }
        i += 1;
    }
    proof {
        assert(xs0.subrange(0, xs0.len() as int) =~= xs0);
    }
    r
}

} // verus!
