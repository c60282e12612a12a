//! The sent log: the persisted, ordered, size-capped collection of markers
//! for global briefings already fired. Capped by first-in-first-out eviction
//! at 500 entries; pruned at local midnight to the entries tagged with
//! today's or tomorrow's date.

use vstd::prelude::*;
use vstd::string::StrSliceExecFns;
use crate::calendar::Date;
use crate::timetext::date_seq;
use crate::model::views_of;

verus! {

/// Most entries the log may hold; older entries are evicted first.
pub const SENT_LOG_CAP: usize = 500;

/// The bounded log of fired global-briefing markers, oldest first.
#[derive(Clone, Debug)]
pub struct SentLog {
    entries: Vec<String>,
}

impl View for SentLog {
    type V = Seq<Seq<char>>;

    closed spec fn view(&self) -> Seq<Seq<char>> {
        views_of(self.entries@)
    }
}

/// Appending to the log, evicting the oldest entry when full.
pub open spec fn spec_record(log: Seq<Seq<char>>, m: Seq<char>) -> Seq<Seq<char>> {
    if log.len() < SENT_LOG_CAP {
        log.push(m)
    } else {
        log.subrange(log.len() - (SENT_LOG_CAP - 1), log.len() as int).push(m)
    }
}

/// Whether entry `e` is tagged with the date rendering `ds`: it ends in
/// `:<ds>`.
pub open spec fn tagged(e: Seq<char>, ds: Seq<char>) -> bool {
    &&& e.len() > ds.len()
    &&& e[e.len() - ds.len() - 1] == ':'
    &&& e.subrange(e.len() - ds.len(), e.len() as int) == ds
}

/// The entries of `log` tagged with `d1` or `d2`, in their original order.
pub open spec fn keep_tagged(log: Seq<Seq<char>>, d1: Seq<char>, d2: Seq<char>) -> Seq<Seq<char>>
    decreases log.len(),
{
    if log.len() == 0 {
        Seq::empty()
    } else {
        (if tagged(log[0], d1) || tagged(log[0], d2) {
            seq![log[0]]
        } else {
            Seq::empty()
        }) + keep_tagged(log.drop_first(), d1, d2)
    }
}

/// Whether `e` ends with `:` followed by `d`.
fn ends_with_tag(e: &String, d: &String) -> (b: bool)
    ensures
        b == tagged(e@, d@),
{
    let el: usize = e.as_str().unicode_len();
    let dl: usize = d.as_str().unicode_len();
    if el <= dl {
        return false;
    }
    if e.as_str().get_char(el - dl - 1) != ':' {
        return false;
    }
    let mut i: usize = 0;
    while i < dl
        invariant
            el == e@.len(),
            dl == d@.len(),
            el > dl,
            i <= dl,
            forall|j: int| 0 <= j < i ==> e@[el - dl + j] == d@[j],
        decreases dl - i,
    {
        if e.as_str().get_char(el - dl + i) != d.as_str().get_char(i) {
            assert(e@.subrange(el - dl, el as int)[i as int] != d@[i as int]);
            return false;
        }
        i += 1;
    }
    proof {
        assert(e@.subrange(el - dl, el as int) =~= d@);
    }
    true
}

impl SentLog {
    /// The log never exceeds its cap.
    pub closed spec fn wf(&self) -> bool {
        self.entries@.len() <= SENT_LOG_CAP
    }

    /// An empty log, for first scheduler start.
    pub fn new() -> (log: SentLog)
        ensures
            log.wf(),
            log@ == Seq::<Seq<char>>::empty(),
    {
        let log = SentLog { entries: Vec::new() };
        proof {
            assert(log@ =~= Seq::<Seq<char>>::empty());
        }
        log
    }

    /// Rebuild a log from persisted entries, keeping only the newest entries
    /// when a corrupt or overlong file exceeds the cap.
    pub fn from_entries(entries: Vec<String>) -> (log: SentLog)
        ensures
            log.wf(),
            log@ == (if entries@.len() <= SENT_LOG_CAP {
                views_of(entries@)
            } else {
                views_of(entries@).subrange(
                    entries@.len() - SENT_LOG_CAP,
                    entries@.len() as int,
                )
            }),
    {
        let ghost orig = entries@;
        let mut entries = entries;
        proof {
            assert(orig.subrange(0, orig.len() as int) =~= orig);
        }
        while entries.len() > SENT_LOG_CAP
            invariant
                entries@.len() <= orig.len(),
                entries@.len() >= SENT_LOG_CAP || entries@.len() == orig.len(),
                entries@ == orig.subrange(orig.len() - entries@.len(), orig.len() as int),
            decreases entries@.len(),
        {
            entries.remove(0);
            proof {
                assert(entries@ =~= orig.subrange(orig.len() - entries@.len(), orig.len() as int));
            }
        }
        let log = SentLog { entries };
        proof {
            if orig.len() <= SENT_LOG_CAP {
                assert(entries@ =~= orig);
                assert(log@ =~= views_of(orig));
            } else {
                assert(log@ =~= views_of(orig).subrange(
                    orig.len() - SENT_LOG_CAP,
                    orig.len() as int,
                ));
            }
        }
        log
    }

    /// How many markers the log holds.
    pub fn len(&self) -> (n: usize)
        ensures
            n == self@.len(),
    {
        self.entries.len()
    }

    /// The entries, oldest first, for persistence.
    pub fn entries(&self) -> (v: &Vec<String>)
        ensures
            views_of(v@) == self@,
    {
        &self.entries
    }

    /// Whether marker `m` was already recorded.
    pub fn contains_marker(&self, m: &String) -> (b: bool)
        ensures
            b == self@.contains(m@),
    {
        let mut i: usize = 0;
        while i < self.entries.len()
            invariant
                i <= self.entries@.len(),
                forall|j: int| 0 <= j < i ==> self.entries@[j]@ != m@,
            decreases self.entries@.len() - i,
        {
            if self.entries[i].eq(m) {
                assert(self@[i as int] == m@);
                return true;
            }
            i += 1;
        }
        proof {
            assert(forall|j: int| 0 <= j < self@.len() ==> self@[j] != m@);
        }
        false
    }

    /// Record a fired marker, evicting the oldest entry at the cap.
    pub fn record(&mut self, m: String)
        requires
            old(self).wf(),
        ensures
            final(self).wf(),
            final(self)@ == spec_record(old(self)@, m@),
    {
        if self.entries.len() >= SENT_LOG_CAP {
            self.entries.remove(0);
        }
        self.entries.push(m);
        proof {
            assert(self@ =~= spec_record(old(self)@, m@));
        }
    }

    /// The midnight sweep: drop every entry not tagged with today's or
    /// tomorrow's date.
    pub fn prune(&mut self, today: &Date, tomorrow: &Date)
        requires
            old(self).wf(),
            today.valid(),
            tomorrow.valid(),
        ensures
            final(self).wf(),
            final(self)@ == keep_tagged(old(self)@, date_seq(*today), date_seq(*tomorrow)),
    {
        let d1: String = crate::timetext::format_date(today);
        let d2: String = crate::timetext::format_date(tomorrow);
        let n: usize = self.entries.len();
        let mut kept: Vec<String> = Vec::new();
        let mut i: usize = 0;
        proof {
            assert(self@.subrange(0, n as int) =~= self@);
            assert(views_of(kept@) + keep_tagged(self@, d1@, d2@) =~= keep_tagged(
                self@,
                d1@,
                d2@,
            ));
        }
        while i < n
            invariant
                n == self.entries@.len(),
                self.entries@.len() <= SENT_LOG_CAP,
                i <= n,
                d1@ == date_seq(*today),
                d2@ == date_seq(*tomorrow),
                kept@.len() <= i,
                keep_tagged(self@, d1@, d2@) == views_of(kept@) + keep_tagged(
                    self@.subrange(i as int, n as int),
                    d1@,
                    d2@,
                ),
            decreases n - i,
        {
            let ghost pre = views_of(kept@);
            let ghost rest = self@.subrange(i as int, n as int);
            let e: &String = &self.entries[i];
            let keep = ends_with_tag(e, &d1) || ends_with_tag(e, &d2);
            proof {
                assert(rest[0] == self@[i as int]);
                assert(rest.drop_first() =~= self@.subrange(i as int + 1, n as int));
            }
            if keep {
                kept.push(e.clone());
                proof {
                    assert(views_of(kept@) =~= pre.push(self@[i as int]));
                    assert(pre + keep_tagged(rest, d1@, d2@) =~= pre.push(self@[i as int])
                        + keep_tagged(self@.subrange(i as int + 1, n as int), d1@, d2@));
                }
            } else {
                proof {
                    assert(pre + keep_tagged(rest, d1@, d2@) =~= pre + keep_tagged(
                        self@.subrange(i as int + 1, n as int),
                        d1@,
                        d2@,
                    ));
                }
            }
            i += 1;
        }
        proof {
            assert(self@.subrange(n as int, n as int) =~= Seq::<Seq<char>>::empty());
            assert(views_of(kept@) + Seq::<Seq<char>>::empty() =~= views_of(kept@));
        }
        self.entries = kept;
    }
}

} // verus!
