//! The textual forms the engine reads and writes: rule times `HH:MM`, event
//! dates `YYYY-MM-DD`, and full instants `YYYY-MM-DDTHH:MM:SS`. A string
//! parses exactly when it is the zero-padded rendering of an in-range value;
//! anything else is malformed and the affected rule is skipped by the caller.

use vstd::prelude::*;
use vstd::string::{StrSliceExecFns, StringExecFns};
use vstd::arithmetic::div_mod::{
    lemma_mod_bound, lemma_div_is_ordered, lemma_div_denominator, lemma_fundamental_div_mod,
    lemma_fundamental_div_mod_converse, lemma_div_pos_is_pos,
};
use crate::calendar::{Date, days_in_month, instant_of, day_index, date_of_day_number, INSTANT_LIMIT};

verus! {

/// A time of day with minute precision, as reminder rules state it.
#[derive(Clone, Copy, Debug)]
pub struct TimeOfDay {
    pub hour: u32,
    pub minute: u32,
}

impl TimeOfDay {
    pub open spec fn valid(self) -> bool {
        self.hour <= 23 && self.minute <= 59
    }
}

/// The decimal digit characters.
pub open spec fn is_digit(c: char) -> bool {
    48 <= c as int <= 57
}

/// Numeric value of a digit character.
pub open spec fn digit_of(c: char) -> int {
    c as int - 48
}

/// The character rendering a single decimal digit.
pub open spec fn digit_char(v: int) -> char {
    if v == 0 {
        '0'
    } else if v == 1 {
        '1'
    } else if v == 2 {
        '2'
    } else if v == 3 {
        '3'
    } else if v == 4 {
        '4'
    } else if v == 5 {
        '5'
    } else if v == 6 {
        '6'
    } else if v == 7 {
        '7'
    } else if v == 8 {
        '8'
    } else {
        '9'
    }
}

/// Shape of a well-formed `HH:MM` string: five characters, zero-padded,
/// hour below 24 and minute below 60.
pub open spec fn is_time_seq(s: Seq<char>) -> bool {
    &&& s.len() == 5
    &&& is_digit(s[0])
    &&& is_digit(s[1])
    &&& s[2] == ':'
    &&& is_digit(s[3])
    &&& is_digit(s[4])
    &&& seq_hour(s) <= 23
    &&& seq_minute(s) <= 59
}

pub open spec fn seq_hour(s: Seq<char>) -> int {
    10 * digit_of(s[0]) + digit_of(s[1])
}

pub open spec fn seq_minute(s: Seq<char>) -> int {
    10 * digit_of(s[3]) + digit_of(s[4])
}

/// The time of day a well-formed `HH:MM` string denotes.
pub open spec fn time_of_seq(s: Seq<char>) -> TimeOfDay {
    TimeOfDay { hour: seq_hour(s) as u32, minute: seq_minute(s) as u32 }
}

/// Shape of a well-formed `YYYY-MM-DD` string: ten characters, zero-padded,
/// denoting a real calendar date.
pub open spec fn is_date_seq(s: Seq<char>) -> bool {
    &&& s.len() == 10
    &&& is_digit(s[0])
    &&& is_digit(s[1])
    &&& is_digit(s[2])
    &&& is_digit(s[3])
    &&& s[4] == '-'
    &&& is_digit(s[5])
    &&& is_digit(s[6])
    &&& s[7] == '-'
    &&& is_digit(s[8])
    &&& is_digit(s[9])
    &&& 1 <= seq_month(s) <= 12
    &&& 1 <= seq_mday(s) <= days_in_month(seq_year(s), seq_month(s))
}

pub open spec fn seq_year(s: Seq<char>) -> int {
    1000 * digit_of(s[0]) + 100 * digit_of(s[1]) + 10 * digit_of(s[2]) + digit_of(s[3])
}

pub open spec fn seq_month(s: Seq<char>) -> int {
    10 * digit_of(s[5]) + digit_of(s[6])
}

pub open spec fn seq_mday(s: Seq<char>) -> int {
    10 * digit_of(s[8]) + digit_of(s[9])
}

/// The date a well-formed `YYYY-MM-DD` string denotes.
pub open spec fn date_of_seq(s: Seq<char>) -> Date {
    Date { year: seq_year(s) as u32, month: seq_month(s) as u32, day: seq_mday(s) as u32 }
}

/// The canonical rendering of a date, `YYYY-MM-DD`.
pub open spec fn date_seq(d: Date) -> Seq<char> {
    seq![
        digit_char(d.year as int / 1000),
        digit_char((d.year as int / 100) % 10),
        digit_char((d.year as int / 10) % 10),
        digit_char(d.year as int % 10),
        '-',
        digit_char(d.month as int / 10),
        digit_char(d.month as int % 10),
        '-',
        digit_char(d.day as int / 10),
        digit_char(d.day as int % 10),
    ]
}

/// Shape of a well-formed `YYYY-MM-DDTHH:MM:SS` string.
pub open spec fn is_datetime_seq(s: Seq<char>) -> bool {
    &&& s.len() == 19
    &&& is_date_seq(s.subrange(0, 10))
    &&& s[10] == 'T'
    &&& is_time_seq(s.subrange(11, 16))
    &&& s[16] == ':'
    &&& is_digit(s[17])
    &&& is_digit(s[18])
    &&& seq_sec(s) <= 59
}

pub open spec fn seq_sec(s: Seq<char>) -> int {
    10 * digit_of(s[17]) + digit_of(s[18])
}

/// The instant a well-formed `YYYY-MM-DDTHH:MM:SS` string denotes, in seconds
/// since the epoch.
pub open spec fn datetime_instant(s: Seq<char>) -> int {
    instant_of(
        date_of_seq(s.subrange(0, 10)),
        seq_hour(s.subrange(11, 16)),
        seq_minute(s.subrange(11, 16)),
        seq_sec(s),
    )
}

/// Numeric value of one character, if it is a decimal digit.
fn char_digit(c: char) -> (r: Option<u32>)
    ensures
        match r {
            Some(v) => is_digit(c) && v == digit_of(c) && v <= 9,
            None => !is_digit(c),
        },
{
    let u: u32 = c as u32;
    if 48 <= u && u <= 57 {
        Some(u - 48)
    } else {
        None
    }
}

/// Parse a rule time `HH:MM`.
pub fn parse_time(s: &str) -> (r: Option<TimeOfDay>)
    ensures
        match r {
            Some(t) => is_time_seq(s@) && t == time_of_seq(s@) && t.valid(),
            None => !is_time_seq(s@),
        },
{
    if s.unicode_len() != 5 {
        return None;
    }
    if s.get_char(2) != ':' {
        return None;
    }
    let d0 = match char_digit(s.get_char(0)) {
        Some(v) => v,
        None => { return None; },
    };
    let d1 = match char_digit(s.get_char(1)) {
        Some(v) => v,
        None => { return None; },
    };
    let d3 = match char_digit(s.get_char(3)) {
        Some(v) => v,
        None => { return None; },
    };
    let d4 = match char_digit(s.get_char(4)) {
        Some(v) => v,
        None => { return None; },
    };
    let hour: u32 = 10 * d0 + d1;
    let minute: u32 = 10 * d3 + d4;
    if hour <= 23 && minute <= 59 {
        Some(TimeOfDay { hour, minute })
    } else {
        None
    }
}

/// Parse an event date `YYYY-MM-DD`, rejecting impossible calendar days.
pub fn parse_date(s: &str) -> (r: Option<Date>)
    ensures
        match r {
            Some(d) => is_date_seq(s@) && d == date_of_seq(s@) && d.valid(),
            None => !is_date_seq(s@),
        },
{
    if s.unicode_len() != 10 {
        return None;
    }
    if s.get_char(4) != '-' || s.get_char(7) != '-' {
        return None;
    }
    let y0 = match char_digit(s.get_char(0)) {
        Some(v) => v,
        None => { return None; },
    };
    let y1 = match char_digit(s.get_char(1)) {
        Some(v) => v,
        None => { return None; },
    };
    let y2 = match char_digit(s.get_char(2)) {
        Some(v) => v,
        None => { return None; },
    };
    let y3 = match char_digit(s.get_char(3)) {
        Some(v) => v,
        None => { return None; },
    };
    let m0 = match char_digit(s.get_char(5)) {
        Some(v) => v,
        None => { return None; },
    };
    let m1 = match char_digit(s.get_char(6)) {
        Some(v) => v,
        None => { return None; },
    };
    let d0 = match char_digit(s.get_char(8)) {
        Some(v) => v,
        None => { return None; },
    };
    let d1 = match char_digit(s.get_char(9)) {
        Some(v) => v,
        None => { return None; },
    };
    let year: u32 = 1000 * y0 + 100 * y1 + 10 * y2 + y3;
    let month: u32 = 10 * m0 + m1;
    let day: u32 = 10 * d0 + d1;
    if month < 1 || month > 12 {
        return None;
    }
    if day < 1 || day > crate::calendar::month_days(year, month) {
        return None;
    }
    Some(Date { year, month, day })
}

/// Parse a persisted instant `YYYY-MM-DDTHH:MM:SS`.
pub fn parse_datetime(s: &str) -> (r: Option<i64>)
    ensures
        match r {
            Some(t) => is_datetime_seq(s@) && t == datetime_instant(s@) && 0 <= t,
            None => !is_datetime_seq(s@),
        },
{
    if s.unicode_len() != 19 {
        return None;
    }
    if s.get_char(10) != 'T' || s.get_char(16) != ':' {
        return None;
    }
    let date_part = s.substring_char(0, 10);
    let time_part = s.substring_char(11, 16);
    let d = match crate::timetext::parse_date(date_part) {
        Some(d) => d,
        None => { return None; },
    };
    let t = match parse_time(time_part) {
        Some(t) => t,
        None => { return None; },
    };
    let s0 = match char_digit(s.get_char(17)) {
        Some(v) => v,
        None => { return None; },
    };
    let s1 = match char_digit(s.get_char(18)) {
        Some(v) => v,
        None => { return None; },
    };
    let sec: u32 = 10 * s0 + s1;
    if sec > 59 {
        return None;
    }
    Some(crate::calendar::date_instant(&d, t.hour, t.minute, sec))
}

/// The string `"0"` through `"9"` for one digit value.
fn digit_str(v: u32) -> (s: &'static str)
    requires
        v <= 9,
    ensures
        s@.len() == 1,
        s@[0] == digit_char(v as int),
{
    proof {
        reveal_strlit("0");
        reveal_strlit("1");
        reveal_strlit("2");
        reveal_strlit("3");
        reveal_strlit("4");
        reveal_strlit("5");
        reveal_strlit("6");
        reveal_strlit("7");
        reveal_strlit("8");
        reveal_strlit("9");
    }
    match v {
        0 => "0",
        1 => "1",
        2 => "2",
        3 => "3",
        4 => "4",
        5 => "5",
        6 => "6",
        7 => "7",
        8 => "8",
        _ => "9",
    }
}

/// A one-character string holding a single digit, as an owned `String`.
pub fn small_digit_string(v: u32) -> (s: String)
    requires
        v <= 9,
    ensures
        s@ == seq![digit_char(v as int)],
{
    let s = String::from_str(digit_str(v));
    proof {
        assert(s@ =~= seq![digit_char(v as int)]);
    }
    s
}

/// Formatting and parsing agree: the canonical rendering of a valid date is
/// itself a well-formed date string, and it denotes the date it came from.
pub proof fn lemma_date_round_trip(d: Date)
    requires
        d.valid(),
    ensures
        is_date_seq(date_seq(d)),
        date_of_seq(date_seq(d)) == d,
{
    let y = d.year as int;
    let m = d.month as int;
    let dd = d.day as int;
    assert forall|v: int| 0 <= v <= 9 implies is_digit(digit_char(v)) && digit_of(digit_char(v))
        == v by {}
    lemma_mod_bound(y, 10);
    lemma_mod_bound(y / 10, 10);
    lemma_mod_bound(y / 100, 10);
    lemma_mod_bound(m, 10);
    lemma_mod_bound(dd, 10);
    lemma_div_pos_is_pos(y, 10);
    lemma_div_pos_is_pos(y, 100);
    lemma_div_pos_is_pos(y, 1000);
    lemma_div_pos_is_pos(m, 10);
    lemma_div_pos_is_pos(dd, 10);
    lemma_div_is_ordered(y, 9999, 1000);
    lemma_div_is_ordered(m, 12, 10);
    lemma_div_is_ordered(dd, 31, 10);
    lemma_fundamental_div_mod(y, 10);
    lemma_fundamental_div_mod(y / 10, 10);
    lemma_fundamental_div_mod(y / 100, 10);
    lemma_div_denominator(y, 10, 10);
    lemma_div_denominator(y, 100, 10);
    lemma_fundamental_div_mod(m, 10);
    lemma_fundamental_div_mod(dd, 10);
    assert(y == 1000 * (y / 1000) + 100 * ((y / 100) % 10) + 10 * ((y / 10) % 10) + y % 10);
    assert(seq_year(date_seq(d)) == y);
    assert(seq_month(date_seq(d)) == m);
    assert(seq_mday(date_seq(d)) == dd);
    assert(is_date_seq(date_seq(d)));
    assert(date_of_seq(date_seq(d)) == d);
}

/// The converse: a well-formed date string is the canonical rendering of
/// the date it denotes, so each valid date has exactly one written form.
pub proof fn lemma_parse_formats_back(s: Seq<char>)
    requires
        is_date_seq(s),
    ensures
        date_of_seq(s).valid(),
        date_seq(date_of_seq(s)) == s,
{
    assert forall|ch: char| is_digit(ch) implies digit_char(digit_of(ch)) == ch by {}
    let a = digit_of(s[0]);
    let b = digit_of(s[1]);
    let c = digit_of(s[2]);
    let e = digit_of(s[3]);
    let f = digit_of(s[5]);
    let g = digit_of(s[6]);
    let h = digit_of(s[8]);
    let k = digit_of(s[9]);
    let y = seq_year(s);
    let m = seq_month(s);
    let dd = seq_mday(s);
    lemma_fundamental_div_mod_converse(y, 1000, a, 100 * b + 10 * c + e);
    lemma_fundamental_div_mod_converse(y, 100, 10 * a + b, 10 * c + e);
    lemma_fundamental_div_mod_converse(10 * a + b, 10, a, b);
    lemma_fundamental_div_mod_converse(y, 10, 100 * a + 10 * b + c, e);
    lemma_fundamental_div_mod_converse(100 * a + 10 * b + c, 10, 10 * a + b, c);
    lemma_fundamental_div_mod_converse(m, 10, f, g);
    lemma_fundamental_div_mod_converse(dd, 10, h, k);
    assert(date_seq(date_of_seq(s)) =~= s);
}

/// Render a date canonically as `YYYY-MM-DD`.
pub fn format_date(d: &Date) -> (s: String)
    requires
        d.valid(),
    ensures
        s@ == date_seq(*d),
{
    proof {
        reveal_strlit("-");
        lemma_div_is_ordered(d.year as int, 9999, 1000);
        lemma_mod_bound(d.year as int / 100, 10);
        lemma_mod_bound(d.year as int / 10, 10);
        lemma_mod_bound(d.year as int, 10);
        lemma_mod_bound(d.month as int, 10);
        lemma_mod_bound(d.day as int, 10);
    }
    let mut s = String::new();
    s.append(digit_str(d.year / 1000));
    s.append(digit_str((d.year / 100) % 10));
    s.append(digit_str((d.year / 10) % 10));
    s.append(digit_str(d.year % 10));
    s.append("-");
    s.append(digit_str(d.month / 10));
    s.append(digit_str(d.month % 10));
    s.append("-");
    s.append(digit_str(d.day / 10));
    s.append(digit_str(d.day % 10));
    proof {
        assert(s@ =~= date_seq(*d));
    }
    s
}


/// A two-character, zero-padded rendering of a number below one hundred.
fn two_digit_string(v: u32) -> (s: String)
    requires
        v <= 99,
    ensures
        s@ == seq![digit_char(v as int / 10), digit_char(v as int % 10)],
{
    proof {
        lemma_div_is_ordered(v as int, 99, 10);
        lemma_mod_bound(v as int, 10);
    }
    let mut s = small_digit_string(v / 10);
    s.append(small_digit_string(v % 10).as_str());
    proof {
        assert(s@ =~= seq![digit_char(v as int / 10), digit_char(v as int % 10)]);
    }
    s
}

/// Render an instant canonically as `YYYY-MM-DDTHH:MM:SS`: the inverse of
/// `parse_datetime` on the modelled range.
pub fn format_instant(t: i64) -> (s: String)
    requires
        0 <= t < INSTANT_LIMIT,
    ensures
        is_datetime_seq(s@),
        datetime_instant(s@) == t,
{
    proof {
        reveal_strlit("T");
        reveal_strlit(":");
        lemma_div_pos_is_pos(t as int, 86400);
        lemma_mod_bound(t as int, 86400);
        lemma_fundamental_div_mod(t as int, 86400);
        lemma_div_is_ordered(t as int, 315_569_519_999, 86400);
        lemma_fundamental_div_mod_converse(315_569_519_999, 86400, 3_652_424, 86399);
    }
    let day: i64 = t / 86400;
    let secs: i64 = t % 86400;
    let d: Date = date_of_day_number(day);
    proof {
        lemma_div_pos_is_pos(secs as int, 3600);
        lemma_mod_bound(secs as int, 3600);
        lemma_fundamental_div_mod(secs as int, 3600);
        lemma_div_is_ordered(secs as int, 86399, 3600);
        lemma_fundamental_div_mod_converse(86399, 3600, 23, 3599);
    }
    let h: u32 = (secs / 3600) as u32;
    let rem: i64 = secs % 3600;
    proof {
        lemma_div_pos_is_pos(rem as int, 60);
        lemma_mod_bound(rem as int, 60);
        lemma_fundamental_div_mod(rem as int, 60);
        lemma_div_is_ordered(rem as int, 3599, 60);
        lemma_fundamental_div_mod_converse(3599, 60, 59, 59);
    }
    let mi: u32 = (rem / 60) as u32;
    let sec: u32 = (rem % 60) as u32;
    let mut s = format_date(&d);
    s.append("T");
    s.append(two_digit_string(h).as_str());
    s.append(":");
    s.append(two_digit_string(mi).as_str());
    s.append(":");
    s.append(two_digit_string(sec).as_str());
    proof {
        assert forall|v: int| 0 <= v <= 9 implies is_digit(digit_char(v)) && digit_of(
            digit_char(v),
        ) == v by {}
        lemma_div_is_ordered(h as int, 23, 10);
        lemma_mod_bound(h as int, 10);
        lemma_fundamental_div_mod(h as int, 10);
        lemma_div_is_ordered(mi as int, 59, 10);
        lemma_mod_bound(mi as int, 10);
        lemma_fundamental_div_mod(mi as int, 10);
        lemma_div_is_ordered(sec as int, 59, 10);
        lemma_mod_bound(sec as int, 10);
        lemma_fundamental_div_mod(sec as int, 10);
        lemma_date_round_trip(d);
        assert(s@ =~= date_seq(d) + seq!['T'] + seq![
            digit_char(h as int / 10),
            digit_char(h as int % 10),
        ] + seq![':'] + seq![
            digit_char(mi as int / 10),
            digit_char(mi as int % 10),
        ] + seq![':'] + seq![
            digit_char(sec as int / 10),
            digit_char(sec as int % 10),
        ]);
        assert(s@.subrange(0, 10) =~= date_seq(d));
        assert(s@.subrange(11, 16) =~= seq![
            digit_char(h as int / 10),
            digit_char(h as int % 10),
            ':',
            digit_char(mi as int / 10),
            digit_char(mi as int % 10),
        ]);
        assert(seq_hour(s@.subrange(11, 16)) == h);
        assert(seq_minute(s@.subrange(11, 16)) == mi);
        assert(seq_sec(s@) == sec);
        assert(is_datetime_seq(s@));
        assert(date_of_seq(s@.subrange(0, 10)) == d);
        assert(datetime_instant(s@) == day_index(d) * 86400 + h * 3600 + mi * 60 + sec);
        assert(day_index(d) * 86400 + h * 3600 + mi * 60 + sec == t) by (nonlinear_arith)
            requires
                day_index(d) == t as int / 86400,
                t as int == 86400 * (t as int / 86400) + secs as int,
                secs as int == 3600 * (h as int) + rem as int,
                rem as int == 60 * (mi as int) + sec as int,
        ;
    }
    s
}

} // verus!
