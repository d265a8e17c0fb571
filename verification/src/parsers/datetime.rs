//! Date-time parsing for the daemon's uptime columns: `YYYY-MM-DD`,
//! `HH:MM:SS[.frac]`, or both. A time without a date borrows the caller's
//! current date; a date without a time means midnight.

use vstd::prelude::*;

use crate::text::{
    chars_of, digits_val, run_end, run_end_exec, spec_find, spec_parse_u32,
    spec_split, spec_split_ws, split_ws, string_range, strings_view, parse_u32_range, find_exec,
    lemma_spec_find_props, Cls,
};

verus! {

/// The error a malformed date-time string produces.
#[derive(Debug)]
pub enum Error {
    InvalidDateTimeString(String),
}

/// A calendar date.
#[derive(Clone, Copy, PartialEq, Eq, Structural, Debug)]
pub struct Date {
    pub year: u32,
    pub month: u32,
    pub day: u32,
}

/// A calendar date with a time of day.
#[derive(Clone, Copy, PartialEq, Eq, Structural, Debug)]
pub struct DateTime {
    pub year: u32,
    pub month: u32,
    pub day: u32,
    pub hour: u32,
    pub minute: u32,
    pub second: u32,
}

impl DateTime {
    pub fn year(&self) -> (r: u32)
        ensures
            r == self.year,
    {
        self.year
    }

    pub fn month(&self) -> (r: u32)
        ensures
            r == self.month,
    {
        self.month
    }

    pub fn day(&self) -> (r: u32)
        ensures
            r == self.day,
    {
        self.day
    }

    pub fn hour(&self) -> (r: u32)
        ensures
            r == self.hour,
    {
        self.hour
    }

    pub fn minute(&self) -> (r: u32)
        ensures
            r == self.minute,
    {
        self.minute
    }

    pub fn second(&self) -> (r: u32)
        ensures
            r == self.second,
    {
        self.second
    }
}

pub open spec fn is_leap_year(y: u32) -> bool {
    y % 4 == 0 && (y % 100 != 0 || y % 400 == 0)
}

pub open spec fn days_in_month(y: u32, m: u32) -> u32 {
    if m == 1 || m == 3 || m == 5 || m == 7 || m == 8 || m == 10 || m == 12 {
        31
    } else if m == 4 || m == 6 || m == 9 || m == 11 {
        30
    } else if m == 2 {
        if is_leap_year(y) {
            29
        } else {
            28
        }
    } else {
        0
    }
}

pub open spec fn valid_date(d: Date) -> bool {
    1 <= d.month <= 12 && 1 <= d.day <= days_in_month(d.year, d.month)
}

pub open spec fn valid_clock(h: u32, mi: u32, s: u32) -> bool {
    h < 24 && mi < 60 && s < 60
}

/// A date token: a four-digit year, a dash, a one-or-two-digit month, a
/// dash, a one-or-two-digit day; the parts must name a real calendar day.
pub open spec fn spec_parse_date(s: Seq<char>) -> Option<Date> {
    let ye = run_end(Cls::Digit, s, 0);
    if ye != 4 || !(4 < s.len() && s[4] == '-') {
        None
    } else {
        let me = run_end(Cls::Digit, s, 5);
        if !(me - 5 == 1 || me - 5 == 2) || !(me < s.len() && s[me] == '-') {
            None
        } else {
            let de = run_end(Cls::Digit, s, me + 1);
            if !(de - me - 1 == 1 || de - me - 1 == 2) || de != s.len() {
                None
            } else {
                let d = Date {
                    year: digits_val(s.subrange(0, 4)) as u32,
                    month: digits_val(s.subrange(5, me)) as u32,
                    day: digits_val(s.subrange(me + 1, de)) as u32,
                };
                if valid_date(d) {
                    Some(d)
                } else {
                    None
                }
            }
        }
    }
}

/// A time token: one-or-two-digit hour, minute and second, separated by
/// colons, naming a real time of day.
pub open spec fn spec_parse_clock(s: Seq<char>) -> Option<(u32, u32, u32)> {
    let he = run_end(Cls::Digit, s, 0);
    if !(he == 1 || he == 2) || !(he < s.len() && s[he] == ':') {
        None
    } else {
        let me = run_end(Cls::Digit, s, he + 1);
        if !(me - he - 1 == 1 || me - he - 1 == 2) || !(me < s.len() && s[me] == ':') {
            None
        } else {
            let se = run_end(Cls::Digit, s, me + 1);
            if !(se - me - 1 == 1 || se - me - 1 == 2) || se != s.len() {
                None
            } else {
                let h = digits_val(s.subrange(0, he)) as u32;
                let mi = digits_val(s.subrange(he + 1, me)) as u32;
                let sec = digits_val(s.subrange(me + 1, se)) as u32;
                if valid_clock(h, mi, sec) {
                    Some((h, mi, sec))
                } else {
                    None
                }
            }
        }
    }
}

/// A string looks like a date when splitting it on dashes gives three
/// parts.
pub open spec fn spec_is_date(s: Seq<char>) -> bool {
    spec_split(s, "-"@, 0, 0).len() == 3
}

/// What a date-time string parses to: one token is a time of day on the
/// caller's date (or a date at midnight when it looks like one), two
/// tokens are a date and a time, anything else is malformed. A fractional
/// part after the time is dropped.
pub open spec fn spec_parse_datetime(s: Seq<char>, today: Date) -> Option<DateTime> {
    let toks = spec_split_ws(s, 0);
    if toks.len() != 1 && toks.len() != 2 {
        None
    } else {
        let timetok = if toks.len() == 1 {
            toks[0]
        } else {
            toks[1]
        };
        let time1 = match spec_find(timetok, "."@, 0) {
            Some(ix) => timetok.subrange(0, ix),
            None => timetok,
        };
        if spec_is_date(time1) {
            match spec_parse_date(time1) {
                Some(d) => Some(
                    DateTime {
                        year: d.year,
                        month: d.month,
                        day: d.day,
                        hour: 0,
                        minute: 0,
                        second: 0,
                    },
                ),
                None => None,
            }
        } else {
            let date = if toks.len() == 2 {
                spec_parse_date(toks[0])
            } else {
                Some(today)
            };
            match (date, spec_parse_clock(time1)) {
                (Some(d), Some(t)) => Some(
                    DateTime {
                        year: d.year,
                        month: d.month,
                        day: d.day,
                        hour: t.0,
                        minute: t.1,
                        second: t.2,
                    },
                ),
                _ => None,
            }
        }
    }
}

fn days_in_month_exec(y: u32, m: u32) -> (r: u32)
    ensures
        r == days_in_month(y, m),
{
    if m == 1 || m == 3 || m == 5 || m == 7 || m == 8 || m == 10 || m == 12 {
        31
    } else if m == 4 || m == 6 || m == 9 || m == 11 {
        30
    } else if m == 2 {
        if y % 4 == 0 && (y % 100 != 0 || y % 400 == 0) {
            29
        } else {
            28
        }
    } else {
        0
    }
}

fn parse_date_exec(v: &Vec<char>) -> (r: Option<Date>)
    ensures
        r == spec_parse_date(v@),
{
    let n = v.len();
    let ye = run_end_exec(Cls::Digit, v, 0);
    if !(ye == 4 && 4 < n && v[4] == '-') {
        return None;
    }
    let me = run_end_exec(Cls::Digit, v, 5);
    if !((me - 5 == 1 || me - 5 == 2) && me < n && v[me] == '-') {
        return None;
    }
    let de = run_end_exec(Cls::Digit, v, me + 1);
    if !((de - me - 1 == 1 || de - me - 1 == 2) && de == n) {
        return None;
    }
    let year = match parse_u32_range(v, 0, 4) {
        Some(x) => x,
        None => {
            proof {
                crate::text::lemma_run_end(Cls::Digit, v@, 0);
                digits_in_range(v@, 0, 4);
            }
            return None;
        },
    };
    let month = match parse_u32_range(v, 5, me) {
        Some(x) => x,
        None => {
            proof {
                crate::text::lemma_run_end(Cls::Digit, v@, 5);
                digits_in_range(v@, 5, me as int);
            }
            return None;
        },
    };
    let day = match parse_u32_range(v, me + 1, de) {
        Some(x) => x,
        None => {
            proof {
                crate::text::lemma_run_end(Cls::Digit, v@, me + 1);
                digits_in_range(v@, me + 1, de as int);
            }
            return None;
        },
    };
    let d = Date { year, month, day };
    if 1 <= d.month && d.month <= 12 && 1 <= d.day && d.day <= days_in_month_exec(d.year, d.month) {
        Some(d)
    } else {
        None
    }
}

spec fn spec_pow10(n: nat) -> int
    decreases n,
{
    if n == 0 {
        1
    } else {
        10 * spec_pow10((n - 1) as nat)
    }
}

/// A run of at most four digits always parses as a `u32` whose value is
/// its digit value.
proof fn digits_in_range(s: Seq<char>, from: int, to: int)
    requires
        0 <= from < to <= s.len(),
        to - from <= 4,
        forall|k: int| from <= k < to ==> crate::text::is_digit(s[k]),
    ensures
        spec_parse_u32(s.subrange(from, to)) == Some(digits_val(s.subrange(from, to)) as u32),
        0 <= digits_val(s.subrange(from, to)) <= 9999,
{
    let d = s.subrange(from, to);
    lemma_digits_val_bound(d);
    assert(spec_pow10(0) == 1);
    assert(spec_pow10(1) == 10);
    assert(spec_pow10(2) == 100);
    assert(spec_pow10(3) == 1000);
    assert(spec_pow10(4) == 10000);
}

proof fn lemma_digits_val_bound(d: Seq<char>)
    requires
        forall|k: int| 0 <= k < d.len() ==> crate::text::is_digit(d[k]),
    ensures
        0 <= digits_val(d) < spec_pow10(d.len()),
        crate::text::all_digits(d),
    decreases d.len(),
{
    if d.len() > 0 {
        assert(forall|k: int|
            0 <= k < d.drop_last().len() ==> crate::text::is_digit(#[trigger] d.drop_last()[k]));
        lemma_digits_val_bound(d.drop_last());
        assert(crate::text::is_digit(d.last()));
        assert(0 <= crate::text::digit_val(d.last()) <= 9);
    }
}

fn parse_clock_exec(v: &Vec<char>) -> (r: Option<(u32, u32, u32)>)
    ensures
        r == spec_parse_clock(v@),
{
    let n = v.len();
    let he = run_end_exec(Cls::Digit, v, 0);
    if !((he == 1 || he == 2) && he < n && v[he] == ':') {
        return None;
    }
    let me = run_end_exec(Cls::Digit, v, he + 1);
    if !((me - he - 1 == 1 || me - he - 1 == 2) && me < n && v[me] == ':') {
        return None;
    }
    let se = run_end_exec(Cls::Digit, v, me + 1);
    if !((se - me - 1 == 1 || se - me - 1 == 2) && se == n) {
        return None;
    }
    let h = match parse_u32_range(v, 0, he) {
        Some(x) => x,
        None => {
            proof {
                crate::text::lemma_run_end(Cls::Digit, v@, 0);
                digits_in_range(v@, 0, he as int);
            }
            return None;
        },
    };
    let mi = match parse_u32_range(v, he + 1, me) {
        Some(x) => x,
        None => {
            proof {
                crate::text::lemma_run_end(Cls::Digit, v@, he + 1);
                digits_in_range(v@, he + 1, me as int);
            }
            return None;
        },
    };
    let sec = match parse_u32_range(v, me + 1, se) {
        Some(x) => x,
        None => {
            proof {
                crate::text::lemma_run_end(Cls::Digit, v@, me + 1);
                digits_in_range(v@, me + 1, se as int);
            }
            return None;
        },
    };
    if h < 24 && mi < 60 && sec < 60 {
        Some((h, mi, sec))
    } else {
        None
    }
}

/// Check whether the input follows the date shape `YYYY-MM-DD` loosely:
/// splitting on dashes gives three parts.
pub fn is_date(s: &str) -> (r: bool)
    ensures
        r == spec_is_date(s@),
{
    proof {
        reveal_strlit("-");
    }
    let v = chars_of(s);
    let parts = crate::text::split_by(&v, "-");
    proof {
        assert(strings_view(parts@).len() == parts@.len());
    }
    parts.len() == 3
}

/// Parse a date-time string against the caller's current date.
pub fn parse(s: &str, today: Date) -> (r: Result<DateTime, Error>)
    ensures
        match r {
            Ok(dt) => spec_parse_datetime(s@, today) == Some(dt),
            Err(_) => spec_parse_datetime(s@, today) is None,
        },
{
    proof {
        reveal_strlit(".");
    }
    let v = chars_of(s);
    let toks = split_ws(&v);
    if !(toks.len() == 1 || toks.len() == 2) {
        return Err(Error::InvalidDateTimeString(s.to_owned()));
    }
    let timetok = if toks.len() == 1 {
        &toks[0]
    } else {
        &toks[1]
    };
    proof {
        assert(strings_view(toks@)[0] == toks@[0]@);
        if toks@.len() == 2 {
            assert(strings_view(toks@)[1] == toks@[1]@);
        }
    }
    let tv = chars_of(timetok.as_str());
    let time1 = match find_exec(&tv, ".", 0) {
        Some(ix) => {
            proof {
                lemma_spec_find_props(tv@, "."@, 0);
            }
            string_range(&tv, 0, ix)
        },
        None => timetok.clone(),
    };
    let t1v = chars_of(time1.as_str());
    if is_date(time1.as_str()) {
        match parse_date_exec(&t1v) {
            Some(d) => Ok(
                DateTime {
                    year: d.year,
                    month: d.month,
                    day: d.day,
                    hour: 0,
                    minute: 0,
                    second: 0,
                },
            ),
            None => Err(Error::InvalidDateTimeString(s.to_owned())),
        }
    } else {
        let date = if toks.len() == 2 {
            let dv = chars_of(toks[0].as_str());
            match parse_date_exec(&dv) {
                Some(d) => d,
                None => {
                    return Err(Error::InvalidDateTimeString(s.to_owned()));
                },
            }
        } else {
            today
        };
        match parse_clock_exec(&t1v) {
            Some(t) => Ok(
                DateTime {
                    year: date.year,
                    month: date.month,
                    day: date.day,
                    hour: t.0,
                    minute: t.1,
                    second: t.2,
                },
            ),
            None => Err(Error::InvalidDateTimeString(s.to_owned())),
        }
    }
}

} // verus!
