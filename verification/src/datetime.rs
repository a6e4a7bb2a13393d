//! Proleptic-Gregorian calendar arithmetic and the raw date-time grammar
//! `YYYYMMDDTHHMMSS[Z|+HHMM|-HHMM]`, with conversion of every recognized form
//! to a single reference UTC offset.

use vstd::prelude::*;
use crate::chars::is_digit;
use crate::text::{spec_trim, trim};

verus! {

/// A calendar date with a wall-clock time.
#[derive(Clone, Copy, PartialEq, Eq, Structural, Debug)]
pub struct DateTimeFields {
    pub year: u32,
    pub month: u32,
    pub day: u32,
    pub hour: u32,
    pub minute: u32,
    pub second: u32,
}

pub open spec fn is_leap_year(y: int) -> bool {
    (y % 4 == 0 && y % 100 != 0) || y % 400 == 0
}

pub open spec fn spec_days_in_month(y: int, m: int) -> int {
    if m == 2 {
        if is_leap_year(y) {
            29
        } else {
            28
        }
    } else if m == 4 || m == 6 || m == 9 || m == 11 {
        30
    } else {
        31
    }
}

pub fn days_in_month(y: u32, m: u32) -> (r: u32)
    ensures
        r == spec_days_in_month(y as int, m as int),
        28 <= r <= 31,
{
    if m == 2 {
        if (y % 4 == 0 && y % 100 != 0) || y % 400 == 0 {
            29
        } else {
            28
        }
    } else if m == 4 || m == 6 || m == 9 || m == 11 {
        30
    } else {
        31
    }
}

/// The day, month and year name a real calendar date.
pub open spec fn is_valid_ymd(y: int, m: int, d: int) -> bool {
    1 <= m <= 12 && 1 <= d <= spec_days_in_month(y, m)
}

/// Days from 1970-01-01 to the given date in the proleptic Gregorian
/// calendar, by the standard era-based counting formula.
pub open spec fn spec_days_from_civil(y: int, m: int, d: int) -> int {
    let yy = if m <= 2 {
        y - 1
    } else {
        y
    };
    let era = if yy >= 0 {
        yy / 400
    } else {
        -1
    };
    let yoe = yy - era * 400;
    let mp = if m > 2 {
        m - 3
    } else {
        m + 9
    };
    let doy = (153 * mp + 2) / 5 + d - 1;
    let doe = yoe * 365 + yoe / 4 - yoe / 100 + doy;
    era * 146097 + doe - 719468
}

pub fn days_from_civil(y: u32, m: u32, d: u32) -> (r: i64)
    requires
        y <= 9999,
        1 <= m <= 12,
        1 <= d <= 31,
    ensures
        r == spec_days_from_civil(y as int, m as int, d as int),
        -800000 <= r <= 3200000,
{
    let yy: i64 = if m <= 2 {
        y as i64 - 1
    } else {
        y as i64
    };
    let era: i64 = if yy >= 0 {
        yy / 400
    } else {
        -1
    };
    let yoe: i64 = yy - era * 400;
    let mp: i64 = if m > 2 {
        m as i64 - 3
    } else {
        m as i64 + 9
    };
    let doy: i64 = (153 * mp + 2) / 5 + d as i64 - 1;
    let doe: i64 = yoe * 365 + yoe / 4 - yoe / 100 + doy;
    era * 146097 + doe - 719468
}

/// Seconds from 1970-01-01T00:00:00 to the given wall-clock reading.
pub open spec fn spec_naive_seconds(f: DateTimeFields) -> int {
    spec_days_from_civil(f.year as int, f.month as int, f.day as int) * 86400 + f.hour * 3600
        + f.minute * 60 + f.second
}

/// The fields are a real date with an in-range time of day.
pub open spec fn fields_valid(f: DateTimeFields) -> bool {
    f.year <= 9999 && is_valid_ymd(f.year as int, f.month as int, f.day as int) && f.hour <= 23
        && f.minute <= 59 && f.second <= 59
}

pub fn naive_seconds(f: DateTimeFields) -> (r: i64)
    requires
        fields_valid(f),
    ensures
        r == spec_naive_seconds(f),
        -70000000000 <= r <= 280000000000,
{
    days_from_civil(f.year, f.month, f.day) * 86400 + f.hour as i64 * 3600 + f.minute as i64
        * 60 + f.second as i64
}

/// The calendar day before the given date.
pub open spec fn spec_prev_day(f: DateTimeFields) -> DateTimeFields {
    if f.day > 1 {
        DateTimeFields { day: (f.day - 1) as u32, ..f }
    } else if f.month > 1 {
        DateTimeFields {
            month: (f.month - 1) as u32,
            day: spec_days_in_month(f.year as int, f.month - 1) as u32,
            ..f
        }
    } else {
        DateTimeFields { year: (f.year - 1) as u32, month: 12, day: 31, ..f }
    }
}

/// The calendar day after the given date.
pub open spec fn spec_next_day(f: DateTimeFields) -> DateTimeFields {
    if f.day < spec_days_in_month(f.year as int, f.month as int) {
        DateTimeFields { day: (f.day + 1) as u32, ..f }
    } else if f.month < 12 {
        DateTimeFields { month: (f.month + 1) as u32, day: 1, ..f }
    } else {
        DateTimeFields { year: (f.year + 1) as u32, month: 1, day: 1, ..f }
    }
}

pub open spec fn with_time_of_day(f: DateTimeFields, t: int) -> DateTimeFields {
    DateTimeFields {
        hour: (t / 3600) as u32,
        minute: ((t % 3600) / 60) as u32,
        second: (t % 60) as u32,
        ..f
    }
}

/// The wall-clock reading a given number of seconds away, stepping the date
/// forward or backward once as the time of day over- or underflows. Fails
/// only when the shift leaves the representable year range. The shift is
/// less than a day in either direction, so one calendar step suffices.
pub open spec fn spec_shift_fields(f: DateTimeFields, delta: int) -> Option<DateTimeFields> {
    let t = f.hour * 3600 + f.minute * 60 + f.second + delta;
    if 0 <= t < 86400 {
        Some(with_time_of_day(f, t))
    } else if t >= 86400 {
        if f.year == 9999 && f.month == 12 && f.day == 31 {
            None
        } else {
            Some(with_time_of_day(spec_next_day(f), t - 86400))
        }
    } else {
        if f.year == 0 && f.month == 1 && f.day == 1 {
            None
        } else {
            Some(with_time_of_day(spec_prev_day(f), t + 86400))
        }
    }
}

pub fn shift_fields(f: DateTimeFields, delta: i64) -> (r: Option<DateTimeFields>)
    requires
        fields_valid(f),
        -86400 < delta < 86400,
    ensures
        r == spec_shift_fields(f, delta as int),
        r is Some ==> fields_valid(r->0),
{
    let tod: i64 = f.hour as i64 * 3600 + f.minute as i64 * 60 + f.second as i64;
    let t: i64 = tod + delta;
    if 0 <= t && t < 86400 {
        return Some(
            DateTimeFields {
                hour: (t / 3600) as u32,
                minute: ((t % 3600) / 60) as u32,
                second: (t % 60) as u32,
                ..f
            },
        );
    }
    if t >= 86400 {
        if f.year == 9999 && f.month == 12 && f.day == 31 {
            return None;
        }
        let g = if f.day < days_in_month(f.year, f.month) {
            DateTimeFields { day: f.day + 1, ..f }
        } else if f.month < 12 {
            DateTimeFields { month: f.month + 1, day: 1, ..f }
        } else {
            DateTimeFields { year: f.year + 1, month: 1, day: 1, ..f }
        };
        assert(g == spec_next_day(f));
        let t2: i64 = t - 86400;
        return Some(
            DateTimeFields {
                hour: (t2 / 3600) as u32,
                minute: ((t2 % 3600) / 60) as u32,
                second: (t2 % 60) as u32,
                ..g
            },
        );
    }
    if f.year == 0 && f.month == 1 && f.day == 1 {
        return None;
    }
    let g = if f.day > 1 {
        DateTimeFields { day: f.day - 1, ..f }
    } else if f.month > 1 {
        DateTimeFields { month: f.month - 1, day: days_in_month(f.year, f.month - 1), ..f }
    } else {
        DateTimeFields { year: f.year - 1, month: 12, day: 31, ..f }
    };
    assert(g == spec_prev_day(f));
    let t2: i64 = t + 86400;
    Some(
        DateTimeFields {
            hour: (t2 / 3600) as u32,
            minute: ((t2 % 3600) / 60) as u32,
            second: (t2 % 60) as u32,
            ..g
        },
    )
}

/// Numeric value of a decimal digit character.
pub open spec fn digit_val(c: char) -> int {
    if c == '0' { 0 } else if c == '1' { 1 } else if c == '2' { 2 } else if c == '3' { 3 }
    else if c == '4' { 4 } else if c == '5' { 5 } else if c == '6' { 6 } else if c == '7' { 7 }
    else if c == '8' { 8 } else { 9 }
}

fn digit_value(c: char) -> (r: u32)
    requires
        is_digit(c),
    ensures
        r == digit_val(c),
        r <= 9,
{
    if c == '0' { 0 } else if c == '1' { 1 } else if c == '2' { 2 } else if c == '3' { 3 }
    else if c == '4' { 4 } else if c == '5' { 5 } else if c == '6' { 6 } else if c == '7' { 7 }
    else if c == '8' { 8 } else { 9 }
}

/// Numeric value of a run of decimal digits.
pub open spec fn spec_digits_value(s: Seq<char>, from: int, len: int) -> int
    decreases len,
{
    if len <= 0 {
        0
    } else {
        spec_digits_value(s, from, len - 1) * 10 + digit_val(s[from + len - 1])
    }
}

pub open spec fn all_digits(s: Seq<char>, from: int, len: int) -> bool {
    forall|j: int| from <= j < from + len ==> is_digit(s[j])
}

proof fn lemma_digits_value_bound(s: Seq<char>, from: int, len: int)
    ensures
        0 <= spec_digits_value(s, from, len),
        len <= 1 ==> spec_digits_value(s, from, len) < 10,
        len <= 2 ==> spec_digits_value(s, from, len) < 100,
        len <= 3 ==> spec_digits_value(s, from, len) < 1000,
        len <= 4 ==> spec_digits_value(s, from, len) < 10000,
    decreases len,
{
    if len > 0 {
        lemma_digits_value_bound(s, from, len - 1);
    }
}

pub fn digits_value(v: &Vec<char>, from: usize, len: usize) -> (r: Option<u32>)
    requires
        from + len <= v@.len(),
        len <= 4,
    ensures
        r is Some <==> all_digits(v@, from as int, len as int),
        r is Some ==> r->0 == spec_digits_value(v@, from as int, len as int) && r->0 < 10000,
{
    let n = v.len();
    let mut acc: u32 = 0;
    let mut i: usize = 0;
    while i < len
        invariant
            i <= len,
            len <= 4,
            from + len <= n,
            n == v@.len(),
            all_digits(v@, from as int, i as int),
            acc == spec_digits_value(v@, from as int, i as int),
        decreases len - i,
    {
        let c = v[from + i];
        if !('0' <= c && c <= '9') {
            assert(!is_digit(v@[from + i]));
            return None;
        }
        proof {
            lemma_digits_value_bound(v@, from as int, i as int);
        }
        acc = acc * 10 + digit_value(c);
        i += 1;
    }
    proof {
        lemma_digits_value_bound(v@, from as int, len as int);
    }
    Some(acc)
}

/// Strict match of the 15-character core form `YYYYMMDDTHHMMSS`, checked
/// against the real calendar.
pub open spec fn spec_parse_core(s: Seq<char>) -> Option<DateTimeFields> {
    if s.len() == 15 && s[8] == 'T' && all_digits(s, 0, 8) && all_digits(s, 9, 6) {
        let f = DateTimeFields {
            year: spec_digits_value(s, 0, 4) as u32,
            month: spec_digits_value(s, 4, 2) as u32,
            day: spec_digits_value(s, 6, 2) as u32,
            hour: spec_digits_value(s, 9, 2) as u32,
            minute: spec_digits_value(s, 11, 2) as u32,
            second: spec_digits_value(s, 13, 2) as u32,
        };
        if fields_valid(f) {
            Some(f)
        } else {
            None
        }
    } else {
        None
    }
}

/// Parses the core form starting at `from`, spanning 15 characters.
fn parse_core_at(v: &Vec<char>, from: usize) -> (r: Option<DateTimeFields>)
    requires
        from + 15 <= v@.len(),
    ensures
        r == spec_parse_core(v@.subrange(from as int, from + 15)),
        r is Some ==> fields_valid(r->0),
{
    let ghost s = v@.subrange(from as int, from + 15);
    let n = v.len();
    assert(from + 15 <= n);
    if v[from + 8] != 'T' {
        return None;
    }
    let y = digits_value(v, from, 4);
    let mo = digits_value(v, from + 4, 2);
    let d = digits_value(v, from + 6, 2);
    let h = digits_value(v, from + 9, 2);
    let mi = digits_value(v, from + 11, 2);
    let se = digits_value(v, from + 13, 2);
    proof {
        lemma_digits_shift_one(v@, s, from as int, 0, 4);
        lemma_digits_shift_one(v@, s, from as int, 4, 2);
        lemma_digits_shift_one(v@, s, from as int, 6, 2);
        lemma_digits_shift_one(v@, s, from as int, 9, 2);
        lemma_digits_shift_one(v@, s, from as int, 11, 2);
        lemma_digits_shift_one(v@, s, from as int, 13, 2);
        assert(s[8] == v@[from + 8]);
    }
    match (y, mo, d, h, mi, se) {
        (Some(y), Some(mo), Some(d), Some(h), Some(mi), Some(se)) => {
            let f = DateTimeFields {
                year: y,
                month: mo,
                day: d,
                hour: h,
                minute: mi,
                second: se,
            };
            if 1 <= mo && mo <= 12 && 1 <= d && d <= days_in_month(y, mo) && h <= 23 && mi
                <= 59 && se <= 59 {
                Some(f)
            } else {
                None
            }
        },
        _ => None,
    }
}

proof fn lemma_digits_shift_one(v: Seq<char>, s: Seq<char>, from: int, a: int, n: int)
    requires
        from >= 0,
        from + 15 <= v.len(),
        s == v.subrange(from, from + 15),
        0 <= a,
        0 <= n,
        a + n <= 15,
    ensures
        spec_digits_value(s, a, n) == spec_digits_value(v, from + a, n),
        all_digits(s, a, n) <==> all_digits(v, from + a, n),
    decreases n,
{
    if n > 0 {
        lemma_digits_shift_one(v, s, from, a, n - 1);
        assert(s[a + n - 1] == v[from + a + n - 1]);
        assert(forall|j: int| a <= j < a + n ==> s[j] == v[from + j]);
    }
}


/// A parsed timestamp: the instant in seconds from the epoch, and its
/// wall-clock reading at the reference offset.
#[derive(Clone, Copy, PartialEq, Eq, Structural, Debug)]
pub struct LocalStamp {
    pub instant: i64,
    pub wall: DateTimeFields,
}

/// Parse of one trimmed raw timestamp against the reference offset `off`
/// (seconds east of UTC). Three forms are recognized: the UTC form ending in
/// `Z`, the explicit-offset form ending in a signed `HHMM`, and the bare
/// form, read as a wall-clock time at the reference offset.
pub open spec fn spec_parse_stamp_trimmed(t: Seq<char>, off: int) -> Option<LocalStamp> {
    if t.len() == 16 && t[15] == 'Z' {
        match spec_parse_core(t.subrange(0, 15)) {
            Some(f) => match spec_shift_fields(f, off) {
                Some(w) => Some(
                    LocalStamp { instant: spec_naive_seconds(f) as i64, wall: w },
                ),
                None => None,
            },
            None => None,
        }
    } else if t.len() == 20 && (t[15] == '+' || t[15] == '-') && all_digits(t, 16, 4)
        && spec_digits_value(t, 16, 2) <= 23 && spec_digits_value(t, 18, 2) <= 59 {
        let mag = spec_digits_value(t, 16, 2) * 3600 + spec_digits_value(t, 18, 2) * 60;
        let decl = if t[15] == '+' {
            mag
        } else {
            -mag
        };
        match spec_parse_core(t.subrange(0, 15)) {
            Some(f) => match spec_shift_fields(f, -decl) {
                Some(u) => match spec_shift_fields(u, off) {
                    Some(w) => Some(
                        LocalStamp {
                            instant: (spec_naive_seconds(f) - decl) as i64,
                            wall: w,
                        },
                    ),
                    None => None,
                },
                None => None,
            },
            None => None,
        }
    } else if t.len() == 15 {
        match spec_parse_core(t) {
            Some(f) => Some(
                LocalStamp { instant: (spec_naive_seconds(f) - off) as i64, wall: f },
            ),
            None => None,
        }
    } else {
        None
    }
}

/// Parse of a raw timestamp field: surrounding whitespace is ignored.
pub open spec fn spec_parse_stamp(s: Seq<char>, off: int) -> Option<LocalStamp> {
    spec_parse_stamp_trimmed(spec_trim(s), off)
}

/// Parses a raw date-time string, yielding the instant and the wall-clock
/// reading at the reference offset.
pub fn parse_stamp(v: &Vec<char>, off: i32) -> (r: Option<LocalStamp>)
    requires
        -86400 < off < 86400,
    ensures
        r == spec_parse_stamp(v@, off as int),
        r is Some ==> fields_valid(r->0.wall),
        r is Some ==> -90000000000 <= r->0.instant <= 290000000000,
{
    let t = trim(v);
    let ghost tv = t@;
    let n = t.len();
    if n == 16 {
        if t[15] != 'Z' {
            return None;
        }
        assert(tv.subrange(0, 15) =~= tv.subrange(0, 15));
        match parse_core_at(&t, 0) {
            Some(f) => {
                let inst = naive_seconds(f);
                match shift_fields(f, off as i64) {
                    Some(w) => Some(LocalStamp { instant: inst, wall: w }),
                    None => None,
                }
            },
            None => None,
        }
    } else if n == 20 {
        if !(t[15] == '+' || t[15] == '-') {
            return None;
        }
        let hh = digits_value(&t, 16, 2);
        let mm = digits_value(&t, 18, 2);
        proof {
            lemma_all_digits_split(tv);
        }
        match (hh, mm) {
            (Some(hh), Some(mm)) => {
                if !(hh <= 23 && mm <= 59) {
                    return None;
                }
                let mag: i64 = hh as i64 * 3600 + mm as i64 * 60;
                let decl: i64 = if t[15] == '+' {
                    mag
                } else {
                    -mag
                };
                match parse_core_at(&t, 0) {
                    Some(f) => {
                        let inst = naive_seconds(f) - decl;
                        match shift_fields(f, -decl) {
                            Some(u) => match shift_fields(u, off as i64) {
                                Some(w) => Some(LocalStamp { instant: inst, wall: w }),
                                None => None,
                            },
                            None => None,
                        }
                    },
                    None => None,
                }
            },
            _ => None,
        }
    } else if n == 15 {
        assert(tv.subrange(0, 15) =~= tv);
        match parse_core_at(&t, 0) {
            Some(f) => Some(LocalStamp { instant: naive_seconds(f) - off as i64, wall: f }),
            None => None,
        }
    } else {
        None
    }
}

proof fn lemma_all_digits_split(t: Seq<char>)
    requires
        t.len() == 20,
    ensures
        all_digits(t, 16, 4) <==> (all_digits(t, 16, 2) && all_digits(t, 18, 2)),
        all_digits(t, 16, 4) ==> spec_digits_value(t, 16, 2) == spec_digits_value(t, 16, 2)
            && spec_digits_value(t, 18, 2) == spec_digits_value(t, 18, 2),
{
}

/// Decimal digit character for a value below ten.
pub open spec fn digit_char(d: int) -> char {
    if d == 0 { '0' } else if d == 1 { '1' } else if d == 2 { '2' } else if d == 3 { '3' }
    else if d == 4 { '4' } else if d == 5 { '5' } else if d == 6 { '6' } else if d == 7 { '7' }
    else if d == 8 { '8' } else { '9' }
}

fn digit_char_of(d: u32) -> (r: char)
    requires
        d <= 9,
    ensures
        r == digit_char(d as int),
{
    if d == 0 { '0' } else if d == 1 { '1' } else if d == 2 { '2' } else if d == 3 { '3' }
    else if d == 4 { '4' } else if d == 5 { '5' } else if d == 6 { '6' } else if d == 7 { '7' }
    else if d == 8 { '8' } else { '9' }
}

/// The offset-free local ISO-8601 rendering `YYYY-MM-DDTHH:MM:SS`.
pub open spec fn spec_format_iso(f: DateTimeFields) -> Seq<char> {
    seq![
        digit_char(f.year as int / 1000 % 10),
        digit_char(f.year as int / 100 % 10),
        digit_char(f.year as int / 10 % 10),
        digit_char(f.year as int % 10),
        '-',
        digit_char(f.month as int / 10 % 10),
        digit_char(f.month as int % 10),
        '-',
        digit_char(f.day as int / 10 % 10),
        digit_char(f.day as int % 10),
        'T',
        digit_char(f.hour as int / 10 % 10),
        digit_char(f.hour as int % 10),
        ':',
        digit_char(f.minute as int / 10 % 10),
        digit_char(f.minute as int % 10),
        ':',
        digit_char(f.second as int / 10 % 10),
        digit_char(f.second as int % 10),
    ]
}

/// Renders a wall-clock reading as offset-free ISO-8601.
pub fn format_iso(f: DateTimeFields) -> (r: Vec<char>)
    requires
        fields_valid(f),
    ensures
        r@ == spec_format_iso(f),
{
    let mut r: Vec<char> = Vec::new();
    r.push(digit_char_of(f.year / 1000 % 10));
    r.push(digit_char_of(f.year / 100 % 10));
    r.push(digit_char_of(f.year / 10 % 10));
    r.push(digit_char_of(f.year % 10));
    r.push('-');
    r.push(digit_char_of(f.month / 10 % 10));
    r.push(digit_char_of(f.month % 10));
    r.push('-');
    r.push(digit_char_of(f.day / 10 % 10));
    r.push(digit_char_of(f.day % 10));
    r.push('T');
    r.push(digit_char_of(f.hour / 10 % 10));
    r.push(digit_char_of(f.hour % 10));
    r.push(':');
    r.push(digit_char_of(f.minute / 10 % 10));
    r.push(digit_char_of(f.minute % 10));
    r.push(':');
    r.push(digit_char_of(f.second / 10 % 10));
    r.push(digit_char_of(f.second % 10));
    assert(r@ =~= spec_format_iso(f));
    r
}

/// Minutes from one instant to the next, the fraction truncated toward zero.
pub open spec fn spec_duration_minutes(start: int, end: int) -> int {
    if end >= start {
        (end - start) / 60
    } else {
        -((start - end) / 60)
    }
}

/// Whole minutes between two instants, truncated toward zero.
pub fn duration_minutes(start: i64, end: i64) -> (r: i64)
    requires
        -90000000000 <= start <= 290000000000,
        -90000000000 <= end <= 290000000000,
    ensures
        r == spec_duration_minutes(start as int, end as int),
{
    if end >= start {
        (end - start) / 60
    } else {
        -((start - end) / 60)
    }
}

} // verus!
