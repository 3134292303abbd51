use vstd::prelude::*;

use crate::text::{
    digit_char, digit_val, is_digit, digit_char_x, digit_val_x, chars_of, chars_to_string,
};
use crate::TodoError;

verus! {

/// The mathematical value of a `Date`: a plain year/month/day triple.
pub ghost struct DateView {
    pub year: int,
    pub month: int,
    pub day: int,
}

/// A calendar date with no time component, exactly what a `YYYY-MM-DD`
/// string can express. The fields always form a real calendar day.
#[derive(Debug, Clone, Copy, PartialEq, Eq, Structural)]
pub struct Date {
    year: u16,
    month: u8,
    day: u8,
}

pub open spec fn leap_year(y: int) -> bool {
    y % 4 == 0 && (y % 100 != 0 || y % 400 == 0)
}

pub open spec fn days_in_month(y: int, m: int) -> int {
    if m == 2 {
        if leap_year(y) { 29 } else { 28 }
    } else if m == 4 || m == 6 || m == 9 || m == 11 {
        30
    } else {
        31
    }
}

/// A well-formed date: a day that exists on the proleptic Gregorian
/// calendar, within the four-digit years the `YYYY-MM-DD` form covers.
pub open spec fn date_wf(d: DateView) -> bool {
    &&& 0 <= d.year <= 9999
    &&& 1 <= d.month <= 12
    &&& 1 <= d.day <= days_in_month(d.year, d.month)
}

impl View for Date {
    type V = DateView;

    closed spec fn view(&self) -> DateView {
        DateView { year: self.year as int, month: self.month as int, day: self.day as int }
    }
}

impl DeepView for Date {
    type V = DateView;

    open spec fn deep_view(&self) -> DateView {
        self.view()
    }
}

impl Date {
    #[verifier::type_invariant]
    spec fn type_inv(self) -> bool {
        date_wf(self.view())
    }

    /// Builds the date when the triple is a real calendar day.
    pub fn new(year: u16, month: u8, day: u8) -> (r: Option<Date>)
        ensures
            r is Some <==> date_wf(DateView { year: year as int, month: month as int, day: day as int }),
            r matches Some(d) ==> d@ == (DateView { year: year as int, month: month as int, day: day as int }),
    {
        if year <= 9999 && 1 <= month && month <= 12 && 1 <= day && day <= days_in_month_x(year, month) {
            Some(Date { year, month, day })
        } else {
            None
        }
    }

    pub fn year(&self) -> (r: u16)
        ensures
            r as int == self@.year,
            date_wf(self@),
    {
        proof { use_type_invariant(self); }
        self.year
    }

    pub fn month(&self) -> (r: u8)
        ensures
            r as int == self@.month,
            date_wf(self@),
    {
        proof { use_type_invariant(self); }
        self.month
    }

    pub fn day(&self) -> (r: u8)
        ensures
            r as int == self@.day,
            date_wf(self@),
    {
        proof { use_type_invariant(self); }
        self.day
    }
}

fn days_in_month_x(y: u16, m: u8) -> (r: u8)
    requires
        1 <= m <= 12,
    ensures
        r as int == days_in_month(y as int, m as int),
{
    if m == 2 {
        if y % 4 == 0 && (y % 100 != 0 || y % 400 == 0) { 29 } else { 28 }
    } else if m == 4 || m == 6 || m == 9 || m == 11 {
        30
    } else {
        31
    }
}

// ---------------------------------------------------------------------------
// The `YYYY-MM-DD` form
// ---------------------------------------------------------------------------

/// Two decimal digits, zero-padded.
pub open spec fn dec2(n: int) -> Seq<char> {
    seq![digit_char(n / 10), digit_char(n % 10)]
}

/// Four decimal digits, zero-padded.
pub open spec fn dec4(n: int) -> Seq<char> {
    seq![
        digit_char(n / 1000),
        digit_char((n / 100) % 10),
        digit_char((n / 10) % 10),
        digit_char(n % 10),
    ]
}

/// The `YYYY-MM-DD` rendering of a date.
pub open spec fn date_chars(d: DateView) -> Seq<char> {
    dec4(d.year) + seq!['-'] + dec2(d.month) + seq!['-'] + dec2(d.day)
}

/// What a ten-character `YYYY-MM-DD` string denotes, when it is one.
pub open spec fn parse_date_chars(s: Seq<char>) -> Option<DateView> {
    if s.len() == 10 && is_digit(s[0]) && is_digit(s[1]) && is_digit(s[2]) && is_digit(s[3])
        && s[4] == '-' && is_digit(s[5]) && is_digit(s[6]) && s[7] == '-' && is_digit(s[8])
        && is_digit(s[9]) {
        let v = DateView {
            year: digit_val(s[0]) * 1000 + digit_val(s[1]) * 100 + digit_val(s[2]) * 10
                + digit_val(s[3]),
            month: digit_val(s[5]) * 10 + digit_val(s[6]),
            day: digit_val(s[8]) * 10 + digit_val(s[9]),
        };
        if date_wf(v) {
            Some(v)
        } else {
            None
        }
    } else {
        None
    }
}

/// Reads the ten characters starting at `i` as a `YYYY-MM-DD` date.
pub(crate) fn read_date_at(s: &Vec<char>, i: usize) -> (r: Option<Date>)
    requires
        i + 10 <= s@.len(),
        s@.len() <= usize::MAX,
    ensures
        match r {
            Some(d) => parse_date_chars(s@.subrange(i as int, i + 10)) == Some(d@),
            None => parse_date_chars(s@.subrange(i as int, i + 10)) is None,
        },
{
    let ghost t = s@.subrange(i as int, i + 10);
    let d0: u8 = digit_val_x(s[i]);
    let d1: u8 = digit_val_x(s[i + 1]);
    let d2: u8 = digit_val_x(s[i + 2]);
    let d3: u8 = digit_val_x(s[i + 3]);
    let d5: u8 = digit_val_x(s[i + 5]);
    let d6: u8 = digit_val_x(s[i + 6]);
    let d8: u8 = digit_val_x(s[i + 8]);
    let d9: u8 = digit_val_x(s[i + 9]);
    if d0 < 10 && d1 < 10 && d2 < 10 && d3 < 10 && s[i + 4] == '-' && d5 < 10 && d6 < 10
        && s[i + 7] == '-' && d8 < 10 && d9 < 10 {
        let year: u16 = (d0 as u16) * 1000 + (d1 as u16) * 100 + (d2 as u16) * 10 + (d3 as u16);
        let month: u8 = d5 * 10 + d6;
        let day: u8 = d8 * 10 + d9;
        assert(t[0] == s@[i as int] && t[1] == s@[i + 1] && t[2] == s@[i + 2] && t[3] == s@[i + 3]
            && t[4] == s@[i + 4] && t[5] == s@[i + 5] && t[6] == s@[i + 6] && t[7] == s@[i + 7]
            && t[8] == s@[i + 8] && t[9] == s@[i + 9]);
        Date::new(year, month, day)
    } else {
        assert(parse_date_chars(t) is None) by {
            assert(t[0] == s@[i as int] && t[1] == s@[i + 1] && t[2] == s@[i + 2] && t[3] == s@[i + 3]
                && t[4] == s@[i + 4] && t[5] == s@[i + 5] && t[6] == s@[i + 6] && t[7] == s@[i + 7]
                && t[8] == s@[i + 8] && t[9] == s@[i + 9]);
        }
        None
    }
}

/// Reads a whole line as a `YYYY-MM-DD` date, as the add-task prompt takes it.
pub fn parse_date(s: &str) -> (r: Result<Date, TodoError>)
    ensures
        match r {
            Ok(d) => parse_date_chars(s@) == Some(d@),
            Err(e) => parse_date_chars(s@) is None && e == TodoError::DateFormatError,
        },
{
    let v = chars_of(s);
    if v.len() != 10 {
        return Err(TodoError::DateFormatError);
    }
    assert(v@.subrange(0, 10) =~= s@);
    match read_date_at(&v, 0) {
        Some(d) => Ok(d),
        None => Err(TodoError::DateFormatError),
    }
}

/// The `YYYY-MM-DD` rendering, pushed onto a character buffer.
pub(crate) fn push_date_chars(d: &Date, out: &mut Vec<char>)
    ensures
        final(out)@ == old(out)@ + date_chars(d@),
{
    proof { use_type_invariant(d); }
    let y: u16 = d.year;
    let m: u8 = d.month;
    let dy: u8 = d.day;
    out.push(digit_char_x((y / 1000) as u8));
    out.push(digit_char_x(((y / 100) % 10) as u8));
    out.push(digit_char_x(((y / 10) % 10) as u8));
    out.push(digit_char_x((y % 10) as u8));
    out.push('-');
    out.push(digit_char_x(m / 10));
    out.push(digit_char_x(m % 10));
    out.push('-');
    out.push(digit_char_x(dy / 10));
    out.push(digit_char_x(dy % 10));
    assert(out@ =~= old(out)@ + date_chars(d@));
}

/// The `YYYY-MM-DD` form of a date, for display.
pub fn format_date(d: &Date) -> (r: String)
    ensures
        r@ == date_chars(d@),
{
    let mut v: Vec<char> = Vec::new();
    push_date_chars(d, &mut v);
    chars_to_string(&v)
}

/// Reading back what was rendered gives the same date.
pub proof fn lemma_date_round_trip(d: DateView)
    requires
        date_wf(d),
    ensures
        parse_date_chars(date_chars(d)) == Some(d),
{
    let s = date_chars(d);
    assert(s.len() == 10);
    assert(s[0] == digit_char(d.year / 1000));
    assert(s[1] == digit_char((d.year / 100) % 10));
    assert(s[2] == digit_char((d.year / 10) % 10));
    assert(s[3] == digit_char(d.year % 10));
    assert(s[4] == '-');
    assert(s[5] == digit_char(d.month / 10));
    assert(s[6] == digit_char(d.month % 10));
    assert(s[7] == '-');
    assert(s[8] == digit_char(d.day / 10));
    assert(s[9] == digit_char(d.day % 10));
    lemma_digit_round_trip(d.year / 1000);
    lemma_digit_round_trip((d.year / 100) % 10);
    lemma_digit_round_trip((d.year / 10) % 10);
    lemma_digit_round_trip(d.year % 10);
    lemma_digit_round_trip(d.month / 10);
    lemma_digit_round_trip(d.month % 10);
    lemma_digit_round_trip(d.day / 10);
    lemma_digit_round_trip(d.day % 10);
    assert((d.year / 1000) * 1000 + ((d.year / 100) % 10) * 100 + ((d.year / 10) % 10) * 10
        + d.year % 10 == d.year);
    assert((d.month / 10) * 10 + d.month % 10 == d.month);
    assert((d.day / 10) * 10 + d.day % 10 == d.day);
}

proof fn lemma_digit_round_trip(n: int)
    requires
        0 <= n <= 9,
    ensures
        digit_val(digit_char(n)) == n,
        is_digit(digit_char(n)),
{
}

// ---------------------------------------------------------------------------
// Ordering by due date
// ---------------------------------------------------------------------------

/// A well-formed optional due date.
pub open spec fn due_wf(o: Option<DateView>) -> bool {
    match o {
        Option::Some(d) => date_wf(d),
        Option::None => true,
    }
}

/// Strict calendar order.
pub open spec fn date_lt(a: DateView, b: DateView) -> bool {
    a.year < b.year
    || (a.year == b.year && a.month < b.month)
    || (a.year == b.year && a.month == b.month && a.day < b.day)
}

/// Strict order on optional due dates: no due date sorts before every dated
/// task, and dates compare by the calendar.
pub open spec fn due_lt(a: Option<DateView>, b: Option<DateView>) -> bool {
    match (a, b) {
        (Option::None, Option::Some(_)) => true,
        (Option::Some(x), Option::Some(y)) => date_lt(x, y),
        _ => false,
    }
}

pub open spec fn due_le(a: Option<DateView>, b: Option<DateView>) -> bool {
    !due_lt(b, a)
}

pub(crate) fn due_lt_x(a: &Option<Date>, b: &Option<Date>) -> (r: bool)
    ensures
        r == due_lt(a.deep_view(), b.deep_view()),
{
    match (*a, *b) {
        (Option::None, Option::Some(_)) => true,
        (Option::Some(x), Option::Some(y)) => {
            let xy: u16 = x.year();
            let xm: u8 = x.month();
            let xd: u8 = x.day();
            let yy: u16 = y.year();
            let ym: u8 = y.month();
            let yd: u8 = y.day();
            xy < yy || (xy == yy && xm < ym) || (xy == yy && xm == ym && xd < yd)
        },
        _ => false,
    }
}

} // verus!
