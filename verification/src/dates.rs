//! Calendar dates and the two date grammars of the source pages.
//!
//! A body row's first cell holds a human-readable date such as
//! `"Mon. Dec 11."`; once periods and commas are stripped and the leading
//! weekday word is dropped, what remains is a month name — abbreviated or
//! full — and a day number, which [`date_of_cell`] joins with the
//! semester's year into a checked calendar date. The year itself comes
//! from a semester heading such as `"Fall 2023 Exam Calendar"`, read by
//! [`extract_year`] as the digit run just before the heading's suffix.

use vstd::prelude::*;

use crate::text::digit_val_exec;
use crate::text::digits_end;
use crate::text::digits_end_exec;
use crate::text::digits_start;
use crate::text::digits_start_exec;
use crate::text::ends_with;
use crate::text::ends_with_str;
use crate::text::is_digit;
use crate::text::lemma_digits_end_bounds;
use crate::text::lemma_digits_start_bounds;
use crate::text::nonspace_end;
use crate::text::nonspace_end_exec;
use crate::text::num_of;
use crate::text::spaces_end;
use crate::text::spaces_end_exec;
use crate::text::strip_dots_commas;
use crate::text::strip_dots_commas_chars;
use crate::text::trim_chars;
use crate::text::trim_spec;
use crate::text::window_eq_str;
use crate::timeofday::read_num2;

verus! {

/// One calendar date, year, month and day held as plain numbers.
#[derive(Debug, PartialEq, Eq, Structural, Clone, Copy)]
pub struct ExamDate {
    pub year: u32,
    pub month: u8,
    pub day: u8,
}

/// A leap year of the Gregorian calendar.
pub open spec fn is_leap_year(y: int) -> bool {
    y % 4 == 0 && (y % 100 != 0 || y % 400 == 0)
}

/// How many days the given month of the given year has.
pub open spec fn days_in_month(y: int, m: int) -> int {
    if m == 2 {
        if is_leap_year(y) {
            29
        } else {
            28
        }
    } else if m == 4 || m == 6 || m == 9 || m == 11 {
        30
    } else {
        31
    }
}

/// A real calendar date.
pub open spec fn date_wf(d: ExamDate) -> bool {
    1 <= d.month <= 12 && 1 <= d.day <= days_in_month(d.year as int, d.month as int)
}

/// The month named by one token, abbreviated or full. Case-sensitive.
pub open spec fn month_of_token(tok: Seq<char>) -> Option<int> {
    if tok == "Jan"@ || tok == "January"@ {
        Some(1)
    } else if tok == "Feb"@ || tok == "February"@ {
        Some(2)
    } else if tok == "Mar"@ || tok == "March"@ {
        Some(3)
    } else if tok == "Apr"@ || tok == "April"@ {
        Some(4)
    } else if tok == "May"@ {
        Some(5)
    } else if tok == "Jun"@ || tok == "June"@ {
        Some(6)
    } else if tok == "Jul"@ || tok == "July"@ {
        Some(7)
    } else if tok == "Aug"@ || tok == "August"@ {
        Some(8)
    } else if tok == "Sep"@ || tok == "September"@ {
        Some(9)
    } else if tok == "Oct"@ || tok == "October"@ {
        Some(10)
    } else if tok == "Nov"@ || tok == "November"@ {
        Some(11)
    } else if tok == "Dec"@ || tok == "December"@ {
        Some(12)
    } else {
        None
    }
}

/// Reads a body row's date cell against the semester's year.
///
/// Periods and commas are stripped and the text trimmed; the first
/// whitespace-separated word (the weekday) is dropped; then a month
/// token and a one- or two-digit day must fill the rest, and the day
/// must exist in that month of that year.
pub open spec fn date_of_cell(cell: Seq<char>, year: int) -> Option<ExamDate> {
    let clean = trim_spec(strip_dots_commas(cell));
    let sp = nonspace_end(clean, 0);
    if 0 < sp < clean.len() {
        let ms = spaces_end(clean, sp);
        let me = nonspace_end(clean, ms);
        match month_of_token(clean.subrange(ms, me)) {
            Some(month) => {
                let ds = spaces_end(clean, me);
                let de = digits_end(clean, ds);
                if ds > me && de > ds && de - ds <= 2 && de == clean.len() {
                    let day = num_of(clean, ds, de);
                    if 1 <= day <= days_in_month(year, month) {
                        Some(ExamDate { year: year as u32, month: month as u8, day: day as u8 })
                    } else {
                        None
                    }
                } else {
                    None
                }
            },
            None => None,
        }
    } else {
        None
    }
}

fn month_of_window(v: &Vec<char>, lo: usize, hi: usize) -> (r: Option<u8>)
    requires
        lo <= hi <= v@.len(),
    ensures
        match r {
            Some(m) => month_of_token(v@.subrange(lo as int, hi as int)) == Some(m as int),
            None => month_of_token(v@.subrange(lo as int, hi as int)) is None,
        },
{
    if window_eq_str(v, lo, hi, "Jan") || window_eq_str(v, lo, hi, "January") {
        Some(1)
    } else if window_eq_str(v, lo, hi, "Feb") || window_eq_str(v, lo, hi, "February") {
        Some(2)
    } else if window_eq_str(v, lo, hi, "Mar") || window_eq_str(v, lo, hi, "March") {
        Some(3)
    } else if window_eq_str(v, lo, hi, "Apr") || window_eq_str(v, lo, hi, "April") {
        Some(4)
    } else if window_eq_str(v, lo, hi, "May") {
        Some(5)
    } else if window_eq_str(v, lo, hi, "Jun") || window_eq_str(v, lo, hi, "June") {
        Some(6)
    } else if window_eq_str(v, lo, hi, "Jul") || window_eq_str(v, lo, hi, "July") {
        Some(7)
    } else if window_eq_str(v, lo, hi, "Aug") || window_eq_str(v, lo, hi, "August") {
        Some(8)
    } else if window_eq_str(v, lo, hi, "Sep") || window_eq_str(v, lo, hi, "September") {
        Some(9)
    } else if window_eq_str(v, lo, hi, "Oct") || window_eq_str(v, lo, hi, "October") {
        Some(10)
    } else if window_eq_str(v, lo, hi, "Nov") || window_eq_str(v, lo, hi, "November") {
        Some(11)
    } else if window_eq_str(v, lo, hi, "Dec") || window_eq_str(v, lo, hi, "December") {
        Some(12)
    } else {
        None
    }
}

fn days_in_month_exec(y: u32, m: u8) -> (r: u8)
    ensures
        r as int == days_in_month(y as int, m as int),
{
    if m == 2 {
        if y % 4 == 0 && (y % 100 != 0 || y % 400 == 0) {
            29
        } else {
            28
        }
    } else if m == 4 || m == 6 || m == 9 || m == 11 {
        30
    } else {
        31
    }
}

/// Reads a body row's date cell against the semester's year.
pub fn date_of_cell_chars(cell: &Vec<char>, year: u32) -> (r: Option<ExamDate>)
    ensures
        r == date_of_cell(cell@, year as int),
        r is Some ==> date_wf(r->0),
{
    let stripped = strip_dots_commas_chars(cell);
    let clean = trim_chars(&stripped);
    let sp = nonspace_end_exec(&clean, 0);
    if !(0 < sp && sp < clean.len()) {
        return None;
    }
    let ms = spaces_end_exec(&clean, sp);
    let me = nonspace_end_exec(&clean, ms);
    let month = match month_of_window(&clean, ms, me) {
        Some(m) => m,
        None => {
            return None;
        },
    };
    let ds = spaces_end_exec(&clean, me);
    let de = digits_end_exec(&clean, ds);
    proof {
        lemma_digits_end_bounds(clean@, ds as int);
    }
    if !(ds > me && de > ds && de - ds <= 2 && de == clean.len()) {
        return None;
    }
    let day = read_num2(&clean, ds, de);
    if 1 <= day && day <= days_in_month_exec(year, month) {
        Some(ExamDate { year, month, day })
    } else {
        None
    }
}

/// Powers of ten, for bounding the value of a digit run.
pub open spec fn pow10(k: int) -> int
    decreases k,
{
    if k <= 0 {
        1
    } else {
        10 * pow10(k - 1)
    }
}

pub proof fn lemma_num_of_bound(s: Seq<char>, i: int, j: int)
    ensures
        0 <= num_of(s, i, j),
        num_of(s, i, j) < pow10(j - i),
    decreases j - i,
{
    if j <= i {
    } else {
        lemma_num_of_bound(s, i, j - 1);
    }
}

pub proof fn lemma_pow10_pos(k: int)
    ensures
        pow10(k) >= 1,
    decreases k,
{
    if k > 0 {
        lemma_pow10_pos(k - 1);
    }
}

pub proof fn lemma_pow10_mono(a: int, b: int)
    requires
        a <= b,
    ensures
        pow10(a) <= pow10(b),
    decreases b - a,
{
    if a < b {
        lemma_pow10_mono(a, b - 1);
        lemma_pow10_pos(b - 1);
    }
}

/// The year written just before a semester heading's closing
/// `" Exam Calendar"`: the maximal digit run there, at most eight digits.
pub open spec fn extract_year(h: Seq<char>) -> Option<int> {
    if ends_with(h, " Exam Calendar"@) {
        let pos = h.len() - " Exam Calendar"@.len();
        let ds = digits_start(h, pos);
        if ds < pos && pos - ds <= 8 {
            Some(num_of(h, ds, pos))
        } else {
            None
        }
    } else {
        None
    }
}

/// Reads the year out of one semester heading.
pub fn extract_year_chars(h: &Vec<char>) -> (r: Option<u32>)
    ensures
        match r {
            Some(y) => extract_year(h@) == Some(y as int),
            None => extract_year(h@) is None,
        },
{
    proof {
        reveal_strlit(" Exam Calendar");
    }
    if !ends_with_str(h, " Exam Calendar") {
        return None;
    }
    let pos = h.len() - 14;
    let ds = digits_start_exec(h, pos);
    proof {
        lemma_digits_start_bounds(h@, pos as int);
    }
    if !(ds < pos && pos - ds <= 8) {
        return None;
    }
    let mut v: u32 = 0;
    let mut i = ds;
    while i < pos
        invariant
            ds <= i <= pos <= h@.len(),
            pos - ds <= 8,
            forall|j: int| ds <= j < pos ==> is_digit(h@[j]),
            v as int == num_of(h@, ds as int, i as int),
        decreases pos - i,
    {
        proof {
            lemma_num_of_bound(h@, ds as int, i as int);
            lemma_pow10_mono(i - ds, 7);
            assert(pow10(0) == 1);
            assert(pow10(1) == 10);
            assert(pow10(2) == 100);
            assert(pow10(3) == 1000);
            assert(pow10(4) == 10000);
            assert(pow10(5) == 100000);
            assert(pow10(6) == 1000000);
            assert(pow10(7) == 10000000);
            assert(v <= 9999999);
        }
        v = v * 10 + digit_val_exec(h[i]) as u32;
        i += 1;
    }
    Some(v)
}

} // verus!
