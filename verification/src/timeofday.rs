//! Clock times and the time-literal grammar.
//!
//! The source pages write times in a handful of forms; after literal
//! periods are stripped they are `H:MM am`/`H:MM pm` (12-hour),
//! `HH:MM` and `HH:MM:SS` (24-hour), each with one or two digits per
//! field. [`parse_time`] is the common grammar; [`render_time`] is the
//! canonical `HH:MM:SS` rendering used by the textual codec.

use vstd::prelude::*;

use crate::text::digit_char;
use crate::text::digit_val;
use crate::text::digit_val_exec;
use crate::text::digits_end;
use crate::text::digits_end_exec;
use crate::text::is_digit;
use crate::text::is_space;
use crate::text::is_space_exec;
use crate::text::lemma_digit_char_props;
use crate::text::lemma_digits_end_bounds;
use crate::text::lemma_spaces_end_bounds;
use crate::text::num_of;
use crate::text::spaces_end;
use crate::text::spaces_end_exec;
use crate::text::trim_chars;
use crate::text::trim_spec;

verus! {

/// A clock time within one day. Exam slots are keyed by such times;
/// the second is zero for every time the tables themselves yield and is
/// carried only for the canonical rendering.
#[derive(Debug, PartialEq, Eq, Structural, Clone, Copy)]
pub struct TimeOfDay {
    pub hour: u8,
    pub minute: u8,
    pub second: u8,
}

/// A valid clock time: hour below 24, minute and second below 60.
pub open spec fn time_wf(t: TimeOfDay) -> bool {
    t.hour <= 23 && t.minute <= 59 && t.second <= 59
}

/// One exam time slot: the `[start, end)` range a header column names.
#[derive(Debug, PartialEq, Eq, Structural, Clone, Copy)]
pub struct ExamSlot {
    pub start: TimeOfDay,
    pub end: TimeOfDay,
}

/// Both ends of the slot are valid clock times.
pub open spec fn slot_wf(s: ExamSlot) -> bool {
    time_wf(s.start) && time_wf(s.end)
}

/// A 24-hour reading, if the fields are in range.
pub open spec fn mk24(h: int, m: int, s: int) -> Option<TimeOfDay> {
    if 0 <= h <= 23 && 0 <= m <= 59 && 0 <= s <= 59 {
        Some(TimeOfDay { hour: h as u8, minute: m as u8, second: s as u8 })
    } else {
        None
    }
}

/// A 12-hour reading: the hour must lie in 1 through 12; `12 am` is
/// midnight and `12 pm` is noon.
pub open spec fn mk12(h: int, m: int, pm: bool) -> Option<TimeOfDay> {
    if 1 <= h <= 12 && 0 <= m <= 59 {
        Some(
            TimeOfDay {
                hour: (h % 12 + if pm {
                    12int
                } else {
                    0int
                }) as u8,
                minute: m as u8,
                second: 0,
            },
        )
    } else {
        None
    }
}

/// The time-literal grammar on text that carries no surrounding
/// whitespace: one or two digits, a colon, one or two digits, then
/// nothing (24-hour), a colon and seconds (24-hour), or whitespace and
/// `am`/`pm` (12-hour).
pub open spec fn parse_time_trimmed(s: Seq<char>) -> Option<TimeOfDay> {
    let he = digits_end(s, 0);
    if 1 <= he <= 2 && he < s.len() && s[he] == ':' {
        let ms = he + 1;
        let me = digits_end(s, ms);
        if 1 <= me - ms <= 2 {
            let h = num_of(s, 0, he);
            let m = num_of(s, ms, me);
            if me == s.len() {
                mk24(h, m, 0)
            } else if s[me] == ':' {
                let ss = me + 1;
                let se = digits_end(s, ss);
                if 1 <= se - ss <= 2 && se == s.len() {
                    mk24(h, m, num_of(s, ss, se))
                } else {
                    None
                }
            } else if is_space(s[me]) {
                let ap = spaces_end(s, me);
                if ap + 2 == s.len() && (s[ap] == 'a' || s[ap] == 'p') && s[ap + 1] == 'm' {
                    mk12(h, m, s[ap] == 'p')
                } else {
                    None
                }
            } else {
                None
            }
        } else {
            None
        }
    } else {
        None
    }
}

/// The time-literal grammar, ignoring surrounding whitespace.
pub open spec fn parse_time(s: Seq<char>) -> Option<TimeOfDay> {
    parse_time_trimmed(trim_spec(s))
}

/// Reads the one- or two-digit run `t[lo..hi]` as a number.
pub fn read_num2(t: &Vec<char>, lo: usize, hi: usize) -> (v: u8)
    requires
        lo <= hi <= t@.len(),
        1 <= hi - lo <= 2,
        forall|j: int| lo <= j < hi ==> is_digit(t@[j]),
    ensures
        v as int == num_of(t@, lo as int, hi as int),
        v <= 99,
{
    proof {
        assert(num_of(t@, lo as int, lo as int) == 0);
    }
    if hi - lo == 1 {
        digit_val_exec(t[lo])
    } else {
        let a = digit_val_exec(t[lo]);
        let b = digit_val_exec(t[lo + 1]);
        proof {
            assert(num_of(t@, lo as int, lo + 1) == digit_val(t@[lo as int]));
            assert(num_of(t@, lo as int, lo + 2) == num_of(t@, lo as int, lo + 1) * 10
                + digit_val(t@[lo + 1]));
        }
        10 * a + b
    }
}

/// Reads one time literal, in any of the recognized forms.
pub fn parse_time_chars(v: &Vec<char>) -> (r: Option<TimeOfDay>)
    ensures
        r == parse_time(v@),
{
    let t = trim_chars(v);
    let n = t.len();
    let he = digits_end_exec(&t, 0);
    proof {
        lemma_digits_end_bounds(t@, 0);
    }
    if !(1 <= he && he <= 2) || he >= n || t[he] != ':' {
        return None;
    }
    let ms = he + 1;
    let me = digits_end_exec(&t, ms);
    proof {
        lemma_digits_end_bounds(t@, ms as int);
    }
    if !(1 <= me - ms && me - ms <= 2) {
        return None;
    }
    let h = read_num2(&t, 0, he);
    let m = read_num2(&t, ms, me);
    if me == n {
        mk24_exec(h, m, 0)
    } else if t[me] == ':' {
        let ss = me + 1;
        let se = digits_end_exec(&t, ss);
        proof {
            lemma_digits_end_bounds(t@, ss as int);
        }
        if 1 <= se - ss && se - ss <= 2 && se == n {
            let s2 = read_num2(&t, ss, se);
            mk24_exec(h, m, s2)
        } else {
            None
        }
    } else if is_space_exec(t[me]) {
        let ap = spaces_end_exec(&t, me);
        proof {
            lemma_spaces_end_bounds(t@, me as int);
        }
        if n >= 2 && ap == n - 2 && (t[ap] == 'a' || t[ap] == 'p') && t[ap + 1] == 'm' {
            mk12_exec(h, m, t[ap] == 'p')
        } else {
            None
        }
    } else {
        None
    }
}

/// A 24-hour reading with checked fields.
pub fn mk24_exec(h: u8, m: u8, s: u8) -> (r: Option<TimeOfDay>)
    ensures
        r == mk24(h as int, m as int, s as int),
{
    if h <= 23 && m <= 59 && s <= 59 {
        Some(TimeOfDay { hour: h, minute: m, second: s })
    } else {
        None
    }
}

/// A 12-hour reading with checked fields.
pub fn mk12_exec(h: u8, m: u8, pm: bool) -> (r: Option<TimeOfDay>)
    ensures
        r == mk12(h as int, m as int, pm),
{
    if 1 <= h && h <= 12 && m <= 59 {
        Some(
            TimeOfDay {
                hour: if pm {
                    h % 12 + 12
                } else {
                    h % 12
                },
                minute: m,
                second: 0,
            },
        )
    } else {
        None
    }
}

/// Whatever the time-literal grammar accepts is a valid clock time.
pub proof fn lemma_parse_time_wf(s: Seq<char>)
    ensures
        parse_time(s) is Some ==> time_wf(parse_time(s)->0),
{
}

/// Two decimal digits, zero-padded.
pub open spec fn two_digits(v: int) -> Seq<char> {
    seq![digit_char(v / 10), digit_char(v % 10)]
}

/// The canonical `HH:MM:SS` rendering of a time.
pub open spec fn render_time(t: TimeOfDay) -> Seq<char> {
    two_digits(t.hour as int) + seq![':'] + two_digits(t.minute as int) + seq![':'] + two_digits(
        t.second as int,
    )
}

fn digit_char_exec(d: u8) -> (c: char)
    requires
        d <= 9,
    ensures
        c == digit_char(d as int),
{
    match d {
        0 => '0',
        1 => '1',
        2 => '2',
        3 => '3',
        4 => '4',
        5 => '5',
        6 => '6',
        7 => '7',
        8 => '8',
        _ => '9',
    }
}

/// Writes a time in its canonical `HH:MM:SS` form.
pub fn render_time_chars(t: &TimeOfDay) -> (r: Vec<char>)
    requires
        time_wf(*t),
    ensures
        r@ == render_time(*t),
{
    let mut r: Vec<char> = Vec::new();
    r.push(digit_char_exec(t.hour / 10));
    r.push(digit_char_exec(t.hour % 10));
    r.push(':');
    r.push(digit_char_exec(t.minute / 10));
    r.push(digit_char_exec(t.minute % 10));
    r.push(':');
    r.push(digit_char_exec(t.second / 10));
    r.push(digit_char_exec(t.second % 10));
    proof {
        assert(r@ =~= render_time(*t));
    }
    r
}

/// The canonical rendering reads back as the very time it came from:
/// the time leg of the codec round trip.
pub proof fn lemma_parse_render_time(t: TimeOfDay)
    requires
        time_wf(t),
    ensures
        parse_time(render_time(t)) == Some(t),
{
    let h = t.hour as int;
    let m = t.minute as int;
    let s = t.second as int;
    let r = render_time(t);
    assert(r =~= seq![
        digit_char(h / 10),
        digit_char(h % 10),
        ':',
        digit_char(m / 10),
        digit_char(m % 10),
        ':',
        digit_char(s / 10),
        digit_char(s % 10),
    ]);
    lemma_digit_char_props(h / 10);
    lemma_digit_char_props(h % 10);
    lemma_digit_char_props(m / 10);
    lemma_digit_char_props(m % 10);
    lemma_digit_char_props(s / 10);
    lemma_digit_char_props(s % 10);
    assert(trim_spec(r) == r);
    assert(digits_end(r, 2) == 2);
    assert(digits_end(r, 1) == 2);
    assert(digits_end(r, 0) == 2);
    assert(digits_end(r, 5) == 5);
    assert(digits_end(r, 4) == 5);
    assert(digits_end(r, 3) == 5);
    assert(digits_end(r, 8) == 8);
    assert(digits_end(r, 7) == 8);
    assert(digits_end(r, 6) == 8);
    assert(num_of(r, 0, 0) == 0);
    assert(num_of(r, 0, 1) == digit_val(r[0]));
    assert(num_of(r, 0, 2) == num_of(r, 0, 1) * 10 + digit_val(r[1]));
    assert(num_of(r, 0, 2) == (h / 10) * 10 + h % 10);
    assert(num_of(r, 3, 3) == 0);
    assert(num_of(r, 3, 4) == digit_val(r[3]));
    assert(num_of(r, 3, 5) == num_of(r, 3, 4) * 10 + digit_val(r[4]));
    assert(num_of(r, 3, 5) == (m / 10) * 10 + m % 10);
    assert(num_of(r, 6, 6) == 0);
    assert(num_of(r, 6, 7) == digit_val(r[6]));
    assert(num_of(r, 6, 8) == num_of(r, 6, 7) * 10 + digit_val(r[7]));
    assert(num_of(r, 6, 8) == (s / 10) * 10 + s % 10);
    assert(parse_time_trimmed(r) == mk24(h, m, s));
}

} // verus!
