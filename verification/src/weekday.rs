//! Weekdays and the compact weekday-letter notation.
//!
//! The notation writes a class's meeting days as a run of atomic codes —
//! `M`, `Tu`, `W`, `Th`, `F` — with no separator, as in `MWF` or `TuTh`.
//! A bare `T` is never a valid code. [`Weekday::factory`] finds every
//! maximal run of codes in a string and maps each run to the weekdays it
//! spells, in left-to-right order.

use vstd::prelude::*;

use crate::errors::CalendarError;
use crate::text::chars_vec;
use crate::text::chars_eq_str;

verus! {

/// A weekday on which exams are scheduled, Monday through Friday.
#[derive(Debug, PartialEq, Eq, Structural, Clone, Copy)]
pub enum Weekday {
    Monday,
    Tuesday,
    Wednesday,
    Thursday,
    Friday,
}

/// The weekday spelled by one whole atomic code, if any.
pub open spec fn weekday_of_code(s: Seq<char>) -> Option<Weekday> {
    if s.len() == 1 && s[0] == 'M' {
        Some(Weekday::Monday)
    } else if s.len() == 2 && s[0] == 'T' && s[1] == 'u' {
        Some(Weekday::Tuesday)
    } else if s.len() == 1 && s[0] == 'W' {
        Some(Weekday::Wednesday)
    } else if s.len() == 2 && s[0] == 'T' && s[1] == 'h' {
        Some(Weekday::Thursday)
    } else if s.len() == 1 && s[0] == 'F' {
        Some(Weekday::Friday)
    } else {
        None
    }
}

/// The weekday spelled by one full name, if any. Case-sensitive.
pub open spec fn weekday_of_name(s: Seq<char>) -> Option<Weekday> {
    if s == "Monday"@ {
        Some(Weekday::Monday)
    } else if s == "Tuesday"@ {
        Some(Weekday::Tuesday)
    } else if s == "Wednesday"@ {
        Some(Weekday::Wednesday)
    } else if s == "Thursday"@ {
        Some(Weekday::Thursday)
    } else if s == "Friday"@ {
        Some(Weekday::Friday)
    } else {
        None
    }
}

/// The full name of a weekday.
pub open spec fn weekday_name(d: Weekday) -> Seq<char> {
    match d {
        Weekday::Monday => "Monday"@,
        Weekday::Tuesday => "Tuesday"@,
        Weekday::Wednesday => "Wednesday"@,
        Weekday::Thursday => "Thursday"@,
        Weekday::Friday => "Friday"@,
    }
}

/// The atomic code starting at index `i` of `s`, with the index just after
/// it. `Tu` and `Th` are preferred over reading their `T` alone, and a `T`
/// followed by anything else is no code at all.
pub open spec fn atom_at(s: Seq<char>, i: int) -> Option<(Weekday, int)> {
    if i < 0 || i >= s.len() {
        None
    } else if s[i] == 'M' {
        Some((Weekday::Monday, i + 1))
    } else if s[i] == 'W' {
        Some((Weekday::Wednesday, i + 1))
    } else if s[i] == 'F' {
        Some((Weekday::Friday, i + 1))
    } else if s[i] == 'T' && i + 1 < s.len() && s[i + 1] == 'u' {
        Some((Weekday::Tuesday, i + 2))
    } else if s[i] == 'T' && i + 1 < s.len() && s[i + 1] == 'h' {
        Some((Weekday::Thursday, i + 2))
    } else {
        None
    }
}

/// The maximal run of atomic codes starting at `i`, as weekdays in
/// left-to-right order.
pub open spec fn run_at(s: Seq<char>, i: int) -> Seq<Weekday>
    decreases s.len() - i,
    when 0 <= i <= s.len()
{
    match atom_at(s, i) {
        Some((d, nxt)) => seq![d] + run_at(s, nxt),
        None => seq![],
    }
}

/// The index just after the maximal run of atomic codes starting at `i`.
pub open spec fn run_end(s: Seq<char>, i: int) -> int
    decreases s.len() - i,
    when 0 <= i <= s.len()
{
    match atom_at(s, i) {
        Some((d, nxt)) => run_end(s, nxt),
        None => i,
    }
}

pub proof fn lemma_run_end_bounds(s: Seq<char>, i: int)
    requires
        0 <= i <= s.len(),
    ensures
        i <= run_end(s, i) <= s.len(),
        atom_at(s, i) is Some ==> run_end(s, i) > i,
    decreases s.len() - i,
{
    match atom_at(s, i) {
        Some((d, nxt)) => {
            lemma_run_end_bounds(s, nxt);
        },
        None => {},
    }
}

/// Every maximal run of atomic codes in `s`, scanning left to right.
pub open spec fn runs_from(s: Seq<char>, i: int) -> Seq<Seq<Weekday>>
    decreases s.len() - i,
    when 0 <= i <= s.len()
    via runs_from_decreases
{
    if i >= s.len() {
        seq![]
    } else {
        match atom_at(s, i) {
            Some(_) => seq![run_at(s, i)] + runs_from(s, run_end(s, i)),
            None => runs_from(s, i + 1),
        }
    }
}

#[via_fn]
proof fn runs_from_decreases(s: Seq<char>, i: int) {
    if 0 <= i <= s.len() {
        lemma_run_end_bounds(s, i);
    }
}

/// Every maximal run of weekday codes in `s`, left to right.
pub open spec fn weekday_runs(s: Seq<char>) -> Seq<Seq<Weekday>> {
    runs_from(s, 0)
}

/// Whether some atomic code starts at or after index `from`.
pub open spec fn has_atom_from(s: Seq<char>, from: int) -> bool {
    exists|j: int| from <= j < s.len() && atom_at(s, j) is Some
}

fn atom_at_exec(s: &Vec<char>, i: usize) -> (r: Option<(Weekday, usize)>)
    requires
        i <= s@.len(),
    ensures
        r is Some <==> atom_at(s@, i as int) is Some,
        r is Some ==> ({
            let (d, nxt) = atom_at(s@, i as int)->0;
            let (de, ne) = r->0;
            de == d && ne as int == nxt && i < ne <= s@.len()
        }),
{
    if i >= s.len() {
        return None;
    }
    let c = s[i];
    if c == 'M' {
        Some((Weekday::Monday, i + 1))
    } else if c == 'W' {
        Some((Weekday::Wednesday, i + 1))
    } else if c == 'F' {
        Some((Weekday::Friday, i + 1))
    } else if c == 'T' && i + 1 < s.len() && s[i + 1] == 'u' {
        Some((Weekday::Tuesday, i + 2))
    } else if c == 'T' && i + 1 < s.len() && s[i + 1] == 'h' {
        Some((Weekday::Thursday, i + 2))
    } else {
        None
    }
}

/// Whether some atomic weekday code starts at or after `from` in `s`.
pub fn has_atom_from_exec(s: &Vec<char>, from: usize) -> (b: bool)
    requires
        from <= s@.len(),
    ensures
        b == has_atom_from(s@, from as int),
{
    let mut j = from;
    while j < s.len()
        invariant
            from <= j <= s@.len(),
            forall|k: int| from <= k < j ==> atom_at(s@, k) is None,
        decreases s@.len() - j,
    {
        if atom_at_exec(s, j).is_some() {
            return true;
        }
        j += 1;
    }
    false
}

impl Weekday {
    /// Reads one atomic code: `M`, `Tu`, `W`, `Th` or `F`. Anything else —
    /// a bare `T` included — is an [`CalendarError::InvalidWeekdayCode`].
    pub fn new(value: &str) -> (r: Result<Weekday, CalendarError>)
        ensures
            r == match weekday_of_code(value@) {
                Some(d) => Ok::<Weekday, CalendarError>(d),
                None => Err(CalendarError::InvalidWeekdayCode),
            },
    {
        let v = chars_vec(value);
        if v.len() == 1 && v[0] == 'M' {
            Ok(Weekday::Monday)
        } else if v.len() == 2 && v[0] == 'T' && v[1] == 'u' {
            Ok(Weekday::Tuesday)
        } else if v.len() == 1 && v[0] == 'W' {
            Ok(Weekday::Wednesday)
        } else if v.len() == 2 && v[0] == 'T' && v[1] == 'h' {
            Ok(Weekday::Thursday)
        } else if v.len() == 1 && v[0] == 'F' {
            Ok(Weekday::Friday)
        } else {
            Err(CalendarError::InvalidWeekdayCode)
        }
    }

    /// Reads one full weekday name, case-sensitively; the decode path of
    /// the textual round trip. Anything else is an
    /// [`CalendarError::UnknownWeekdayName`].
    pub fn from_name(value: &str) -> (r: Result<Weekday, CalendarError>)
        ensures
            r == match weekday_of_name(value@) {
                Some(d) => Ok::<Weekday, CalendarError>(d),
                None => Err(CalendarError::UnknownWeekdayName),
            },
    {
        let v = chars_vec(value);
        if chars_eq_str(&v, "Monday") {
            Ok(Weekday::Monday)
        } else if chars_eq_str(&v, "Tuesday") {
            Ok(Weekday::Tuesday)
        } else if chars_eq_str(&v, "Wednesday") {
            Ok(Weekday::Wednesday)
        } else if chars_eq_str(&v, "Thursday") {
            Ok(Weekday::Thursday)
        } else if chars_eq_str(&v, "Friday") {
            Ok(Weekday::Friday)
        } else {
            Err(CalendarError::UnknownWeekdayName)
        }
    }

    /// Finds every maximal run of weekday codes in `value` and spells each
    /// run out, in left-to-right order. Always succeeds; the `Result` shape
    /// is kept for callers that treat any factory uniformly.
    pub fn factory(value: &str) -> (r: Result<Vec<Vec<Weekday>>, CalendarError>)
        ensures
            r is Ok,
            ({
                let runs = weekday_runs(value@);
                let rs = r->Ok_0;
                rs@.len() == runs.len() && forall|k: int|
                    0 <= k < runs.len() ==> rs@[k]@ == runs[k]
            }),
    {
        let s = chars_vec(value);
        Ok(factory_chars(&s))
    }
}

/// Every maximal run of weekday codes in `s`, spelled out left to right.
pub fn factory_chars(s: &Vec<char>) -> (out: Vec<Vec<Weekday>>)
    ensures
        ({
            let runs = weekday_runs(s@);
            out@.len() == runs.len() && forall|k: int| 0 <= k < runs.len() ==> out@[k]@ == runs[k]
        }),
{
    let mut out: Vec<Vec<Weekday>> = Vec::new();
    let mut i: usize = 0;
    while i < s.len()
        invariant
            i <= s@.len(),
            weekday_runs(s@) == out@.map_values(|v: Vec<Weekday>| v@) + runs_from(
                s@,
                i as int,
            ),
        decreases s@.len() - i,
    {
        match atom_at_exec(&s, i) {
            None => {
                i += 1;
            },
            Some(_) => {
                let ghost i0 = i as int;
                let mut run: Vec<Weekday> = Vec::new();
                let mut j = i;
                loop
                    invariant
                        i0 <= j <= s@.len(),
                        run_at(s@, i0) == run@ + run_at(s@, j as int),
                        run_end(s@, i0) == run_end(s@, j as int),
                    ensures
                        i0 <= j <= s@.len(),
                        atom_at(s@, j as int) is None,
                        run_at(s@, i0) == run@ + run_at(s@, j as int),
                        run_end(s@, i0) == run_end(s@, j as int),
                    decreases s@.len() - j,
                {
                    match atom_at_exec(&s, j) {
                        Some((d, n)) => {
                            proof {
                                assert(run_at(s@, j as int) == seq![d] + run_at(
                                    s@,
                                    n as int,
                                ));
                                assert(run@ + run_at(s@, j as int) =~= run@.push(d) + run_at(
                                    s@,
                                    n as int,
                                ));
                            }
                            run.push(d);
                            j = n;
                        },
                        None => {
                            break ;
                        },
                    }
                }
                proof {
                    assert(run_at(s@, j as int) =~= Seq::<Weekday>::empty());
                    assert(run@ + Seq::<Weekday>::empty() =~= run@);
                    assert(run_at(s@, i0) == run@);
                    assert(run_end(s@, i0) == j as int);
                    assert(runs_from(s@, i0) == seq![run_at(s@, i0)] + runs_from(
                        s@,
                        run_end(s@, i0),
                    ));
                    assert((out@.push(run)).map_values(|v: Vec<Weekday>| v@)
                        =~= out@.map_values(|v: Vec<Weekday>| v@).push(run@));
                    assert(out@.map_values(|v: Vec<Weekday>| v@) + runs_from(s@, i0)
                        =~= out@.map_values(|v: Vec<Weekday>| v@).push(run@) + runs_from(
                        s@,
                        j as int,
                    ));
                }
                out.push(run);
                i = j;
            },
        }
    }
    proof {
        assert(runs_from(s@, i as int) =~= Seq::<Seq<Weekday>>::empty());
        assert(out@.map_values(|v: Vec<Weekday>| v@) + Seq::<Seq<Weekday>>::empty()
            =~= out@.map_values(|v: Vec<Weekday>| v@));
    }
    out
}

/// Whether `run` holds `d`.
pub fn run_contains(run: &Vec<Weekday>, d: Weekday) -> (b: bool)
    ensures
        b == run@.contains(d),
{
    let mut k: usize = 0;
    while k < run.len()
        invariant
            k <= run@.len(),
            forall|j: int| 0 <= j < k ==> run@[j] != d,
        decreases run@.len() - k,
    {
        if run[k] == d {
            return true;
        }
        k += 1;
    }
    false
}

/// The weekdays of `run` in calendar order, each at most once.
pub open spec fn ascending_days(run: Seq<Weekday>) -> Seq<Weekday> {
    let m: Seq<Weekday> = if run.contains(Weekday::Monday) {
        seq![Weekday::Monday]
    } else {
        seq![]
    };
    let tu: Seq<Weekday> = if run.contains(Weekday::Tuesday) {
        seq![Weekday::Tuesday]
    } else {
        seq![]
    };
    let w: Seq<Weekday> = if run.contains(Weekday::Wednesday) {
        seq![Weekday::Wednesday]
    } else {
        seq![]
    };
    let th: Seq<Weekday> = if run.contains(Weekday::Thursday) {
        seq![Weekday::Thursday]
    } else {
        seq![]
    };
    let f: Seq<Weekday> = if run.contains(Weekday::Friday) {
        seq![Weekday::Friday]
    } else {
        seq![]
    };
    m + tu + w + th + f
}

/// Orders a run's weekdays into calendar order, dropping repeats.
pub fn ascending_of(run: &Vec<Weekday>) -> (r: Vec<Weekday>)
    ensures
        r@ == ascending_days(run@),
{
    let mut r: Vec<Weekday> = Vec::new();
    if run_contains(run, Weekday::Monday) {
        r.push(Weekday::Monday);
    }
    if run_contains(run, Weekday::Tuesday) {
        r.push(Weekday::Tuesday);
    }
    if run_contains(run, Weekday::Wednesday) {
        r.push(Weekday::Wednesday);
    }
    if run_contains(run, Weekday::Thursday) {
        r.push(Weekday::Thursday);
    }
    if run_contains(run, Weekday::Friday) {
        r.push(Weekday::Friday);
    }
    proof {
        assert(r@ =~= ascending_days(run@));
    }
    r
}

} // verus!
