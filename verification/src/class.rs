//! Class descriptors and the cell-text factory.
//!
//! One table cell names zero or more classes. The factory reads the
//! cell's trimmed text by an ordered chain of rules, first match wins:
//!
//! 1. a time literal of the form `H:MM a.m./p.m.` with a weekday-code
//!    run somewhere after it — one recurring class per distinct weekday
//!    group, all at that time;
//! 2. exactly one hyphen or en-dash — a time range;
//! 3. exactly one literal `and` — a time range, where the second part
//!    `later` (any letter case) stands for `11:59 p.m.`;
//! 4. otherwise, one named class per non-empty comma-separated piece.
//!
//! An empty cell or the `Common:` sentinel names no class at all, which
//! is no error; a malformed time inside rules 1 through 3 is one.

use vstd::prelude::*;

use crate::errors::CalendarError;
use crate::text::chars_eq_str;
use crate::text::chars_vec;
use crate::text::is_digit;
use crate::text::is_digit_exec;
use crate::text::strip_dots;
use crate::text::strip_dots_chars;
use crate::text::subvec;
use crate::text::trim_bounds;
use crate::text::trim_chars;
use crate::text::trim_spec;
use crate::timeofday::mk12;
use crate::timeofday::mk12_exec;
use crate::timeofday::parse_time;
use crate::timeofday::parse_time_chars;
use crate::timeofday::ExamSlot;
use crate::timeofday::TimeOfDay;
use crate::weekday::ascending_days;
use crate::weekday::ascending_of;
use crate::weekday::factory_chars;
use crate::weekday::has_atom_from;
use crate::weekday::has_atom_from_exec;
use crate::weekday::weekday_runs;
use crate::weekday::Weekday;

verus! {

/// The typed identity of one class, as a table cell names it.
#[derive(Debug, Eq, Clone)]
pub enum Class {
    /// A class meeting on the given weekdays at a fixed clock time.
    Time(Vec<Weekday>, TimeOfDay),
    /// A class identified by an exam time range.
    Range(ExamSlot),
    /// A class identified only by a free-text label.
    Name(String),
}

/// The mathematical value of a [`Class`].
pub enum ClassV {
    Time(Seq<Weekday>, TimeOfDay),
    Range(ExamSlot),
    Name(Seq<char>),
}

impl View for Class {
    type V = ClassV;

    open spec fn view(&self) -> ClassV {
        match self {
            Class::Time(days, t) => ClassV::Time(days@, *t),
            Class::Range(slot) => ClassV::Range(*slot),
            Class::Name(label) => ClassV::Name(label@),
        }
    }
}

fn weekdays_eq(a: &Vec<Weekday>, b: &Vec<Weekday>) -> (r: bool)
    ensures
        r == (a@ == b@),
{
    if a.len() != b.len() {
        return false;
    }
    let mut k: usize = 0;
    while k < a.len()
        invariant
            k <= a@.len(),
            a@.len() == b@.len(),
            forall|j: int| 0 <= j < k ==> a@[j] == b@[j],
        decreases a@.len() - k,
    {
        if a[k] != b[k] {
            return false;
        }
        k += 1;
    }
    proof {
        assert(a@ =~= b@);
    }
    true
}

impl PartialEq for Class {
    /// Structural equality: equal views.
    fn eq(&self, other: &Self) -> (r: bool) {
        match (self, other) {
            (Class::Time(d1, t1), Class::Time(d2, t2)) => weekdays_eq(d1, d2) && *t1 == *t2,
            (Class::Range(r1), Class::Range(r2)) => *r1 == *r2,
            (Class::Name(n1), Class::Name(n2)) => *n1 == *n2,
            _ => false,
        }
    }
}

impl vstd::std_specs::cmp::PartialEqSpecImpl for Class {
    open spec fn obeys_eq_spec() -> bool {
        true
    }

    open spec fn eq_spec(&self, other: &Self) -> bool {
        self@ == other@
    }
}

/// The views of a sequence of classes, element by element.
pub open spec fn views_of(cs: Seq<Class>) -> Seq<ClassV> {
    cs.map_values(|c: Class| c@)
}

/// A hyphen or an en-dash, the separators of rule 2.
pub open spec fn is_dash(c: char) -> bool {
    c == '-' || c == '\u{2013}'
}

/// The first dash at or after `from`.
pub open spec fn find_dash(s: Seq<char>, from: int) -> Option<int>
    decreases s.len() - from,
    when 0 <= from <= s.len()
{
    if from >= s.len() {
        None
    } else if is_dash(s[from]) {
        Some(from)
    } else {
        find_dash(s, from + 1)
    }
}

fn find_dash_exec(v: &Vec<char>, from: usize) -> (r: Option<usize>)
    requires
        from <= v@.len(),
    ensures
        match r {
            Some(k) => find_dash(v@, from as int) == Some(k as int) && from <= k < v@.len(),
            None => find_dash(v@, from as int) is None,
        },
{
    let mut i = from;
    while i < v.len()
        invariant
            from <= i <= v@.len(),
            find_dash(v@, from as int) == find_dash(v@, i as int),
        decreases v@.len() - i,
    {
        if v[i] == '-' || v[i] == '\u{2013}' {
            return Some(i);
        }
        i += 1;
    }
    None
}

/// The first comma at or after `from`.
pub open spec fn find_comma(s: Seq<char>, from: int) -> Option<int>
    decreases s.len() - from,
    when 0 <= from <= s.len()
{
    if from >= s.len() {
        None
    } else if s[from] == ',' {
        Some(from)
    } else {
        find_comma(s, from + 1)
    }
}

pub proof fn lemma_find_comma_bounds(s: Seq<char>, from: int)
    requires
        0 <= from <= s.len(),
    ensures
        match find_comma(s, from) {
            Some(k) => from <= k < s.len(),
            None => true,
        },
    decreases s.len() - from,
{
    if from < s.len() && s[from] != ',' {
        lemma_find_comma_bounds(s, from + 1);
    }
}

fn find_comma_exec(v: &Vec<char>, from: usize) -> (r: Option<usize>)
    requires
        from <= v@.len(),
    ensures
        match r {
            Some(k) => find_comma(v@, from as int) == Some(k as int) && from <= k < v@.len(),
            None => find_comma(v@, from as int) is None,
        },
{
    let mut i = from;
    while i < v.len()
        invariant
            from <= i <= v@.len(),
            find_comma(v@, from as int) == find_comma(v@, i as int),
        decreases v@.len() - i,
    {
        if v[i] == ',' {
            return Some(i);
        }
        i += 1;
    }
    None
}

/// The literal `and` starts at index `k`.
pub open spec fn and_at(s: Seq<char>, k: int) -> bool {
    0 <= k && k + 3 <= s.len() && s[k] == 'a' && s[k + 1] == 'n' && s[k + 2] == 'd'
}

/// The first occurrence of `and` at or after `from`.
pub open spec fn find_and(s: Seq<char>, from: int) -> Option<int>
    decreases s.len() - from,
    when 0 <= from <= s.len()
{
    if from + 3 > s.len() {
        None
    } else if and_at(s, from) {
        Some(from)
    } else {
        find_and(s, from + 1)
    }
}

fn find_and_exec(v: &Vec<char>, from: usize) -> (r: Option<usize>)
    requires
        from <= v@.len(),
    ensures
        match r {
            Some(k) => find_and(v@, from as int) == Some(k as int) && from <= k && k + 3
                <= v@.len(),
            None => find_and(v@, from as int) is None,
        },
{
    let mut i = from;
    while v.len() - i >= 3
        invariant
            from <= i <= v@.len(),
            find_and(v@, from as int) == find_and(v@, i as int),
        decreases v@.len() - i,
    {
        if v[i] == 'a' && v[i + 1] == 'n' && v[i + 2] == 'd' {
            return Some(i);
        }
        i += 1;
    }
    None
}

/// The shape of a rule-1 time literal `H:MM a.m./p.m.` starting at `i`:
/// its hour, minute, whether it says `p.m.`, and the index just after it.
/// Each digit field holds one or two digits, the longer reading first.
pub open spec fn time_lit_at(s: Seq<char>, i: int) -> Option<(int, int, bool, int)> {
    if !(0 <= i < s.len()) || !is_digit(s[i]) {
        None
    } else {
        let he = if i + 1 < s.len() && is_digit(s[i + 1]) {
            i + 2
        } else {
            i + 1
        };
        if he < s.len() && s[he] == ':' {
            let ms = he + 1;
            if ms < s.len() && is_digit(s[ms]) {
                let me = if ms + 1 < s.len() && is_digit(s[ms + 1]) {
                    ms + 2
                } else {
                    ms + 1
                };
                if me + 5 <= s.len() && s[me] == ' ' && (s[me + 1] == 'a' || s[me + 1] == 'p')
                    && s[me + 2] == '.' && s[me + 3] == 'm' && s[me + 4] == '.' {
                    Some(
                        (
                            crate::text::num_of(s, i, he),
                            crate::text::num_of(s, ms, me),
                            s[me + 1] == 'p',
                            me + 5,
                        ),
                    )
                } else {
                    None
                }
            } else {
                None
            }
        } else {
            None
        }
    }
}

fn time_lit_at_exec(v: &Vec<char>, i: usize) -> (r: Option<(u8, u8, bool, usize)>)
    requires
        i <= v@.len(),
    ensures
        r is None <==> time_lit_at(v@, i as int) is None,
        r is Some ==> ({
            let (h, m, pm, end) = time_lit_at(v@, i as int)->0;
            let (he, me, pe, ee) = r->0;
            he as int == h && me as int == m && pe == pm && ee as int == end && i < ee <= v@.len()
        }),
{
    if i >= v.len() || !is_digit_exec(v[i]) {
        return None;
    }
    let he = if i + 1 < v.len() && is_digit_exec(v[i + 1]) {
        i + 2
    } else {
        i + 1
    };
    if !(he < v.len()) || v[he] != ':' {
        return None;
    }
    let ms = he + 1;
    if !(ms < v.len()) || !is_digit_exec(v[ms]) {
        return None;
    }
    let me = if ms + 1 < v.len() && is_digit_exec(v[ms + 1]) {
        ms + 2
    } else {
        ms + 1
    };
    if v.len() - me >= 5 && v[me] == ' ' && (v[me + 1] == 'a' || v[me + 1] == 'p') && v[me + 2]
        == '.' && v[me + 3] == 'm' && v[me + 4] == '.' {
        let h = crate::timeofday::read_num2(v, i, he);
        let m = crate::timeofday::read_num2(v, ms, me);
        Some((h, m, v[me + 1] == 'p', me + 5))
    } else {
        None
    }
}

/// The first rule-1 time literal at or after `from`.
pub open spec fn find_time_lit(s: Seq<char>, from: int) -> Option<int>
    decreases s.len() - from,
    when 0 <= from <= s.len()
{
    if from >= s.len() {
        None
    } else if time_lit_at(s, from) is Some {
        Some(from)
    } else {
        find_time_lit(s, from + 1)
    }
}

fn find_time_lit_exec(v: &Vec<char>, from: usize) -> (r: Option<usize>)
    requires
        from <= v@.len(),
    ensures
        match r {
            Some(k) => find_time_lit(v@, from as int) == Some(k as int) && from <= k < v@.len()
                && time_lit_at(v@, k as int) is Some,
            None => find_time_lit(v@, from as int) is None,
        },
{
    let mut i = from;
    while i < v.len()
        invariant
            from <= i <= v@.len(),
            find_time_lit(v@, from as int) == find_time_lit(v@, i as int),
        decreases v@.len() - i,
    {
        if time_lit_at_exec(v, i).is_some() {
            return Some(i);
        }
        i += 1;
    }
    None
}

/// The word `later` under any letter case, ignoring surrounding
/// whitespace: rule 3's synonym for `11:59 p.m.`.
pub open spec fn is_later_word(s: Seq<char>) -> bool {
    let t = trim_spec(s);
    t.len() == 5 && (t[0] == 'l' || t[0] == 'L') && (t[1] == 'a' || t[1] == 'A') && (t[2] == 't'
        || t[2] == 'T') && (t[3] == 'e' || t[3] == 'E') && (t[4] == 'r' || t[4] == 'R')
}

fn is_later_exec(p: &Vec<char>) -> (b: bool)
    ensures
        b == is_later_word(p@),
{
    let t = trim_chars(p);
    if t.len() != 5 {
        return false;
    }
    (t[0] == 'l' || t[0] == 'L') && (t[1] == 'a' || t[1] == 'A') && (t[2] == 't' || t[2] == 'T')
        && (t[3] == 'e' || t[3] == 'E') && (t[4] == 'r' || t[4] == 'R')
}

/// One comma-separated piece, trimmed: a named class if anything is left.
pub open spec fn named_piece(p: Seq<char>) -> Seq<ClassV> {
    if trim_spec(p).len() > 0 {
        seq![ClassV::Name(trim_spec(p))]
    } else {
        seq![]
    }
}

/// Rule 4: the named classes of the comma-separated pieces from `from` on.
pub open spec fn named_pieces_from(v: Seq<char>, from: int) -> Seq<ClassV>
    decreases v.len() - from,
    when 0 <= from <= v.len()
    via named_pieces_from_decreases
{
    match find_comma(v, from) {
        Some(k) => named_piece(v.subrange(from, k)) + named_pieces_from(v, k + 1),
        None => named_piece(v.subrange(from, v.len() as int)),
    }
}

#[via_fn]
proof fn named_pieces_from_decreases(v: Seq<char>, from: int) {
    if 0 <= from <= v.len() {
        lemma_find_comma_bounds(v, from);
    }
}

/// Whether rule 1 applies: a time literal with a weekday code after it.
pub open spec fn rule1_applies(v: Seq<char>) -> bool {
    match find_time_lit(v, 0) {
        Some(i) => {
            let (h, m, pm, end) = time_lit_at(v, i)->0;
            has_atom_from(v, end)
        },
        None => false,
    }
}

/// Whether rule 2 applies: exactly one dash in the text.
pub open spec fn rule2_applies(v: Seq<char>) -> bool {
    match find_dash(v, 0) {
        Some(k) => find_dash(v, k + 1) is None,
        None => false,
    }
}

/// Whether rule 3 applies: exactly one literal `and` in the text.
pub open spec fn rule3_applies(v: Seq<char>) -> bool {
    match find_and(v, 0) {
        Some(k) => find_and(v, k + 3) is None,
        None => false,
    }
}

/// A sequence of descriptors with repeats dropped, first occurrence
/// kept in order.
pub open spec fn dedup_classes(s: Seq<ClassV>) -> Seq<ClassV>
    decreases s.len(),
{
    if s.len() == 0 {
        seq![]
    } else {
        let rest = dedup_classes(s.drop_last());
        if s.drop_last().contains(s.last()) {
            rest
        } else {
            rest.push(s.last())
        }
    }
}

pub proof fn lemma_dedup_classes_membership(s: Seq<ClassV>, x: ClassV)
    ensures
        dedup_classes(s).contains(x) <==> s.contains(x),
    decreases s.len(),
{
    if s.len() > 0 {
        let d = s.drop_last();
        let rest = dedup_classes(d);
        lemma_dedup_classes_membership(d, x);
        if s.contains(x) {
            let w = choose|j: int| 0 <= j < s.len() && s[j] == x;
            if w < s.len() - 1 {
                assert(d[w] == x);
                assert(d.contains(x));
            } else {
                assert(x == s.last());
            }
            if d.contains(x) {
                if !d.contains(s.last()) {
                    let wr = choose|j: int| 0 <= j < rest.len() && rest[j] == x;
                    assert(rest.push(s.last())[wr] == x);
                }
            } else {
                assert(rest.push(s.last())[rest.len() as int] == x);
            }
        }
        if dedup_classes(s).contains(x) {
            let dd = dedup_classes(s);
            let w2 = choose|j: int| 0 <= j < dd.len() && dd[j] == x;
            if d.contains(s.last()) {
                assert(rest.contains(x));
            } else if w2 < rest.len() {
                assert(rest[w2] == x);
                assert(rest.contains(x));
            } else {
                assert(x == s.last());
            }
            if rest.contains(x) {
                let w3 = choose|j: int| 0 <= j < d.len() && d[j] == x;
                assert(s[w3] == x);
            } else {
                assert(x == s.last());
                assert(s[s.len() - 1] == x);
            }
        }
    }
}

/// What rule 1 yields: one recurring class per distinct weekday group,
/// all at the literal's time; an error when the literal's fields are
/// out of range.
pub open spec fn rule1_result(v: Seq<char>) -> Result<Seq<ClassV>, CalendarError> {
    let i = find_time_lit(v, 0)->0;
    let (h, m, pm, end) = time_lit_at(v, i)->0;
    match mk12(h, m, pm) {
        Some(t) => Ok(
            dedup_classes(
                weekday_runs(v).map_values(
                    |run: Seq<Weekday>| ClassV::Time(ascending_days(run), t),
                ),
            ),
        ),
        None => Err(CalendarError::InvalidTimeLiteral),
    }
}

/// What rule 2 yields: the range between the two dash-separated times.
pub open spec fn rule2_result(v: Seq<char>) -> Result<Seq<ClassV>, CalendarError> {
    let k = find_dash(v, 0)->0;
    match (parse_time(strip_dots(v.take(k))), parse_time(strip_dots(v.skip(k + 1)))) {
        (Some(a), Some(b)) => Ok(seq![ClassV::Range(ExamSlot { start: a, end: b })]),
        _ => Err(CalendarError::InvalidTimeLiteral),
    }
}

/// What rule 3 yields: the range from the first time to the second, with
/// `later` standing for the last minute of the day.
pub open spec fn rule3_result(v: Seq<char>) -> Result<Seq<ClassV>, CalendarError> {
    let k = find_and(v, 0)->0;
    match parse_time(strip_dots(v.take(k))) {
        None => Err(CalendarError::InvalidTimeLiteral),
        Some(a) => {
            let tail = v.skip(k + 3);
            if is_later_word(tail) {
                Ok(
                    seq![
                        ClassV::Range(
                            ExamSlot {
                                start: a,
                                end: TimeOfDay { hour: 23, minute: 59, second: 0 },
                            },
                        ),
                    ],
                )
            } else {
                match parse_time(strip_dots(tail)) {
                    Some(b) => Ok(seq![ClassV::Range(ExamSlot { start: a, end: b })]),
                    None => Err(CalendarError::InvalidTimeLiteral),
                }
            }
        },
    }
}

/// Whether a class with this very view already stands in `out`.
fn class_among(out: &Vec<Class>, c: &Class) -> (b: bool)
    ensures
        b == views_of(out@).contains(c@),
{
    let mut j: usize = 0;
    while j < out.len()
        invariant
            j <= out@.len(),
            forall|k: int| 0 <= k < j ==> out@[k]@ != c@,
        decreases out@.len() - j,
    {
        if out[j] == *c {
            proof {
                assert(views_of(out@)[j as int] == c@);
            }
            return true;
        }
        j += 1;
    }
    proof {
        assert(forall|k: int| 0 <= k < out@.len() ==> views_of(out@)[k] != c@);
    }
    false
}

/// The cell-text factory, rule by rule in order of precedence.
pub open spec fn class_factory(raw: Seq<char>) -> Result<Seq<ClassV>, CalendarError> {
    let v = trim_spec(raw);
    if v.len() == 0 || v == "Common:"@ {
        Ok(seq![])
    } else if rule1_applies(v) {
        rule1_result(v)
    } else if rule2_applies(v) {
        rule2_result(v)
    } else if rule3_applies(v) {
        rule3_result(v)
    } else {
        Ok(named_pieces_from(v, 0))
    }
}

impl Class {
    /// Reads one table cell's text into the classes it names, by the
    /// ordered rules of the cell grammar. An empty cell and the
    /// `Common:` sentinel yield no classes; a malformed time literal
    /// inside a matched rule is an error.
    pub fn factory(value: &str) -> (r: Result<Vec<Class>, CalendarError>)
        ensures
            match r {
                Ok(cs) => class_factory(value@) == Ok::<Seq<ClassV>, CalendarError>(
                    views_of(cs@),
                ),
                Err(e) => class_factory(value@) == Err::<Seq<ClassV>, CalendarError>(e),
            },
    {
        let s0 = chars_vec(value);
        let (lo, hi) = trim_bounds(&s0);
        let v = subvec(&s0, lo, hi);
        proof {
            assert(v@ == trim_spec(value@));
        }
        if v.len() == 0 || chars_eq_str(&v, "Common:") {
            let out: Vec<Class> = Vec::new();
            proof {
                assert(views_of(out@) =~= Seq::<ClassV>::empty());
            }
            return Ok(out);
        }
        // Rule 1: a time literal followed somewhere by a weekday code.
        match find_time_lit_exec(&v, 0) {
            Some(i) => {
                match time_lit_at_exec(&v, i) {
                    Some((h, m, pm, end)) => {
                        if has_atom_from_exec(&v, end) {
                            return match mk12_exec(h, m, pm) {
                                None => Err(CalendarError::InvalidTimeLiteral),
                                Some(t) => {
                                    let runs = factory_chars(&v);
                                    let ghost mapped = weekday_runs(v@).map_values(
                                        |run: Seq<Weekday>| ClassV::Time(ascending_days(run), t),
                                    );
                                    let mut out: Vec<Class> = Vec::new();
                                    let mut idx: usize = 0;
                                    while idx < runs.len()
                                        invariant
                                            idx <= runs@.len(),
                                            runs@.len() == mapped.len(),
                                            mapped == weekday_runs(v@).map_values(
                                                |run: Seq<Weekday>| ClassV::Time(
                                                    ascending_days(run),
                                                    t,
                                                ),
                                            ),
                                            forall|k: int|
                                                0 <= k < runs@.len() ==> runs@[k]@ == weekday_runs(
                                                    v@,
                                                )[k],
                                            views_of(out@) == dedup_classes(
                                                mapped.take(idx as int),
                                            ),
                                        decreases runs@.len() - idx,
                                    {
                                        let asc = ascending_of(&runs[idx]);
                                        let cls = Class::Time(asc, t);
                                        proof {
                                            assert(cls@ == mapped[idx as int]);
                                            assert(mapped.take(idx + 1).drop_last() =~= mapped.take(
                                                idx as int,
                                            ));
                                            lemma_dedup_classes_membership(
                                                mapped.take(idx as int),
                                                mapped[idx as int],
                                            );
                                        }
                                        let ghost out_old = out@;
                                        if !class_among(&out, &cls) {
                                            out.push(cls);
                                            proof {
                                                assert(views_of(out@) =~= views_of(out_old).push(
                                                    mapped[idx as int],
                                                ));
                                            }
                                        }
                                        idx += 1;
                                    }
                                    proof {
                                        assert(mapped.take(mapped.len() as int) =~= mapped);
                                    }
                                    Ok(out)
                                },
                            };
                        }
                    },
                    None => {
                        proof {
                            assert(false);
                        }
                    },
                }
            },
            None => {},
        }
        // Rule 2: exactly one dash separates two time literals.
        match find_dash_exec(&v, 0) {
            Some(k) => {
                if find_dash_exec(&v, k + 1).is_none() {
                    let p1 = subvec(&v, 0, k);
                    let p2 = subvec(&v, k + 1, v.len());
                    proof {
                        assert(p1@ =~= v@.take(k as int));
                        assert(p2@ =~= v@.skip(k + 1));
                    }
                    let sd1 = strip_dots_chars(&p1);
                    let sd2 = strip_dots_chars(&p2);
                    let t1 = parse_time_chars(&sd1);
                    let t2 = parse_time_chars(&sd2);
                    return match (t1, t2) {
                        (Some(a), Some(b)) => {
                            let out = vec![Class::Range(ExamSlot { start: a, end: b })];
                            proof {
                                assert(views_of(out@) =~= seq![
                                    ClassV::Range(ExamSlot { start: a, end: b }),
                                ]);
                            }
                            Ok(out)
                        },
                        _ => Err(CalendarError::InvalidTimeLiteral),
                    };
                }
            },
            None => {},
        }
        // Rule 3: exactly one literal `and` separates the two parts.
        match find_and_exec(&v, 0) {
            Some(k) => {
                if find_and_exec(&v, k + 3).is_none() {
                    let p1 = subvec(&v, 0, k);
                    let p2 = subvec(&v, k + 3, v.len());
                    proof {
                        assert(p1@ =~= v@.take(k as int));
                        assert(p2@ =~= v@.skip(k + 3));
                    }
                    let sd1 = strip_dots_chars(&p1);
                    let a = match parse_time_chars(&sd1) {
                        None => {
                            return Err(CalendarError::InvalidTimeLiteral);
                        },
                        Some(a) => a,
                    };
                    let end = if is_later_exec(&p2) {
                        TimeOfDay { hour: 23, minute: 59, second: 0 }
                    } else {
                        let sd2 = strip_dots_chars(&p2);
                        match parse_time_chars(&sd2) {
                            None => {
                                return Err(CalendarError::InvalidTimeLiteral);
                            },
                            Some(b) => b,
                        }
                    };
                    let out = vec![Class::Range(ExamSlot { start: a, end })];
                    proof {
                        assert(views_of(out@) =~= seq![ClassV::Range(ExamSlot { start: a, end })]);
                    }
                    return Ok(out);
                }
            },
            None => {},
        }
        // Rule 4: one named class per non-empty comma-separated piece.
        let mut out: Vec<Class> = Vec::new();
        let mut start: usize = 0;
        let ghost full = named_pieces_from(v@, 0);
        loop
            invariant_except_break
                full == views_of(out@) + named_pieces_from(v@, start as int),
            invariant
                start <= v@.len(),
                lo <= hi <= s0@.len(),
                s0@ == value@,
                v@ == s0@.subrange(lo as int, hi as int),
            ensures
                full == views_of(out@),
            decreases v@.len() - start,
        {
            let piece_end: usize;
            let more: bool;
            match find_comma_exec(&v, start) {
                Some(k) => {
                    piece_end = k;
                    more = true;
                },
                None => {
                    piece_end = v.len();
                    more = false;
                },
            }
            let pv = subvec(&v, start, piece_end);
            proof {
                assert(pv@ =~= v@.subrange(start as int, piece_end as int));
            }
            let (a2, b2) = trim_bounds(&pv);
            let ghost out_old = out@;
            if b2 > a2 {
                proof {
                    assert(pv@.subrange(a2 as int, b2 as int) =~= value@.subrange(
                        lo + start + a2,
                        lo + start + b2,
                    ));
                }
                let label = value.substring_char(lo + start + a2, lo + start + b2);
                out.push(Class::Name(String::from_str(label)));
                proof {
                    assert(views_of(out@) =~= views_of(out_old) + seq![
                        ClassV::Name(trim_spec(pv@)),
                    ]);
                    assert(named_piece(pv@) =~= seq![ClassV::Name(trim_spec(pv@))]);
                }
            } else {
                proof {
                    assert(named_piece(pv@) =~= Seq::<ClassV>::empty());
                }
            }
            proof {
                let rest: Seq<ClassV> = if more {
                    named_pieces_from(v@, piece_end + 1)
                } else {
                    Seq::<ClassV>::empty()
                };
                if more {
                    assert(named_pieces_from(v@, start as int) == named_piece(pv@) + rest);
                } else {
                    assert(named_pieces_from(v@, start as int) == named_piece(pv@));
                    assert(named_piece(pv@) + rest =~= named_piece(pv@));
                }
                assert(views_of(out_old) + (named_piece(pv@) + rest) =~= views_of(out@) + rest);
                assert(full == views_of(out@) + rest);
                if !more {
                    assert(views_of(out@) + rest =~= views_of(out@));
                }
            }
            if more {
                start = piece_end + 1;
            } else {
                break ;
            }
        }
        Ok(out)
    }
}

} // verus!
