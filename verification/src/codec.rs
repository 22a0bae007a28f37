//! The canonical textual encoding of a class descriptor, and its decoder.
//!
//! A recurring class renders as the bracketed weekday-name list and the
//! time, `[Monday, Wednesday] 09:00:00`; a time range as
//! `08:00:00..10:00:00`; a named class as its label verbatim. The decoder
//! accepts exactly what the encoder produces: a bracket segment selects
//! the recurring form, a single `..` the range form, anything else is a
//! label. [`lemma_codec_round_trip`] proves the decode of an encode to be
//! the identity on every descriptor shape this library produces.

use vstd::prelude::*;

use crate::class::Class;
use crate::class::ClassV;
use crate::errors::CalendarError;
use crate::text::chars_vec;
use crate::text::find_char;
use crate::text::find_char_exec;
use crate::text::is_space;
use crate::text::lemma_digit_char_props;
use crate::text::lemma_find_char_first;
use crate::text::lemma_find_char_none;
use crate::text::subvec;
use crate::text::trim_back;
use crate::text::trim_front;
use crate::text::trim_spec;
use crate::text::window_eq_str;
use crate::timeofday::lemma_parse_render_time;
use crate::timeofday::lemma_parse_time_wf;
use crate::timeofday::parse_time;
use crate::timeofday::parse_time_chars;
use crate::timeofday::render_time;
use crate::timeofday::slot_wf;
use crate::timeofday::time_wf;
use crate::timeofday::ExamSlot;
use crate::timeofday::TimeOfDay;
use crate::weekday::weekday_name;
use crate::weekday::weekday_of_name;
use crate::weekday::Weekday;

verus! {

/// A descriptor whose numeric fields are in range; what every factory
/// value satisfies.
pub open spec fn class_wf(c: ClassV) -> bool {
    match c {
        ClassV::Time(days, t) => time_wf(t),
        ClassV::Range(slot) => slot_wf(slot),
        ClassV::Name(l) => true,
    }
}

proof fn lemma_named_pieces_wf(v: Seq<char>, from: int)
    requires
        0 <= from <= v.len(),
    ensures
        forall|i: int|
            0 <= i < crate::class::named_pieces_from(v, from).len() ==> class_wf(
                #[trigger] crate::class::named_pieces_from(v, from)[i],
            ),
    decreases v.len() - from,
{
    crate::class::lemma_find_comma_bounds(v, from);
    match crate::class::find_comma(v, from) {
        Some(k) => {
            lemma_named_pieces_wf(v, k + 1);
            let piece = crate::class::named_piece(v.subrange(from, k));
            let rest = crate::class::named_pieces_from(v, k + 1);
            assert(crate::class::named_pieces_from(v, from) == piece + rest);
            assert forall|i: int| 0 <= i < (piece + rest).len() implies class_wf(
                #[trigger] (piece + rest)[i],
            ) by {
                if i >= piece.len() {
                    assert((piece + rest)[i] == rest[i - piece.len()]);
                }
            }
        },
        None => {},
    }
}

/// Every descriptor the cell-text factory yields has in-range times:
/// each may be handed to [`Class::encode`].
pub proof fn lemma_factory_classes_wf(raw: Seq<char>)
    ensures
        crate::class::class_factory(raw) is Ok ==> forall|i: int|
            0 <= i < crate::class::class_factory(raw)->Ok_0.len() ==> class_wf(
                #[trigger] crate::class::class_factory(raw)->Ok_0[i],
            ),
{
    let v = trim_spec(raw);
    if crate::class::class_factory(raw) is Ok {
        let cs = crate::class::class_factory(raw)->Ok_0;
        if v.len() == 0 || v == "Common:"@ {
        } else if crate::class::rule1_applies(v) {
            let i0 = crate::class::find_time_lit(v, 0)->0;
            let (h, m, pm, end) = crate::class::time_lit_at(v, i0)->0;
            let t = crate::timeofday::mk12(h, m, pm)->0;
            let mapped = crate::weekday::weekday_runs(v).map_values(
                |run: Seq<Weekday>| ClassV::Time(crate::weekday::ascending_days(run), t),
            );
            assert(time_wf(t));
            assert forall|q: int| 0 <= q < cs.len() implies class_wf(#[trigger] cs[q]) by {
                assert(cs.contains(cs[q]));
                crate::class::lemma_dedup_classes_membership(mapped, cs[q]);
                let w = choose|j: int| 0 <= j < mapped.len() && mapped[j] == cs[q];
                assert(mapped[w] == ClassV::Time(
                    crate::weekday::ascending_days(crate::weekday::weekday_runs(v)[w]),
                    t,
                ));
            }
        } else if crate::class::rule2_applies(v) {
            let k = crate::class::find_dash(v, 0)->0;
            lemma_parse_time_wf(crate::text::strip_dots(v.take(k)));
            lemma_parse_time_wf(crate::text::strip_dots(v.skip(k + 1)));
        } else if crate::class::rule3_applies(v) {
            let k = crate::class::find_and(v, 0)->0;
            lemma_parse_time_wf(crate::text::strip_dots(v.take(k)));
            lemma_parse_time_wf(crate::text::strip_dots(v.skip(k + 3)));
        } else {
            lemma_named_pieces_wf(v, 0);
        }
    }
}

/// The separator `", "` starts at index `k`.
pub open spec fn commaspace_at(s: Seq<char>, k: int) -> bool {
    0 <= k && k + 2 <= s.len() && s[k] == ',' && s[k + 1] == ' '
}

/// The first `", "` at or after `from`.
pub open spec fn find_commaspace(s: Seq<char>, from: int) -> Option<int>
    decreases s.len() - from,
    when 0 <= from <= s.len()
{
    if from + 2 > s.len() {
        None
    } else if commaspace_at(s, from) {
        Some(from)
    } else {
        find_commaspace(s, from + 1)
    }
}

pub proof fn lemma_find_commaspace_bounds(s: Seq<char>, from: int)
    requires
        0 <= from <= s.len(),
    ensures
        match find_commaspace(s, from) {
            Some(k) => from <= k && k + 2 <= s.len() && commaspace_at(s, k),
            None => true,
        },
    decreases s.len() - from,
{
    if from + 2 <= s.len() && !commaspace_at(s, from) {
        lemma_find_commaspace_bounds(s, from + 1);
    }
}

proof fn lemma_find_commaspace_first(s: Seq<char>, from: int, p: int)
    requires
        0 <= from <= p,
        commaspace_at(s, p),
        forall|j: int| from <= j < p ==> !commaspace_at(s, j),
    ensures
        find_commaspace(s, from) == Some(p),
    decreases p - from,
{
    if from < p {
        lemma_find_commaspace_first(s, from + 1, p);
    }
}

proof fn lemma_find_commaspace_none(s: Seq<char>, from: int)
    requires
        0 <= from <= s.len(),
        forall|j: int| from <= j ==> !commaspace_at(s, j),
    ensures
        find_commaspace(s, from) is None,
    decreases s.len() - from,
{
    if from + 2 <= s.len() {
        lemma_find_commaspace_none(s, from + 1);
    }
}

proof fn lemma_find_commaspace_shift(s: Seq<char>, a: int, from: int)
    requires
        0 <= a <= s.len(),
        0 <= from <= s.len() - a,
    ensures
        find_commaspace(s.skip(a), from) == match find_commaspace(s, a + from) {
            Some(k) => Some(k - a),
            None => None::<int>,
        },
    decreases s.len() - a - from,
{
    assert(commaspace_at(s.skip(a), from) == commaspace_at(s, a + from));
    if from + 2 <= s.skip(a).len() && !commaspace_at(s.skip(a), from) {
        lemma_find_commaspace_shift(s, a, from + 1);
    }
}

fn find_commaspace_exec(v: &Vec<char>, from: usize) -> (r: Option<usize>)
    requires
        from <= v@.len(),
    ensures
        match r {
            Some(k) => find_commaspace(v@, from as int) == Some(k as int) && from <= k && k + 2
                <= v@.len(),
            None => find_commaspace(v@, from as int) is None,
        },
{
    let mut i = from;
    while v.len() - i >= 2
        invariant
            from <= i <= v@.len(),
            find_commaspace(v@, from as int) == find_commaspace(v@, i as int),
        decreases v@.len() - i,
    {
        if v[i] == ',' && v[i + 1] == ' ' {
            return Some(i);
        }
        i += 1;
    }
    None
}

/// The separator `".."` starts at index `k`.
pub open spec fn dotdot_at(s: Seq<char>, k: int) -> bool {
    0 <= k && k + 2 <= s.len() && s[k] == '.' && s[k + 1] == '.'
}

/// The first `".."` at or after `from`.
pub open spec fn find_dotdot(s: Seq<char>, from: int) -> Option<int>
    decreases s.len() - from,
    when 0 <= from <= s.len()
{
    if from + 2 > s.len() {
        None
    } else if dotdot_at(s, from) {
        Some(from)
    } else {
        find_dotdot(s, from + 1)
    }
}

proof fn lemma_find_dotdot_first(s: Seq<char>, from: int, p: int)
    requires
        0 <= from <= p,
        dotdot_at(s, p),
        forall|j: int| from <= j < p ==> !dotdot_at(s, j),
    ensures
        find_dotdot(s, from) == Some(p),
    decreases p - from,
{
    if from < p {
        lemma_find_dotdot_first(s, from + 1, p);
    }
}

proof fn lemma_find_dotdot_none(s: Seq<char>, from: int)
    requires
        0 <= from <= s.len(),
        forall|j: int| from <= j ==> !dotdot_at(s, j),
    ensures
        find_dotdot(s, from) is None,
    decreases s.len() - from,
{
    if from + 2 <= s.len() {
        lemma_find_dotdot_none(s, from + 1);
    }
}

fn find_dotdot_exec(v: &Vec<char>, from: usize) -> (r: Option<usize>)
    requires
        from <= v@.len(),
    ensures
        match r {
            Some(k) => find_dotdot(v@, from as int) == Some(k as int) && from <= k && k + 2
                <= v@.len(),
            None => find_dotdot(v@, from as int) is None,
        },
{
    let mut i = from;
    while v.len() - i >= 2
        invariant
            from <= i <= v@.len(),
            find_dotdot(v@, from as int) == find_dotdot(v@, i as int),
        decreases v@.len() - i,
    {
        if v[i] == '.' && v[i + 1] == '.' {
            return Some(i);
        }
        i += 1;
    }
    None
}

/// The weekday names from index `i` on, each after a `", "` separator.
pub open spec fn join_tail(days: Seq<Weekday>, i: int) -> Seq<char>
    decreases days.len() - i,
    when 0 <= i <= days.len()
{
    if i >= days.len() {
        seq![]
    } else {
        seq![',', ' '] + weekday_name(days[i]) + join_tail(days, i + 1)
    }
}

/// The weekday names joined by `", "`, as a bracketed list renders them.
pub open spec fn join_names(days: Seq<Weekday>) -> Seq<char> {
    if days.len() == 0 {
        seq![]
    } else {
        weekday_name(days[0]) + join_tail(days, 1)
    }
}

/// The names read back out of a `", "`-joined list.
pub open spec fn parse_names(s: Seq<char>) -> Option<Seq<Weekday>>
    decreases s.len(),
    via parse_names_decreases
{
    match find_commaspace(s, 0) {
        Some(k) => match weekday_of_name(s.take(k)) {
            Some(d) => match parse_names(s.skip(k + 2)) {
                Some(rest) => Some(seq![d] + rest),
                None => None,
            },
            None => None,
        },
        None => match weekday_of_name(s) {
            Some(d) => Some(seq![d]),
            None => None,
        },
    }
}

#[via_fn]
proof fn parse_names_decreases(s: Seq<char>) {
    lemma_find_commaspace_bounds(s, 0);
}

/// The canonical single-string rendering of a descriptor.
pub open spec fn encode_spec(c: ClassV) -> Seq<char> {
    match c {
        ClassV::Time(days, t) => seq!['['] + join_names(days) + seq![']', ' '] + render_time(t),
        ClassV::Range(slot) => render_time(slot.start) + seq!['.', '.'] + render_time(slot.end),
        ClassV::Name(l) => l,
    }
}

/// What decoding a string yields: the recurring form on a bracket
/// segment, the range form on a single `..`, the label otherwise, and
/// an error naming the segment that would not read back.
pub open spec fn decode_spec(s: Seq<char>) -> Result<ClassV, CalendarError> {
    if find_char(s, 0, '[') is Some && find_char(s, 0, ']') is Some {
        let k = find_char(s, 0, ']')->0;
        if find_char(s, k + 1, ']') is Some {
            Err(CalendarError::DecodeBracketShape)
        } else if k < 1 {
            Err(CalendarError::DecodeWeekdaySegment)
        } else {
            match parse_names(s.subrange(1, k)) {
                Some(days) => match parse_time(s.skip(k + 1)) {
                    Some(t) => Ok(ClassV::Time(days, t)),
                    None => Err(CalendarError::DecodeTimeSegment),
                },
                None => Err(CalendarError::DecodeWeekdaySegment),
            }
        }
    } else {
        match find_dotdot(s, 0) {
            Some(k) => {
                if find_dotdot(s, k + 2) is None {
                    match parse_time(s.take(k)) {
                        Some(a) => match parse_time(s.skip(k + 2)) {
                            Some(b) => Ok(ClassV::Range(ExamSlot { start: a, end: b })),
                            None => Err(CalendarError::DecodeRangeEnd),
                        },
                        None => Err(CalendarError::DecodeRangeStart),
                    }
                } else {
                    Ok(ClassV::Name(s))
                }
            },
            None => Ok(ClassV::Name(s)),
        }
    }
}

/// Facts about the five weekday names: each reads back to its weekday,
/// and none holds a character the codec's separators use.
proof fn lemma_weekday_name_facts(d: Weekday)
    ensures
        weekday_of_name(weekday_name(d)) == Some(d),
        weekday_name(d).len() >= 1,
        forall|i: int|
            0 <= i < weekday_name(d).len() ==> (weekday_name(d)[i] != '[' && weekday_name(d)[i]
                != ']' && weekday_name(d)[i] != ',' && weekday_name(d)[i] != '.' && !is_space(
                weekday_name(d)[i],
            )),
{
    reveal_strlit("Monday");
    reveal_strlit("Tuesday");
    reveal_strlit("Wednesday");
    reveal_strlit("Thursday");
    reveal_strlit("Friday");
    assert("Monday"@.len() == 6);
    assert("Tuesday"@.len() == 7);
    assert("Wednesday"@.len() == 9);
    assert("Thursday"@.len() == 8);
    assert("Friday"@.len() == 6);
    assert("Monday"@[0] == 'M' && "Friday"@[0] == 'F');
    match d {
        Weekday::Monday => {
            assert(weekday_of_name(weekday_name(d)) == Some(Weekday::Monday));
        },
        Weekday::Tuesday => {
            assert(weekday_of_name(weekday_name(d)) == Some(Weekday::Tuesday));
        },
        Weekday::Wednesday => {
            assert(weekday_of_name(weekday_name(d)) == Some(Weekday::Wednesday));
        },
        Weekday::Thursday => {
            assert(weekday_of_name(weekday_name(d)) == Some(Weekday::Thursday));
        },
        Weekday::Friday => {
            assert(weekday_of_name(weekday_name(d)) == Some(Weekday::Friday));
        },
    }
}

proof fn lemma_join_tail_shift(days: Seq<Weekday>, j: int)
    requires
        days.len() >= 1,
        1 <= j <= days.len(),
    ensures
        join_tail(days, j) == join_tail(days.drop_first(), j - 1),
    decreases days.len() - j,
{
    if j < days.len() {
        lemma_join_tail_shift(days, j + 1);
        assert(join_tail(days, j) =~= join_tail(days.drop_first(), j - 1));
    } else {
        assert(join_tail(days, j) =~= join_tail(days.drop_first(), j - 1));
    }
}

/// No character of a joined name list is a bracket or a period.
proof fn lemma_join_tail_chars(days: Seq<Weekday>, j: int)
    requires
        0 <= j <= days.len(),
    ensures
        forall|i: int|
            0 <= i < join_tail(days, j).len() ==> (join_tail(days, j)[i] != '['
                && join_tail(days, j)[i] != ']' && join_tail(days, j)[i] != '.'),
    decreases days.len() - j,
{
    if j < days.len() {
        lemma_weekday_name_facts(days[j]);
        lemma_join_tail_chars(days, j + 1);
        let jt = join_tail(days, j);
        let name = weekday_name(days[j]);
        let rest = join_tail(days, j + 1);
        assert(jt =~= seq![',', ' '] + name + rest);
        assert forall|i: int| 0 <= i < jt.len() implies (jt[i] != '[' && jt[i] != ']' && jt[i]
            != '.') by {
            if i < 2 {
            } else if i < 2 + name.len() {
                assert(jt[i] == name[i - 2]);
            } else {
                assert(jt[i] == rest[i - 2 - name.len()]);
            }
        }
    }
}

proof fn lemma_join_chars(days: Seq<Weekday>)
    ensures
        forall|i: int|
            0 <= i < join_names(days).len() ==> (join_names(days)[i] != '[' && join_names(days)[i]
                != ']' && join_names(days)[i] != '.'),
{
    if days.len() > 0 {
        lemma_weekday_name_facts(days[0]);
        lemma_join_tail_chars(days, 1);
    }
}

/// The joined name list reads back as the very weekdays it came from:
/// the weekday leg of the codec round trip.
proof fn lemma_join_parse(days: Seq<Weekday>)
    requires
        days.len() >= 1,
    ensures
        parse_names(join_names(days)) == Some(days),
    decreases days.len(),
{
    let s = join_names(days);
    let n0 = weekday_name(days[0]);
    lemma_weekday_name_facts(days[0]);
    if days.len() == 1 {
        assert(join_tail(days, 1) =~= Seq::<char>::empty());
        assert(s =~= n0);
        assert(forall|j: int| 0 <= j ==> !commaspace_at(s, j));
        lemma_find_commaspace_none(s, 0);
        assert(parse_names(s) == Some(seq![days[0]]));
        assert(seq![days[0]] =~= days);
    } else {
        let rest = days.drop_first();
        lemma_weekday_name_facts(days[1]);
        lemma_join_tail_shift(days, 2);
        assert(join_tail(days, 1) =~= seq![',', ' '] + weekday_name(days[1]) + join_tail(
            days,
            2,
        ));
        assert(join_names(rest) =~= weekday_name(rest[0]) + join_tail(rest, 1));
        assert(s =~= n0 + seq![',', ' '] + join_names(rest));
        let p = n0.len() as int;
        assert(commaspace_at(s, p));
        assert(forall|j: int| 0 <= j < p ==> s[j] == n0[j]);
        assert(forall|j: int| 0 <= j < p ==> !commaspace_at(s, j));
        lemma_find_commaspace_first(s, 0, p);
        assert(s.take(p) =~= n0);
        assert(s.skip(p + 2) =~= join_names(rest));
        lemma_join_parse(rest);
        assert(parse_names(s) == Some(seq![days[0]] + rest));
        assert(seq![days[0]] + rest =~= days);
    }
}

/// The characters of a canonical time rendering: digits and colons only.
proof fn lemma_render_chars(t: TimeOfDay)
    requires
        time_wf(t),
    ensures
        render_time(t).len() == 8,
        forall|i: int|
            0 <= i < 8 ==> (render_time(t)[i] != '[' && render_time(t)[i] != ']' && render_time(
                t,
            )[i] != '.' && render_time(t)[i] != ',' && !is_space(render_time(t)[i])),
        crate::text::is_digit(render_time(t)[0]),
        crate::text::is_digit(render_time(t)[7]),
{
    let h = t.hour as int;
    let m = t.minute as int;
    let s = t.second as int;
    let r = render_time(t);
    assert(r =~= seq![
        crate::text::digit_char(h / 10),
        crate::text::digit_char(h % 10),
        ':',
        crate::text::digit_char(m / 10),
        crate::text::digit_char(m % 10),
        ':',
        crate::text::digit_char(s / 10),
        crate::text::digit_char(s % 10),
    ]);
    lemma_digit_char_props(h / 10);
    lemma_digit_char_props(h % 10);
    lemma_digit_char_props(m / 10);
    lemma_digit_char_props(m % 10);
    lemma_digit_char_props(s / 10);
    lemma_digit_char_props(s % 10);
}

/// The canonical rendering of a recurring class decodes back to it.
pub proof fn lemma_round_trip_recurring(days: Seq<Weekday>, t: TimeOfDay)
    requires
        days.len() >= 1,
        time_wf(t),
    ensures
        decode_spec(encode_spec(ClassV::Time(days, t))) == Ok::<ClassV, CalendarError>(
            ClassV::Time(days, t),
        ),
{
    let e = encode_spec(ClassV::Time(days, t));
    let join = join_names(days);
    let rt = render_time(t);
    lemma_join_chars(days);
    lemma_render_chars(t);
    assert(e =~= seq!['['] + join + seq![']', ' '] + rt);
    let p = 1 + join.len() as int;
    assert(e[0] == '[');
    lemma_find_char_first(e, 0, '[', 0);
    assert(e[p] == ']');
    assert(forall|j: int| 0 <= j < p ==> e[j] != ']');
    lemma_find_char_first(e, 0, ']', p);
    assert(forall|j: int| p + 1 <= j < e.len() ==> e[j] != ']');
    lemma_find_char_none(e, p + 1, ']');
    assert(e.subrange(1, p) =~= join);
    lemma_join_parse(days);
    let after = e.skip(p + 1);
    assert(after =~= seq![' '] + rt);
    assert(trim_front(after) == trim_front(rt)) by {
        assert(after.drop_first() =~= rt);
    }
    assert(trim_front(rt) == rt);
    assert(trim_back(rt) == rt);
    assert(trim_spec(after) == rt);
    lemma_parse_render_time(t);
    assert(trim_spec(rt) == rt);
    assert(parse_time(after) == Some(t));
}

/// The canonical rendering of a time-range class decodes back to it.
pub proof fn lemma_round_trip_span(slot: ExamSlot)
    requires
        slot_wf(slot),
    ensures
        decode_spec(encode_spec(ClassV::Range(slot))) == Ok::<ClassV, CalendarError>(
            ClassV::Range(slot),
        ),
{
    let e = encode_spec(ClassV::Range(slot));
    let ra = render_time(slot.start);
    let rb = render_time(slot.end);
    lemma_render_chars(slot.start);
    lemma_render_chars(slot.end);
    assert(e =~= ra + seq!['.', '.'] + rb);
    assert(forall|j: int| 0 <= j < e.len() ==> e[j] != '[');
    lemma_find_char_none(e, 0, '[');
    assert(dotdot_at(e, 8));
    assert(forall|j: int| 0 <= j < 8 ==> !dotdot_at(e, j));
    lemma_find_dotdot_first(e, 0, 8);
    assert(forall|j: int| 10 <= j ==> !dotdot_at(e, j));
    lemma_find_dotdot_none(e, 10);
    assert(e.take(8) =~= ra);
    assert(e.skip(10) =~= rb);
    lemma_parse_render_time(slot.start);
    lemma_parse_render_time(slot.end);
}

/// A label round-trips when it does not itself look like an encoded
/// bracket or range form: it has no `[` together with `]`, and no single
/// `..`. Every label free of brackets and periods qualifies.
pub open spec fn name_round_trips(l: Seq<char>) -> bool {
    &&& !(find_char(l, 0, '[') is Some && find_char(l, 0, ']') is Some)
    &&& !(match find_dotdot(l, 0) {
        Some(k) => find_dotdot(l, k + 2) is None,
        None => false,
    })
}

/// The verbatim rendering of such a label decodes back to it.
pub proof fn lemma_round_trip_named(l: Seq<char>)
    requires
        name_round_trips(l),
    ensures
        decode_spec(encode_spec(ClassV::Name(l))) == Ok::<ClassV, CalendarError>(ClassV::Name(l)),
{
}

/// The codec round trip: decoding an encoded descriptor gives the very
/// descriptor back, for every value this library's factories produce —
/// a recurring class with at least one weekday and an in-range time, a
/// range of in-range times, or a label that does not itself spell an
/// encoded form.
pub proof fn lemma_codec_round_trip(c: ClassV)
    requires
        match c {
            ClassV::Time(days, t) => days.len() >= 1 && time_wf(t),
            ClassV::Range(slot) => slot_wf(slot),
            ClassV::Name(l) => name_round_trips(l),
        },
    ensures
        decode_spec(encode_spec(c)) == Ok::<ClassV, CalendarError>(c),
{
    match c {
        ClassV::Time(days, t) => lemma_round_trip_recurring(days, t),
        ClassV::Range(slot) => lemma_round_trip_span(slot),
        ClassV::Name(l) => lemma_round_trip_named(l),
    }
}

fn weekday_name_str(d: Weekday) -> (r: &'static str)
    ensures
        r@ == weekday_name(d),
{
    match d {
        Weekday::Monday => "Monday",
        Weekday::Tuesday => "Tuesday",
        Weekday::Wednesday => "Wednesday",
        Weekday::Thursday => "Thursday",
        Weekday::Friday => "Friday",
    }
}

fn digit_str(d: u8) -> (r: &'static str)
    requires
        d <= 9,
    ensures
        r@ == seq![crate::text::digit_char(d as int)],
{
    proof {
        reveal_strlit("0");
        reveal_strlit("1");
        reveal_strlit("2");
        reveal_strlit("3");
        reveal_strlit("4");
        reveal_strlit("5");
        reveal_strlit("6");
        reveal_strlit("7");
        reveal_strlit("8");
        reveal_strlit("9");
    }
    let r = match d {
        0 => "0",
        1 => "1",
        2 => "2",
        3 => "3",
        4 => "4",
        5 => "5",
        6 => "6",
        7 => "7",
        8 => "8",
        _ => "9",
    };
    proof {
        assert(r@ =~= seq![crate::text::digit_char(d as int)]);
    }
    r
}

fn append_time(out: &mut String, t: &TimeOfDay)
    requires
        time_wf(*t),
    ensures
        final(out)@ == old(out)@ + render_time(*t),
{
    proof {
        reveal_strlit(":");
    }
    out.append(digit_str(t.hour / 10));
    out.append(digit_str(t.hour % 10));
    out.append(":");
    out.append(digit_str(t.minute / 10));
    out.append(digit_str(t.minute % 10));
    out.append(":");
    out.append(digit_str(t.second / 10));
    out.append(digit_str(t.second % 10));
    proof {
        assert(":"@ =~= seq![':']);
        assert(out@ =~= old(out)@ + render_time(*t));
    }
}

fn weekday_of_window(v: &Vec<char>, lo: usize, hi: usize) -> (r: Option<Weekday>)
    requires
        lo <= hi <= v@.len(),
    ensures
        r == weekday_of_name(v@.subrange(lo as int, hi as int)),
{
    if window_eq_str(v, lo, hi, "Monday") {
        Some(Weekday::Monday)
    } else if window_eq_str(v, lo, hi, "Tuesday") {
        Some(Weekday::Tuesday)
    } else if window_eq_str(v, lo, hi, "Wednesday") {
        Some(Weekday::Wednesday)
    } else if window_eq_str(v, lo, hi, "Thursday") {
        Some(Weekday::Thursday)
    } else if window_eq_str(v, lo, hi, "Friday") {
        Some(Weekday::Friday)
    } else {
        None
    }
}

impl Class {
    /// Renders this descriptor in its canonical single-string form.
    pub fn encode(&self) -> (r: String)
        requires
            class_wf(self@),
        ensures
            r@ == encode_spec(self@),
    {
        match self {
            Class::Name(label) => label.clone(),
            Class::Range(slot) => {
                let mut out = String::new();
                append_time(&mut out, &slot.start);
                proof {
                    reveal_strlit("..");
                    assert(".."@ =~= seq!['.', '.']);
                }
                out.append("..");
                append_time(&mut out, &slot.end);
                proof {
                    assert(out@ =~= encode_spec(self@));
                }
                out
            },
            Class::Time(days, t) => {
                let mut out = String::new();
                proof {
                    reveal_strlit("[");
                    assert("["@ =~= seq!['[']);
                    reveal_strlit("] ");
                    assert("] "@ =~= seq![']', ' ']);
                    reveal_strlit(", ");
                    assert(", "@ =~= seq![',', ' ']);
                }
                out.append("[");
                if days.len() > 0 {
                    out.append(weekday_name_str(days[0]));
                    let mut i: usize = 1;
                    while i < days.len()
                        invariant
                            1 <= i <= days@.len(),
                            ", "@ == seq![',', ' '],
                            out@ + join_tail(days@, i as int) == seq!['['] + join_names(days@),
                        decreases days@.len() - i,
                    {
                        let ghost out_old = out@;
                        out.append(", ");
                        out.append(weekday_name_str(days[i]));
                        proof {
                            assert(out@ =~= out_old + (seq![',', ' '] + weekday_name(
                                days@[i as int],
                            )));
                            assert(out_old + join_tail(days@, i as int) =~= out@ + join_tail(
                                days@,
                                i + 1,
                            ));
                        }
                        i += 1;
                    }
                    proof {
                        assert(join_tail(days@, days@.len() as int) =~= Seq::<char>::empty());
                        assert(out@ =~= seq!['['] + join_names(days@));
                    }
                } else {
                    proof {
                        assert(out@ =~= seq!['['] + join_names(days@));
                    }
                }
                out.append("] ");
                append_time(&mut out, t);
                proof {
                    assert(out@ =~= encode_spec(self@));
                }
                out
            },
        }
    }

    /// Reads a canonical rendering back into a descriptor. Fails with an
    /// error naming the first segment that does not parse; it never
    /// substitutes a default.
    pub fn decode(value: &str) -> (r: Result<Class, CalendarError>)
        ensures
            match r {
                Ok(c) => decode_spec(value@) == Ok::<ClassV, CalendarError>(c@),
                Err(e) => decode_spec(value@) == Err::<ClassV, CalendarError>(e),
            },
    {
        let v = chars_vec(value);
        let lb = find_char_exec(&v, 0, '[');
        let rb = find_char_exec(&v, 0, ']');
        if lb.is_some() && rb.is_some() {
            let k = match rb {
                Some(k) => k,
                None => {
                    proof {
                        assert(false);
                    }
                    0
                },
            };
            if find_char_exec(&v, k + 1, ']').is_some() {
                return Err(CalendarError::DecodeBracketShape);
            }
            if k < 1 {
                return Err(CalendarError::DecodeWeekdaySegment);
            }
            let dv = subvec(&v, 1, k);
            proof {
                assert(dv@ =~= v@.subrange(1, k as int));
            }
            let mut days: Vec<Weekday> = Vec::new();
            let mut from: usize = 0;
            proof {
                assert(dv@.skip(0) =~= dv@);
                let tail0 = parse_names(dv@);
                if tail0 is Some {
                    assert(Seq::<Weekday>::empty() + tail0->0 =~= tail0->0);
                }
            }
            loop
                invariant_except_break
                    ({
                        let tail = parse_names(dv@.skip(from as int));
                        &&& (tail is Some ==> parse_names(dv@) == Some(days@ + tail->0))
                        &&& (tail is None ==> parse_names(dv@) is None)
                    }),
                invariant
                    from <= dv@.len(),
                    dv@.len() <= usize::MAX,
                    v@ == value@,
                    1 <= k < v@.len(),
                    dv@ == v@.subrange(1, k as int),
                    find_char(v@, 0, '[') is Some,
                    find_char(v@, 0, ']') == Some(k as int),
                    find_char(v@, k + 1, ']') is None,
                ensures
                    parse_names(dv@) == Some(days@),
                decreases dv@.len() - from,
            {
                let found = find_commaspace_exec(&dv, from);
                let more = found.is_some();
                let piece_end = match found {
                    Some(p) => p,
                    None => dv.len(),
                };
                proof {
                    lemma_find_commaspace_shift(dv@, from as int, 0);
                    if more {
                        assert(piece_end + 2 <= dv@.len());
                        assert(find_commaspace(dv@.skip(from as int), 0) == Some(
                            piece_end - from,
                        ));
                        assert(dv@.skip(from as int).take(piece_end - from) =~= dv@.subrange(
                            from as int,
                            piece_end as int,
                        ));
                        assert(dv@.skip(from as int).skip(piece_end - from + 2) =~= dv@.skip(
                            piece_end + 2,
                        ));
                    } else {
                        assert(find_commaspace(dv@.skip(from as int), 0) is None);
                        assert(dv@.skip(from as int) =~= dv@.subrange(
                            from as int,
                            piece_end as int,
                        ));
                    }
                }
                match weekday_of_window(&dv, from, piece_end) {
                    None => {
                        proof {
                            let u = dv@.skip(from as int);
                            assert(weekday_of_name(u.subrange(0, u.len() as int)) == weekday_of_name(
                                u,
                            )) by {
                                assert(u.subrange(0, u.len() as int) =~= u);
                            }
                            assert(parse_names(u) is None);
                        }
                        return Err(CalendarError::DecodeWeekdaySegment);
                    },
                    Some(d) => {
                        let ghost days_old = days@;
                        days.push(d);
                        proof {
                            if more {
                                let tail = parse_names(dv@.skip(piece_end + 2));
                                if tail is Some {
                                    assert(days_old + (seq![d] + tail->0) =~= days@ + tail->0);
                                }
                            } else {
                                assert(parse_names(dv@.skip(from as int)) == Some(seq![d]));
                                assert(days_old + seq![d] =~= days@);
                            }
                        }
                        if more {
                            from = piece_end + 2;
                        } else {
                            break ;
                        }
                    },
                }
            }
            let tv = subvec(&v, k + 1, v.len());
            proof {
                assert(tv@ =~= v@.skip(k + 1));
            }
            match parse_time_chars(&tv) {
                Some(t) => Ok(Class::Time(days, t)),
                None => Err(CalendarError::DecodeTimeSegment),
            }
        } else {
            match find_dotdot_exec(&v, 0) {
                Some(k) => {
                    if find_dotdot_exec(&v, k + 2).is_none() {
                        let p1 = subvec(&v, 0, k);
                        let p2 = subvec(&v, k + 2, v.len());
                        proof {
                            assert(p1@ =~= v@.take(k as int));
                            assert(p2@ =~= v@.skip(k + 2));
                        }
                        match parse_time_chars(&p1) {
                            None => Err(CalendarError::DecodeRangeStart),
                            Some(a) => match parse_time_chars(&p2) {
                                None => Err(CalendarError::DecodeRangeEnd),
                                Some(b) => Ok(Class::Range(ExamSlot { start: a, end: b })),
                            },
                        }
                    } else {
                        Ok(Class::Name(String::from_str(value)))
                    }
                },
                None => Ok(Class::Name(String::from_str(value))),
            }
        }
    }
}

} // verus!
