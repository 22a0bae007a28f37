//! Document-level assembly: semester headings paired with their tables.
//!
//! The whole document arrives as plain values: every heading's text and
//! every table, each in document order. Headings ending in
//! `"Exam Calendar"` name the semesters; each carries its year just
//! before that suffix. Tables are scanned in order: one whose header is
//! not an exam table is skipped, and each exam table consumes the next
//! unconsumed semester's year. The catalog pairs heading texts with the
//! parsed calendars in order; any divergence between the number of
//! semesters and the number of exam tables is fatal, since a partial
//! pairing would mis-associate them.

use vstd::prelude::*;

use crate::dates::extract_year;
use crate::dates::extract_year_chars;
use crate::errors::CalendarError;
use crate::table::exam_header_ok;
use crate::table::is_exam_table;
use crate::table::table_calendar;
use crate::table::Calendar;
use crate::table::EntryV;
use crate::table::TableModel;
use crate::table::TableV;
use crate::text::chars_vec;
use crate::text::ends_with;
use crate::text::ends_with_str;

verus! {

/// The document as plain values: heading texts and tables, each in
/// document order.
#[derive(Debug, Clone)]
pub struct DocModel {
    pub headings: Vec<String>,
    pub tables: Vec<TableModel>,
}

/// The mathematical value of a [`DocModel`].
pub struct DocV {
    pub headings: Seq<Seq<char>>,
    pub tables: Seq<TableV>,
}

impl View for DocModel {
    type V = DocV;

    open spec fn view(&self) -> DocV {
        DocV {
            headings: self.headings@.map_values(|s: String| s@),
            tables: self.tables@.map_values(|t: TableModel| t@),
        }
    }
}

/// The headings that name a semester: those ending in `"Exam Calendar"`,
/// in document order.
pub open spec fn matching_headings(hs: Seq<Seq<char>>) -> Seq<Seq<char>>
    decreases hs.len(),
{
    if hs.len() == 0 {
        seq![]
    } else {
        let rest = matching_headings(hs.drop_last());
        if ends_with(hs.last(), "Exam Calendar"@) {
            rest.push(hs.last())
        } else {
            rest
        }
    }
}

/// The years of the matching headings from index `i` on; a heading
/// without a year before its suffix is fatal.
pub open spec fn years_of(ms: Seq<Seq<char>>, i: int) -> Result<Seq<int>, CalendarError>
    decreases ms.len() - i,
    when 0 <= i <= ms.len()
{
    if i >= ms.len() {
        Ok(seq![])
    } else {
        match extract_year(ms[i]) {
            Some(y) => match years_of(ms, i + 1) {
                Ok(rest) => Ok(seq![y] + rest),
                Err(e) => Err(e),
            },
            None => Err(CalendarError::MissingSemesterYear),
        }
    }
}

pub proof fn lemma_years_len(ms: Seq<Seq<char>>, i: int)
    requires
        0 <= i <= ms.len(),
        years_of(ms, i) is Ok,
    ensures
        years_of(ms, i)->Ok_0.len() == ms.len() - i,
    decreases ms.len() - i,
{
    if i < ms.len() {
        lemma_years_len(ms, i + 1);
    }
}

/// Scans the tables from index `ti` on, with `idx` semesters already
/// consumed. A non-exam table is skipped; an exam table takes the next
/// year; an exam table beyond the years, or years left at the end, is
/// the count mismatch, which is fatal.
pub open spec fn scan_tables(tables: Seq<TableV>, ti: int, years: Seq<int>, idx: int) -> Result<
    Seq<Seq<EntryV>>,
    CalendarError,
>
    decreases tables.len() - ti,
    when 0 <= ti <= tables.len() && 0 <= idx
{
    if ti >= tables.len() {
        if idx == years.len() {
            Ok(seq![])
        } else {
            Err(CalendarError::SemesterTableCountMismatch)
        }
    } else if !exam_header_ok(tables[ti]) {
        scan_tables(tables, ti + 1, years, idx)
    } else if idx >= years.len() {
        Err(CalendarError::SemesterTableCountMismatch)
    } else {
        match table_calendar(years[idx], tables[ti]) {
            Ok(cal) => match scan_tables(tables, ti + 1, years, idx + 1) {
                Ok(rest) => Ok(seq![cal] + rest),
                Err(e) => Err(e),
            },
            Err(e) => Err(e),
        }
    }
}

pub proof fn lemma_scan_len(tables: Seq<TableV>, ti: int, years: Seq<int>, idx: int)
    requires
        0 <= ti <= tables.len(),
        0 <= idx,
        scan_tables(tables, ti, years, idx) is Ok,
    ensures
        scan_tables(tables, ti, years, idx)->Ok_0.len() == years.len() - idx,
    decreases tables.len() - ti,
{
    if ti < tables.len() {
        if !exam_header_ok(tables[ti]) {
            lemma_scan_len(tables, ti + 1, years, idx);
        } else {
            lemma_scan_len(tables, ti + 1, years, idx + 1);
        }
    }
}

proof fn lemma_scan_wf(tables: Seq<TableV>, ti: int, years: Seq<int>, idx: int)
    requires
        0 <= ti <= tables.len(),
        0 <= idx,
        scan_tables(tables, ti, years, idx) is Ok,
    ensures
        forall|q: int|
            0 <= q < scan_tables(tables, ti, years, idx)->Ok_0.len()
                ==> crate::table::entries_wf(#[trigger] scan_tables(tables, ti, years, idx)->Ok_0[q]),
    decreases tables.len() - ti,
{
    if ti < tables.len() {
        if !exam_header_ok(tables[ti]) {
            lemma_scan_wf(tables, ti + 1, years, idx);
        } else {
            crate::table::lemma_table_calendar_wf(years[idx], tables[ti]);
            lemma_scan_wf(tables, ti + 1, years, idx + 1);
            let cal = table_calendar(years[idx], tables[ti])->Ok_0;
            let rest = scan_tables(tables, ti + 1, years, idx + 1)->Ok_0;
            assert forall|q: int| 0 <= q < (seq![cal] + rest).len() implies crate::table::entries_wf(
                #[trigger] (seq![cal] + rest)[q],
            ) by {
                if q > 0 {
                    assert((seq![cal] + rest)[q] == rest[q - 1]);
                }
            }
        }
    }
}

/// One semester's entry in the catalog: the heading's full text and the
/// calendar of its table.
#[derive(Debug)]
pub struct SemesterEntry {
    pub label: String,
    pub calendar: Calendar,
}

/// The mathematical value of a [`SemesterEntry`].
pub struct SemEntryV {
    pub label: Seq<char>,
    pub calendar: Seq<EntryV>,
}

impl View for SemesterEntry {
    type V = SemEntryV;

    open spec fn view(&self) -> SemEntryV {
        SemEntryV { label: self.label@, calendar: self.calendar@ }
    }
}

/// The views of a sequence of semester entries.
pub open spec fn sem_views(es: Seq<SemesterEntry>) -> Seq<SemEntryV> {
    es.map_values(|e: SemesterEntry| e@)
}

/// The first entry with the given label, at or after `from`.
pub open spec fn find_label(entries: Seq<SemEntryV>, from: int, l: Seq<char>) -> Option<int>
    decreases entries.len() - from,
    when 0 <= from <= entries.len()
{
    if from >= entries.len() {
        None
    } else if entries[from].label == l {
        Some(from)
    } else {
        find_label(entries, from + 1, l)
    }
}

/// Map insertion by label, last write winning.
pub open spec fn insert_sem(entries: Seq<SemEntryV>, e: SemEntryV) -> Seq<SemEntryV> {
    match find_label(entries, 0, e.label) {
        Some(i) => entries.update(i, e),
        None => entries.push(e),
    }
}

/// The first `n` heading/calendar pairs folded into the catalog map.
pub open spec fn fold_sems(labels: Seq<Seq<char>>, cals: Seq<Seq<EntryV>>, n: int) -> Seq<
    SemEntryV,
>
    decreases n,
{
    if n <= 0 {
        seq![]
    } else {
        insert_sem(
            fold_sems(labels, cals, n - 1),
            SemEntryV { label: labels[n - 1], calendar: cals[n - 1] },
        )
    }
}

pub proof fn lemma_find_label_bounds(entries: Seq<SemEntryV>, from: int, l: Seq<char>)
    requires
        0 <= from <= entries.len(),
    ensures
        match find_label(entries, from, l) {
            Some(i) => from <= i < entries.len() && entries[i].label == l,
            None => forall|j: int| from <= j < entries.len() ==> entries[j].label != l,
        },
    decreases entries.len() - from,
{
    if from < entries.len() && entries[from].label != l {
        lemma_find_label_bounds(entries, from + 1, l);
    }
}

/// No two entries carry the same semester label.
pub open spec fn sem_labels_unique(entries: Seq<SemEntryV>) -> bool {
    forall|i: int, j: int| 0 <= i < j < entries.len() ==> entries[i].label != entries[j].label
}

proof fn lemma_insert_sem_unique(entries: Seq<SemEntryV>, e: SemEntryV)
    requires
        sem_labels_unique(entries),
    ensures
        sem_labels_unique(insert_sem(entries, e)),
{
    lemma_find_label_bounds(entries, 0, e.label);
}

proof fn lemma_fold_sems_unique(labels: Seq<Seq<char>>, cals: Seq<Seq<EntryV>>, n: int)
    ensures
        sem_labels_unique(fold_sems(labels, cals, n)),
    decreases n,
{
    if n > 0 {
        lemma_fold_sems_unique(labels, cals, n - 1);
        lemma_insert_sem_unique(
            fold_sems(labels, cals, n - 1),
            SemEntryV { label: labels[n - 1], calendar: cals[n - 1] },
        );
    }
}

/// What building the catalog from a document yields: the semester
/// headings paired in order with the calendars of the exam tables, or
/// the first fatal condition.
pub open spec fn catalog_spec(d: DocV) -> Result<Seq<SemEntryV>, CalendarError> {
    let ms = matching_headings(d.headings);
    match years_of(ms, 0) {
        Err(e) => Err(e),
        Ok(years) => match scan_tables(d.tables, 0, years, 0) {
            Err(e) => Err(e),
            Ok(cals) => Ok(fold_sems(ms, cals, ms.len() as int)),
        },
    }
}

/// Every calendar of the catalog names only classes with in-range
/// times, so every key can be rendered by the codec.
pub open spec fn catalog_wf(entries: Seq<SemEntryV>) -> bool {
    forall|i: int|
        0 <= i < entries.len() ==> crate::table::entries_wf(#[trigger] entries[i].calendar)
}

proof fn lemma_fold_sems_wf(labels: Seq<Seq<char>>, cals: Seq<Seq<EntryV>>, n: int)
    requires
        0 <= n <= cals.len(),
        forall|q: int| 0 <= q < cals.len() ==> crate::table::entries_wf(#[trigger] cals[q]),
    ensures
        catalog_wf(fold_sems(labels, cals, n)),
    decreases n,
{
    if n > 0 {
        lemma_fold_sems_wf(labels, cals, n - 1);
        let prev = fold_sems(labels, cals, n - 1);
        let e = SemEntryV { label: labels[n - 1], calendar: cals[n - 1] };
        lemma_find_label_bounds(prev, 0, e.label);
    }
}

/// A successful build yields only encodable calendars.
pub proof fn lemma_catalog_wf(d: DocV)
    requires
        catalog_spec(d) is Ok,
    ensures
        catalog_wf(catalog_spec(d)->Ok_0),
{
    let ms = matching_headings(d.headings);
    let years = years_of(ms, 0)->Ok_0;
    let cals = scan_tables(d.tables, 0, years, 0)->Ok_0;
    lemma_scan_wf(d.tables, 0, years, 0);
    lemma_years_len(ms, 0);
    lemma_scan_len(d.tables, 0, years, 0);
    lemma_fold_sems_wf(ms, cals, ms.len() as int);
}

/// The calendar a catalog holds for a semester label, if any.
pub open spec fn spec_get_sem(entries: Seq<SemEntryV>, l: Seq<char>) -> Option<Seq<EntryV>> {
    match find_label(entries, 0, l) {
        Some(i) => Some(entries[i].calendar),
        None => None,
    }
}

/// The whole document's catalog: each semester label mapped to its
/// calendar, in document order of the headings.
#[derive(Debug)]
pub struct CalendarMap {
    entries: Vec<SemesterEntry>,
}

impl View for CalendarMap {
    type V = Seq<SemEntryV>;

    closed spec fn view(&self) -> Seq<SemEntryV> {
        sem_views(self.entries@)
    }
}

impl PartialEq for SemesterEntry {
    /// Structural equality: equal label and equal calendar.
    fn eq(&self, other: &Self) -> (r: bool) {
        self.label == other.label && self.calendar == other.calendar
    }
}

impl vstd::std_specs::cmp::PartialEqSpecImpl for SemesterEntry {
    open spec fn obeys_eq_spec() -> bool {
        true
    }

    open spec fn eq_spec(&self, other: &Self) -> bool {
        self@ == other@
    }
}

impl Eq for SemesterEntry {

}

impl PartialEq for CalendarMap {
    /// Structural equality: the same semesters in the same order.
    fn eq(&self, other: &Self) -> (r: bool) {
        if self.entries.len() != other.entries.len() {
            proof {
                assert(self@.len() != other@.len());
            }
            return false;
        }
        let mut q: usize = 0;
        while q < self.entries.len()
            invariant
                q <= self.entries@.len(),
                self.entries@.len() == other.entries@.len(),
                forall|j: int| 0 <= j < q ==> self@[j] == other@[j],
            decreases self.entries@.len() - q,
        {
            if !(self.entries[q] == other.entries[q]) {
                proof {
                    assert(self@[q as int] != other@[q as int]);
                }
                return false;
            }
            q += 1;
        }
        proof {
            assert(self@ =~= other@);
        }
        true
    }
}

impl vstd::std_specs::cmp::PartialEqSpecImpl for CalendarMap {
    open spec fn obeys_eq_spec() -> bool {
        true
    }

    open spec fn eq_spec(&self, other: &Self) -> bool {
        self@ == other@
    }
}

impl Eq for CalendarMap {

}

fn find_label_exec(entries: &Vec<SemesterEntry>, l: &String) -> (r: Option<usize>)
    ensures
        match r {
            Some(ix) => find_label(sem_views(entries@), 0, l@) == Some(ix as int) && ix
                < entries@.len(),
            None => find_label(sem_views(entries@), 0, l@) is None,
        },
{
    let mut q: usize = 0;
    while q < entries.len()
        invariant
            q <= entries@.len(),
            find_label(sem_views(entries@), 0, l@) == find_label(
                sem_views(entries@),
                q as int,
                l@,
            ),
        decreases entries@.len() - q,
    {
        if entries[q].label == *l {
            return Some(q);
        }
        q += 1;
    }
    None
}

impl CalendarMap {
    /// How many semesters the catalog holds.
    pub fn len(&self) -> (n: usize)
        ensures
            n == self@.len(),
    {
        self.entries.len()
    }

    /// The catalog's entries, in insertion order.
    pub fn entries(&self) -> (r: &Vec<SemesterEntry>)
        ensures
            sem_views(r@) == self@,
    {
        &self.entries
    }

    /// The calendar of the given semester label, if the catalog has one.
    pub fn get(&self, label: &str) -> (r: Option<&Calendar>)
        ensures
            r is Some <==> spec_get_sem(self@, label@) is Some,
            r is Some ==> Some((*r->0)@) == spec_get_sem(self@, label@),
    {
        let mut q: usize = 0;
        while q < self.entries.len()
            invariant
                q <= self.entries@.len(),
                find_label(self@, 0, label@) == find_label(self@, q as int, label@),
            decreases self.entries@.len() - q,
        {
            let lv = chars_vec(self.entries[q].label.as_str());
            if crate::text::chars_eq_str(&lv, label) {
                return Some(&self.entries[q].calendar);
            }
            q += 1;
        }
        None
    }

    /// Builds the catalog of a whole document.
    ///
    /// Fatal conditions, each with no partial result: a semester heading
    /// without a year ([`CalendarError::MissingSemesterYear`]); any
    /// failure inside an exam table; and a count mismatch between
    /// semester headings and exam tables
    /// ([`CalendarError::SemesterTableCountMismatch`]). Tables that are
    /// not exam tables are skipped.
    #[verifier::loop_isolation(false)]
    pub fn try_from(doc: &DocModel) -> (r: Result<CalendarMap, CalendarError>)
        ensures
            match r {
                Ok(m) => catalog_spec(doc@) == Ok::<Seq<SemEntryV>, CalendarError>(m@)
                    && sem_labels_unique(m@) && catalog_wf(m@),
                Err(e) => catalog_spec(doc@) == Err::<Seq<SemEntryV>, CalendarError>(e),
            },
    {
        let ghost dv = doc@;
        let ghost ms = matching_headings(dv.headings);
        let matching = matching_headings_exec(&doc.headings);
        let years = match years_exec(&matching) {
            Err(e) => {
                return Err(e);
            },
            Ok(ys) => ys,
        };
        let ghost yrs = years@.map_values(|y: u32| y as int);
        let cals = match scan_tables_exec(&doc.tables, &years) {
            Err(e) => {
                return Err(e);
            },
            Ok(cs) => cs,
        };
        proof {
            lemma_years_len(ms, 0);
            lemma_scan_len(dv.tables, 0, yrs, 0);
            assert(matching@.len() == ms.len());
            assert(cals@.map_values(|c: Calendar| c@).len() == cals@.len());
        }
        let ghost calsv = cals@.map_values(|c: Calendar| c@);
        let ghost n_sems = matching@.len() as int;
        let out = fold_sem_pairs(matching, cals);
        proof {
            lemma_fold_sems_unique(ms, calsv, n_sems);
            lemma_catalog_wf(dv);
        }
        Ok(CalendarMap { entries: out })
    }
}

/// The headings that name a semester, in document order.
#[verifier::loop_isolation(false)]
fn matching_headings_exec(headings: &Vec<String>) -> (r: Vec<String>)
    ensures
        r@.map_values(|s: String| s@) == matching_headings(headings@.map_values(|s: String| s@)),
{
    let ghost hs = headings@.map_values(|s: String| s@);
    let mut matching: Vec<String> = Vec::new();
    let mut hi: usize = 0;
    while hi < headings.len()
        invariant
            hi <= hs.len(),
            matching@.map_values(|s: String| s@) == matching_headings(hs.take(hi as int)),
        decreases hs.len() - hi,
    {
        let hv = chars_vec(headings[hi].as_str());
        proof {
            assert(hs.take(hi + 1).drop_last() =~= hs.take(hi as int));
            assert(hs.take(hi + 1).last() == hs[hi as int]);
        }
        if ends_with_str(&hv, "Exam Calendar") {
            let ghost m_before = matching@;
            matching.push(headings[hi].clone());
            proof {
                assert(matching@.map_values(|s: String| s@) =~= m_before.map_values(
                    |s: String| s@,
                ).push(hs[hi as int]));
            }
        }
        hi += 1;
    }
    proof {
        assert(hs.take(hs.len() as int) =~= hs);
    }
    matching
}

/// The year of each semester heading, or the first heading without one.
#[verifier::loop_isolation(false)]
fn years_exec(matching: &Vec<String>) -> (r: Result<Vec<u32>, CalendarError>)
    ensures
        match r {
            Ok(years) => years_of(matching@.map_values(|s: String| s@), 0) == Ok::<
                Seq<int>,
                CalendarError,
            >(years@.map_values(|y: u32| y as int)),
            Err(e) => years_of(matching@.map_values(|s: String| s@), 0) == Err::<
                Seq<int>,
                CalendarError,
            >(e),
        },
{
    let ghost ms = matching@.map_values(|s: String| s@);
    let mut years: Vec<u32> = Vec::new();
    let mut yi: usize = 0;
    while yi < matching.len()
        invariant
            yi <= ms.len(),
            years_of(ms, 0) == (match years_of(ms, yi as int) {
                Ok(rest) => Ok::<Seq<int>, CalendarError>(
                    years@.map_values(|y: u32| y as int) + rest,
                ),
                Err(e) => Err(e),
            }),
        decreases ms.len() - yi,
    {
        let yv = chars_vec(matching[yi].as_str());
        match extract_year_chars(&yv) {
            None => {
                return Err(CalendarError::MissingSemesterYear);
            },
            Some(y) => {
                proof {
                    let yrs = years@.map_values(|y2: u32| y2 as int);
                    if years_of(ms, yi + 1) is Ok {
                        assert((years@.push(y)).map_values(|y2: u32| y2 as int) =~= yrs.push(
                            y as int,
                        ));
                        assert(yrs + (seq![y as int] + years_of(ms, yi + 1)->Ok_0) =~= yrs.push(
                            y as int,
                        ) + years_of(ms, yi + 1)->Ok_0);
                    }
                }
                years.push(y);
                yi += 1;
            },
        }
    }
    proof {
        assert(years_of(ms, yi as int) == Ok::<Seq<int>, CalendarError>(seq![]));
        assert(years@.map_values(|y: u32| y as int) + Seq::<int>::empty() =~= years@.map_values(
            |y: u32| y as int,
        ));
    }
    Ok(years)
}

/// Scans the tables in order, skipping those that are not exam tables
/// and reading each exam table against the next semester's year.
#[verifier::loop_isolation(false)]
fn scan_tables_exec(tables: &Vec<TableModel>, years: &Vec<u32>) -> (r: Result<
    Vec<Calendar>,
    CalendarError,
>)
    ensures
        ({
            let tv = tables@.map_values(|t: TableModel| t@);
            let yrs = years@.map_values(|y: u32| y as int);
            match r {
                Ok(cals) => scan_tables(tv, 0, yrs, 0) == Ok::<Seq<Seq<EntryV>>, CalendarError>(
                    cals@.map_values(|c: Calendar| c@),
                ) && cals@.len() == years@.len(),
                Err(e) => scan_tables(tv, 0, yrs, 0) == Err::<Seq<Seq<EntryV>>, CalendarError>(e),
            }
        }),
{
    let ghost tv = tables@.map_values(|t: TableModel| t@);
    let ghost yrs = years@.map_values(|y: u32| y as int);
    let mut cals: Vec<Calendar> = Vec::new();
    let mut idx: usize = 0;
    let mut ti: usize = 0;
    while ti < tables.len()
        invariant
            ti <= tv.len(),
            idx <= yrs.len(),
            yrs.len() == years@.len(),
            cals@.len() == idx,
            scan_tables(tv, 0, yrs, 0) == (match scan_tables(tv, ti as int, yrs, idx as int) {
                Ok(rest) => Ok::<Seq<Seq<EntryV>>, CalendarError>(
                    cals@.map_values(|c: Calendar| c@) + rest,
                ),
                Err(e) => Err(e),
            }),
        decreases tv.len() - ti,
    {
        proof {
            assert(tv[ti as int] == tables@[ti as int]@);
        }
        if !is_exam_table(&tables[ti]) {
            ti += 1;
        } else if idx >= years.len() {
            return Err(CalendarError::SemesterTableCountMismatch);
        } else {
            match Calendar::try_from(years[idx], &tables[ti]) {
                Err(e) => {
                    return Err(e);
                },
                Ok(c) => {
                    proof {
                        let cv = cals@.map_values(|c2: Calendar| c2@);
                        if scan_tables(tv, ti + 1, yrs, idx + 1) is Ok {
                            let rest = scan_tables(tv, ti + 1, yrs, idx + 1)->Ok_0;
                            assert((cals@.push(c)).map_values(|c2: Calendar| c2@) =~= cv.push(c@));
                            assert(cv + (seq![c@] + rest) =~= cv.push(c@) + rest);
                        }
                    }
                    cals.push(c);
                    idx += 1;
                    ti += 1;
                },
            }
        }
    }
    if idx != years.len() {
        proof {
            assert(scan_tables(tv, ti as int, yrs, idx as int) == Err::<
                Seq<Seq<EntryV>>,
                CalendarError,
            >(CalendarError::SemesterTableCountMismatch));
        }
        return Err(CalendarError::SemesterTableCountMismatch);
    }
    proof {
        assert(scan_tables(tv, ti as int, yrs, idx as int) == Ok::<
            Seq<Seq<EntryV>>,
            CalendarError,
        >(seq![]));
        assert(cals@.map_values(|c: Calendar| c@) + Seq::<Seq<EntryV>>::empty()
            =~= cals@.map_values(|c: Calendar| c@));
    }
    Ok(cals)
}

/// Zips the semester labels with their calendars, in order, folding by
/// label with last write winning.
#[verifier::loop_isolation(false)]
fn fold_sem_pairs(labels: Vec<String>, cals: Vec<Calendar>) -> (out: Vec<SemesterEntry>)
    requires
        labels@.len() == cals@.len(),
    ensures
        sem_views(out@) == fold_sems(
            labels@.map_values(|s: String| s@),
            cals@.map_values(|c: Calendar| c@),
            labels@.len() as int,
        ),
{
    let ghost ms = labels@.map_values(|s: String| s@);
    let ghost calsv = cals@.map_values(|c: Calendar| c@);
    let mut out: Vec<SemesterEntry> = Vec::new();
    let mut rem_labels = labels;
    let mut rem_cals = cals;
    let total = rem_labels.len();
    let mut k: usize = 0;
    proof {
        assert(rem_labels@.map_values(|s: String| s@) =~= ms.skip(0));
        assert(rem_cals@.map_values(|c: Calendar| c@) =~= calsv.skip(0));
    }
    while rem_labels.len() > 0
        invariant
            k <= total,
            total == ms.len(),
            k + rem_labels@.len() == ms.len(),
            rem_labels@.len() == rem_cals@.len(),
            ms.len() == calsv.len(),
            rem_labels@.map_values(|s: String| s@) =~= ms.skip(k as int),
            rem_cals@.map_values(|c: Calendar| c@) =~= calsv.skip(k as int),
            sem_views(out@) == fold_sems(ms, calsv, k as int),
        decreases rem_labels@.len(),
    {
        let ghost l_before = rem_labels@;
        let ghost c_before = rem_cals@;
        let l = rem_labels.remove(0);
        let c = rem_cals.remove(0);
        proof {
            assert(l_before.map_values(|s: String| s@)[0] == l@);
            assert(c_before.map_values(|c2: Calendar| c2@)[0] == c@);
            assert(ms.skip(k as int)[0] == ms[k as int]);
            assert(calsv.skip(k as int)[0] == calsv[k as int]);
            assert(rem_labels@ =~= l_before.skip(1));
            assert(rem_cals@ =~= c_before.skip(1));
            assert(rem_labels@.map_values(|s: String| s@) =~= ms.skip(k as int).skip(1));
            assert(ms.skip(k as int).skip(1) =~= ms.skip(k + 1));
            assert(rem_cals@.map_values(|c2: Calendar| c2@) =~= calsv.skip(k as int).skip(1));
            assert(calsv.skip(k as int).skip(1) =~= calsv.skip(k + 1));
            assert(fold_sems(ms, calsv, k + 1) == insert_sem(
                fold_sems(ms, calsv, k as int),
                SemEntryV { label: ms[k as int], calendar: calsv[k as int] },
            ));
        }
        let ghost outv = sem_views(out@);
        let entry = SemesterEntry { label: l, calendar: c };
        proof {
            assert(entry@ == SemEntryV { label: ms[k as int], calendar: calsv[k as int] });
        }
        match find_label_exec(&out, &entry.label) {
            Some(ix) => {
                out.remove(ix);
                out.insert(ix, entry);
                proof {
                    assert(sem_views(out@) =~= outv.update(
                        ix as int,
                        SemEntryV { label: ms[k as int], calendar: calsv[k as int] },
                    ));
                }
            },
            None => {
                out.push(entry);
                proof {
                    assert(sem_views(out@) =~= outv.push(
                        SemEntryV { label: ms[k as int], calendar: calsv[k as int] },
                    ));
                }
            },
        }
        k += 1;
    }
    out
}

/// How many tables from index `ti` on pass header validation.
pub open spec fn count_exam_tables(tables: Seq<TableV>, ti: int) -> int
    decreases tables.len() - ti,
    when 0 <= ti <= tables.len()
{
    if ti >= tables.len() {
        0
    } else {
        (if exam_header_ok(tables[ti]) {
            1int
        } else {
            0int
        }) + count_exam_tables(tables, ti + 1)
    }
}

proof fn lemma_scan_counts(tables: Seq<TableV>, ti: int, years: Seq<int>, idx: int)
    requires
        0 <= ti <= tables.len(),
        0 <= idx,
        scan_tables(tables, ti, years, idx) is Ok,
    ensures
        count_exam_tables(tables, ti) == years.len() - idx,
    decreases tables.len() - ti,
{
    if ti < tables.len() {
        if !exam_header_ok(tables[ti]) {
            lemma_scan_counts(tables, ti + 1, years, idx);
        } else {
            lemma_scan_counts(tables, ti + 1, years, idx + 1);
        }
    }
}

/// The other face of the catalog's size law: a build can only succeed
/// when the number of tables that pass header validation equals the
/// number of semester headings — any divergence is fatal.
pub proof fn lemma_catalog_counts_agree(d: DocV, cat: Seq<SemEntryV>)
    requires
        catalog_spec(d) == Ok::<Seq<SemEntryV>, CalendarError>(cat),
    ensures
        count_exam_tables(d.tables, 0) == matching_headings(d.headings).len(),
{
    let ms = matching_headings(d.headings);
    let years = years_of(ms, 0)->Ok_0;
    lemma_years_len(ms, 0);
    lemma_scan_counts(d.tables, 0, years, 0);
}

/// Pairwise-distinct labels.
pub open spec fn labels_distinct(ls: Seq<Seq<char>>) -> bool {
    forall|i: int, j: int| 0 <= i < j < ls.len() ==> ls[i] != ls[j]
}

proof fn lemma_fold_sems_shape(labels: Seq<Seq<char>>, cals: Seq<Seq<EntryV>>, n: int)
    requires
        0 <= n <= labels.len(),
        labels_distinct(labels),
    ensures
        fold_sems(labels, cals, n).len() == n,
        forall|q: int| 0 <= q < n ==> (#[trigger] fold_sems(labels, cals, n)[q]).label == labels[q],
    decreases n,
{
    if n > 0 {
        lemma_fold_sems_shape(labels, cals, n - 1);
        let prev = fold_sems(labels, cals, n - 1);
        let e = SemEntryV { label: labels[n - 1], calendar: cals[n - 1] };
        assert forall|j: int| 0 <= j < prev.len() implies prev[j].label != e.label by {
            assert(prev[j].label == labels[j]);
        }
        lemma_find_label_none(prev, 0, e.label);
    }
}

proof fn lemma_find_label_none(entries: Seq<SemEntryV>, from: int, l: Seq<char>)
    requires
        0 <= from <= entries.len(),
        forall|j: int| from <= j < entries.len() ==> entries[j].label != l,
    ensures
        find_label(entries, from, l) is None,
    decreases entries.len() - from,
{
    if from < entries.len() {
        lemma_find_label_none(entries, from + 1, l);
    }
}

/// The catalog's size law: a successful build holds exactly one entry
/// per semester heading — one whose text ends in `"Exam Calendar"` —
/// provided no two such headings read identically; and the build fails
/// outright whenever the count of semester headings diverges from the
/// count of tables that pass header validation.
pub proof fn lemma_catalog_len(d: DocV, cat: Seq<SemEntryV>)
    requires
        catalog_spec(d) == Ok::<Seq<SemEntryV>, CalendarError>(cat),
        labels_distinct(matching_headings(d.headings)),
    ensures
        cat.len() == matching_headings(d.headings).len(),
{
    let ms = matching_headings(d.headings);
    let years = years_of(ms, 0)->Ok_0;
    lemma_years_len(ms, 0);
    lemma_fold_sems_shape(ms, scan_tables(d.tables, 0, years, 0)->Ok_0, ms.len() as int);
}

/// Building the catalog is a pure function of the document: equal
/// documents yield equal catalogs, with no hidden ordering or
/// randomness.
pub proof fn lemma_build_deterministic(a: DocV, b: DocV)
    requires
        a.headings == b.headings,
        a.tables == b.tables,
    ensures
        catalog_spec(a) == catalog_spec(b),
{
    assert(matching_headings(a.headings) == matching_headings(b.headings));
}

proof fn lemma_skip_suffix(tables: Seq<TableV>, years: Seq<int>, t: TableV, p: int, ti: int, idx: int)
    requires
        0 <= p <= ti <= tables.len(),
        0 <= idx,
        !exam_header_ok(t),
    ensures
        scan_tables(tables.insert(p, t), ti + 1, years, idx) == scan_tables(
            tables,
            ti,
            years,
            idx,
        ),
    decreases tables.len() - ti,
{
    let ins = tables.insert(p, t);
    assert(ins.len() == tables.len() + 1);
    if ti >= tables.len() {
        assert(ti + 1 >= ins.len());
    } else {
        assert(ins[ti + 1] == tables[ti]);
        if !exam_header_ok(tables[ti]) {
            lemma_skip_suffix(tables, years, t, p, ti + 1, idx);
        } else if idx >= years.len() {
        } else {
            lemma_skip_suffix(tables, years, t, p, ti + 1, idx + 1);
        }
    }
}

proof fn lemma_skip_prefix(tables: Seq<TableV>, years: Seq<int>, t: TableV, p: int, ti: int, idx: int)
    requires
        0 <= ti <= p <= tables.len(),
        0 <= idx,
        !exam_header_ok(t),
    ensures
        scan_tables(tables.insert(p, t), ti, years, idx) == scan_tables(tables, ti, years, idx),
    decreases p - ti,
{
    let ins = tables.insert(p, t);
    if ti == p {
        assert(ins[ti] == t);
        assert(scan_tables(ins, ti, years, idx) == scan_tables(ins, ti + 1, years, idx));
        lemma_skip_suffix(tables, years, t, p, ti, idx);
    } else {
        assert(ins[ti] == tables[ti]);
        if !exam_header_ok(tables[ti]) {
            lemma_skip_prefix(tables, years, t, p, ti + 1, idx);
        } else if idx >= years.len() {
        } else {
            lemma_skip_prefix(tables, years, t, p, ti + 1, idx + 1);
        }
    }
}

/// The boundary law: a table whose header's first cell is not the
/// sentinel is skipped, never fatal. Inserting such a table anywhere in
/// the document leaves the catalog — success or failure — unchanged.
pub proof fn lemma_unrelated_table_skipped(d: DocV, t: TableV, p: int)
    requires
        0 <= p <= d.tables.len(),
        !exam_header_ok(t),
    ensures
        catalog_spec(DocV { headings: d.headings, tables: d.tables.insert(p, t) })
            == catalog_spec(d),
{
    let ms = matching_headings(d.headings);
    match years_of(ms, 0) {
        Err(e) => {},
        Ok(years) => {
            lemma_skip_prefix(d.tables, years, t, p, 0, 0);
        },
    }
}

} // verus!
