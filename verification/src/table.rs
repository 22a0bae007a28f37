//! One semester's exam table, and the calendar extracted from it.
//!
//! A table arrives as plain values: the texts of its header cells, and
//! for each body row the texts of each cell's child nodes. The header's
//! first cell must be exactly the sentinel `"Exam Dates/Times"`; the
//! remaining header cells name exam time slots, deduplicated in order of
//! first occurrence. Each body row names a date in its first cell; every
//! other cell is paired positionally with a slot — cells beyond the
//! slots are dropped — and run through the class factory. The calendar
//! maps each class to its exam date and slot, the last occurrence
//! winning.

use vstd::prelude::*;

use crate::class::class_factory;
use crate::class::views_of;
use crate::class::Class;
use crate::class::ClassV;
use crate::dates::date_of_cell;
use crate::dates::date_of_cell_chars;
use crate::dates::ExamDate;
use crate::errors::CalendarError;
use crate::text::chars_eq_str;
use crate::text::chars_vec;
use crate::text::find_char;
use crate::text::find_char_exec;
use crate::text::strip_dots;
use crate::text::strip_dots_chars;
use crate::text::subvec;
use crate::timeofday::parse_time;
use crate::timeofday::parse_time_chars;
use crate::timeofday::ExamSlot;

verus! {

/// One table cell, as the texts of its child nodes.
#[derive(Debug, Clone)]
pub struct CellModel {
    pub parts: Vec<String>,
}

impl View for CellModel {
    type V = Seq<Seq<char>>;

    open spec fn view(&self) -> Seq<Seq<char>> {
        self.parts@.map_values(|s: String| s@)
    }
}

/// One body row: its cells in order, the date cell first.
#[derive(Debug, Clone)]
pub struct RowModel {
    pub cells: Vec<CellModel>,
}

impl View for RowModel {
    type V = Seq<Seq<Seq<char>>>;

    open spec fn view(&self) -> Seq<Seq<Seq<char>>> {
        self.cells@.map_values(|c: CellModel| c@)
    }
}

/// One table: its header cells' texts and its body rows.
#[derive(Debug, Clone)]
pub struct TableModel {
    pub header_cells: Vec<String>,
    pub rows: Vec<RowModel>,
}

/// The mathematical value of a [`TableModel`].
pub struct TableV {
    pub header: Seq<Seq<char>>,
    pub rows: Seq<Seq<Seq<Seq<char>>>>,
}

impl View for TableModel {
    type V = TableV;

    open spec fn view(&self) -> TableV {
        TableV {
            header: self.header_cells@.map_values(|s: String| s@),
            rows: self.rows@.map_values(|r: RowModel| r@),
        }
    }
}

/// A class's exam assignment: the date and the time slot.
#[derive(Debug, PartialEq, Eq, Structural, Clone, Copy)]
pub struct ExamAssignment {
    pub date: ExamDate,
    pub slot: ExamSlot,
}

/// One calendar entry: a class and its exam assignment.
#[derive(Debug)]
pub struct CalendarEntry {
    pub class: Class,
    pub assignment: ExamAssignment,
}

/// The mathematical value of a [`CalendarEntry`].
pub struct EntryV {
    pub class: ClassV,
    pub assignment: ExamAssignment,
}

impl View for CalendarEntry {
    type V = EntryV;

    open spec fn view(&self) -> EntryV {
        EntryV { class: self.class@, assignment: self.assignment }
    }
}

/// The views of a sequence of calendar entries.
pub open spec fn entry_views(es: Seq<CalendarEntry>) -> Seq<EntryV> {
    es.map_values(|e: CalendarEntry| e@)
}

/// The header's first cell is exactly the exam-table sentinel.
pub open spec fn exam_header_ok(t: TableV) -> bool {
    t.header.len() > 0 && t.header[0] == "Exam Dates/Times"@
}

/// One header cell read as a time slot: periods stripped, exactly one
/// en-dash, a time literal on either side.
pub open spec fn slot_of_cell(cell: Seq<char>) -> Result<ExamSlot, CalendarError> {
    let stripped = strip_dots(cell);
    match find_char(stripped, 0, '\u{2013}') {
        Some(k) => {
            if find_char(stripped, k + 1, '\u{2013}') is None {
                match (parse_time(stripped.take(k)), parse_time(stripped.skip(k + 1))) {
                    (Some(a), Some(b)) => Ok(ExamSlot { start: a, end: b }),
                    _ => Err(CalendarError::InvalidTimeLiteral),
                }
            } else {
                Err(CalendarError::InvalidSlotRange)
            }
        },
        None => Err(CalendarError::InvalidSlotRange),
    }
}

/// The slots named by the header cells from index `i` on, leftmost
/// failure first.
pub open spec fn raw_slots(header: Seq<Seq<char>>, i: int) -> Result<Seq<ExamSlot>, CalendarError>
    decreases header.len() - i,
    when 0 <= i <= header.len()
{
    if i >= header.len() {
        Ok(seq![])
    } else {
        match slot_of_cell(header[i]) {
            Ok(s) => match raw_slots(header, i + 1) {
                Ok(rest) => Ok(seq![s] + rest),
                Err(e) => Err(e),
            },
            Err(e) => Err(e),
        }
    }
}

/// The slots with duplicates dropped, first occurrence kept in order.
pub open spec fn dedup_slots(slots: Seq<ExamSlot>) -> Seq<ExamSlot>
    decreases slots.len(),
{
    if slots.len() == 0 {
        seq![]
    } else {
        let rest = dedup_slots(slots.drop_last());
        if slots.drop_last().contains(slots.last()) {
            rest
        } else {
            rest.push(slots.last())
        }
    }
}

/// The full text of one cell: its parts concatenated.
pub open spec fn concat_parts(parts: Seq<Seq<char>>) -> Seq<char>
    decreases parts.len(),
{
    if parts.len() == 0 {
        seq![]
    } else {
        concat_parts(parts.drop_last()) + parts.last()
    }
}

/// The classes named by one cell's parts from index `i` on.
pub open spec fn cell_classes(parts: Seq<Seq<char>>, i: int) -> Result<Seq<ClassV>, CalendarError>
    decreases parts.len() - i,
    when 0 <= i <= parts.len()
{
    if i >= parts.len() {
        Ok(seq![])
    } else {
        match class_factory(parts[i]) {
            Ok(cs) => match cell_classes(parts, i + 1) {
                Ok(rest) => Ok(cs + rest),
                Err(e) => Err(e),
            },
            Err(e) => Err(e),
        }
    }
}

/// The entries of one row's class cells from cell `j` on, each cell
/// paired with the slot of its column; cells beyond the slots drop.
pub open spec fn row_cells_pairs(
    row: Seq<Seq<Seq<char>>>,
    j: int,
    date: ExamDate,
    slots: Seq<ExamSlot>,
) -> Result<Seq<EntryV>, CalendarError>
    decreases row.len() - j,
    when 1 <= j <= row.len()
{
    if j >= row.len() || j - 1 >= slots.len() {
        Ok(seq![])
    } else {
        match cell_classes(row[j], 0) {
            Ok(cs) => match row_cells_pairs(row, j + 1, date, slots) {
                Ok(rest) => Ok(
                    cs.map_values(
                        |c: ClassV| EntryV {
                            class: c,
                            assignment: ExamAssignment { date, slot: slots[j - 1] },
                        },
                    ) + rest,
                ),
                Err(e) => Err(e),
            },
            Err(e) => Err(e),
        }
    }
}

/// The entries of one whole row: its date, then its class cells.
pub open spec fn row_pairs(
    row: Seq<Seq<Seq<char>>>,
    year: int,
    slots: Seq<ExamSlot>,
) -> Result<Seq<EntryV>, CalendarError> {
    if row.len() == 0 {
        Err(CalendarError::EmptyTableRow)
    } else {
        match date_of_cell(concat_parts(row[0]), year) {
            Some(date) => row_cells_pairs(row, 1, date, slots),
            None => Err(CalendarError::InvalidDateText),
        }
    }
}

/// The entries of the rows from index `i` on, in document order.
pub open spec fn rows_pairs(
    rows: Seq<Seq<Seq<Seq<char>>>>,
    i: int,
    year: int,
    slots: Seq<ExamSlot>,
) -> Result<Seq<EntryV>, CalendarError>
    decreases rows.len() - i,
    when 0 <= i <= rows.len()
{
    if i >= rows.len() {
        Ok(seq![])
    } else {
        match row_pairs(rows[i], year, slots) {
            Ok(ps) => match rows_pairs(rows, i + 1, year, slots) {
                Ok(rest) => Ok(ps + rest),
                Err(e) => Err(e),
            },
            Err(e) => Err(e),
        }
    }
}

/// The deduplicated slot list of a table's header, or why there is none.
pub open spec fn header_slots_spec(t: TableV) -> Result<Seq<ExamSlot>, CalendarError> {
    if !exam_header_ok(t) {
        Err(CalendarError::NotAnExamTable)
    } else {
        match raw_slots(t.header, 1) {
            Ok(raw) => Ok(dedup_slots(raw)),
            Err(e) => Err(e),
        }
    }
}

/// Every entry one table yields, in document order, before the
/// last-write-wins fold.
pub open spec fn table_pairs(year: int, t: TableV) -> Result<Seq<EntryV>, CalendarError> {
    match header_slots_spec(t) {
        Ok(slots) => rows_pairs(t.rows, 0, year, slots),
        Err(e) => Err(e),
    }
}

/// The first entry whose class is `c`, at or after `from`.
pub open spec fn find_key(entries: Seq<EntryV>, from: int, c: ClassV) -> Option<int>
    decreases entries.len() - from,
    when 0 <= from <= entries.len()
{
    if from >= entries.len() {
        None
    } else if entries[from].class == c {
        Some(from)
    } else {
        find_key(entries, from + 1, c)
    }
}

pub proof fn lemma_find_key_bounds(entries: Seq<EntryV>, from: int, c: ClassV)
    requires
        0 <= from <= entries.len(),
    ensures
        match find_key(entries, from, c) {
            Some(i) => from <= i < entries.len() && entries[i].class == c,
            None => forall|j: int| from <= j < entries.len() ==> entries[j].class != c,
        },
    decreases entries.len() - from,
{
    if from < entries.len() && entries[from].class != c {
        lemma_find_key_bounds(entries, from + 1, c);
    }
}

/// Map insertion with last-write-wins: an existing key keeps its place
/// and takes the new assignment; a new key goes to the end.
pub open spec fn insert_entry(entries: Seq<EntryV>, e: EntryV) -> Seq<EntryV> {
    match find_key(entries, 0, e.class) {
        Some(i) => entries.update(i, e),
        None => entries.push(e),
    }
}

/// The first `n` entries folded into a map, in order.
pub open spec fn fold_entries(pairs: Seq<EntryV>, n: int) -> Seq<EntryV>
    decreases n,
{
    if n <= 0 {
        seq![]
    } else {
        insert_entry(fold_entries(pairs, n - 1), pairs[n - 1])
    }
}

/// What one table yields as a calendar: its entries folded with
/// last-write-wins.
pub open spec fn table_calendar(year: int, t: TableV) -> Result<Seq<EntryV>, CalendarError> {
    match table_pairs(year, t) {
        Ok(ps) => Ok(fold_entries(ps, ps.len() as int)),
        Err(e) => Err(e),
    }
}

/// Every class named by these entries has in-range times: each may be
/// handed to the codec.
pub open spec fn entries_wf(es: Seq<EntryV>) -> bool {
    forall|i: int| 0 <= i < es.len() ==> crate::codec::class_wf(#[trigger] es[i].class)
}

proof fn lemma_cell_classes_wf(parts: Seq<Seq<char>>, i: int)
    requires
        0 <= i <= parts.len(),
        cell_classes(parts, i) is Ok,
    ensures
        forall|q: int|
            0 <= q < cell_classes(parts, i)->Ok_0.len() ==> crate::codec::class_wf(
                #[trigger] cell_classes(parts, i)->Ok_0[q],
            ),
    decreases parts.len() - i,
{
    if i < parts.len() {
        crate::codec::lemma_factory_classes_wf(parts[i]);
        lemma_cell_classes_wf(parts, i + 1);
        let cs = class_factory(parts[i])->Ok_0;
        let rest = cell_classes(parts, i + 1)->Ok_0;
        assert forall|q: int| 0 <= q < (cs + rest).len() implies crate::codec::class_wf(
            #[trigger] (cs + rest)[q],
        ) by {
            if q >= cs.len() {
                assert((cs + rest)[q] == rest[q - cs.len()]);
            }
        }
    }
}

proof fn lemma_row_cells_wf(row: Seq<Seq<Seq<char>>>, j: int, date: ExamDate, slots: Seq<ExamSlot>)
    requires
        1 <= j <= row.len(),
        row_cells_pairs(row, j, date, slots) is Ok,
    ensures
        entries_wf(row_cells_pairs(row, j, date, slots)->Ok_0),
    decreases row.len() - j,
{
    if j < row.len() && j - 1 < slots.len() {
        lemma_cell_classes_wf(row[j], 0);
        lemma_row_cells_wf(row, j + 1, date, slots);
        let cs = cell_classes(row[j], 0)->Ok_0;
        let mapped = cs.map_values(
            |c: ClassV| EntryV {
                class: c,
                assignment: ExamAssignment { date, slot: slots[j - 1] },
            },
        );
        let rest = row_cells_pairs(row, j + 1, date, slots)->Ok_0;
        assert forall|q: int| 0 <= q < (mapped + rest).len() implies crate::codec::class_wf(
            #[trigger] (mapped + rest)[q].class,
        ) by {
            if q < mapped.len() {
                assert((mapped + rest)[q].class == cs[q]);
            } else {
                assert((mapped + rest)[q] == rest[q - mapped.len()]);
            }
        }
    }
}

proof fn lemma_rows_pairs_wf(
    rows: Seq<Seq<Seq<Seq<char>>>>,
    i: int,
    year: int,
    slots: Seq<ExamSlot>,
)
    requires
        0 <= i <= rows.len(),
        rows_pairs(rows, i, year, slots) is Ok,
    ensures
        entries_wf(rows_pairs(rows, i, year, slots)->Ok_0),
    decreases rows.len() - i,
{
    if i < rows.len() {
        let date = date_of_cell(concat_parts(rows[i][0]), year)->0;
        lemma_row_cells_wf(rows[i], 1, date, slots);
        lemma_rows_pairs_wf(rows, i + 1, year, slots);
        let ps = row_pairs(rows[i], year, slots)->Ok_0;
        let rest = rows_pairs(rows, i + 1, year, slots)->Ok_0;
        assert forall|q: int| 0 <= q < (ps + rest).len() implies crate::codec::class_wf(
            #[trigger] (ps + rest)[q].class,
        ) by {
            if q >= ps.len() {
                assert((ps + rest)[q] == rest[q - ps.len()]);
            }
        }
    }
}

proof fn lemma_fold_entries_wf(pairs: Seq<EntryV>, n: int)
    requires
        0 <= n <= pairs.len(),
        entries_wf(pairs),
    ensures
        entries_wf(fold_entries(pairs, n)),
    decreases n,
{
    if n > 0 {
        lemma_fold_entries_wf(pairs, n - 1);
        let prev = fold_entries(pairs, n - 1);
        let e = pairs[n - 1];
        lemma_find_key_bounds(prev, 0, e.class);
    }
}

/// Every class of a successfully built table calendar has in-range
/// times, so each of its keys can be rendered by the codec.
pub proof fn lemma_table_calendar_wf(year: int, t: TableV)
    requires
        table_calendar(year, t) is Ok,
    ensures
        entries_wf(table_calendar(year, t)->Ok_0),
{
    let slots = header_slots_spec(t)->Ok_0;
    lemma_rows_pairs_wf(t.rows, 0, year, slots);
    let ps = table_pairs(year, t)->Ok_0;
    lemma_fold_entries_wf(ps, ps.len() as int);
}

/// No two entries name the same class.
pub open spec fn keys_unique(entries: Seq<EntryV>) -> bool {
    forall|i: int, j: int|
        0 <= i < j < entries.len() ==> entries[i].class != entries[j].class
}

proof fn lemma_insert_entry_unique(entries: Seq<EntryV>, e: EntryV)
    requires
        keys_unique(entries),
    ensures
        keys_unique(insert_entry(entries, e)),
{
    lemma_find_key_bounds(entries, 0, e.class);
}

proof fn lemma_fold_entries_unique(pairs: Seq<EntryV>, n: int)
    ensures
        keys_unique(fold_entries(pairs, n)),
    decreases n,
{
    if n > 0 {
        lemma_fold_entries_unique(pairs, n - 1);
        lemma_insert_entry_unique(fold_entries(pairs, n - 1), pairs[n - 1]);
    }
}

/// The assignment a calendar holds for a class, if any.
pub open spec fn spec_get(entries: Seq<EntryV>, c: ClassV) -> Option<ExamAssignment> {
    match find_key(entries, 0, c) {
        Some(i) => Some(entries[i].assignment),
        None => None,
    }
}

/// One semester's calendar: each class mapped to its exam assignment.
/// Entries stand in first-insertion order and no class appears twice.
#[derive(Debug)]
pub struct Calendar {
    entries: Vec<CalendarEntry>,
}

impl View for Calendar {
    type V = Seq<EntryV>;

    closed spec fn view(&self) -> Seq<EntryV> {
        entry_views(self.entries@)
    }
}

/// Whether a table's header starts with the exam-table sentinel.
pub fn is_exam_table(table: &TableModel) -> (b: bool)
    ensures
        b == exam_header_ok(table@),
{
    if table.header_cells.len() == 0 {
        return false;
    }
    let h0 = chars_vec(table.header_cells[0].as_str());
    chars_eq_str(&h0, "Exam Dates/Times")
}

impl PartialEq for CalendarEntry {
    /// Structural equality: equal views.
    fn eq(&self, other: &Self) -> (r: bool) {
        self.class == other.class && self.assignment == other.assignment
    }
}

impl vstd::std_specs::cmp::PartialEqSpecImpl for CalendarEntry {
    open spec fn obeys_eq_spec() -> bool {
        true
    }

    open spec fn eq_spec(&self, other: &Self) -> bool {
        self@ == other@
    }
}

impl Eq for CalendarEntry {

}

impl PartialEq for Calendar {
    /// Structural equality: the same entries in the same order.
    fn eq(&self, other: &Self) -> (r: bool) {
        if self.entries.len() != other.entries.len() {
            proof {
                assert(self@.len() != other@.len());
            }
            return false;
        }
        let mut q: usize = 0;
        while q < self.entries.len()
            invariant
                q <= self.entries@.len(),
                self.entries@.len() == other.entries@.len(),
                forall|j: int| 0 <= j < q ==> self@[j] == other@[j],
            decreases self.entries@.len() - q,
        {
            if !(self.entries[q] == other.entries[q]) {
                proof {
                    assert(self@[q as int] != other@[q as int]);
                }
                return false;
            }
            q += 1;
        }
        proof {
            assert(self@ =~= other@);
        }
        true
    }
}

impl vstd::std_specs::cmp::PartialEqSpecImpl for Calendar {
    open spec fn obeys_eq_spec() -> bool {
        true
    }

    open spec fn eq_spec(&self, other: &Self) -> bool {
        self@ == other@
    }
}

impl Eq for Calendar {

}

fn find_key_exec(cal: &Vec<CalendarEntry>, class: &Class) -> (r: Option<usize>)
    ensures
        match r {
            Some(ix) => find_key(entry_views(cal@), 0, class@) == Some(ix as int) && ix
                < cal@.len(),
            None => find_key(entry_views(cal@), 0, class@) is None,
        },
{
    let mut q: usize = 0;
    while q < cal.len()
        invariant
            q <= cal@.len(),
            find_key(entry_views(cal@), 0, class@) == find_key(
                entry_views(cal@),
                q as int,
                class@,
            ),
        decreases cal@.len() - q,
    {
        if cal[q].class == *class {
            return Some(q);
        }
        q += 1;
    }
    None
}

fn slot_of_cell_exec(cell: &String) -> (r: Result<ExamSlot, CalendarError>)
    ensures
        r == slot_of_cell(cell@),
{
    let cv = chars_vec(cell.as_str());
    let stripped = strip_dots_chars(&cv);
    match find_char_exec(&stripped, 0, '\u{2013}') {
        None => Err(CalendarError::InvalidSlotRange),
        Some(k) => {
            let n = stripped.len();
            if find_char_exec(&stripped, k + 1, '\u{2013}').is_some() {
                Err(CalendarError::InvalidSlotRange)
            } else {
                let p1 = subvec(&stripped, 0, k);
                let p2 = subvec(&stripped, k + 1, stripped.len());
                proof {
                    assert(p1@ =~= strip_dots(cell@).take(k as int));
                    assert(p2@ =~= strip_dots(cell@).skip(k + 1));
                }
                match (parse_time_chars(&p1), parse_time_chars(&p2)) {
                    (Some(a), Some(b)) => Ok(ExamSlot { start: a, end: b }),
                    _ => Err(CalendarError::InvalidTimeLiteral),
                }
            }
        },
    }
}

impl Calendar {
    /// How many classes the calendar holds.
    pub fn len(&self) -> (n: usize)
        ensures
            n == self@.len(),
    {
        self.entries.len()
    }

    /// The calendar's entries, in insertion order.
    pub fn entries(&self) -> (r: &Vec<CalendarEntry>)
        ensures
            entry_views(r@) == self@,
    {
        &self.entries
    }

    /// The exam assignment of the given class, if the calendar has one.
    pub fn get(&self, class: &Class) -> (r: Option<&ExamAssignment>)
        ensures
            r is Some <==> spec_get(self@, class@) is Some,
            r is Some ==> Some(*r->0) == spec_get(self@, class@),
    {
        let mut q: usize = 0;
        while q < self.entries.len()
            invariant
                q <= self@.len(),
                self@.len() == self.entries@.len(),
                find_key(self@, 0, class@) == find_key(self@, q as int, class@),
            decreases self@.len() - q,
        {
            if self.entries[q].class == *class {
                return Some(&self.entries[q].assignment);
            }
            q += 1;
        }
        None
    }

    /// Reads one semester's table into its calendar.
    ///
    /// A header whose first cell is not the sentinel is
    /// [`CalendarError::NotAnExamTable`] — the document-level scan skips
    /// such a table. Any other failure — a malformed slot, date or time,
    /// or an empty row — is fatal for the table. On success the entries
    /// are the table's class/assignment pairs in document order, folded
    /// so that the last occurrence of a class wins, and no class appears
    /// twice.
    pub fn try_from(year: u32, table: &TableModel) -> (r: Result<Calendar, CalendarError>)
        ensures
            match r {
                Ok(c) => table_calendar(year as int, table@) == Ok::<Seq<EntryV>, CalendarError>(
                    c@,
                ) && keys_unique(c@) && entries_wf(c@),
                Err(e) => table_calendar(year as int, table@) == Err::<Seq<EntryV>, CalendarError>(
                    e,
                ),
            },
    {
        let ghost tv = table@;
        let slots = match header_slots_exec(table) {
            Ok(s) => s,
            Err(e) => {
                return Err(e);
            },
        };
        let ghost sl = slots@;
        let mut pairs: Vec<CalendarEntry> = Vec::new();
        let mut ri: usize = 0;
        while ri < table.rows.len()
            invariant
                ri <= tv.rows.len(),
                tv == table@,
                sl == slots@,
                header_slots_spec(tv) == Ok::<Seq<ExamSlot>, CalendarError>(sl),
                tv.rows.len() == table.rows@.len(),
                rows_pairs(tv.rows, 0, year as int, sl) == (match rows_pairs(
                    tv.rows,
                    ri as int,
                    year as int,
                    sl,
                ) {
                    Ok(rest) => Ok::<Seq<EntryV>, CalendarError>(entry_views(pairs@) + rest),
                    Err(e) => Err(e),
                }),
            decreases tv.rows.len() - ri,
        {
            let ghost before = pairs@;
            proof {
                assert(tv.rows[ri as int] == table.rows@[ri as int]@);
            }
            match row_into_pairs(&table.rows[ri], year, &slots, &mut pairs) {
                Err(e) => {
                    proof {
                        assert(rows_pairs(tv.rows, ri as int, year as int, sl) == Err::<
                            Seq<EntryV>,
                            CalendarError,
                        >(e));
                    }
                    return Err(e);
                },
                Ok(_u) => {
                    proof {
                        let ps = entry_views(pairs@).skip(before.len() as int);
                        assert(entry_views(pairs@) =~= entry_views(before) + ps);
                        assert(rows_pairs(tv.rows, ri as int, year as int, sl) == (
                        match rows_pairs(tv.rows, ri + 1, year as int, sl) {
                            Ok(rest) => Ok::<Seq<EntryV>, CalendarError>(ps + rest),
                            Err(e) => Err(e),
                        }));
                        if rows_pairs(tv.rows, ri + 1, year as int, sl) is Ok {
                            let rest = rows_pairs(tv.rows, ri + 1, year as int, sl)->Ok_0;
                            assert(entry_views(before) + (ps + rest) =~= entry_views(pairs@)
                                + rest);
                        }
                    }
                    ri += 1;
                },
            }
        }
        proof {
            assert(rows_pairs(tv.rows, ri as int, year as int, sl) == Ok::<
                Seq<EntryV>,
                CalendarError,
            >(seq![]));
            assert(entry_views(pairs@) + Seq::<EntryV>::empty() =~= entry_views(pairs@));
        }
        let cal = fold_pairs(pairs);
        proof {
            lemma_table_calendar_wf(year as int, tv);
        }
        Ok(Calendar { entries: cal })
    }
}

/// Reads the header: the sentinel first, then the slots, deduplicated.
#[verifier::loop_isolation(false)]
fn header_slots_exec(table: &TableModel) -> (r: Result<Vec<ExamSlot>, CalendarError>)
    ensures
        match r {
            Ok(slots) => header_slots_spec(table@) == Ok::<Seq<ExamSlot>, CalendarError>(slots@),
            Err(e) => header_slots_spec(table@) == Err::<Seq<ExamSlot>, CalendarError>(e),
        },
{
    let ghost tv = table@;
    if table.header_cells.len() == 0 {
        return Err(CalendarError::NotAnExamTable);
    }
    let h0 = chars_vec(table.header_cells[0].as_str());
    if !chars_eq_str(&h0, "Exam Dates/Times") {
        return Err(CalendarError::NotAnExamTable);
    }
    assert(exam_header_ok(tv));
    let mut raw: Vec<ExamSlot> = Vec::new();
    let mut i: usize = 1;
    while i < table.header_cells.len()
        invariant
            1 <= i <= tv.header.len(),
            raw_slots(tv.header, 1) == (match raw_slots(tv.header, i as int) {
                Ok(rest) => Ok::<Seq<ExamSlot>, CalendarError>(raw@ + rest),
                Err(e) => Err(e),
            }),
        decreases tv.header.len() - i,
    {
        match slot_of_cell_exec(&table.header_cells[i]) {
            Err(e) => {
                return Err(e);
            },
            Ok(s) => {
                proof {
                    if raw_slots(tv.header, i + 1) is Ok {
                        assert(raw@ + (seq![s] + raw_slots(tv.header, i + 1)->Ok_0) =~= raw@.push(
                            s,
                        ) + raw_slots(tv.header, i + 1)->Ok_0);
                    }
                }
                raw.push(s);
                i += 1;
            },
        }
    }
    proof {
        assert(raw_slots(tv.header, i as int) == Ok::<Seq<ExamSlot>, CalendarError>(seq![]));
        assert(raw@ + Seq::<ExamSlot>::empty() =~= raw@);
    }
    let mut slots: Vec<ExamSlot> = Vec::new();
    let mut di: usize = 0;
    while di < raw.len()
        invariant
            di <= raw@.len(),
            slots@ == dedup_slots(raw@.take(di as int)),
        decreases raw@.len() - di,
    {
        let mut seen = false;
        let mut dj: usize = 0;
        while dj < di
            invariant
                dj <= di <= raw@.len(),
                seen == raw@.take(dj as int).contains(raw@[di as int]),
            decreases di - dj,
        {
            proof {
                if raw@[dj as int] == raw@[di as int] {
                    assert(raw@.take(dj + 1)[dj as int] == raw@[di as int]);
                }
                assert(forall|q: int|
                    0 <= q < dj ==> raw@.take(dj + 1)[q] == raw@.take(dj as int)[q]);
            }
            if raw[dj] == raw[di] {
                seen = true;
            }
            dj += 1;
        }
        proof {
            assert(raw@.take(di + 1).drop_last() =~= raw@.take(di as int));
        }
        if !seen {
            slots.push(raw[di]);
        }
        di += 1;
    }
    proof {
        assert(raw@.take(raw@.len() as int) =~= raw@);
    }
    Ok(slots)
}

/// Runs one cell's parts through the class factory, appending one entry
/// per class, all with the given date and slot.
#[verifier::loop_isolation(false)]
#[verifier::rlimit(60)]
fn cell_into_pairs(
    cell: &CellModel,
    date: ExamDate,
    slot: ExamSlot,
    pairs: &mut Vec<CalendarEntry>,
) -> (r: Result<(), CalendarError>)
    ensures
        match r {
            Ok(_u) => ({
                let added = entry_views(final(pairs)@).skip(old(pairs)@.len() as int);
                &&& final(pairs)@.len() >= old(pairs)@.len()
                &&& cell_classes(cell@, 0) == Ok::<Seq<ClassV>, CalendarError>(
                    added.map_values(|e: EntryV| e.class),
                )
                &&& entry_views(final(pairs)@).take(old(pairs)@.len() as int) == entry_views(
                    old(pairs)@,
                )
                &&& forall|q: int|
                    old(pairs)@.len() <= q < final(pairs)@.len() ==> (#[trigger] entry_views(
                        final(pairs)@,
                    )[q]).assignment == (ExamAssignment { date, slot })
            }),
            Err(e) => cell_classes(cell@, 0) == Err::<Seq<ClassV>, CalendarError>(e),
        },
{
    let ghost cellv = cell@;
    let ghost asg = ExamAssignment { date, slot };
    let ghost start = old(pairs)@;
    proof {
        assert(entry_views(pairs@).skip(start.len() as int) =~= Seq::<EntryV>::empty());
        assert(entry_views(pairs@).take(start.len() as int) =~= entry_views(start));
        if cell_classes(cellv, 0) is Ok {
            assert(Seq::<ClassV>::empty() + cell_classes(cellv, 0)->Ok_0 =~= cell_classes(
                cellv,
                0,
            )->Ok_0);
        }
        assert(Seq::<EntryV>::empty().map_values(|e: EntryV| e.class) =~= Seq::<
            ClassV,
        >::empty());
    }
    let mut ck: usize = 0;
    while ck < cell.parts.len()
        invariant
            ck <= cellv.len(),
            cellv.len() == cell.parts@.len(),
            pairs@.len() >= start.len(),
            cell_classes(cellv, 0) == (match cell_classes(cellv, ck as int) {
                Ok(rest) => Ok::<Seq<ClassV>, CalendarError>(
                    entry_views(pairs@).skip(start.len() as int).map_values(|e: EntryV| e.class)
                        + rest,
                ),
                Err(e) => Err(e),
            }),
            entry_views(pairs@).take(start.len() as int) == entry_views(start),
            forall|q: int|
                start.len() <= q < pairs@.len() ==> (#[trigger] entry_views(pairs@)[q]).assignment
                    == asg,
        decreases cellv.len() - ck,
    {
        match Class::factory(cell.parts[ck].as_str()) {
            Err(e) => {
                proof {
                    assert(cellv[ck as int] == cell.parts@[ck as int]@);
                    assert(cell_classes(cellv, ck as int) == Err::<Seq<ClassV>, CalendarError>(
                        e,
                    ));
                }
                return Err(e);
            },
            Ok(mut cs) => {
                let ghost csv = views_of(cs@);
                let ghost before = pairs@;
                let total = cs.len();
                let mut taken: usize = 0;
                proof {
                    assert(views_of(cs@) =~= csv.skip(0));
                    assert(entry_views(pairs@) =~= entry_views(before) + csv.take(0).map_values(
                        |c2: ClassV| EntryV { class: c2, assignment: asg },
                    ));
                }
                while cs.len() > 0
                    invariant
                        taken <= total,
                        total == csv.len(),
                        taken + cs@.len() == csv.len(),
                        views_of(cs@) =~= csv.skip(taken as int),
                        entry_views(pairs@) =~= entry_views(before) + csv.take(
                            taken as int,
                        ).map_values(|c2: ClassV| EntryV { class: c2, assignment: asg }),
                    decreases cs@.len(),
                {
                    let ghost cs_before = cs@;
                    let c = cs.remove(0);
                    proof {
                        assert(views_of(cs_before)[0] == c@);
                        assert(csv.skip(taken as int)[0] == csv[taken as int]);
                        assert(c@ == csv[taken as int]);
                        assert(cs@ =~= cs_before.skip(1));
                        assert(views_of(cs@) =~= views_of(cs_before).skip(1));
                        assert(views_of(cs_before).skip(1) =~= csv.skip(taken as int).skip(1));
                        assert(csv.skip(taken as int).skip(1) =~= csv.skip(taken + 1));
                        assert(views_of(cs@) =~= csv.skip(taken + 1));
                        assert(csv.take(taken + 1).map_values(
                            |c2: ClassV| EntryV { class: c2, assignment: asg },
                        ) =~= csv.take(taken as int).map_values(
                            |c2: ClassV| EntryV { class: c2, assignment: asg },
                        ).push(EntryV { class: c@, assignment: asg }));
                    }
                    let ghost p_before = pairs@;
                    pairs.push(CalendarEntry { class: c, assignment: ExamAssignment { date, slot } });
                    proof {
                        let e = EntryV { class: c@, assignment: asg };
                        assert(entry_views(pairs@) =~= entry_views(p_before).push(e));
                        assert(entry_views(p_before).push(e) =~= entry_views(before) + csv.take(
                            taken as int,
                        ).map_values(|c2: ClassV| EntryV { class: c2, assignment: asg }).push(e));
                        assert(entry_views(pairs@) =~= entry_views(before) + csv.take(
                            taken + 1,
                        ).map_values(|c2: ClassV| EntryV { class: c2, assignment: asg }));
                    }
                    taken += 1;
                }
                proof {
                    assert(csv.take(csv.len() as int) =~= csv);
                    let csl = start.len() as int;
                    let suffix = csv.map_values(|c2: ClassV| EntryV { class: c2, assignment: asg });
                    assert(entry_views(pairs@) =~= entry_views(before) + suffix);
                    assert(cellv[ck as int] == cell.parts@[ck as int]@);
                    assert(class_factory(cellv[ck as int]) == Ok::<Seq<ClassV>, CalendarError>(
                        csv,
                    ));
                    assert(cell_classes(cellv, ck as int) == (match cell_classes(cellv, ck + 1) {
                        Ok(rest) => Ok::<Seq<ClassV>, CalendarError>(csv + rest),
                        Err(e) => Err(e),
                    }));
                    assert(entry_views(pairs@).take(csl) =~= entry_views(start));
                    assert(entry_views(pairs@).skip(csl).map_values(|e: EntryV| e.class)
                        =~= entry_views(before).skip(csl).map_values(|e: EntryV| e.class) + csv);
                    if cell_classes(cellv, ck + 1) is Ok {
                        let rest = cell_classes(cellv, ck + 1)->Ok_0;
                        assert(entry_views(before).skip(csl).map_values(|e: EntryV| e.class) + (csv
                            + rest) =~= entry_views(pairs@).skip(csl).map_values(
                            |e: EntryV| e.class,
                        ) + rest);
                    }
                    assert forall|q: int|
                        start.len() <= q < pairs@.len() implies (#[trigger] entry_views(
                        pairs@,
                    )[q]).assignment == asg by {
                        if q < before.len() {
                            assert(entry_views(pairs@)[q] == entry_views(before)[q]);
                        } else {
                            assert(entry_views(pairs@)[q] == suffix[q - before.len()]);
                        }
                    }
                }
                ck += 1;
            },
        }
    }
    proof {
        assert(cell_classes(cellv, ck as int) == Ok::<Seq<ClassV>, CalendarError>(seq![]));
        let dcls = entry_views(pairs@).skip(start.len() as int).map_values(|e: EntryV| e.class);
        assert(dcls + Seq::<ClassV>::empty() =~= dcls);
    }
    Ok(())
}

/// Reads one body row: the date from its first cell, then one entry per
/// class in the remaining cells, paired with the slots in order.
#[verifier::loop_isolation(false)]
#[verifier::rlimit(60)]
fn row_into_pairs(
    row: &RowModel,
    year: u32,
    slots: &Vec<ExamSlot>,
    pairs: &mut Vec<CalendarEntry>,
) -> (r: Result<(), CalendarError>)
    ensures
        match r {
            Ok(_u) => {
                &&& final(pairs)@.len() >= old(pairs)@.len()
                &&& row_pairs(row@, year as int, slots@) == Ok::<Seq<EntryV>, CalendarError>(
                    entry_views(final(pairs)@).skip(old(pairs)@.len() as int),
                )
                &&& entry_views(final(pairs)@).take(old(pairs)@.len() as int) == entry_views(
                    old(pairs)@,
                )
            },
            Err(e) => row_pairs(row@, year as int, slots@) == Err::<Seq<EntryV>, CalendarError>(e),
        },
{
    let ghost rv = row@;
    let ghost sl = slots@;
    let ghost start = old(pairs)@;
    if row.cells.len() == 0 {
        return Err(CalendarError::EmptyTableRow);
    }
    let mut datechars: Vec<char> = Vec::new();
    let mut pi: usize = 0;
    while pi < row.cells[0].parts.len()
        invariant
            pi <= rv[0].len(),
            rv[0].len() == row.cells[0].parts@.len(),
            datechars@ == concat_parts(rv[0].take(pi as int)),
        decreases rv[0].len() - pi,
    {
        let mut pc = chars_vec(row.cells[0].parts[pi].as_str());
        proof {
            assert(rv[0].take(pi + 1).drop_last() =~= rv[0].take(pi as int));
            assert(rv[0].take(pi + 1).last() == rv[0][pi as int]);
        }
        datechars.append(&mut pc);
        pi += 1;
    }
    proof {
        assert(rv[0].take(rv[0].len() as int) =~= rv[0]);
    }
    let date = match date_of_cell_chars(&datechars, year) {
        None => {
            return Err(CalendarError::InvalidDateText);
        },
        Some(d) => d,
    };
    proof {
        assert(entry_views(pairs@).skip(start.len() as int) =~= Seq::<EntryV>::empty());
        assert(entry_views(pairs@).take(start.len() as int) =~= entry_views(start));
        if row_cells_pairs(rv, 1, date, sl) is Ok {
            assert(Seq::<EntryV>::empty() + row_cells_pairs(rv, 1, date, sl)->Ok_0
                =~= row_cells_pairs(rv, 1, date, sl)->Ok_0);
        }
    }
    let mut cj: usize = 1;
    while cj < row.cells.len() && cj - 1 < slots.len()
        invariant
            1 <= cj <= rv.len(),
            rv.len() == row.cells@.len(),
            pairs@.len() >= start.len(),
            row_cells_pairs(rv, 1, date, sl) == (match row_cells_pairs(rv, cj as int, date, sl) {
                Ok(rest) => Ok::<Seq<EntryV>, CalendarError>(
                    entry_views(pairs@).skip(start.len() as int) + rest,
                ),
                Err(e) => Err(e),
            }),
            entry_views(pairs@).take(start.len() as int) == entry_views(start),
        decreases rv.len() - cj,
    {
        let ghost cell_start = pairs@;
        proof {
            assert(rv[cj as int] == row.cells@[cj as int]@);
        }
        match cell_into_pairs(&row.cells[cj], date, slots[cj - 1], pairs) {
            Err(e) => {
                proof {
                    assert(row_cells_pairs(rv, cj as int, date, sl) == Err::<
                        Seq<EntryV>,
                        CalendarError,
                    >(e));
                }
                return Err(e);
            },
            Ok(_u) => {
                proof {
                    let csl = cell_start.len() as int;
                    let added = entry_views(pairs@).skip(csl);
                    assert(cell_classes(rv[cj as int], 0) == Ok::<Seq<ClassV>, CalendarError>(
                        added.map_values(|e: EntryV| e.class),
                    ));
                    assert(added.map_values(|e: EntryV| e.class).map_values(
                        |c: ClassV| EntryV {
                            class: c,
                            assignment: ExamAssignment { date, slot: sl[cj - 1] },
                        },
                    ) =~= added);
                    assert(row_cells_pairs(rv, cj as int, date, sl) == (match row_cells_pairs(
                        rv,
                        cj + 1,
                        date,
                        sl,
                    ) {
                        Ok(rest) => Ok::<Seq<EntryV>, CalendarError>(added + rest),
                        Err(e) => Err(e),
                    }));
                    assert(entry_views(pairs@).take(start.len() as int) =~= entry_views(
                        cell_start,
                    ).take(start.len() as int));
                    assert(entry_views(pairs@).skip(start.len() as int) =~= entry_views(
                        cell_start,
                    ).skip(start.len() as int) + added);
                    if row_cells_pairs(rv, cj + 1, date, sl) is Ok {
                        let rest = row_cells_pairs(rv, cj + 1, date, sl)->Ok_0;
                        assert(entry_views(cell_start).skip(start.len() as int) + (added + rest)
                            =~= entry_views(pairs@).skip(start.len() as int) + rest);
                    }
                }
                cj += 1;
            },
        }
    }
    proof {
        assert(row_cells_pairs(rv, cj as int, date, sl) == Ok::<Seq<EntryV>, CalendarError>(
            seq![],
        ));
        let ps = entry_views(pairs@).skip(start.len() as int);
        assert(ps + Seq::<EntryV>::empty() =~= ps);
        assert(rv.len() > 0);
        assert(date_of_cell(concat_parts(rv[0]), year as int) == Some(date));
    }
    Ok(())
}

/// Folds the entries in document order, last write winning per class.
#[verifier::loop_isolation(false)]
fn fold_pairs(pairs: Vec<CalendarEntry>) -> (cal: Vec<CalendarEntry>)
    ensures
        entry_views(cal@) == fold_entries(entry_views(pairs@), pairs@.len() as int),
        keys_unique(entry_views(cal@)),
{
    let mut rem = pairs;
    let ghost all = entry_views(rem@);
    let total = rem.len();
    let mut cal: Vec<CalendarEntry> = Vec::new();
    let mut taken: usize = 0;
    proof {
        assert(entry_views(rem@) =~= all.skip(0));
    }
    while rem.len() > 0
        invariant
            taken <= total,
            total == all.len(),
            taken + rem@.len() == all.len(),
            entry_views(rem@) =~= all.skip(taken as int),
            entry_views(cal@) == fold_entries(all, taken as int),
        decreases rem@.len(),
    {
        let ghost rem_before = rem@;
        let p = rem.remove(0);
        proof {
            assert(entry_views(rem_before)[0] == p@);
            assert(all.skip(taken as int)[0] == all[taken as int]);
            assert(p@ == all[taken as int]);
            assert(rem@ =~= rem_before.skip(1));
            assert(entry_views(rem@) =~= entry_views(rem_before).skip(1));
            assert(entry_views(rem_before).skip(1) =~= all.skip(taken as int).skip(1));
            assert(all.skip(taken as int).skip(1) =~= all.skip(taken + 1));
            assert(entry_views(rem@) =~= all.skip(taken + 1));
            assert(fold_entries(all, taken + 1) == insert_entry(
                fold_entries(all, taken as int),
                all[taken as int],
            ));
        }
        let ghost calv = entry_views(cal@);
        match find_key_exec(&cal, &p.class) {
            Some(ix) => {
                cal.remove(ix);
                cal.insert(ix, p);
                proof {
                    assert(entry_views(cal@) =~= calv.update(ix as int, all[taken as int]));
                }
            },
            None => {
                cal.push(p);
                proof {
                    assert(entry_views(cal@) =~= calv.push(all[taken as int]));
                }
            },
        }
        taken += 1;
    }
    proof {
        lemma_fold_entries_unique(all, all.len() as int);
    }
    cal
}

} // verus!
