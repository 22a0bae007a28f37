//! The error taxonomy of the extraction pipeline.

use vstd::prelude::*;

verus! {

/// Everything that can stop the extraction pipeline or a codec call.
///
/// Structural errors (`NotAnExamTable`, `MissingSemesterYear`,
/// `SemesterTableCountMismatch`) mean the document's shape diverged from the
/// assumptions; lexical errors mean one cell, row or header could not be
/// read; the `Decode*` variants say which segment of an encoded class
/// descriptor was unparseable.
#[derive(Debug, PartialEq, Eq, Structural, Clone, Copy)]
pub enum CalendarError {
    /// A weekday code other than `M`, `Tu`, `W`, `Th`, `F`.
    InvalidWeekdayCode,
    /// A full weekday name other than `Monday` through `Friday`.
    UnknownWeekdayName,
    /// A time literal in none of the recognized forms.
    InvalidTimeLiteral,
    /// A body row's date cell could not be read as month and day,
    /// or named a day the month does not have.
    InvalidDateText,
    /// A header cell after the sentinel was not a range of two times
    /// separated by an en-dash.
    InvalidSlotRange,
    /// A body row with no cells at all.
    EmptyTableRow,
    /// The header's first cell is not the exam-table sentinel; the table is
    /// skipped by the document-level scan rather than aborting it.
    NotAnExamTable,
    /// A semester heading without a usable year before its suffix.
    MissingSemesterYear,
    /// The number of parsed tables diverged from the number of semester
    /// headings.
    SemesterTableCountMismatch,
    /// An encoded descriptor with a bracket segment that is not exactly
    /// one `]` after an opening `[`.
    DecodeBracketShape,
    /// A weekday name inside an encoded descriptor's bracket segment
    /// failed to parse.
    DecodeWeekdaySegment,
    /// The time after an encoded descriptor's bracket segment failed to
    /// parse.
    DecodeTimeSegment,
    /// The text before `..` in an encoded range failed to parse as a time.
    DecodeRangeStart,
    /// The text after `..` in an encoded range failed to parse as a time.
    DecodeRangeEnd,
}

} // verus!
