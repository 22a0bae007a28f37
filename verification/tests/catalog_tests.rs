use ncsu_exam_lib::catalog::CalendarMap;
use ncsu_exam_lib::catalog::DocModel;
use ncsu_exam_lib::class::Class;
use ncsu_exam_lib::dates::ExamDate;
use ncsu_exam_lib::errors::CalendarError;
use ncsu_exam_lib::table::Calendar;
use ncsu_exam_lib::table::CellModel;
use ncsu_exam_lib::table::ExamAssignment;
use ncsu_exam_lib::table::RowModel;
use ncsu_exam_lib::table::TableModel;
use ncsu_exam_lib::timeofday::ExamSlot;
use ncsu_exam_lib::timeofday::TimeOfDay;
use ncsu_exam_lib::weekday::Weekday;

fn t(hour: u8, minute: u8) -> TimeOfDay {
    TimeOfDay {
        hour,
        minute,
        second: 0,
    }
}

fn cell(parts: &[&str]) -> CellModel {
    CellModel {
        parts: parts.iter().map(|s| s.to_string()).collect(),
    }
}

fn row(cells: Vec<CellModel>) -> RowModel {
    RowModel { cells }
}

fn header(cells: &[&str]) -> Vec<String> {
    cells.iter().map(|s| s.to_string()).collect()
}

fn fall_2023_table() -> TableModel {
    TableModel {
        header_cells: header(&["Exam Dates/Times", "8:00 a.m.\u{2013}10:00 a.m."]),
        rows: vec![row(vec![
            cell(&["Mon. Dec 11."]),
            cell(&["9:00 a.m. MWF"]),
        ])],
    }
}

fn fall_2023_doc() -> DocModel {
    DocModel {
        headings: vec!["Fall 2023 Exam Calendar".to_string()],
        tables: vec![fall_2023_table()],
    }
}

#[test]
fn end_to_end_single_semester() {
    let map = CalendarMap::try_from(&fall_2023_doc()).unwrap();
    assert_eq!(map.len(), 1);
    let cal = map.get("Fall 2023 Exam Calendar").unwrap();
    let class = Class::Time(
        vec![Weekday::Monday, Weekday::Wednesday, Weekday::Friday],
        t(9, 0),
    );
    let assignment = cal.get(&class).unwrap();
    assert_eq!(
        *assignment,
        ExamAssignment {
            date: ExamDate {
                year: 2023,
                month: 12,
                day: 11,
            },
            slot: ExamSlot {
                start: t(8, 0),
                end: t(10, 0),
            },
        }
    );
}

#[test]
fn building_twice_gives_equal_catalogs() {
    let doc = fall_2023_doc();
    let first = CalendarMap::try_from(&doc).unwrap();
    let second = CalendarMap::try_from(&doc).unwrap();
    assert_eq!(first, second);
}

#[test]
fn unrelated_table_is_skipped_not_fatal() {
    let mut doc = fall_2023_doc();
    doc.tables.insert(
        0,
        TableModel {
            header_cells: header(&["Office hours"]),
            rows: vec![row(vec![cell(&["Mon"]), cell(&["10-11"])])],
        },
    );
    let with_junk = CalendarMap::try_from(&doc).unwrap();
    let without = CalendarMap::try_from(&fall_2023_doc()).unwrap();
    assert_eq!(with_junk, without);
}

#[test]
fn catalog_len_matches_heading_count() {
    let doc = DocModel {
        headings: vec![
            "Fall 2023 Exam Calendar".to_string(),
            "An unrelated heading".to_string(),
            "Spring 2024 Exam Calendar".to_string(),
        ],
        tables: vec![fall_2023_table(), fall_2023_table()],
    };
    let map = CalendarMap::try_from(&doc).unwrap();
    assert_eq!(map.len(), 2);
    assert!(map.get("Fall 2023 Exam Calendar").is_some());
    assert!(map.get("Spring 2024 Exam Calendar").is_some());
    assert!(map.get("An unrelated heading").is_none());
}

#[test]
fn more_headings_than_tables_is_fatal() {
    let doc = DocModel {
        headings: vec![
            "Fall 2023 Exam Calendar".to_string(),
            "Spring 2024 Exam Calendar".to_string(),
        ],
        tables: vec![fall_2023_table()],
    };
    assert_eq!(
        CalendarMap::try_from(&doc),
        Err(CalendarError::SemesterTableCountMismatch)
    );
}

#[test]
fn more_tables_than_headings_is_fatal() {
    let doc = DocModel {
        headings: vec!["Fall 2023 Exam Calendar".to_string()],
        tables: vec![fall_2023_table(), fall_2023_table()],
    };
    assert_eq!(
        CalendarMap::try_from(&doc),
        Err(CalendarError::SemesterTableCountMismatch)
    );
}

#[test]
fn heading_without_year_is_fatal() {
    let doc = DocModel {
        headings: vec!["Spring Exam Calendar".to_string()],
        tables: vec![fall_2023_table()],
    };
    assert_eq!(
        CalendarMap::try_from(&doc),
        Err(CalendarError::MissingSemesterYear)
    );
}

#[test]
fn empty_document_yields_empty_catalog() {
    let doc = DocModel {
        headings: vec![],
        tables: vec![],
    };
    let map = CalendarMap::try_from(&doc).unwrap();
    assert_eq!(map.len(), 0);
}

#[test]
fn bad_date_in_a_row_is_fatal_for_the_catalog() {
    let mut doc = fall_2023_doc();
    doc.tables[0].rows[0].cells[0] = cell(&["Mon. Foo 11."]);
    assert_eq!(
        CalendarMap::try_from(&doc),
        Err(CalendarError::InvalidDateText)
    );
}

#[test]
fn wrong_header_sentinel_is_not_an_exam_table() {
    let table = TableModel {
        header_cells: header(&["Exam dates/times", "8:00 a.m.\u{2013}10:00 a.m."]),
        rows: vec![],
    };
    assert_eq!(
        Calendar::try_from(2023, &table),
        Err(CalendarError::NotAnExamTable)
    );
}

#[test]
fn header_cell_without_dash_is_a_bad_slot() {
    let table = TableModel {
        header_cells: header(&["Exam Dates/Times", "whenever"]),
        rows: vec![],
    };
    assert_eq!(
        Calendar::try_from(2023, &table),
        Err(CalendarError::InvalidSlotRange)
    );
}

#[test]
fn empty_row_is_fatal() {
    let table = TableModel {
        header_cells: header(&["Exam Dates/Times", "8:00 a.m.\u{2013}10:00 a.m."]),
        rows: vec![row(vec![])],
    };
    assert_eq!(
        Calendar::try_from(2023, &table),
        Err(CalendarError::EmptyTableRow)
    );
}

#[test]
fn invalid_day_of_month_is_fatal() {
    let mut table = fall_2023_table();
    table.rows[0].cells[0] = cell(&["Thu. Feb 30."]);
    assert_eq!(
        Calendar::try_from(2023, &table),
        Err(CalendarError::InvalidDateText)
    );
}

#[test]
fn leap_day_parses_in_a_leap_year() {
    let mut table = fall_2023_table();
    table.rows[0].cells[0] = cell(&["Thu. Feb 29."]);
    assert!(Calendar::try_from(2023, &table).is_err());
    let cal = Calendar::try_from(2024, &table).unwrap();
    assert_eq!(cal.len(), 1);
}

#[test]
fn duplicate_slot_columns_collapse_and_excess_cells_drop() {
    let table = TableModel {
        header_cells: header(&[
            "Exam Dates/Times",
            "8:00 a.m.\u{2013}10:00 a.m.",
            "8:00 a.m.\u{2013}10:00 a.m.",
        ]),
        rows: vec![row(vec![
            cell(&["Mon. Dec 11."]),
            cell(&["CSC101"]),
            cell(&["CSC999"]),
        ])],
    };
    let cal = Calendar::try_from(2023, &table).unwrap();
    assert_eq!(cal.len(), 1);
    assert!(cal.get(&Class::Name(String::from("CSC101"))).is_some());
    assert!(cal.get(&Class::Name(String::from("CSC999"))).is_none());
}

#[test]
fn later_occurrence_of_a_class_wins() {
    let table = TableModel {
        header_cells: header(&[
            "Exam Dates/Times",
            "8:00 a.m.\u{2013}10:00 a.m.",
        ]),
        rows: vec![
            row(vec![cell(&["Mon. Dec 11."]), cell(&["CSC101"])]),
            row(vec![cell(&["Tue. Dec 12."]), cell(&["CSC101"])]),
        ],
    };
    let cal = Calendar::try_from(2023, &table).unwrap();
    assert_eq!(cal.len(), 1);
    let assignment = cal.get(&Class::Name(String::from("CSC101"))).unwrap();
    assert_eq!(
        assignment.date,
        ExamDate {
            year: 2023,
            month: 12,
            day: 12,
        }
    );
}

#[test]
fn multiple_parts_in_one_cell_all_count() {
    let table = TableModel {
        header_cells: header(&[
            "Exam Dates/Times",
            "8:00 a.m.\u{2013}10:00 a.m.",
        ]),
        rows: vec![row(vec![
            cell(&["Mon. Dec 11."]),
            cell(&["CSC101", "9:00 a.m. MWF"]),
        ])],
    };
    let cal = Calendar::try_from(2023, &table).unwrap();
    assert_eq!(cal.len(), 2);
    assert!(cal.get(&Class::Name(String::from("CSC101"))).is_some());
    assert!(cal
        .get(&Class::Time(
            vec![Weekday::Monday, Weekday::Wednesday, Weekday::Friday],
            t(9, 0)
        ))
        .is_some());
}

#[test]
fn full_month_name_in_date_cell() {
    let mut table = fall_2023_table();
    table.rows[0].cells[0] = cell(&["Mon. December 11."]);
    let cal = Calendar::try_from(2023, &table).unwrap();
    assert_eq!(cal.len(), 1);
}
