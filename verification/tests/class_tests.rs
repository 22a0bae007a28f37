use ncsu_exam_lib::class::Class;
use ncsu_exam_lib::errors::CalendarError;
use ncsu_exam_lib::timeofday::ExamSlot;
use ncsu_exam_lib::timeofday::TimeOfDay;
use ncsu_exam_lib::weekday::Weekday;

fn t(hour: u8, minute: u8) -> TimeOfDay {
    TimeOfDay {
        hour,
        minute,
        second: 0,
    }
}

#[test]
fn empty_cell_names_nothing() {
    assert_eq!(Class::factory("").unwrap(), vec![]);
    assert_eq!(Class::factory("   ").unwrap(), vec![]);
}

#[test]
fn common_sentinel_names_nothing() {
    assert_eq!(Class::factory("Common:").unwrap(), vec![]);
    assert_eq!(Class::factory("  Common:  ").unwrap(), vec![]);
}

#[test]
fn recurring_class() {
    let classes = Class::factory("9:00 a.m. MWF").unwrap();
    assert_eq!(
        classes,
        vec![Class::Time(
            vec![Weekday::Monday, Weekday::Wednesday, Weekday::Friday],
            t(9, 0)
        )]
    );
}

#[test]
fn recurring_afternoon_class() {
    let classes = Class::factory("2:30 p.m. TuTh").unwrap();
    assert_eq!(
        classes,
        vec![Class::Time(
            vec![Weekday::Tuesday, Weekday::Thursday],
            t(14, 30)
        )]
    );
}

#[test]
fn recurring_days_come_out_ascending_and_deduplicated() {
    let classes = Class::factory("9:00 a.m. WMM").unwrap();
    assert_eq!(
        classes,
        vec![Class::Time(vec![Weekday::Monday, Weekday::Wednesday], t(9, 0))]
    );
}

#[test]
fn identical_weekday_groups_yield_one_class() {
    let classes = Class::factory("9:00 a.m. MWF or WMF").unwrap();
    assert_eq!(
        classes,
        vec![Class::Time(
            vec![Weekday::Monday, Weekday::Wednesday, Weekday::Friday],
            t(9, 0)
        )]
    );
}

#[test]
fn distinct_weekday_groups_each_yield_a_class() {
    let classes = Class::factory("9:00 a.m. MWF or TuTh").unwrap();
    assert_eq!(
        classes,
        vec![
            Class::Time(
                vec![Weekday::Monday, Weekday::Wednesday, Weekday::Friday],
                t(9, 0)
            ),
            Class::Time(vec![Weekday::Tuesday, Weekday::Thursday], t(9, 0)),
        ]
    );
}

#[test]
fn range_via_dash() {
    let classes = Class::factory("8:00 a.m. - 10:00 a.m.").unwrap();
    assert_eq!(
        classes,
        vec![Class::Range(ExamSlot {
            start: t(8, 0),
            end: t(10, 0),
        })]
    );
}

#[test]
fn range_via_en_dash() {
    let classes = Class::factory("8:00 a.m. \u{2013} 10:00 a.m.").unwrap();
    assert_eq!(
        classes,
        vec![Class::Range(ExamSlot {
            start: t(8, 0),
            end: t(10, 0),
        })]
    );
}

#[test]
fn range_via_and_later() {
    let classes = Class::factory("6:00 p.m. and later").unwrap();
    assert_eq!(
        classes,
        vec![Class::Range(ExamSlot {
            start: t(18, 0),
            end: t(23, 59),
        })]
    );
}

#[test]
fn range_via_and_two_times() {
    let classes = Class::factory("6:00 p.m. and 8:00 p.m.").unwrap();
    assert_eq!(
        classes,
        vec![Class::Range(ExamSlot {
            start: t(18, 0),
            end: t(20, 0),
        })]
    );
}

#[test]
fn named_classes_split_on_commas() {
    let classes = Class::factory("CSC101, CSC102").unwrap();
    assert_eq!(
        classes,
        vec![
            Class::Name(String::from("CSC101")),
            Class::Name(String::from("CSC102"))
        ]
    );
}

#[test]
fn named_classes_drop_empty_pieces() {
    let classes = Class::factory("CSC101, , CSC102,").unwrap();
    assert_eq!(
        classes,
        vec![
            Class::Name(String::from("CSC101")),
            Class::Name(String::from("CSC102"))
        ]
    );
}

#[test]
fn malformed_time_in_range_is_an_error() {
    assert_eq!(
        Class::factory("8:61 a.m. - 10:00 a.m."),
        Err(CalendarError::InvalidTimeLiteral)
    );
}

#[test]
fn malformed_hour_in_recurring_is_an_error() {
    assert_eq!(
        Class::factory("13:00 a.m. MWF"),
        Err(CalendarError::InvalidTimeLiteral)
    );
}

#[test]
fn twelve_hour_edges() {
    let midnight = Class::factory("12:00 a.m. - 12:30 p.m.").unwrap();
    assert_eq!(
        midnight,
        vec![Class::Range(ExamSlot {
            start: t(0, 0),
            end: t(12, 30),
        })]
    );
}

#[test]
fn weekday_codes_before_the_time_do_not_make_a_recurring_class() {
    let classes = Class::factory("MWF 9:00 a.m.").unwrap();
    assert_eq!(classes, vec![Class::Name(String::from("MWF 9:00 a.m."))]);
}
