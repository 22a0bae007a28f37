use ncsu_exam_lib::errors::CalendarError;
use ncsu_exam_lib::weekday::Weekday;

#[test]
fn factory_mwf() {
    let runs = Weekday::factory("MWF").unwrap();
    assert_eq!(
        runs,
        vec![vec![Weekday::Monday, Weekday::Wednesday, Weekday::Friday]]
    );
}

#[test]
fn factory_tuth() {
    let runs = Weekday::factory("TuTh").unwrap();
    assert_eq!(runs, vec![vec![Weekday::Tuesday, Weekday::Thursday]]);
}

#[test]
fn factory_all_five() {
    let runs = Weekday::factory("MTuWThF").unwrap();
    assert_eq!(
        runs,
        vec![vec![
            Weekday::Monday,
            Weekday::Tuesday,
            Weekday::Wednesday,
            Weekday::Thursday,
            Weekday::Friday
        ]]
    );
}

#[test]
fn factory_finds_runs_inside_text() {
    let runs = Weekday::factory("9:00 a.m. MWF").unwrap();
    assert_eq!(
        runs,
        vec![vec![Weekday::Monday, Weekday::Wednesday, Weekday::Friday]]
    );
}

#[test]
fn factory_two_separate_runs() {
    let runs = Weekday::factory("MW and TuTh").unwrap();
    assert_eq!(
        runs,
        vec![
            vec![Weekday::Monday, Weekday::Wednesday],
            vec![Weekday::Tuesday, Weekday::Thursday]
        ]
    );
}

#[test]
fn factory_keeps_input_order() {
    let runs = Weekday::factory("WM").unwrap();
    assert_eq!(runs, vec![vec![Weekday::Wednesday, Weekday::Monday]]);
}

#[test]
fn factory_stops_where_no_code_starts() {
    let runs = Weekday::factory("Thu").unwrap();
    assert_eq!(runs, vec![vec![Weekday::Thursday]]);
}

#[test]
fn factory_no_runs() {
    let runs = Weekday::factory("nothing here").unwrap();
    assert!(runs.is_empty());
}

#[test]
fn new_bare_t_fails() {
    assert_eq!(Weekday::new("T"), Err(CalendarError::InvalidWeekdayCode));
}

#[test]
fn new_reads_each_code() {
    assert_eq!(Weekday::new("M"), Ok(Weekday::Monday));
    assert_eq!(Weekday::new("Tu"), Ok(Weekday::Tuesday));
    assert_eq!(Weekday::new("W"), Ok(Weekday::Wednesday));
    assert_eq!(Weekday::new("Th"), Ok(Weekday::Thursday));
    assert_eq!(Weekday::new("F"), Ok(Weekday::Friday));
    assert_eq!(Weekday::new("X"), Err(CalendarError::InvalidWeekdayCode));
}

#[test]
fn from_name_reads_full_names() {
    assert_eq!(Weekday::from_name("Monday"), Ok(Weekday::Monday));
    assert_eq!(Weekday::from_name("Friday"), Ok(Weekday::Friday));
    assert_eq!(
        Weekday::from_name("monday"),
        Err(CalendarError::UnknownWeekdayName)
    );
    assert_eq!(
        Weekday::from_name("Saturday"),
        Err(CalendarError::UnknownWeekdayName)
    );
}
