use ncsu_exam_lib::class::Class;
use ncsu_exam_lib::errors::CalendarError;
use ncsu_exam_lib::timeofday::ExamSlot;
use ncsu_exam_lib::timeofday::TimeOfDay;
use ncsu_exam_lib::weekday::Weekday;

fn t(hour: u8, minute: u8) -> TimeOfDay {
    TimeOfDay {
        hour,
        minute,
        second: 0,
    }
}

#[test]
fn encode_recurring() {
    let c = Class::Time(vec![Weekday::Monday, Weekday::Wednesday], t(9, 0));
    assert_eq!(c.encode(), "[Monday, Wednesday] 09:00:00");
}

#[test]
fn encode_single_day() {
    let c = Class::Time(vec![Weekday::Friday], t(13, 5));
    assert_eq!(c.encode(), "[Friday] 13:05:00");
}

#[test]
fn encode_range() {
    let c = Class::Range(ExamSlot {
        start: t(8, 0),
        end: t(10, 0),
    });
    assert_eq!(c.encode(), "08:00:00..10:00:00");
}

#[test]
fn encode_name_is_verbatim() {
    let c = Class::Name(String::from("CSC101"));
    assert_eq!(c.encode(), "CSC101");
}

#[test]
fn round_trip_recurring() {
    let c = Class::Time(
        vec![Weekday::Monday, Weekday::Wednesday, Weekday::Friday],
        t(9, 0),
    );
    assert_eq!(Class::decode(&c.encode()), Ok(c));
}

#[test]
fn round_trip_range() {
    let c = Class::Range(ExamSlot {
        start: t(18, 0),
        end: t(23, 59),
    });
    assert_eq!(Class::decode(&c.encode()), Ok(c));
}

#[test]
fn round_trip_name() {
    let c = Class::Name(String::from("CSC 216 (001)"));
    assert_eq!(Class::decode(&c.encode()), Ok(c));
}

#[test]
fn round_trip_every_factory_output() {
    for cell in [
        "9:00 a.m. MWF",
        "2:30 p.m. TuTh",
        "8:00 a.m. - 10:00 a.m.",
        "6:00 p.m. and later",
        "CSC101, CSC102",
    ] {
        for c in Class::factory(cell).unwrap() {
            assert_eq!(Class::decode(&c.encode()), Ok(c));
        }
    }
}

#[test]
fn decode_bad_weekday_segment() {
    assert_eq!(
        Class::decode("[Monday, Funday] 09:00:00"),
        Err(CalendarError::DecodeWeekdaySegment)
    );
}

#[test]
fn decode_bad_time_segment() {
    assert_eq!(
        Class::decode("[Monday] nonsense"),
        Err(CalendarError::DecodeTimeSegment)
    );
}

#[test]
fn decode_two_closing_brackets() {
    assert_eq!(
        Class::decode("[Monday] 09:00:00]"),
        Err(CalendarError::DecodeBracketShape)
    );
}

#[test]
fn decode_bad_range_start() {
    assert_eq!(
        Class::decode("soon..10:00:00"),
        Err(CalendarError::DecodeRangeStart)
    );
}

#[test]
fn decode_bad_range_end() {
    assert_eq!(
        Class::decode("09:00:00..late"),
        Err(CalendarError::DecodeRangeEnd)
    );
}

#[test]
fn decode_plain_text_is_a_name() {
    assert_eq!(
        Class::decode("CSC101"),
        Ok(Class::Name(String::from("CSC101")))
    );
}

#[test]
fn decode_several_dotdots_is_a_name() {
    assert_eq!(
        Class::decode("a..b..c"),
        Ok(Class::Name(String::from("a..b..c")))
    );
}
