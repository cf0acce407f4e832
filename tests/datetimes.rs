use toml_datetime::{Date, Datetime, Offset, Time};
use toml_edit::datetime::date_time;
use toml_edit::{parse_value, ErrorKind, Value};

fn parse_dt(input: &str) -> Result<(usize, Datetime), toml_edit::errors::PErr> {
    let cs: Vec<char> = input.chars().collect();
    date_time(&cs, 0)
}

fn whole(input: &str) -> Datetime {
    let (end, dt) = parse_dt(input).unwrap();
    assert_eq!(end, input.chars().count());
    dt
}

#[test]
fn offset_date_time() {
    let inputs = [
        "1979-05-27T07:32:00Z",
        "1979-05-27T00:32:00-07:00",
        "1979-05-27T00:32:00.999999-07:00",
    ];
    for input in inputs {
        parse_dt(input).unwrap();
    }
}

#[test]
fn local_date_time() {
    let inputs = ["1979-05-27T07:32:00", "1979-05-27T00:32:00.999999"];
    for input in inputs {
        parse_dt(input).unwrap();
    }
}

#[test]
fn local_date() {
    let inputs = ["1979-05-27", "2017-07-20"];
    for input in inputs {
        parse_dt(input).unwrap();
    }
}

#[test]
fn local_time() {
    let inputs = ["07:32:00", "00:32:00.999999"];
    for input in inputs {
        parse_dt(input).unwrap();
    }
}

#[test]
fn time_fraction_truncated() {
    let input = "1987-07-05T17:45:00.123456789012345Z";
    parse_dt(input).unwrap();
}

#[test]
fn fraction_is_cut_off_not_rounded() {
    let dt = whole("1987-07-05T17:45:00.123456789012345Z");
    assert_eq!(dt.time.unwrap().nanosecond, 123_456_789);
    let dt = whole("1987-07-05T17:45:00.9999999999Z");
    assert_eq!(dt.time.unwrap().nanosecond, 999_999_999);
    let dt = whole("00:32:00.999999");
    assert_eq!(dt.time.unwrap().nanosecond, 999_999_000);
    let dt = whole("00:32:00.5");
    assert_eq!(dt.time.unwrap().nanosecond, 500_000_000);
}

#[test]
fn each_variant_has_its_fields() {
    let dt = whole("1979-05-27T07:32:00Z");
    assert_eq!(dt.date, Some(Date { year: 1979, month: 5, day: 27 }));
    assert_eq!(dt.time, Some(Time { hour: 7, minute: 32, second: 0, nanosecond: 0 }));
    assert_eq!(dt.offset, Some(Offset::Z));

    let dt = whole("1979-05-27T00:32:00");
    assert_eq!(dt.date, Some(Date { year: 1979, month: 5, day: 27 }));
    assert_eq!(dt.time, Some(Time { hour: 0, minute: 32, second: 0, nanosecond: 0 }));
    assert_eq!(dt.offset, None);

    let dt = whole("1979-05-27");
    assert_eq!(dt.date, Some(Date { year: 1979, month: 5, day: 27 }));
    assert_eq!(dt.time, None);
    assert_eq!(dt.offset, None);

    let dt = whole("07:32:00");
    assert_eq!(dt.date, None);
    assert_eq!(dt.time, Some(Time { hour: 7, minute: 32, second: 0, nanosecond: 0 }));
    assert_eq!(dt.offset, None);
}

#[test]
fn offsets_and_delimiters() {
    let dt = whole("1979-05-27T00:32:00-07:00");
    assert_eq!(dt.offset, Some(Offset::Custom { minutes: -420 }));
    let dt = whole("1979-05-27 00:32:00+05:30");
    assert_eq!(dt.offset, Some(Offset::Custom { minutes: 330 }));
    let dt = whole("1979-05-27t00:32:60z");
    assert_eq!(dt.offset, Some(Offset::Z));
    assert_eq!(dt.time.unwrap().second, 60);
}

#[test]
fn fields_out_of_range() {
    for input in ["1979-13-27", "1979-00-27", "1979-05-32", "1979-05-27T07:60:00", "07:32:61"] {
        let e = parse_dt(input).unwrap_err();
        assert!(matches!(e.kind, ErrorKind::OutOfRange), "{input}");
    }
    // the calendar is not checked: the thirtieth of February passes
    let dt = whole("2021-02-30");
    assert_eq!(dt.date.unwrap().day, 30);
}

#[test]
fn bad_time_after_date_leaves_the_date() {
    let (end, dt) = parse_dt("1979-05-27T25:00:00").unwrap();
    assert_eq!(end, 10);
    assert_eq!(dt.time, None);
}

#[test]
fn datetime_values() {
    for input in [
        "1979-05-27T00:32:00.999999-07:00",
        "1979-05-27T00:32:00.999999Z",
        "1979-05-27T00:32:00.999999",
        "1979-05-27T00:32:00",
        "1979-05-27",
        "00:32:00",
    ] {
        let v = parse_value(input).unwrap();
        assert!(matches!(v, Value::Datetime { .. }), "{input}");
        assert_eq!(v.to_toml_string(), input);
    }
}

#[test]
fn separators_are_named_when_missing() {
    let e = parse_dt("1979-05x27").unwrap_err();
    match e.kind {
        ErrorKind::Grammar { expected, .. } => assert_eq!(expected, vec!['-']),
        other => panic!("{other:?}"),
    }
    assert!(e.cut);
    let e = parse_dt("07:32-00").unwrap_err();
    match e.kind {
        ErrorKind::Grammar { expected, .. } => assert_eq!(expected, vec![':']),
        other => panic!("{other:?}"),
    }
}
