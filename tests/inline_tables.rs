use toml_edit::{parse_value, ErrorKind, InlineTable, Value, ValueType};

fn table(input: &str) -> InlineTable {
    match parse_value(input) {
        Ok(Value::InlineTable(t)) => t,
        other => panic!("{input}: {:?}", other.err()),
    }
}

#[test]
fn inline_tables_round_trip() {
    let inputs = [
        r#"{}"#,
        r#"{   }"#,
        r#"{ hello = "world", a = 1}"#,
        r#"{ hello.world = "a" }"#,
        r#"{a={b={c='x'}},	d = true , e=false}"#,
        r#"{ "quoted key" = 'lit', 'x y'.z = -17 }"#,
        r#"{ when = 1979-05-27T00:32:00Z, t = 07:32:00 }"#,
        r#"{ s = "a.b", frac = 00:32:00.5 }"#,
        r#"{ a . b = 1 , a . c = 'x' }"#,
    ];
    for input in inputs {
        let v = parse_value(input).unwrap();
        assert_eq!(v.to_toml_string(), input);
    }
}

#[test]
fn invalid_inline_tables() {
    let invalid_inputs = [r#"{a = 1"#, r#"{ hello = "world", a = 2, hello = 1}"#, r#"{a = }"#, r#"{a = 1,}"#];
    for input in invalid_inputs {
        assert!(parse_value(input).is_err(), "{input}");
    }
}

#[test]
fn duplicate_keys_are_rejected() {
    let e = parse_value(r#"{ hello = "world", a = 2, hello = 1}"#).unwrap_err();
    match e.kind {
        ErrorKind::DuplicateKey { key } => assert_eq!(key, "hello"),
        other => panic!("{other:?}"),
    }
    assert!(parse_value(r#"{ hello = "world", a = 1}"#).is_ok());
    let e = parse_value(r#"{ 'a' = 1, "a" = 2 }"#).unwrap_err();
    assert!(matches!(e.kind, ErrorKind::DuplicateKey { .. }));
    let e = parse_value(r#"{ a.b = 1, a.b = 2 }"#).unwrap_err();
    assert!(matches!(e.kind, ErrorKind::DuplicateKey { .. }));
}

#[test]
fn dotted_path_through_a_value() {
    let e = parse_value(r#"{ a = 1, a.b = 2 }"#).unwrap_err();
    match e.kind {
        ErrorKind::ExtendWrongType { path, index, actual } => {
            assert_eq!(path, vec!["a".to_string()]);
            assert_eq!(index, 0);
            assert_eq!(actual, ValueType::Integer);
        }
        other => panic!("{other:?}"),
    }
}

#[test]
fn dotted_keys_share_one_table() {
    let t = table(r#"{ a.'b'.c = 1, a."b".d = 2 }"#);
    assert_eq!(t.len(), 1);
    let a = t.get_index(0);
    assert_eq!(a.key.get(), "a");
    match &a.value {
        Value::InlineTable(inner) => {
            assert!(inner.is_dotted());
            assert_eq!(inner.len(), 1);
            match &inner.get_index(0).value {
                Value::InlineTable(b) => assert_eq!(b.len(), 2),
                _ => panic!("b is not a table"),
            }
        }
        _ => panic!("a is not a table"),
    }
    // the first spelling of a segment is the one kept
    assert_eq!(
        Value::InlineTable(t).to_toml_string(),
        r#"{ a.'b'.c = 1, a.'b'.d = 2 }"#
    );
}

#[test]
fn empty_table_has_preamble() {
    let t = table("{   }");
    assert_eq!(t.len(), 0);
    assert_eq!(t.preamble(), "   ");
    assert!(!t.is_dotted());
}

#[test]
fn nesting_bound() {
    let nested = |n: usize| format!("{}1{}", "{a=".repeat(n), "}".repeat(n));
    let ok = nested(127);
    assert_eq!(parse_value(&ok).unwrap().to_toml_string(), ok);
    let e = parse_value(&nested(128)).unwrap_err();
    assert!(matches!(e.kind, ErrorKind::RecursionLimitExceeded));
}

#[test]
fn scalar_values() {
    match parse_value("-239").unwrap() {
        Value::Integer { value, .. } => assert_eq!(value, -239),
        _ => panic!("not an integer"),
    }
    match parse_value("-9223372036854775808").unwrap() {
        Value::Integer { value, .. } => assert_eq!(value, i64::MIN),
        _ => panic!("not an integer"),
    }
    let e = parse_value("9223372036854775808").unwrap_err();
    assert!(matches!(e.kind, ErrorKind::OutOfRange));
    assert!(parse_value("0123").is_err());
    match parse_value(r#""basic string\nJos\u00E9\n""#).unwrap() {
        Value::String { value, .. } => assert_eq!(value, "basic string\nJos\u{e9}\n"),
        _ => panic!("not a string"),
    }
    let wp = "C:\\Users\\appveyor\\AppData\\Local\\Temp\\1\\cargo-edit-test.YizxPxxElXn9";
    let lwp = "'C:\\Users\\appveyor\\AppData\\Local\\Temp\\1\\cargo-edit-test.YizxPxxElXn9'";
    match parse_value(lwp).unwrap() {
        Value::String { value, .. } => assert_eq!(value, wp),
        _ => panic!("not a string"),
    }
    assert!(matches!(parse_value("true").unwrap(), Value::Boolean { value: true, .. }));
    assert!(matches!(parse_value("false").unwrap(), Value::Boolean { value: false, .. }));
    assert!(parse_value("tru").is_err());
    assert!(parse_value(" 1").is_err());
}

#[test]
fn interleaved_dotted_keys_are_regrouped() {
    let v = parse_value(r#"{ a.b = 1, c = 2, a.d = 3 }"#).unwrap();
    assert_eq!(v.to_toml_string(), r#"{ a.b = 1, a.d = 3 , c = 2}"#);
}

fn expected_of(input: &str) -> Vec<char> {
    match parse_value(input).unwrap_err().kind {
        ErrorKind::Grammar { expected, .. } => expected,
        other => panic!("{input}: {other:?}"),
    }
}

#[test]
fn grammar_errors_name_what_was_expected() {
    assert_eq!(expected_of("{a 1}"), vec!['.', '=']);
    assert_eq!(expected_of("{a.b 1}"), vec!['.', '=']);
    assert_eq!(expected_of("{a = 1"), vec!['}']);
    assert_eq!(expected_of("{a = 1 2}"), vec!['}']);
    let e = parse_value("{a 1}").unwrap_err();
    assert_eq!(e.offset, 3);
}
