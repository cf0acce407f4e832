use toml_edit::key_grammar::simple_key;
use toml_edit::{parse_key, ErrorKind, Key};

fn chars(s: &str) -> Vec<char> {
    s.chars().collect()
}

#[test]
fn keys() {
    let cases = [
        ("a", "a"),
        (r#""hello\n ""#, "hello\n "),
        (r#"'hello\n '"#, "hello\\n "),
    ];

    for (input, expected) in cases {
        let cs = chars(input);
        let parsed = simple_key(&cs, 0).map_err(|e| e.pos);
        let (end, key) = parsed.unwrap();
        let raw: String = cs[..end].iter().collect();
        assert_eq!((raw.as_str(), key.as_str()), (input, expected), "Parsing {input:?}");
    }
}

fn test_key(s: &str, expected: &str) {
    let key = s.parse::<Key>();
    assert!(key.is_ok(), "Failed with {:?}", key.err());
    assert_eq!(key.unwrap().get(), expected);
}

#[test]
fn test_key_from_str() {
    test_key("a", "a");
    test_key(r#"'hello key'"#, "hello key");
    test_key(
        r#""Jos\u00E9\U000A0000\n\t\r\f\b\"""#,
        "Jos\u{00E9}\u{A0000}\n\t\r\u{c}\u{8}\"",
    );
    test_key("\"\"", "");
    test_key("\"'hello key'bla\"", "'hello key'bla");
    test_key(
        "'C:\\Users\\appveyor\\AppData\\Local\\Temp\\1\\cargo-edit-test.YizxPxxElXn9'",
        "C:\\Users\\appveyor\\AppData\\Local\\Temp\\1\\cargo-edit-test.YizxPxxElXn9",
    );
}

#[test]
fn quoting_does_not_change_key_identity() {
    let lit = "'hello key'".parse::<Key>().unwrap();
    let basic = "\"hello key\"".parse::<Key>().unwrap();
    assert_eq!(lit.get(), "hello key");
    assert_eq!(basic.get(), "hello key");
    assert!(lit == basic);
    assert_eq!(lit.to_repr().as_raw(), "'hello key'");
    assert_eq!(basic.to_repr().as_raw(), "\"hello key\"");
    let mut lit = lit;
    let mut basic = basic;
    lit.fmt();
    basic.fmt();
    assert_eq!(lit.to_repr().as_raw(), "'hello key'");
    assert_eq!(basic.to_repr().as_raw(), "'hello key'");
}

#[test]
fn canonical_repr() {
    assert_eq!(Key::new("abc-_9").to_repr().as_raw(), "abc-_9");
    assert_eq!(Key::new("a b").to_repr().as_raw(), "'a b'");
    assert_eq!(Key::new("").to_repr().as_raw(), "''");
    assert_eq!(Key::new("é").to_repr().as_raw(), "'é'");
}

#[test]
fn key_fmt_clears_decor() {
    let mut keys = Key::parse(" a . 'b c' ").unwrap();
    assert_eq!(keys.len(), 2);
    assert_eq!(keys[0].decor().prefix(), " ");
    assert_eq!(keys[0].decor().suffix(), " ");
    assert_eq!(keys[1].to_repr().as_raw(), "'b c'");
    keys[1].fmt();
    assert_eq!(keys[1].decor().prefix(), "");
    assert_eq!(keys[1].decor().suffix(), "");
    assert_eq!(keys[1].get(), "b c");
}

#[test]
fn key_mut_changes_decor_only() {
    let mut key = " x ".parse::<Key>();
    assert!(key.is_err());
    key = "x".parse::<Key>();
    let mut key = key.unwrap();
    {
        let mut m = key.as_mut();
        assert_eq!(m.get(), "x");
        m.decor_mut().set_prefix("  ".to_string());
        assert_eq!(m.decor().prefix(), "  ");
        assert_eq!(m.to_repr().as_raw(), "x");
    }
    assert_eq!(key.decor().prefix(), "  ");
    {
        let mut m = key.as_mut();
        m.fmt();
    }
    assert_eq!(key.decor().prefix(), "");
    assert_eq!(key.get(), "x");
}

#[test]
fn key_errors() {
    let e = parse_key("ab c").unwrap_err();
    assert!(matches!(e.kind, ErrorKind::Grammar { .. }));
    assert_eq!(e.offset, 2);
    let e = parse_key("\"é\"x").unwrap_err();
    assert_eq!(e.offset, 4);
    let e = parse_key("\"\\q\"").unwrap_err();
    assert!(matches!(e.kind, ErrorKind::Grammar { .. }));
    assert_eq!(e.offset, 1);
    assert!(parse_key("").is_err());
    assert!(parse_key("\"\\uD800\"").is_err());
}

#[test]
fn key_path_depth_bound() {
    let ok = vec!["a"; 127].join(".");
    assert_eq!(Key::parse(&ok).unwrap().len(), 127);
    let too_deep = vec!["a"; 128].join(".");
    let e = Key::parse(&too_deep).unwrap_err();
    assert!(matches!(e.kind, ErrorKind::RecursionLimitExceeded));
}

#[test]
fn key_path_stops_before_trailing_dot() {
    let e = Key::parse("a.").unwrap_err();
    assert!(matches!(e.kind, ErrorKind::Grammar { .. }));
    assert_eq!(e.offset, 1);
}

#[test]
fn keys_order_by_decoded_string() {
    assert!(Key::new("a") < Key::new("b"));
    assert!(Key::new("a") < Key::new("ab"));
    assert!(Key::new("ab") < Key::new("b"));
    assert!(Key::new("z") < Key::new("é"));
    let quoted = "'b'".parse::<Key>().unwrap();
    assert_eq!(quoted.partial_cmp(&Key::new("b")), Some(std::cmp::Ordering::Equal));
    assert!(quoted == Key::new("b"));
    assert!(Key::new("") < Key::new("a"));
}

#[test]
fn keys_compare_with_strings() {
    let mut key = "'a b'".parse::<Key>().unwrap();
    assert!(key == *"a b");
    assert!(key == "a b".to_string());
    assert!(key != *"'a b'");
    let m = key.as_mut();
    assert!(m == *"a b");
    assert!(m == "a b".to_string());
    assert!(m != "x".to_string());
}
