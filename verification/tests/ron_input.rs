use ron::value::Number;
use ron::Value;
use ronix::{format_module, format_nix_float, parse_ron, Error, NixSerializer};

/// Walks a parsed RON value the way its `Serialize` impl drives a
/// serializer, and renders it with the library's serializer.
fn render(v: &Value, ser: NixSerializer) -> String {
    match v {
        Value::Bool(b) => ser.serialize_bool(*b).unwrap(),
        Value::Char(c) => ser.serialize_char(*c).unwrap(),
        Value::String(s) => ser.serialize_str(s).unwrap(),
        Value::Bytes(b) => ser.serialize_bytes(b).unwrap(),
        Value::Unit => ser.serialize_unit().unwrap(),
        Value::Option(None) => ser.serialize_none().unwrap(),
        Value::Option(Some(inner)) => render(inner, ser),
        Value::Number(n) => match n {
            Number::I8(x) => ser.serialize_i8(*x).unwrap(),
            Number::I16(x) => ser.serialize_i16(*x).unwrap(),
            Number::I32(x) => ser.serialize_i32(*x).unwrap(),
            Number::I64(x) => ser.serialize_i64(*x).unwrap(),
            Number::U8(x) => ser.serialize_u8(*x).unwrap(),
            Number::U16(x) => ser.serialize_u16(*x).unwrap(),
            Number::U32(x) => ser.serialize_u32(*x).unwrap(),
            Number::U64(x) => ser.serialize_u64(*x).unwrap(),
            Number::F32(x) => format_nix_float(&format!("{}", x.get() as f64)),
            Number::F64(x) => format_nix_float(&format!("{}", x.get())),
            _ => unreachable!(),
        },
        Value::Seq(items) => {
            let mut seq = ser.serialize_seq(Some(items.len())).unwrap();
            for item in items {
                let text = render(item, seq.element_serializer());
                seq.serialize_element(text).unwrap();
            }
            seq.end().unwrap()
        }
        Value::Map(m) => {
            let mut map = ser.serialize_map(Some(m.len())).unwrap();
            for (k, val) in m.iter() {
                let key = render(k, map.entry_serializer());
                map.serialize_key(key).unwrap();
                let text = render(val, map.entry_serializer());
                map.serialize_value(text).unwrap();
            }
            map.end().unwrap()
        }
    }
}

fn ron_text(input: &str) -> String {
    render(&parse_ron(input).unwrap(), NixSerializer { indent: 0 })
}

#[test]
fn ron_to_nix_struct() {
    let nix = ron_text(r#"(name: "hello", count: 42)"#);
    assert!(nix.contains(r#"name = "hello";"#));
    assert!(nix.contains("count = 42;"));
}

#[test]
fn ron_to_nix_list() {
    let nix = ron_text("[1, 2, 3]");
    assert!(nix.contains("1"));
    assert!(nix.contains("2"));
    assert!(nix.contains("3"));
}

#[test]
fn ron_to_nix_module_wraps() {
    let value = parse_ron(r#"(poll_ms: 2000)"#).unwrap();
    let inner = render(&value, NixSerializer { indent: 1 });
    let nix = format_module(&inner, "services.myapp.settings");
    assert!(nix.starts_with("_: {\n"));
    assert!(nix.contains("services.myapp.settings ="));
    assert!(nix.contains("poll_ms = 2000;"));
}

#[test]
fn ron_to_nix_invalid_input() {
    let result = parse_ron("this is not valid RON {{{{");
    assert!(result.is_err());
    let err = result.unwrap_err();
    assert!(matches!(err, Error::RonParse(_)));
    let err_msg = err.message();
    assert!(err_msg.contains("RON parse error"));
    assert!(err_msg.len() > "RON parse error: ".len());
}

#[test]
fn ron_parse_error_message_carries_ron_text() {
    let err = parse_ron("[1, 2").unwrap_err();
    let expected = match &err {
        Error::RonParse(e) => format!("RON parse error: {}", e),
        _ => unreachable!(),
    };
    assert_eq!(err.message(), expected);
}

#[test]
fn ron_map_with_non_identifier_keys_keeps_quotes() {
    let nix = ron_text(r#"{"my key": 1, "ok_key": 2}"#);
    assert!(nix.contains("\"my key\" = 1;"));
    assert!(nix.contains("  ok_key = 2;"));
}

#[test]
fn ron_option_none_field_is_omitted() {
    let nix = ron_text(r#"{"a": Some(1), "b": None}"#);
    assert!(nix.contains("a = 1;"));
    assert!(!nix.contains("b ="));
}

#[test]
fn ron_nested_list_exact_layout() {
    let nix = ron_text(r#"(xs: [1, 2])"#);
    assert_eq!(nix, "{\n  xs = [\n    1\n    2\n  ];\n}");
}

#[test]
fn ron_float_gets_decimal_point() {
    let nix = ron_text("(f: 3.0, g: 2.5)");
    assert!(nix.contains("f = 3.0;"));
    assert!(nix.contains("g = 2.5;"));
}

#[test]
fn parse_ron_gives_rons_own_value_and_error() {
    let text = r#"(a: [1, 2], b: "x")"#;
    let expected: Value = ron::from_str(text).unwrap();
    assert_eq!(parse_ron(text).unwrap(), expected);
    let bad = "[1, 2";
    let expected_err = ron::from_str::<Value>(bad).unwrap_err();
    match parse_ron(bad) {
        Err(Error::RonParse(e)) => {
            assert_eq!(e, expected_err);
            assert_eq!(format!("{}", e), format!("{}", expected_err));
        }
        _ => panic!("expected a RON parse error"),
    }
}
