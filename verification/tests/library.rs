use ronix::{
    decimal_i64, decimal_u64, ensure_trailing_newline, escape_nix_string, format_attrset,
    format_module, format_nix_float, format_seq, indent_str, is_valid_ident, null_string,
    trim_quotes_str, Error, NixMapSerializer, NixSerializer,
};

#[test]
fn escape_every_special_character() {
    assert_eq!(escape_nix_string("a\\b\"c\nd\re\tf$g"), "\"a\\\\b\\\"c\\nd\\re\\tf\\$g\"");
    assert_eq!(escape_nix_string(""), "\"\"");
    assert_eq!(escape_nix_string("ünï"), "\"ünï\"");
}

#[test]
fn escaped_literal_has_no_interpolation() {
    let out = escape_nix_string("${a} $${b} $");
    assert_eq!(out, "\"\\${a} \\$\\${b} \\$\"");
    assert!(!out.replace("\\$", "").contains('$'));
}

#[test]
fn decimal_extremes() {
    assert_eq!(decimal_u64(u64::MAX), "18446744073709551615");
    assert_eq!(decimal_u64(10), "10");
    assert_eq!(decimal_i64(i64::MIN), "-9223372036854775808");
    assert_eq!(decimal_i64(i64::MAX), "9223372036854775807");
    assert_eq!(decimal_i64(-1), "-1");
    assert_eq!(decimal_i64(0), "0");
}

#[test]
fn decimal_reads_back() {
    for n in [0u64, 7, 42, 1000, 987654321] {
        assert_eq!(decimal_u64(n).parse::<u64>().unwrap(), n);
    }
    for n in [-5i64, -100, 3] {
        assert_eq!(decimal_i64(n).parse::<i64>().unwrap(), n);
    }
}

#[test]
fn small_integer_types() {
    let s = NixSerializer { indent: 0 };
    assert_eq!(s.serialize_i8(-128).unwrap(), "-128");
    let s = NixSerializer { indent: 0 };
    assert_eq!(s.serialize_i16(-300).unwrap(), "-300");
    let s = NixSerializer { indent: 0 };
    assert_eq!(s.serialize_u16(65535).unwrap(), "65535");
    let s = NixSerializer { indent: 0 };
    assert_eq!(s.serialize_i64(i64::MIN).unwrap(), "-9223372036854775808");
}

#[test]
fn float_text() {
    assert_eq!(format_nix_float("1"), "1.0");
    assert_eq!(format_nix_float("-3"), "-3.0");
    assert_eq!(format_nix_float("0.25"), "0.25");
    assert_eq!(format_nix_float("NaN"), "NaN.0");
}

#[test]
fn indentation() {
    assert_eq!(indent_str(0), "");
    assert_eq!(indent_str(3), "      ");
}

#[test]
fn identifiers() {
    assert!(is_valid_ident("poll_ms"));
    assert!(is_valid_ident("_x"));
    assert!(is_valid_ident("a-b'c9"));
    assert!(!is_valid_ident(""));
    assert!(!is_valid_ident("9lives"));
    assert!(!is_valid_ident("-x"));
    assert!(!is_valid_ident("my key"));
    assert!(!is_valid_ident("a.b"));
    assert!(!is_valid_ident("ünï"));
}

#[test]
fn trimming_quotes() {
    assert_eq!(trim_quotes_str("\"abc\""), "abc");
    assert_eq!(trim_quotes_str("\"\"\"a\"b\"\""), "a\"b");
    assert_eq!(trim_quotes_str("\"\""), "");
    assert_eq!(trim_quotes_str("plain"), "plain");
}

#[test]
fn map_keys_and_null_values() {
    let mut m = NixMapSerializer { entries: Vec::new(), current_key: None, indent: 0 };
    m.serialize_key(escape_nix_string("name")).unwrap();
    assert_eq!(m.current_key.as_deref(), Some("name"));
    m.serialize_value("1".to_string()).unwrap();
    assert!(m.current_key.is_none());
    m.serialize_key(escape_nix_string("with space")).unwrap();
    assert_eq!(m.current_key.as_deref(), Some("\"with space\""));
    m.serialize_value(null_string()).unwrap();
    m.serialize_key(escape_nix_string("9x")).unwrap();
    m.serialize_value("true".to_string()).unwrap();
    let text = m.end().unwrap();
    assert_eq!(text, "{\n  name = 1;\n  \"9x\" = true;\n}");
}

#[test]
fn attrset_and_list_layout() {
    let entries = vec![("a".to_string(), "1".to_string()), ("b".to_string(), "[ ]".to_string())];
    assert_eq!(format_attrset(entries, 1).unwrap(), "{\n    a = 1;\n    b = [ ];\n  }");
    assert_eq!(format_attrset(Vec::new(), 4).unwrap(), "{ }");
    let items = vec!["x".to_string(), "y".to_string()];
    assert_eq!(format_seq(items, 0).unwrap(), "[\n  x\n  y\n]");
    assert_eq!(format_seq(Vec::new(), 2).unwrap(), "[ ]");
}

#[test]
fn bytes_chars_and_variants() {
    let s = NixSerializer { indent: 0 };
    assert_eq!(s.serialize_bytes(&[1, 20, 255]).unwrap(), "[ 1 20 255 ]");
    let s = NixSerializer { indent: 0 };
    assert_eq!(s.serialize_bytes(&[]).unwrap(), "[  ]");
    let s = NixSerializer { indent: 0 };
    assert_eq!(s.serialize_char('"').unwrap(), "\"\\\"\"");
    let s = NixSerializer { indent: 0 };
    assert_eq!(s.serialize_unit_variant("Mode", 1, "Auto").unwrap(), "\"Auto\"");
    let s = NixSerializer { indent: 0 };
    assert_eq!(s.serialize_unit().unwrap(), "null");
    let s = NixSerializer { indent: 0 };
    assert_eq!(s.serialize_unit_struct("U").unwrap(), "null");
}

#[test]
fn tuples_and_variants_are_lists_and_sets() {
    let mut t = NixSerializer { indent: 0 }.serialize_tuple_variant("E", 0, "V", 2).unwrap();
    let a = t.element_serializer().serialize_u8(1).unwrap();
    t.serialize_field(a).unwrap();
    let b = t.element_serializer().serialize_str("b").unwrap();
    t.serialize_field(b).unwrap();
    assert_eq!(t.end().unwrap(), "[\n  1\n  \"b\"\n]");
    let mut sv = NixSerializer { indent: 0 }.serialize_struct_variant("E", 1, "W", 1).unwrap();
    let x = sv.field_serializer().serialize_bool(false).unwrap();
    sv.serialize_field("x", x).unwrap();
    assert_eq!(sv.end().unwrap(), "{\n  x = false;\n}");
    let tu = NixSerializer { indent: 2 }.serialize_tuple(0).unwrap();
    assert_eq!(tu.indent, 2);
    let ts = NixSerializer { indent: 0 }.serialize_tuple_struct("P", 0).unwrap();
    assert_eq!(ts.end().unwrap(), "[ ]");
}

#[test]
fn module_text_exact() {
    assert_eq!(format_module("{ }", "a.b"), "_: {\n  a.b = { };\n}\n");
}

#[test]
fn trailing_newline() {
    assert_eq!(ensure_trailing_newline("x".to_string()), "x\n");
    assert_eq!(ensure_trailing_newline("x\n".to_string()), "x\n");
    assert_eq!(ensure_trailing_newline(String::new()), "\n");
}

#[test]
fn custom_error_message() {
    let e = Error::Custom("boom".to_string());
    assert_eq!(e.message(), "boom");
    let io = Error::Io(std::io::Error::new(std::io::ErrorKind::Other, "disk"));
    assert!(io.message().starts_with("I/O error: "));
    assert!(io.message().contains("disk"));
}

fn render_config(level: usize) -> String {
    let mut s = NixSerializer { indent: level }.serialize_struct("Config", 3).unwrap();
    let name = s.field_serializer().serialize_str("a\nb").unwrap();
    s.serialize_field("name", name).unwrap();
    let mut list = s.field_serializer().serialize_seq(Some(2)).unwrap();
    for v in [1u32, 2] {
        let mut point = list.element_serializer().serialize_struct("P", 1).unwrap();
        let t = point.field_serializer().serialize_u32(v).unwrap();
        point.serialize_field("t", t).unwrap();
        let text = point.end().unwrap();
        list.serialize_element(text).unwrap();
    }
    let list_text = list.end().unwrap();
    s.serialize_field("curve", list_text).unwrap();
    s.end().unwrap()
}

#[test]
fn deeper_rendering_is_reindented() {
    let level0 = render_config(0);
    let level1 = render_config(1);
    assert_eq!(level1, level0.replace("\n", "\n  "));
    assert_eq!(
        format_module(&level1, "p"),
        format!("_: {{\n  p = {};\n}}\n", level0.replace("\n", "\n  "))
    );
}

#[test]
fn empty_collections_at_the_deepest_level() {
    assert_eq!(format_seq(Vec::new(), usize::MAX).unwrap(), "[ ]");
    assert_eq!(format_attrset(Vec::new(), usize::MAX).unwrap(), "{ }");
    let m = NixMapSerializer { entries: Vec::new(), current_key: None, indent: usize::MAX };
    assert_eq!(m.end().unwrap(), "{ }");
}
