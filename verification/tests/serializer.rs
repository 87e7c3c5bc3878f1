use ronix::{format_module, format_nix_float, NixSerializer};

fn top() -> NixSerializer {
    NixSerializer { indent: 0 }
}

#[test]
fn serialize_bool() {
    assert_eq!(top().serialize_bool(true).unwrap(), "true");
    assert_eq!(top().serialize_bool(false).unwrap(), "false");
}

#[test]
fn serialize_integers() {
    assert_eq!(top().serialize_u32(42u32).unwrap(), "42");
    assert_eq!(top().serialize_i32(-7i32).unwrap(), "-7");
    assert_eq!(top().serialize_u64(0u64).unwrap(), "0");
    assert_eq!(top().serialize_u8(255u8).unwrap(), "255");
}

#[test]
fn serialize_floats() {
    assert_eq!(format_nix_float(&format!("{}", 2.5f64)), "2.5");
    assert_eq!(format_nix_float(&format!("{}", 1.0f64)), "1.0");
    assert_eq!(format_nix_float(&format!("{}", 0.0f64)), "0.0");
}

#[test]
fn serialize_string() {
    assert_eq!(top().serialize_str("hello").unwrap(), "\"hello\"");
    assert_eq!(
        top().serialize_str("with \"quotes\"").unwrap(),
        "\"with \\\"quotes\\\"\""
    );
    assert_eq!(top().serialize_str("back\\slash").unwrap(), "\"back\\\\slash\"");
}

#[test]
fn serialize_nix_interpolation_escaped() {
    assert_eq!(top().serialize_str("${foo}").unwrap(), "\"\\${foo}\"");
}

#[test]
fn serialize_vec() {
    let mut seq = top().serialize_seq(Some(3)).unwrap();
    for v in [1u32, 2, 3] {
        let item = seq.element_serializer().serialize_u32(v).unwrap();
        seq.serialize_element(item).unwrap();
    }
    let nix = seq.end().unwrap();
    assert!(nix.contains("1"));
    assert!(nix.contains("2"));
    assert!(nix.contains("3"));
    assert!(nix.starts_with("[\n"));
}

#[test]
fn serialize_empty_vec() {
    let seq = top().serialize_seq(Some(0)).unwrap();
    assert_eq!(seq.end().unwrap(), "[ ]");
}

#[test]
fn serialize_struct() {
    let mut s = top().serialize_struct("Simple", 2).unwrap();
    let name = s.field_serializer().serialize_str("test").unwrap();
    s.serialize_field("name", name).unwrap();
    let value = s.field_serializer().serialize_u32(42).unwrap();
    s.serialize_field("value", value).unwrap();
    let nix = s.end().unwrap();
    assert!(nix.contains("name = \"test\";"));
    assert!(nix.contains("value = 42;"));
    assert!(nix.starts_with("{\n"));
    assert!(nix.ends_with("}"));
}

#[test]
fn serialize_nested_struct() {
    let mut outer = top().serialize_struct("Outer", 2).unwrap();
    let mut inner = outer.field_serializer().serialize_struct("Inner", 1).unwrap();
    let x = inner.field_serializer().serialize_u32(10).unwrap();
    inner.serialize_field("x", x).unwrap();
    let inner_text = inner.end().unwrap();
    outer.serialize_field("inner", inner_text).unwrap();
    let flag = outer.field_serializer().serialize_bool(true).unwrap();
    outer.serialize_field("flag", flag).unwrap();
    let nix = outer.end().unwrap();
    assert!(nix.contains("inner = {"));
    assert!(nix.contains("x = 10;"));
    assert!(nix.contains("flag = true;"));
}

#[test]
fn serialize_struct_with_vec() {
    let mut fan = top().serialize_struct("Fan", 2).unwrap();
    let name = fan.field_serializer().serialize_str("cpu_cooler").unwrap();
    fan.serialize_field("name", name).unwrap();
    let mut curve = fan.field_serializer().serialize_seq(Some(2)).unwrap();
    for (temp, pwm) in [(40u32, 20u8), (80, 200)] {
        let mut point = curve.element_serializer().serialize_struct("Point", 2).unwrap();
        let t = point.field_serializer().serialize_u32(temp).unwrap();
        point.serialize_field("temp", t).unwrap();
        let p = point.field_serializer().serialize_u8(pwm).unwrap();
        point.serialize_field("pwm", p).unwrap();
        let text = point.end().unwrap();
        curve.serialize_element(text).unwrap();
    }
    let curve_text = curve.end().unwrap();
    fan.serialize_field("curve", curve_text).unwrap();
    let nix = fan.end().unwrap();
    assert!(nix.contains("name = \"cpu_cooler\";"));
    assert!(nix.contains("curve = ["));
    assert!(nix.contains("temp = 40;"));
    assert!(nix.contains("pwm = 200;"));
}

#[test]
fn serialize_option_some() {
    let mut s = top().serialize_struct("Opt", 2).unwrap();
    // `Some(5)` renders as its inner value.
    let a = s.field_serializer().serialize_u32(5).unwrap();
    s.serialize_field("a", a).unwrap();
    let b = s.field_serializer().serialize_none().unwrap();
    s.serialize_field("b", b).unwrap();
    let nix = s.end().unwrap();
    assert!(nix.contains("a = 5;"));
    // None fields should be omitted
    assert!(!nix.contains("b ="));
}

#[test]
fn to_nix_module_wraps_correctly() {
    let mut s = NixSerializer { indent: 1 }.serialize_struct("Cfg", 1).unwrap();
    let poll = s.field_serializer().serialize_u64(2000).unwrap();
    s.serialize_field("poll_ms", poll).unwrap();
    let inner = s.end().unwrap();
    let nix = format_module(&inner, "services.myapp.settings");
    assert!(nix.starts_with("_: {\n"));
    assert!(nix.contains("services.myapp.settings ="));
    assert!(nix.contains("poll_ms = 2000;"));
    assert!(nix.ends_with("}\n"));
}

#[test]
fn serialize_vec_of_strings() {
    let mut seq = top().serialize_seq(Some(2)).unwrap();
    for v in ["cpu", "gpu"] {
        let item = seq.element_serializer().serialize_str(v).unwrap();
        seq.serialize_element(item).unwrap();
    }
    let nix = seq.end().unwrap();
    assert!(nix.contains("\"cpu\""));
    assert!(nix.contains("\"gpu\""));
}

#[test]
fn serialize_empty_struct() {
    let s = top().serialize_struct("Empty", 0).unwrap();
    assert_eq!(s.end().unwrap(), "{ }");
}
