//! Tests of the pretty-printer: scalars, strings, tables, userdata, key
//! order, depth and width limits, cycles and wrapping.
use shingetsu::pretty::{
    pretty_print, PrettyHeap, PrettyPrintConfig, PrettyTable, PrettyUserdata, PrettyValue,
    UserdataShape,
};

fn heap(tables: Vec<PrettyTable>) -> PrettyHeap {
    PrettyHeap { tables, userdata: Vec::new() }
}

fn render(value: &PrettyValue, h: &PrettyHeap) -> String {
    String::from_utf8(pretty_print(value, &PrettyPrintConfig::default(), h)).unwrap()
}

fn pp(value: &PrettyValue) -> String {
    render(value, &heap(Vec::new()))
}

fn s(t: &str) -> PrettyValue {
    PrettyValue::Str(t.as_bytes().to_vec())
}

fn table(addr: usize, is_array: bool, entries: Vec<(PrettyValue, PrettyValue)>) -> PrettyTable {
    PrettyTable { addr, is_array, entries }
}

/// The caller's rendering of a float: whole finite floats get `.0`.
fn float_value(f: f64) -> PrettyValue {
    let text = if f.is_nan() {
        "nan".to_string()
    } else if f.fract() == 0.0 && f.is_finite() {
        format!("{f:.1}")
    } else {
        format!("{f}")
    };
    PrettyValue::Float(text.into_bytes())
}

#[test]
fn nil_and_booleans() {
    assert_eq!(pp(&PrettyValue::Nil), "nil");
    assert_eq!(pp(&PrettyValue::Boolean(true)), "true");
    assert_eq!(pp(&PrettyValue::Boolean(false)), "false");
}

#[test]
fn integers() {
    assert_eq!(pp(&PrettyValue::Integer(0)), "0");
    assert_eq!(pp(&PrettyValue::Integer(-42)), "-42");
    assert_eq!(pp(&PrettyValue::Integer(1_000_000)), "1000000");
}

#[test]
fn floats() {
    assert_eq!(pp(&float_value(1.0)), "1.0");
    assert_eq!(pp(&float_value(1.42)), "1.42");
    assert_eq!(pp(&float_value(f64::NAN)), "nan");
}

#[test]
fn strings_simple() {
    assert_eq!(pp(&s("hello")), r#""hello""#);
}

#[test]
fn strings_escape() {
    assert_eq!(pp(&s("a\"b\\c\nd")), r#""a\"b\\c\nd""#);
}

#[test]
fn strings_invalid_utf8_hex_escape() {
    let v = PrettyValue::Str(vec![0xa0u8, b'h', b'e', b'l', b'l', b'o']);
    assert_eq!(pp(&v), r#""\xa0hello""#);
}

#[test]
fn strings_control_chars() {
    assert_eq!(pp(&s("\t")), r#""\t""#);
    assert_eq!(pp(&s("\x01")), r#""\u{1}""#);
    assert_eq!(pp(&s("\x7f")), r#""\u{7f}""#);
}

#[test]
fn strings_valid_multibyte_utf8() {
    assert_eq!(pp(&s("caf\u{e9}")), "\"caf\u{e9}\"");
}

#[test]
fn empty_table() {
    let h = heap(vec![table(1, false, Vec::new())]);
    assert_eq!(render(&PrettyValue::Table(0), &h), "{}");
}

#[test]
fn array_table() {
    let entries = vec![
        (PrettyValue::Integer(1), PrettyValue::Integer(10)),
        (PrettyValue::Integer(2), PrettyValue::Integer(20)),
        (PrettyValue::Integer(3), PrettyValue::Integer(30)),
    ];
    let h = heap(vec![table(1, true, entries)]);
    assert_eq!(render(&PrettyValue::Table(0), &h), "{ 10, 20, 30 }");
}

#[test]
fn hash_table() {
    let h = heap(vec![table(1, false, vec![(s("x"), PrettyValue::Integer(1))])]);
    assert_eq!(render(&PrettyValue::Table(0), &h), r#"{ x = 1 }"#);
}

#[test]
fn non_identifier_key() {
    let h = heap(vec![table(1, false, vec![(s("hello world"), PrettyValue::Integer(1))])]);
    assert_eq!(render(&PrettyValue::Table(0), &h), r#"{ ["hello world"] = 1 }"#);
}

#[test]
fn nested_table() {
    let inner = table(1, false, vec![(s("a"), PrettyValue::Integer(1))]);
    let outer = table(2, false, vec![(s("inner"), PrettyValue::Table(0))]);
    let h = heap(vec![inner, outer]);
    assert_eq!(render(&PrettyValue::Table(1), &h), r#"{ inner = { a = 1 } }"#);
}

#[test]
fn depth_cap() {
    let mut tables = vec![table(100, false, Vec::new())];
    for k in 1..=5usize {
        tables.push(table(100 + k, false, vec![(s("n"), PrettyValue::Table(k - 1))]));
    }
    let h = heap(tables);
    let out = render(&PrettyValue::Table(5), &h);
    assert!(out.contains("{...}"), "expected depth cap marker, got: {out}");
    assert_eq!(out, "{ n = { n = { n = { n = {...} } } } }");
}

#[test]
fn truncation() {
    let entries: Vec<(PrettyValue, PrettyValue)> = (1..=40i64)
        .map(|i| (PrettyValue::Integer(i), PrettyValue::Integer(i)))
        .collect();
    let h = heap(vec![table(1, true, entries)]);
    let out = render(&PrettyValue::Table(0), &h);
    let last_two = out.lines().rev().take(2).collect::<Vec<_>>();
    assert_eq!(last_two, vec!["}", "  …"]);
    assert_eq!(out.lines().count(), 35);
}

#[test]
fn cycle_detection() {
    let h = heap(vec![table(7, false, vec![(s("self"), PrettyValue::Table(0))])]);
    let out = render(&PrettyValue::Table(0), &h);
    assert!(out.contains("<cycle>"), "expected cycle marker, got: {out}");
    assert_eq!(out, "{ self = <cycle> }");
}

#[test]
fn keys_sort_by_kind_then_value() {
    let entries = vec![
        (s("b"), PrettyValue::Integer(1)),
        (PrettyValue::Boolean(true), PrettyValue::Integer(2)),
        (PrettyValue::Integer(10), PrettyValue::Integer(3)),
        (s("a"), PrettyValue::Integer(4)),
        (PrettyValue::Integer(-1), PrettyValue::Integer(5)),
    ];
    let h = heap(vec![table(1, false, entries)]);
    assert_eq!(
        render(&PrettyValue::Table(0), &h),
        "{ [-1] = 5, [10] = 3, a = 4, b = 1, [true] = 2 }"
    );
    let unsorted = PrettyPrintConfig { sort_keys: false, ..PrettyPrintConfig::default() };
    let entries = vec![(s("b"), PrettyValue::Integer(1)), (s("a"), PrettyValue::Integer(2))];
    let h = heap(vec![table(1, false, entries)]);
    let out = String::from_utf8(pretty_print(&PrettyValue::Table(0), &unsorted, &h)).unwrap();
    assert_eq!(out, "{ b = 1, a = 2 }");
}

#[test]
fn wrapping_and_reindenting() {
    let long = "x".repeat(50);
    let inner = table(1, false, vec![(s("text"), s(&long)), (s("k"), PrettyValue::Integer(2))]);
    let outer = table(2, false, vec![(s("inner"), PrettyValue::Table(0))]);
    let h = heap(vec![inner, outer]);
    let expected = format!("{{\n  inner = {{\n    k = 2,\n    text = \"{long}\",\n  }},\n}}");
    assert_eq!(render(&PrettyValue::Table(1), &h), expected);
}

#[test]
fn functions_and_userdata() {
    assert_eq!(pp(&PrettyValue::Function(0x1f)), "function: 0x1f");
    let h = PrettyHeap {
        tables: Vec::new(),
        userdata: vec![
            PrettyUserdata { addr: 0xab, label: b"File".to_vec(), shape: UserdataShape::Opaque },
            PrettyUserdata {
                addr: 0xac,
                label: b"Snap".to_vec(),
                shape: UserdataShape::Failed(b"closed".to_vec()),
            },
            PrettyUserdata {
                addr: 0xad,
                label: b"Rec".to_vec(),
                shape: UserdataShape::Pairs(vec![
                    Ok((s("z"), PrettyValue::Integer(1))),
                    Ok((s("y"), PrettyValue::Userdata(2))),
                ]),
            },
            PrettyUserdata {
                addr: 0xae,
                label: b"List".to_vec(),
                shape: UserdataShape::Items(vec![Ok(PrettyValue::Integer(1)), Err(b"boom".to_vec())]),
            },
        ],
    };
    let r = |i: usize| render(&PrettyValue::Userdata(i), &h);
    assert_eq!(r(0), "File: 0xab");
    assert_eq!(r(1), "<error rendering Snap: closed>");
    assert_eq!(r(2), "Rec { y = <cycle>, z = 1 }");
    assert_eq!(r(3), "List <error rendering entries: boom>");
}

#[test]
fn small_limits() {
    let entries = vec![
        (PrettyValue::Integer(1), PrettyValue::Integer(1)),
        (PrettyValue::Integer(2), PrettyValue::Integer(2)),
        (PrettyValue::Integer(3), PrettyValue::Integer(3)),
    ];
    let h = heap(vec![table(1, true, entries)]);
    let two = PrettyPrintConfig { max_entries: 2, ..PrettyPrintConfig::default() };
    let out = String::from_utf8(pretty_print(&PrettyValue::Table(0), &two, &h)).unwrap();
    assert_eq!(out, "{ 1, 2, … }");
    let flat = PrettyPrintConfig { max_depth: 0, ..PrettyPrintConfig::default() };
    let out = String::from_utf8(pretty_print(&PrettyValue::Table(0), &flat, &h)).unwrap();
    assert_eq!(out, "{...}");
    let narrow = PrettyPrintConfig { wrap_width: 5, indent: 1, ..PrettyPrintConfig::default() };
    let out = String::from_utf8(pretty_print(&PrettyValue::Table(0), &narrow, &h)).unwrap();
    assert_eq!(out, "{\n 1,\n 2,\n 3,\n}");
}

#[test]
fn sorted_rendering_ignores_insertion_order() {
    let e1 = vec![
        (s("b"), PrettyValue::Integer(2)),
        (PrettyValue::Integer(1), s("one")),
        (s("a"), PrettyValue::Integer(1)),
    ];
    let e2 = vec![
        (s("a"), PrettyValue::Integer(1)),
        (s("b"), PrettyValue::Integer(2)),
        (PrettyValue::Integer(1), s("one")),
    ];
    let h = heap(vec![table(0x10, false, e1), table(0x20, false, e2)]);
    let first = render(&PrettyValue::Table(0), &h);
    let second = render(&PrettyValue::Table(1), &h);
    assert_eq!(first, second);
    assert!(first.find("one").unwrap() < first.find("a =").unwrap());
}
