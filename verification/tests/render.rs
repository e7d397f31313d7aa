use soledit::document::{Amf0Value, Amf3Value, Pair};
use soledit::render::{
    decimal_text, dump_amf3, dump_amf3_value, put_lead, show_value, signed_decimal_text, step_in,
    Amf0Obj, Piece,
};

fn pair0(key: &str, value: Amf0Value) -> Pair<Amf0Value> {
    Pair { key: key.to_string(), value }
}

fn pair3(key: &str, value: Amf3Value) -> Pair<Amf3Value> {
    Pair { key: key.to_string(), value }
}

fn print(pieces: &[Piece]) -> String {
    let mut out = String::new();
    for piece in pieces {
        match piece {
            Piece::Text(text) => out.push_str(text),
            Piece::Double(bits) => out.push_str(&format!("{}", f64::from_bits(*bits))),
        }
    }
    out
}

#[test]
fn decimals_have_no_leading_zeros() {
    assert_eq!(decimal_text(0), "0");
    assert_eq!(decimal_text(7), "7");
    assert_eq!(decimal_text(10), "10");
    assert_eq!(decimal_text(1234567890), "1234567890");
    assert_eq!(decimal_text(u64::MAX), "18446744073709551615");
    assert_eq!(signed_decimal_text(0), "0");
    assert_eq!(signed_decimal_text(-1), "-1");
    assert_eq!(signed_decimal_text(42), "42");
    assert_eq!(signed_decimal_text(i32::MAX), "2147483647");
    assert_eq!(signed_decimal_text(i32::MIN), "-2147483648");
}

#[test]
fn amf0_list_is_shown_line_by_line() {
    let pairs = vec![
        pair0("n", Amf0Value::Num(3.5f64.to_bits())),
        pair0("b", Amf0Value::Bool(true)),
        pair0("s", Amf0Value::String("text".to_string())),
    ];
    let pieces = pairs.display().pieces();
    assert_eq!(print(&pieces), "{\n\tn => 3.5\n\tb => true\n\ts => text\n}\n");
    assert_eq!(pieces[4], Piece::Double(3.5f64.to_bits()));
    assert_eq!(pairs.as_pairs().len(), 3);
    assert_eq!(print(&pairs[1..].display().pieces()), "{\n\tb => true\n\ts => text\n}\n");
    assert_eq!(pairs[..2].as_pairs().len(), 2);
}

#[test]
fn amf0_nested_object_is_shown_as_a_list_of_its_own() {
    let pairs = vec![pair0("o", Amf0Value::Object(vec![pair0("f", Amf0Value::Bool(false))]))];
    assert_eq!(print(&pairs.display().pieces()), "{\n\to => {\n\tf => false\n}\n\n}\n");
    let empty: Vec<Pair<Amf0Value>> = vec![];
    assert_eq!(print(&empty.display().pieces()), "{\n}\n");
}

#[test]
fn amf0_value_is_shown_alone() {
    let mut out = Vec::new();
    show_value(&Amf0Value::String("abc".to_string()), &mut out);
    show_value(&Amf0Value::Num(0.25f64.to_bits()), &mut out);
    assert_eq!(out, vec![Piece::Text("abc".to_string()), Piece::Double(0.25f64.to_bits())]);
}

#[test]
fn lead_is_two_spaces_a_level() {
    let mut out = Vec::new();
    put_lead(&mut out, false, 3);
    put_lead(&mut out, true, 3);
    put_lead(&mut out, false, 0);
    assert_eq!(out, vec![Piece::Text("      ".to_string()), Piece::Text(String::new())]);
    assert_eq!(step_in(0), 1);
    assert_eq!(step_in(u32::MAX - 1), u32::MAX);
    assert_eq!(step_in(u32::MAX), u32::MAX);
}

#[test]
fn amf3_list_is_dumped_with_indentation() {
    let pairs = vec![
        pair3("name", Amf3Value::String("x".to_string())),
        pair3("on", Amf3Value::Boolean(false)),
        pair3("count", Amf3Value::Integer(-12)),
        pair3("ratio", Amf3Value::Double(0.5f64.to_bits())),
        pair3("nothing", Amf3Value::Null),
        pair3("when", Amf3Value::Date { secs: 12, nanos: 345 }),
        pair3(
            "point",
            Amf3Value::Object {
                class_name: Some("Point".to_string()),
                sealed_count: 0,
                entries: vec![pair3("x", Amf3Value::Integer(1))],
            },
        ),
        pair3(
            "list",
            Amf3Value::Array {
                assoc_entries: vec![],
                dense_entries: vec![
                    Amf3Value::Integer(1),
                    Amf3Value::Object { class_name: None, sealed_count: 0, entries: vec![] },
                ],
            },
        ),
        pair3("blob", Amf3Value::ByteArray(vec![1, 2])),
    ];
    let mut out = Vec::new();
    dump_amf3(&pairs, 0, false, &mut out);
    let expected = "{\n  name = \"x\"\n  on = false\n  count = -12\n  ratio = 0.5\n  nothing = <null>\n  when = <date: 12s 345ns>\n  point = Point {\n    x = 1\n  }\n  list = [\n    1\n    {\n    }\n  ]\n  blob = <unsupported>\n}\n";
    assert_eq!(print(&out), expected);
}

#[test]
fn amf3_array_shows_its_associative_part_first() {
    let value = Amf3Value::Array {
        assoc_entries: vec![pair3("k", Amf3Value::Boolean(true))],
        dense_entries: vec![Amf3Value::String("s".to_string())],
    };
    let mut out = Vec::new();
    dump_amf3_value(&value, 1, false, &mut out);
    assert_eq!(print(&out), "[\n    {\n      k = true\n    }\n    \"s\"\n  ]\n");
}

#[test]
fn amf3_value_begins_a_line_unless_inline() {
    let mut out = Vec::new();
    dump_amf3_value(&Amf3Value::Integer(5), 2, false, &mut out);
    assert_eq!(print(&out), "    5\n");
    let mut out = Vec::new();
    dump_amf3_value(&Amf3Value::Integer(5), 2, true, &mut out);
    assert_eq!(print(&out), "5\n");
    let mut out = Vec::new();
    dump_amf3_value(&Amf3Value::Undefined, 1, false, &mut out);
    assert_eq!(print(&out), "  <unsupported>\n");
}
