use soledit::document::{Amf0Value, Amf3Value, Pair};
use soledit::traverse::{edit_pair, edit_pairs, key_passes, rows, Change, Edit, Editable, Fixed, Row, Widget};

fn pair0(key: &str, value: Amf0Value) -> Pair<Amf0Value> {
    Pair { key: key.to_string(), value }
}

fn pair3(key: &str, value: Amf3Value) -> Pair<Amf3Value> {
    Pair { key: key.to_string(), value }
}

fn list0() -> Vec<Pair<Amf0Value>> {
    vec![
        pair0("volume", Amf0Value::Num(0.5f64.to_bits())),
        pair0("muted", Amf0Value::Bool(false)),
        pair0("name", Amf0Value::String("old".to_string())),
        pair0("more", Amf0Value::Object(vec![pair0("x", Amf0Value::Bool(true))])),
    ]
}

fn every_change() -> Vec<Change> {
    vec![
        Change { key: Some("loudness".to_string()), value: Some(Edit::Number(1.0f64.to_bits())) },
        Change { key: None, value: Some(Edit::Flag(true)) },
        Change { key: Some("title".to_string()), value: Some(Edit::Text("new".to_string())) },
        Change { key: Some("rest".to_string()), value: Some(Edit::Flag(false)) },
    ]
}

#[test]
fn filter_is_a_substring_test() {
    assert!(key_passes("volume", ""));
    assert!(key_passes("", ""));
    assert!(key_passes("volume", "vol"));
    assert!(key_passes("volume", "lum"));
    assert!(key_passes("volume", "ume"));
    assert!(key_passes("volume", "volume"));
    assert!(!key_passes("volume", "volumes"));
    assert!(!key_passes("volume", "Vol"));
    assert!(!key_passes("volume", "vlm"));
    assert!(!key_passes("", "a"));
    assert!(key_passes("aab", "ab"));
    assert!(key_passes("h\u{e9}llo", "\u{e9}l"));
    assert!(!key_passes("h\u{e9}llo", "e"));
}

#[test]
fn filter_that_rejects_every_key_changes_nothing() {
    let mut pairs = list0();
    edit_pairs(&mut pairs, "no such key", &every_change());
    assert_eq!(pairs, list0());
}

#[test]
fn open_filter_lets_every_change_through() {
    let mut pairs = list0();
    edit_pairs(&mut pairs, "", &every_change());
    assert_eq!(
        pairs,
        vec![
            pair0("loudness", Amf0Value::Num(1.0f64.to_bits())),
            pair0("muted", Amf0Value::Bool(true)),
            pair0("title", Amf0Value::String("new".to_string())),
            pair0("rest", Amf0Value::Object(vec![pair0("x", Amf0Value::Bool(true))])),
        ]
    );
}

#[test]
fn filter_decides_pair_by_pair() {
    let mut pairs = list0();
    edit_pairs(&mut pairs, "m", &every_change());
    assert_eq!(
        pairs,
        vec![
            pair0("loudness", Amf0Value::Num(1.0f64.to_bits())),
            pair0("muted", Amf0Value::Bool(true)),
            pair0("title", Amf0Value::String("new".to_string())),
            pair0("rest", Amf0Value::Object(vec![pair0("x", Amf0Value::Bool(true))])),
        ]
    );
    let mut pairs = list0();
    edit_pairs(&mut pairs, "mu", &every_change());
    let mut expected = list0();
    expected[1] = pair0("muted", Amf0Value::Bool(true));
    assert_eq!(pairs, expected);
}

#[test]
fn fewer_changes_than_pairs_leave_the_rest() {
    let mut pairs = list0();
    edit_pairs(&mut pairs, "", &vec![Change { key: Some("v".to_string()), value: None }]);
    let mut expected = list0();
    expected[0].key = "v".to_string();
    assert_eq!(pairs, expected);
    let mut pairs = list0();
    edit_pairs(&mut pairs, "", &vec![]);
    assert_eq!(pairs, list0());
}

#[test]
fn more_changes_than_pairs_are_not_looked_at() {
    let mut pairs = vec![pair0("a", Amf0Value::Bool(false))];
    edit_pairs(&mut pairs, "", &every_change());
    assert_eq!(pairs, vec![pair0("loudness", Amf0Value::Bool(false))]);
}

#[test]
fn edit_of_another_kind_changes_nothing() {
    let mut value = Amf0Value::Num(7);
    value.apply(&Edit::Flag(true));
    value.apply(&Edit::Text("x".to_string()));
    value.apply(&Edit::Integer(1));
    assert_eq!(value, Amf0Value::Num(7));
    value.apply(&Edit::Number(8));
    assert_eq!(value, Amf0Value::Num(8));
    let mut value = Amf0Value::Object(vec![]);
    value.apply(&Edit::Number(8));
    value.apply(&Edit::Flag(true));
    assert_eq!(value, Amf0Value::Object(vec![]));
}

#[test]
fn amf3_values_take_edits_of_their_kind() {
    let mut value = Amf3Value::Integer(1);
    value.apply(&Edit::Number(2));
    assert_eq!(value, Amf3Value::Integer(1));
    value.apply(&Edit::Integer(2));
    assert_eq!(value, Amf3Value::Integer(2));
    let mut value = Amf3Value::Double(1);
    value.apply(&Edit::Number(2));
    assert_eq!(value, Amf3Value::Double(2));
    let mut value = Amf3Value::Boolean(false);
    value.apply(&Edit::Flag(true));
    assert_eq!(value, Amf3Value::Boolean(true));
    let mut value = Amf3Value::String("a".to_string());
    value.apply(&Edit::Text("b".to_string()));
    assert_eq!(value, Amf3Value::String("b".to_string()));
}

#[test]
fn amf3_values_under_a_label_are_never_changed() {
    let edits = [Edit::Number(1), Edit::Integer(1), Edit::Flag(true), Edit::Text("t".to_string())];
    for edit in &edits {
        let mut value = Amf3Value::Xml("<a/>".to_string());
        value.apply(edit);
        assert_eq!(value, Amf3Value::Xml("<a/>".to_string()));
        let mut value = Amf3Value::Date { secs: 1, nanos: 2 };
        value.apply(edit);
        assert_eq!(value, Amf3Value::Date { secs: 1, nanos: 2 });
        let mut value = Amf3Value::Null;
        value.apply(edit);
        assert_eq!(value, Amf3Value::Null);
        let mut value = Amf3Value::ByteArray(vec![1]);
        value.apply(edit);
        assert_eq!(value, Amf3Value::ByteArray(vec![1]));
    }
}

#[test]
fn one_pair_takes_key_and_value() {
    let mut pair = pair3("count", Amf3Value::Integer(1));
    edit_pair(&mut pair, "cou", &Change { key: Some("total".to_string()), value: Some(Edit::Integer(9)) });
    assert_eq!(pair, pair3("total", Amf3Value::Integer(9)));
    edit_pair(&mut pair, "cou", &Change { key: Some("again".to_string()), value: Some(Edit::Integer(0)) });
    assert_eq!(pair, pair3("total", Amf3Value::Integer(9)));
}

#[test]
fn rows_show_the_pairs_that_pass() {
    let shown = rows(&list0(), "m");
    assert_eq!(
        shown,
        vec![
            Row { index: 0, key: "volume".to_string(), widget: Widget::Number(0.5f64.to_bits()) },
            Row { index: 1, key: "muted".to_string(), widget: Widget::Checkbox(false) },
            Row { index: 2, key: "name".to_string(), widget: Widget::Text("old".to_string()) },
            Row { index: 3, key: "more".to_string(), widget: Widget::Label(Fixed::Object) },
        ]
    );
    let shown = rows(&list0(), "na");
    assert_eq!(
        shown,
        vec![Row { index: 2, key: "name".to_string(), widget: Widget::Text("old".to_string()) }]
    );
    assert_eq!(rows(&list0(), "zzz"), vec![]);
}

#[test]
fn amf3_widgets_follow_the_shape() {
    assert_eq!(Amf3Value::Null.widget(), Widget::Label(Fixed::Null));
    assert_eq!(Amf3Value::Boolean(true).widget(), Widget::Checkbox(true));
    assert_eq!(Amf3Value::Integer(-3).widget(), Widget::Integer(-3));
    assert_eq!(Amf3Value::Double(5).widget(), Widget::Number(5));
    assert_eq!(Amf3Value::String("s".to_string()).widget(), Widget::Text("s".to_string()));
    assert_eq!(Amf3Value::Date { secs: 0, nanos: 0 }.widget(), Widget::Label(Fixed::Date));
    assert_eq!(
        Amf3Value::Array { assoc_entries: vec![], dense_entries: vec![] }.widget(),
        Widget::Label(Fixed::Array)
    );
    assert_eq!(
        Amf3Value::Object { class_name: None, sealed_count: 0, entries: vec![] }.widget(),
        Widget::Label(Fixed::Object)
    );
    assert_eq!(Amf3Value::Undefined.widget(), Widget::Label(Fixed::Other));
    assert_eq!(Amf3Value::ByteArray(vec![]).widget(), Widget::Label(Fixed::Other));
}
