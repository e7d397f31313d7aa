use soledit::amf3::{
    amf3_date_ok, amf3_encode_record, amf3_ok, amf3_text_ok, close_record, read_amf3, spend,
};
use soledit::container::{read_from_bytes, AmfWrite};
use soledit::document::{Amf3, Amf3Value, Pair, Sol, SolVariant};
use soledit::SolError;

fn entry(key: &str, value: Amf3Value) -> Pair<Amf3Value> {
    Pair { key: key.to_string(), value }
}

fn header3(len: u32, name: &str) -> Vec<u8> {
    let mut bytes = vec![0x00, 0xBF];
    bytes.extend_from_slice(&len.to_be_bytes());
    bytes.extend_from_slice(b"TCSO");
    bytes.extend_from_slice(&[0, 4, 0, 0, 0, 0]);
    bytes.extend_from_slice(&(name.len() as u16).to_be_bytes());
    bytes.extend_from_slice(name.as_bytes());
    bytes.extend_from_slice(&[0, 0, 0, 3]);
    bytes
}

fn read_amf3_document(bytes: &[u8]) -> Sol<Amf3> {
    match read_from_bytes(bytes) {
        Ok(SolVariant::Amf3(sol)) => sol,
        Ok(SolVariant::Amf0(_)) => panic!("an AMF0 document"),
        Err(e) => panic!("{:?}", e),
    }
}

fn every_shape() -> Vec<Pair<Amf3Value>> {
    vec![
        entry("undefined", Amf3Value::Undefined),
        entry("null", Amf3Value::Null),
        entry("yes", Amf3Value::Boolean(true)),
        entry("no", Amf3Value::Boolean(false)),
        entry("int", Amf3Value::Integer(-5)),
        entry("max", Amf3Value::Integer(0x0FFF_FFFF)),
        entry("min", Amf3Value::Integer(-0x1000_0000)),
        entry("double", Amf3Value::Double(3.5f64.to_bits())),
        entry("nan", Amf3Value::Double(0x7FF8_0000_0000_0001)),
        entry("string", Amf3Value::String("h\u{e9}llo".to_string())),
        entry("doc", Amf3Value::XmlDocument("<a/>".to_string())),
        entry("xml", Amf3Value::Xml("<b/>".to_string())),
        entry("date", Amf3Value::Date { secs: 1_600_000_000, nanos: 123_000_000 }),
        entry(
            "array",
            Amf3Value::Array {
                assoc_entries: vec![entry("k", Amf3Value::Integer(1))],
                dense_entries: vec![Amf3Value::Null, Amf3Value::String("x".to_string())],
            },
        ),
        entry(
            "object",
            Amf3Value::Object {
                class_name: Some("Point".to_string()),
                sealed_count: 1,
                entries: vec![
                    entry("x", Amf3Value::Integer(1)),
                    entry("y", Amf3Value::Double(2.5f64.to_bits())),
                ],
            },
        ),
        entry(
            "anonymous",
            Amf3Value::Object { class_name: None, sealed_count: 0, entries: vec![] },
        ),
        entry("bytes", Amf3Value::ByteArray(vec![1, 2, 3])),
        entry("ints", Amf3Value::IntVector { is_fixed: true, entries: vec![-1, 2] }),
        entry("uints", Amf3Value::UintVector { is_fixed: false, entries: vec![1, 0xFFFF_FFFF] }),
        entry(
            "doubles",
            Amf3Value::DoubleVector { is_fixed: false, entries: vec![1.5f64.to_bits(), 0] },
        ),
        entry(
            "objects",
            Amf3Value::ObjectVector {
                class_name: Some("T".to_string()),
                is_fixed: false,
                entries: vec![Amf3Value::Null],
            },
        ),
        entry(
            "any",
            Amf3Value::ObjectVector { class_name: None, is_fixed: true, entries: vec![] },
        ),
        entry(
            "dictionary",
            Amf3Value::Dictionary {
                is_weak: true,
                entries: vec![(Amf3Value::String("k".to_string()), Amf3Value::Integer(7))],
            },
        ),
    ]
}

#[test]
fn amf3_record_is_key_value_and_padding() {
    assert_eq!(amf3_encode_record(&entry("a", Amf3Value::Integer(5))), vec![0x03, b'a', 0x04, 0x05, 0x00]);
    assert_eq!(
        amf3_encode_record(&entry("d", Amf3Value::Double(3.5f64.to_bits()))),
        vec![0x03, b'd', 0x05, 0x40, 0x0C, 0, 0, 0, 0, 0, 0, 0x00]
    );
    assert_eq!(
        amf3_encode_record(&entry("", Amf3Value::String("hi".to_string()))),
        vec![0x01, 0x06, 0x05, b'h', b'i', 0x00]
    );
}

#[test]
fn amf3_document_declares_the_length_of_its_body() {
    let sol = Sol::<Amf3>::new("x".to_string(), vec![entry("a", Amf3Value::Integer(5))]);
    assert_eq!(sol.amf_len(), Ok(5));
    let bytes = sol.to_bytes().unwrap();
    let mut expected = header3(5, "x");
    expected.extend_from_slice(&[0x03, b'a', 0x04, 0x05, 0x00]);
    assert_eq!(bytes, expected);
}

#[test]
fn amf3_document_reads_back_as_written() {
    let sol = Sol::<Amf3>::new("shapes".to_string(), every_shape());
    let bytes = sol.to_bytes().unwrap();
    let read = read_amf3_document(&bytes);
    assert_eq!(read.root_name, "shapes");
    assert_eq!(read.len as usize, bytes.len() - 22 - "shapes".len());
    assert_eq!(read.root_object, every_shape());
    assert_eq!(read.to_bytes().unwrap(), bytes);
    assert_eq!(SolVariant::Amf3(read).root_name(), "shapes");
}

#[test]
fn amf3_date_is_kept_to_the_millisecond() {
    let sol = Sol::<Amf3>::new(
        "d".to_string(),
        vec![entry("date", Amf3Value::Date { secs: 12, nanos: 345_678_901 })],
    );
    let read = read_amf3_document(&sol.to_bytes().unwrap());
    assert_eq!(read.root_object, vec![entry("date", Amf3Value::Date { secs: 12, nanos: 345_000_000 })]);
}

#[test]
fn amf3_string_tables_last_from_record_to_record() {
    let body = [0x05, b'a', b'b', 0x01, 0x00, 0x00, 0x06, 0x00, 0x00];
    let pairs = read_amf3(&body, 9).unwrap();
    assert_eq!(
        pairs,
        vec![entry("ab", Amf3Value::Null), entry("ab", Amf3Value::String("ab".to_string()))]
    );
}

#[test]
fn amf3_body_of_no_bytes_is_empty() {
    assert_eq!(read_amf3(&[], 0), Ok(vec![]));
    assert_eq!(read_amf3(&[0xFF, 0xFF], 0), Ok(vec![]));
    let read = read_amf3_document(&header3(0, "x"));
    assert_eq!(read.root_name, "x");
    assert!(read.root_object.is_empty());
}

#[test]
fn amf3_record_past_the_declared_length_is_a_mismatch() {
    let body = [0x03, b'a', 0x04, 0x05, 0x00];
    assert_eq!(read_amf3(&body, 4), Err(SolError::LengthMismatch));
    assert_eq!(read_amf3(&body, 5), Ok(vec![entry("a", Amf3Value::Integer(5))]));
    assert_eq!(read_amf3(&body, 6), Err(SolError::UnexpectedEof));
}

#[test]
fn amf3_failures_of_the_decoder_are_told_apart() {
    assert_eq!(read_amf3(&[0x03], 3), Err(SolError::UnexpectedEof));
    assert_eq!(read_amf3(&[0x03, b'a', 0x04, 0x05], 5), Err(SolError::UnexpectedEof));
    assert_eq!(read_amf3(&[0x03, 0xFF, 0x01, 0x00], 4), Err(SolError::Utf8Decode));
    assert_eq!(read_amf3(&[0x03, b'a', 0x7F, 0x00], 4), Err(SolError::UnexpectedType));
    assert_eq!(read_amf3(&[0x02, 0x01, 0x00], 3), Err(SolError::UnexpectedType));
    assert_eq!(read_amf3(&[0x03, b'a', 0x09, 0x02, 0x00], 5), Err(SolError::UnexpectedType));
}

#[test]
fn amf3_first_failure_ends_the_reading() {
    let good = [0x03, b'a', 0x04, 0x05, 0x00];
    let mut body = good.to_vec();
    body.extend_from_slice(&[0x03, 0xFF, 0x01, 0x00]);
    assert_eq!(read_amf3(&body, 9), Err(SolError::Utf8Decode));
    assert_eq!(read_amf3(&body, 5), Ok(vec![entry("a", Amf3Value::Integer(5))]));
    let mut body = good.to_vec();
    body.extend_from_slice(&[0x03, b'b', 0x04, 0x06]);
    assert_eq!(read_amf3(&body, 10), Err(SolError::UnexpectedEof));
    body.push(0x00);
    assert_eq!(read_amf3(&body, 9), Err(SolError::LengthMismatch));
}

#[test]
fn amf3_records_come_back_in_the_order_of_the_bytes() {
    let body = [
        0x03, b'z', 0x04, 0x01, 0x00, 0x03, b'a', 0x03, 0x00, 0x03, b'z', 0x06, 0x03, b'm', 0x00,
    ];
    assert_eq!(
        read_amf3(&body, 15),
        Ok(vec![
            entry("z", Amf3Value::Integer(1)),
            entry("a", Amf3Value::Boolean(true)),
            entry("z", Amf3Value::String("m".to_string())),
        ])
    );
}

#[test]
fn amf3_values_that_the_encoder_does_not_take_are_refused() {
    assert!(amf3_ok(&Amf3Value::Integer(0x0FFF_FFFF)));
    assert!(!amf3_ok(&Amf3Value::Integer(0x1000_0000)));
    assert!(amf3_ok(&Amf3Value::Integer(-0x1000_0000)));
    assert!(!amf3_ok(&Amf3Value::Integer(-0x1000_0001)));
    assert!(amf3_ok(&Amf3Value::Date { secs: 18_446_744_073_709_550, nanos: 999_999_999 }));
    assert!(amf3_ok(&Amf3Value::Date { secs: 18_446_744_073_709_551, nanos: 615_999_999 }));
    assert!(!amf3_ok(&Amf3Value::Date { secs: 18_446_744_073_709_551, nanos: 616_000_000 }));
    assert!(!amf3_ok(&Amf3Value::Date { secs: 18_446_744_073_709_552, nanos: 0 }));
    assert!(!amf3_ok(&Amf3Value::Date { secs: u64::MAX, nanos: 0 }));
    assert!(!amf3_ok(&Amf3Value::Date { secs: 0, nanos: 1_000_000_000 }));
    assert!(amf3_date_ok(0, 999_999_999));
    assert!(!amf3_date_ok(u64::MAX, 1_000_000_000));
    assert!(!amf3_ok(&Amf3Value::Object { class_name: None, sealed_count: 1, entries: vec![] }));
    assert!(!amf3_ok(&Amf3Value::Array {
        assoc_entries: vec![],
        dense_entries: vec![Amf3Value::Null, Amf3Value::Integer(i32::MAX)],
    }));
    assert!(!amf3_ok(&Amf3Value::Dictionary {
        is_weak: false,
        entries: vec![(Amf3Value::Null, Amf3Value::Integer(i32::MIN))],
    }));
    let sol = Sol::<Amf3>::new("x".to_string(), vec![entry("n", Amf3Value::Integer(i32::MAX))]);
    assert_eq!(sol.to_bytes(), Err(SolError::Unsupported));
    assert_eq!(sol.amf_len(), Err(SolError::Unsupported));
}

#[test]
fn amf3_text_fits_below_two_to_the_28() {
    assert!(amf3_text_ok(""));
    assert!(amf3_text_ok(&"a".repeat(65536)));
    let long = "a".repeat(0x1000_0000);
    assert!(!amf3_text_ok(&long));
    assert!(amf3_text_ok(&long[1..]));
    let sol = Sol::<Amf3>::new("x".to_string(), vec![entry(&long, Amf3Value::Null)]);
    assert_eq!(sol.amf_len(), Err(SolError::StringTooLong));
}

#[test]
fn spending_more_than_is_left_is_a_mismatch() {
    assert_eq!(spend(10, 3), Ok(7));
    assert_eq!(spend(3, 3), Ok(0));
    assert_eq!(spend(2, 3), Err(SolError::LengthMismatch));
    assert_eq!(spend(0, 0), Ok(0));
}

#[test]
fn record_without_its_padding_byte_is_cut_short() {
    assert_eq!(
        close_record("k".to_string(), Amf3Value::Integer(1), Some(0)),
        Ok(entry("k", Amf3Value::Integer(1)))
    );
    assert_eq!(
        close_record(String::new(), Amf3Value::Null, Some(0xAB)),
        Ok(entry("", Amf3Value::Null))
    );
    assert_eq!(
        close_record("k".to_string(), Amf3Value::Integer(1), None),
        Err(SolError::UnexpectedEof)
    );
}

#[test]
fn amf3_latest_date_is_written_and_read() {
    let latest = Amf3Value::Date { secs: 18_446_744_073_709_551, nanos: 615_000_000 };
    let bytes = amf3_encode_record(&entry("d", Amf3Value::Date {
        secs: 18_446_744_073_709_551,
        nanos: 615_999_999,
    }));
    assert_eq!(&bytes[..4], &[0x03, b'd', 0x08, 0x01]);
    assert_eq!(bytes.len(), 13);
    let sol = Sol::<Amf3>::new("x".to_string(), vec![entry("d", latest)]);
    assert_eq!(sol.amf_len(), Ok(13));
}
