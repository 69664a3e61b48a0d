use json::Element::{JsonBool, JsonFloat, JsonInt, JsonList, JsonNull, JsonObject, JsonString};
use json::{Decimal, Element, JsonMap, Marshalable, UnmarshalError, Unmarshalable};

fn dec(neg: bool, digits: Vec<u8>, exp: i64) -> Decimal {
    Decimal::new(neg, digits, exp).unwrap()
}

#[test]
fn round_trip_scalars_test() {
    for v in [
        JsonNull,
        JsonBool(true),
        JsonBool(false),
        JsonInt(0),
        JsonInt(-9001),
        JsonInt(i64::MAX),
        JsonInt(i64::MIN),
        JsonString("a \"quoted\" \\ line\nwith\ttabs".to_owned()),
        JsonString("caf\u{e9} \u{1F980} \u{2764}".to_owned()),
        JsonFloat(dec(false, vec![1, 2, 5], -2)),
        JsonFloat(dec(true, vec![7], -3)),
    ] {
        let text = v.marshal_json();
        assert_eq!(Element::unmarshal_json(&text).unwrap(), v);
    }
}

#[test]
fn round_trip_nested_test() {
    let doc = JsonObject(vec![
        ("items".to_owned(), JsonList(vec![JsonInt(1), JsonNull, JsonBool(false)])),
        ("name".to_owned(), JsonString("deep \u{1F980}".to_owned())),
        (
            "inner".to_owned(),
            JsonObject(vec![("rate".to_owned(), JsonFloat(dec(true, vec![2, 5], -1)))]),
        ),
        ("empty".to_owned(), JsonObject(Vec::new())),
    ]);
    let text = doc.marshal_json();
    assert_eq!(Element::unmarshal_json(&text).unwrap(), doc);
    // reparsing the reserialized output is stable
    let again = Element::unmarshal_json(&text).unwrap().marshal_json();
    assert_eq!(again, text);
}

#[test]
fn empty_containers_round_trip_test() {
    assert_eq!(Element::unmarshal_json("{}").unwrap().marshal_json(), "{}");
    assert_eq!(Element::unmarshal_json("[]").unwrap().marshal_json(), "[]");
}

#[test]
fn surrogate_pair_round_trip_test() {
    let parsed = Element::unmarshal_json(r#""\ud83e\udd80""#).unwrap();
    assert_eq!(parsed, JsonString("\u{1F980}".to_owned()));
    assert_eq!(parsed.marshal_json(), r#""\ud83e\udd80""#);
}

#[test]
fn duplicate_key_keeps_last_test() {
    let parsed = Element::unmarshal_json(r#"{"a": 0, "a": 1}"#).unwrap();
    assert_eq!(parsed, JsonObject(vec![("a".to_owned(), JsonInt(1))]));

    let m = JsonMap::<i64>::unmarshal_json(r#"{"a": 0, "a": 1}"#).unwrap();
    assert_eq!(m.get("a"), Some(&1));
    assert_eq!(m.len(), 1);
}

#[test]
fn truncated_inputs_test() {
    for text in ["{", r#"{"a": 0"#, r#"{"a": 0,"#, r#""unterminated"#, "3.", "3e", "[1,", "-"] {
        assert_eq!(
            Element::unmarshal_json(text).unwrap_err(),
            UnmarshalError::EndOfChars,
            "{}",
            text
        );
    }
}

#[test]
fn numeric_edges_test() {
    assert_eq!(Element::unmarshal_json("-1").unwrap(), JsonInt(-1));
    assert_eq!(
        Element::unmarshal_json("0.5").unwrap(),
        JsonFloat(dec(false, vec![5], -1))
    );
    assert_eq!(
        Element::unmarshal_json("3e-3").unwrap(),
        JsonFloat(dec(false, vec![3], -3))
    );
    assert_eq!(
        Decimal::unmarshal_json(".3").unwrap_err(),
        UnmarshalError::UnexpectedChar { c: '.', row: 1, col: 1 }
    );
}

#[test]
fn trailing_garbage_rejected_test() {
    assert_eq!(
        Element::unmarshal_json("1 x").unwrap_err(),
        UnmarshalError::UnexpectedChar { c: 'x', row: 1, col: 3 }
    );
    assert!(Element::unmarshal_json(" 1  ").is_ok());
}

#[test]
fn whitespace_and_rows_test() {
    assert_eq!(
        Element::unmarshal_json(" {\n \"a\" :\t1 }\n").unwrap(),
        JsonObject(vec![("a".to_owned(), JsonInt(1))])
    );
    // the row and column of an error count lines
    assert_eq!(
        Element::unmarshal_json("[1,\n ?]").unwrap_err(),
        UnmarshalError::UnexpectedChar { c: '?', row: 2, col: 2 }
    );
}

#[test]
fn legacy_unmarshaler_test() {
    assert_eq!(Element::unmarshal("[1, 2]").unwrap(), JsonList(vec![JsonInt(1), JsonInt(2)]));
    // the untyped parser peeks at the offending character without
    // consuming it, so the position names the previously consumed comma
    assert_eq!(
        Element::unmarshal("[1,]").unwrap_err(),
        "unexpected character `]` at 1:3"
    );
    assert_eq!(
        Element::unmarshal("[1,").unwrap_err(),
        "end of chars where element was expected"
    );
}

#[test]
fn wrapping_integer_overflow_test() {
    // twenty-two nines overflow a signed 64-bit value and wrap, as the
    // machine's multiply-and-add would
    let parsed = i64::unmarshal_json("9999999999999999999999").unwrap();
    let mut acc: i64 = 0;
    for _k in 0..22 {
        acc = acc.wrapping_mul(10).wrapping_add(9);
    }
    assert_eq!(parsed, acc);
}

#[test]
fn decimal_accessors_test() {
    let d = dec(true, vec![0, 2, 5, 0], -2);
    assert!(d.is_neg());
    assert_eq!(d.significant_digits(), &vec![2u8, 5u8]);
    assert_eq!(d.power_of_ten(), -1);
    assert_eq!(Decimal::new(false, vec![10], 0), None);
}

#[test]
fn json_map_operations_test() {
    let mut m: JsonMap<String> = JsonMap::new();
    assert!(m.is_empty());
    m.insert("k".to_owned(), "v1".to_owned());
    m.insert("k".to_owned(), "v2".to_owned());
    m.insert("j".to_owned(), "w".to_owned());
    assert_eq!(m.len(), 2);
    assert_eq!(m.get("k"), Some(&"v2".to_owned()));
    assert_eq!(m.get("j"), Some(&"w".to_owned()));
    assert_eq!(m.get("missing"), None);
    assert_eq!(m.entries()[0].0, "k");
}

#[test]
fn exotic_escapes_test() {
    assert_eq!(
        String::unmarshal_json(r#""\b\f\n\r\t\/\\""#).unwrap(),
        "\u{8}\u{c}\n\r\t/\\"
    );
    assert_eq!(
        String::unmarshal_json(r#""A""#).unwrap(),
        "A"
    );
    assert_eq!(
        String::unmarshal_json(r#""\ud83eA""#).unwrap_err(),
        UnmarshalError::UnexpectedChar { c: 'A', row: 1, col: 8 }
    );
    assert_eq!(
        String::unmarshal_json(r#""\x""#).unwrap_err(),
        UnmarshalError::UnexpectedChar { c: 'x', row: 1, col: 3 }
    );
}

#[test]
fn keyword_typo_test() {
    assert_eq!(
        bool::unmarshal_json("ture").unwrap_err(),
        UnmarshalError::UnexpectedChar { c: 'u', row: 1, col: 2 }
    );
    assert_eq!(
        Element::unmarshal_json("nul").unwrap_err(),
        UnmarshalError::EndOfChars
    );
}
