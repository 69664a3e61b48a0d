use json::Element::{JsonBool, JsonFloat, JsonInt, JsonList, JsonNull, JsonObject, JsonString};
use json::{Decimal, Element, JsonMap, UnmarshalError, Unmarshalable};

fn dec(neg: bool, digits: Vec<u8>, exp: i64) -> Decimal {
    Decimal::new(neg, digits, exp).unwrap()
}

#[test]
fn unmarshal_int_test() {
    assert_eq!(i64::unmarshal_json("0").unwrap(), 0);
    assert_eq!(Element::unmarshal_json("0").unwrap(), JsonInt(0));
}

#[test]
fn unmarshal_negative_int_test() {
    assert_eq!(i64::unmarshal_json("-1").unwrap(), -1);
    assert_eq!(i64::unmarshal_json("-15").unwrap(), -15);
}

#[test]
fn unmarshal_float_half_test() {
    assert_eq!(Decimal::unmarshal_json("0.5").unwrap(), dec(false, vec![5], -1));
    assert_eq!(Decimal::unmarshal_json("00.51").unwrap(), dec(false, vec![5, 1], -2));

    assert_eq!(
        Element::unmarshal_json("0.5").unwrap(),
        JsonFloat(dec(false, vec![5], -1))
    );
    assert_eq!(
        Element::unmarshal_json("00.51").unwrap(),
        JsonFloat(dec(false, vec![5, 1], -2))
    );
}

#[test]
fn unmarshal_float_negative_half_test() {
    assert_eq!(Decimal::unmarshal_json("-0.5").unwrap(), dec(true, vec![5], -1));
    assert_eq!(Decimal::unmarshal_json("-00.51").unwrap(), dec(true, vec![5, 1], -2));
}

#[test]
fn unmarshal_float_one_third_test() {
    assert_eq!(
        Decimal::unmarshal_json("0.3333333333333333").unwrap(),
        dec(false, vec![3; 16], -16)
    );
}

#[test]
fn unmarshal_float_exponent_test() {
    assert_eq!(Decimal::unmarshal_json("3e3").unwrap(), dec(false, vec![3], 3));
    assert_eq!(Decimal::unmarshal_json("3.0e3").unwrap(), dec(false, vec![3], 3));
    assert_eq!(Decimal::unmarshal_json("3E3").unwrap(), dec(false, vec![3], 3));
    assert_eq!(Decimal::unmarshal_json("3.0E3").unwrap(), dec(false, vec![3], 3));
}

#[test]
fn unmarshal_float_negative_exponent_test() {
    assert_eq!(Decimal::unmarshal_json("3e-3").unwrap(), dec(false, vec![3], -3));
    assert_eq!(Decimal::unmarshal_json("3.0e-3").unwrap(), dec(false, vec![3], -3));
    assert_eq!(Decimal::unmarshal_json("3E-3").unwrap(), dec(false, vec![3], -3));
    assert_eq!(Decimal::unmarshal_json("3.0E-3").unwrap(), dec(false, vec![3], -3));
}

#[test]
fn unmarshal_float_leading_decimal_test() {
    assert_eq!(
        Decimal::unmarshal_json(".3").unwrap_err(),
        UnmarshalError::UnexpectedChar { c: '.', row: 1, col: 1 }
    );
    assert_eq!(
        Decimal::unmarshal_json("-.3").unwrap_err(),
        UnmarshalError::UnexpectedChar { c: '.', row: 1, col: 2 }
    );
}

#[test]
fn unmarshal_float_trailing_decimal_test() {
    assert_eq!(
        Decimal::unmarshal_json("3.").unwrap_err(),
        UnmarshalError::EndOfChars
    );
}

#[test]
fn unmarshal_float_trailing_exponent_test() {
    assert_eq!(Decimal::unmarshal_json("3e").unwrap_err(), UnmarshalError::EndOfChars);
    assert_eq!(Decimal::unmarshal_json("3.0e").unwrap_err(), UnmarshalError::EndOfChars);
    assert_eq!(Decimal::unmarshal_json("3E").unwrap_err(), UnmarshalError::EndOfChars);
    assert_eq!(Decimal::unmarshal_json("3.0E").unwrap_err(), UnmarshalError::EndOfChars);
}

#[test]
fn unmarshal_bool_test() {
    assert_eq!(bool::unmarshal_json("true").unwrap(), true);
    assert_eq!(bool::unmarshal_json("false").unwrap(), false);

    assert_eq!(Element::unmarshal_json("true").unwrap(), JsonBool(true));
    assert_eq!(Element::unmarshal_json("false").unwrap(), JsonBool(false));
}

#[test]
fn unmarshal_null_test() {
    assert_eq!(Option::<JsonMap<i64>>::unmarshal_json("null").unwrap(), None);
    assert_eq!(Option::<Vec<i64>>::unmarshal_json("null").unwrap(), None);
    assert_eq!(Option::<String>::unmarshal_json("null").unwrap(), None);
    assert_eq!(Option::<bool>::unmarshal_json("null").unwrap(), None);
    assert_eq!(Option::<i64>::unmarshal_json("null").unwrap(), None);
    assert_eq!(Option::<Decimal>::unmarshal_json("null").unwrap(), None);
    assert_eq!(Option::<()>::unmarshal_json("null").unwrap(), None);

    assert_eq!(Element::unmarshal_json("null").unwrap(), JsonNull);
}

#[test]
fn unmarshal_empty_string_test() {
    assert_eq!(String::unmarshal_json(r#""""#).unwrap(), "".to_owned());

    assert_eq!(
        Element::unmarshal_json(r#""""#).unwrap(),
        JsonString("".to_owned())
    );
}

#[test]
fn unmarshal_ascii_string_test() {
    assert_eq!(String::unmarshal_json(r#""test""#).unwrap(), "test".to_owned());

    assert_eq!(
        Element::unmarshal_json(r#""test""#).unwrap(),
        JsonString("test".to_owned())
    );
}

#[test]
fn unmarshal_unicode_string_test() {
    assert_eq!(
        String::unmarshal_json(r#""❤""#).unwrap(),
        "\u{2764}".to_owned()
    );
    assert_eq!(
        String::unmarshal_json(r#""🦀""#).unwrap(),
        "\u{1F980}".to_owned()
    )
}

#[test]
#[should_panic]
fn unmarshal_invalid_unicode_string_test() {
    String::unmarshal_json(r#""\ud83e""#).unwrap();
}

#[test]
fn unmarshal_quoted_string_test() {
    assert_eq!(
        String::unmarshal_json(r#""\"test\"""#).unwrap(),
        "\"test\"".to_owned()
    );
}

#[test]
fn unmarshal_unterminated_string_test() {
    assert_eq!(
        String::unmarshal_json(r#""test"#).unwrap_err(),
        UnmarshalError::EndOfChars
    );
}

#[test]
fn unmarshal_empty_object_test() {
    assert_eq!(JsonMap::<JsonMap<i64>>::unmarshal_json("{}").unwrap().len(), 0);
    assert_eq!(JsonMap::<Vec<i64>>::unmarshal_json("{}").unwrap().len(), 0);
    assert_eq!(JsonMap::<String>::unmarshal_json("{}").unwrap().len(), 0);
    assert_eq!(JsonMap::<bool>::unmarshal_json("{}").unwrap().len(), 0);
    assert_eq!(JsonMap::<i64>::unmarshal_json("{}").unwrap(), JsonMap::new());
    assert_eq!(JsonMap::<Decimal>::unmarshal_json("{}").unwrap().len(), 0);
    assert_eq!(JsonMap::<Option<i64>>::unmarshal_json("{}").unwrap().len(), 0);

    assert_eq!(Element::unmarshal_json("{}").unwrap(), JsonObject(Vec::new()));
}

#[test]
fn unmarshal_single_int_object_test() {
    let mut expect: JsonMap<i64> = JsonMap::new();
    expect.insert("a".to_owned(), 0);
    assert_eq!(JsonMap::<i64>::unmarshal_json(r#"{"a": 0}"#).unwrap(), expect);
    assert_eq!(JsonMap::<i64>::unmarshal_json(r#"{"a":0}"#).unwrap(), expect);
}

#[test]
fn unmarshal_single_overriden_int_object_test() {
    let mut expect: JsonMap<i64> = JsonMap::new();
    expect.insert("a".to_owned(), 1);
    assert_eq!(
        JsonMap::<i64>::unmarshal_json(r#"{"a": 0, "a": 1}"#).unwrap(),
        expect
    );
}

#[test]
fn unmarshal_int_object_test() {
    for text in [r#"{"a": 0, "b": 1}"#, r#"{"b": 1, "a": 0}"#] {
        let m = JsonMap::<i64>::unmarshal_json(text).unwrap();
        assert_eq!(m.len(), 2);
        assert_eq!(m.get("a"), Some(&0));
        assert_eq!(m.get("b"), Some(&1));
    }
}

#[test]
fn unmarshal_unicode_key_object_test() {
    let m = JsonMap::<i64>::unmarshal_json(r#"{"🦀": 0}"#).unwrap();
    assert_eq!(m.get("\u{1F980}"), Some(&0));
}

#[test]
fn unmarshal_unquoted_key_object_test() {
    assert_eq!(
        JsonMap::<i64>::unmarshal_json(r#"{a: 0}"#).unwrap_err(),
        UnmarshalError::UnexpectedChar { c: 'a', row: 1, col: 2 }
    );
}

#[test]
fn unmarshal_unterminated_object_test() {
    assert_eq!(
        JsonMap::<i64>::unmarshal_json(r#"{"#).unwrap_err(),
        UnmarshalError::EndOfChars
    );
    assert_eq!(
        JsonMap::<i64>::unmarshal_json(r#"{"a": 0"#).unwrap_err(),
        UnmarshalError::EndOfChars
    );
    assert_eq!(
        JsonMap::<i64>::unmarshal_json(r#"{"a": 0,"#).unwrap_err(),
        UnmarshalError::EndOfChars
    );
}

#[test]
fn unmarshal_object_leading_comma_test() {
    assert_eq!(
        JsonMap::<i64>::unmarshal_json(r#"{,}"#).unwrap_err(),
        UnmarshalError::UnexpectedChar { c: ',', row: 1, col: 2 }
    );
}

#[test]
fn unmarshal_object_trailing_comma_test() {
    assert_eq!(
        JsonMap::<i64>::unmarshal_json(r#"{"a": 0,}"#).unwrap_err(),
        UnmarshalError::UnexpectedChar { c: '}', row: 1, col: 9 }
    );
}

#[test]
fn unmarshal_empty_list_test() {
    assert_eq!(
        Vec::<JsonMap<i64>>::unmarshal_json("[]").unwrap().len(),
        0
    );
    assert_eq!(Vec::<Vec<i64>>::unmarshal_json("[]").unwrap(), Vec::<Vec<i64>>::new());
    assert_eq!(Vec::<String>::unmarshal_json("[]").unwrap(), Vec::<String>::new());
    assert_eq!(Vec::<bool>::unmarshal_json("[]").unwrap(), Vec::<bool>::new());
    assert_eq!(Vec::<i64>::unmarshal_json("[]").unwrap(), Vec::<i64>::new());
    assert_eq!(Vec::<Decimal>::unmarshal_json("[]").unwrap(), Vec::<Decimal>::new());

    assert_eq!(Element::unmarshal_json("[]").unwrap(), JsonList(Vec::new()));
}

#[test]
fn unmarshal_int_list_test() {
    assert_eq!(
        Vec::<i64>::unmarshal_json("[1, 2, 3, 4, 5, 6, 7, 8, 9, 10]").unwrap(),
        (1..=10).collect::<Vec<_>>()
    );
}

#[test]
fn unmarshal_float_list_test() {
    let expect: Vec<Decimal> = vec![
        dec(false, vec![1], 0),
        dec(false, vec![2], 0),
        dec(false, vec![3], 0),
        dec(false, vec![4], 0),
        dec(false, vec![5], 0),
        dec(false, vec![6], 0),
        dec(false, vec![7], 0),
        dec(false, vec![8], 0),
        dec(false, vec![9], 0),
        dec(false, vec![1, 0], 0),
    ];
    assert_eq!(
        Vec::<Decimal>::unmarshal_json("[1.0, 2.0, 3.0, 4.0, 5.0, 6.0, 7.0, 8.0, 9.0, 10.0]")
            .unwrap(),
        expect
    );
}

#[test]
fn unmarshal_str_list_test() {
    assert_eq!(
        Vec::<String>::unmarshal_json(r#"["1", "2", "3", "4", "5", "6", "7", "8", "9", "10"]"#)
            .unwrap(),
        (1..=10).map(|n| n.to_string()).collect::<Vec<_>>()
    );
}

#[test]
fn unmarshal_optional_int_list_test() {
    assert_eq!(
        Vec::<Option<i64>>::unmarshal_json("[1, null, 3]").unwrap(),
        vec![Some(1), None, Some(3)]
    );
}

#[test]
fn unmarshal_mixed_list_element_test() {
    assert_eq!(
        Element::unmarshal_json(r#"[{}, [], "", 1, 2.0, true, false, null]"#).unwrap(),
        JsonList(vec![
            JsonObject(Vec::new()),
            JsonList(Vec::new()),
            JsonString(String::new()),
            JsonInt(1),
            JsonFloat(dec(false, vec![2], 0)),
            JsonBool(true),
            JsonBool(false),
            JsonNull,
        ])
    );
}

#[test]
fn unmarshal_unterminated_list_test() {
    assert_eq!(
        Vec::<Option<()>>::unmarshal_json(r#"["#).unwrap_err(),
        UnmarshalError::EndOfChars
    );
}

#[test]
fn unmarshal_trailing_comma_list_test() {
    assert_eq!(
        Vec::<i64>::unmarshal_json(r#"[1,]"#).unwrap_err(),
        UnmarshalError::UnexpectedChar { c: ']', row: 1, col: 4 }
    );
}
