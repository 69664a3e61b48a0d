use json::Element::{JsonBool, JsonFloat, JsonInt, JsonList, JsonNull, JsonObject, JsonString};
use json::{Decimal, JsonMap, Marshalable};

fn dec(neg: bool, digits: Vec<u8>, exp: i64) -> Decimal {
    Decimal::new(neg, digits, exp).unwrap()
}

#[test]
fn marshal_int_test() {
    assert_eq!(0i64.marshal_json(), "0");
    assert_eq!(JsonInt(0).marshal_json(), "0");
}

#[test]
fn marshal_negative_int_test() {
    assert_eq!((-1i64).marshal_json(), "-1");
    assert_eq!((-15i64).marshal_json(), "-15");
}

#[test]
fn marshal_float_half_test() {
    assert_eq!(dec(false, vec![5], -1).marshal_json(), "0.5");
    assert_eq!(dec(false, vec![5, 1], -2).marshal_json(), "0.51");

    assert_eq!(JsonFloat(dec(false, vec![5], -1)).marshal_json(), "0.5");
    assert_eq!(JsonFloat(dec(false, vec![5, 1], -2)).marshal_json(), "0.51");
}

#[test]
fn marshal_float_negative_half_test() {
    assert_eq!(dec(true, vec![5], -1).marshal_json(), "-0.5");
    assert_eq!(dec(true, vec![5, 1], -2).marshal_json(), "-0.51");
}

#[test]
fn marshal_float_one_third_test() {
    assert_eq!(
        dec(false, vec![3; 16], -16).marshal_json(),
        "0.3333333333333333"
    );
}

#[test]
fn marshal_bool_test() {
    assert_eq!(true.marshal_json(), "true");
    assert_eq!(false.marshal_json(), "false");

    assert_eq!(JsonBool(true).marshal_json(), "true");
    assert_eq!(JsonBool(false).marshal_json(), "false");
}

#[test]
fn marshal_null_test() {
    assert_eq!(Option::<JsonMap<i64>>::None.marshal_json(), "null");
    assert_eq!(Option::<Vec<i64>>::None.marshal_json(), "null");
    assert_eq!(Option::<String>::None.marshal_json(), "null");
    assert_eq!(Option::<bool>::None.marshal_json(), "null");
    assert_eq!(Option::<i64>::None.marshal_json(), "null");
    assert_eq!(Option::<Decimal>::None.marshal_json(), "null");
    assert_eq!(Option::<()>::None.marshal_json(), "null");

    assert_eq!(JsonNull.marshal_json(), "null");
}

#[test]
fn marshal_option_some_test() {
    assert_eq!(Option::<JsonMap<i64>>::Some(JsonMap::new()).marshal_json(), "{}");
    assert_eq!(Option::<Vec<i64>>::Some(Vec::new()).marshal_json(), "[]");
    assert_eq!(Option::<String>::Some(String::new()).marshal_json(), r#""""#);
    assert_eq!(Option::<bool>::Some(false).marshal_json(), "false");
    assert_eq!(Option::<i64>::Some(0).marshal_json(), "0");
    assert_eq!(Option::<Decimal>::Some(dec(false, vec![], 0)).marshal_json(), "0");
    assert_eq!(Option::<()>::Some(()).marshal_json(), "null");
}

#[test]
fn marshal_empty_string_test() {
    assert_eq!("".to_owned().marshal_json(), r#""""#);

    assert_eq!(JsonString("".to_owned()).marshal_json(), r#""""#);
}

#[test]
fn marshal_ascii_string_test() {
    assert_eq!("test".to_owned().marshal_json(), r#""test""#);

    assert_eq!(JsonString("test".to_owned()).marshal_json(), r#""test""#);
}

#[test]
fn marshal_unicode_string_test() {
    assert_eq!("\u{2764}".to_owned().marshal_json(), r#""\u2764""#);
    assert_eq!("\u{1F980}".to_owned().marshal_json(), r#""\ud83e\udd80""#)
}

#[test]
fn marshal_quoted_string_test() {
    assert_eq!("\"test\"".to_owned().marshal_json(), r#""\"test\"""#);
}

#[test]
fn marshal_empty_object_test() {
    assert_eq!(JsonMap::<JsonMap<i64>>::new().marshal_json(), "{}");
    assert_eq!(JsonMap::<Vec<i64>>::new().marshal_json(), "{}");
    assert_eq!(JsonMap::<String>::new().marshal_json(), "{}");
    assert_eq!(JsonMap::<bool>::new().marshal_json(), "{}");
    assert_eq!(JsonMap::<i64>::new().marshal_json(), "{}");
    assert_eq!(JsonMap::<Decimal>::new().marshal_json(), "{}");
    assert_eq!(JsonMap::<Option<i64>>::new().marshal_json(), "{}");

    assert_eq!(JsonObject(Vec::new()).marshal_json(), "{}");
}

#[test]
fn marshal_single_int_object_test() {
    let mut m: JsonMap<i64> = JsonMap::new();
    m.insert("a".to_owned(), 0);
    assert_eq!(m.marshal_json(), r#"{"a": 0}"#);
}

#[test]
fn marshal_int_object_test() {
    let expect = [r#"{"a": 0, "b": 1}"#, r#"{"b": 1, "a": 0}"#];
    let mut m: JsonMap<i64> = JsonMap::new();
    m.insert("a".to_owned(), 0);
    m.insert("b".to_owned(), 1);
    assert!(expect.contains(&m.marshal_json().as_str()))
}

#[test]
fn marshal_unicode_key_object_test() {
    let mut m: JsonMap<i64> = JsonMap::new();
    m.insert("\u{1F980}".to_owned(), 0);
    assert_eq!(m.marshal_json(), r#"{"\ud83e\udd80": 0}"#);
}

#[test]
fn marshal_empty_list_test() {
    assert_eq!(Vec::<JsonMap<i64>>::new().marshal_json(), "[]");
    assert_eq!(Vec::<Vec<i64>>::new().marshal_json(), "[]");
    assert_eq!(Vec::<String>::new().marshal_json(), "[]");
    assert_eq!(Vec::<bool>::new().marshal_json(), "[]");
    assert_eq!(Vec::<i64>::new().marshal_json(), "[]");
    assert_eq!(Vec::<Decimal>::new().marshal_json(), "[]");

    assert_eq!(JsonList(Vec::new()).marshal_json(), "[]");
}

#[test]
fn marshal_int_list_test() {
    assert_eq!(
        (1..=10).collect::<Vec<i64>>().marshal_json(),
        "[1, 2, 3, 4, 5, 6, 7, 8, 9, 10]"
    );
}

#[test]
fn marshal_float_list_test() {
    let whole: Vec<Decimal> = vec![
        dec(false, vec![1], 0),
        dec(false, vec![2], 0),
        dec(false, vec![3], 0),
        dec(false, vec![4], 0),
        dec(false, vec![5], 0),
        dec(false, vec![6], 0),
        dec(false, vec![7], 0),
        dec(false, vec![8], 0),
        dec(false, vec![9], 0),
        dec(false, vec![1, 0], 0),
    ];
    assert_eq!(whole.marshal_json(), "[1, 2, 3, 4, 5, 6, 7, 8, 9, 10]");
}

#[test]
fn marshal_float_half_list_test() {
    let halves: Vec<Decimal> = vec![
        dec(false, vec![1, 5], -1),
        dec(false, vec![2, 5], -1),
        dec(false, vec![3, 5], -1),
        dec(false, vec![4, 5], -1),
        dec(false, vec![5, 5], -1),
        dec(false, vec![6, 5], -1),
        dec(false, vec![7, 5], -1),
        dec(false, vec![8, 5], -1),
        dec(false, vec![9, 5], -1),
        dec(false, vec![1, 0, 5], -1),
    ];
    assert_eq!(
        halves.marshal_json(),
        "[1.5, 2.5, 3.5, 4.5, 5.5, 6.5, 7.5, 8.5, 9.5, 10.5]"
    );
}

#[test]
fn marshal_str_list_test() {
    assert_eq!(
        (1..=10).map(|i| i.to_string()).collect::<Vec<String>>().marshal_json(),
        r#"["1", "2", "3", "4", "5", "6", "7", "8", "9", "10"]"#
    );
}

#[test]
fn marshal_optional_int_list_test() {
    assert_eq!(
        vec![Some(1i64), None, Some(3i64)].marshal_json(),
        "[1, null, 3]"
    );
}

#[test]
fn marshal_mixed_list_element_test() {
    assert_eq!(
        JsonList(vec![
            JsonObject(Vec::new()),
            JsonList(Vec::new()),
            JsonString(String::new()),
            JsonInt(1),
            JsonFloat(dec(false, vec![2, 5], -1)),
            JsonBool(true),
            JsonBool(false),
            JsonNull,
        ])
        .marshal_json(),
        r#"[{}, [], "", 1, 2.5, true, false, null]"#
    );
}

#[test]
fn marshal_legacy_element_test() {
    assert_eq!(JsonInt(7).marshal(), "7");
    assert_eq!(JsonNull.marshal(), "null");
}

#[test]
fn escape_and_quote_test() {
    assert_eq!(json::marshal::string::escape_and_quote("a/b"), r#""a\/b""#);
    assert_eq!(json::marshal::string::escape_and_quote("\t"), r#""\t""#);
}
