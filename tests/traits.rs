use mathling::primitives::{REPDATA, TOKEN, TOKENTYPE};
use mathling::traits::{extract_payload, OptionStringify, Stringify};

#[test]
fn check_extraction_of_option() {
    let option_type_1: Option<usize> = Some(1);
    let option_type_2: Option<&str> = Some("WOWIE");
    let option_type_3: Option<usize> = None;

    assert_eq!("1", option_type_1.option_as_string());
    assert_eq!("WOWIE", option_type_2.option_as_string());
    assert_eq!("", option_type_3.option_as_string());
}

#[test]
fn check_token_as_string() {
    let check_1: TOKEN = TOKENTYPE::PRINT.into();
    let check_2: TOKEN = TOKENTYPE::RPAREN.into();
    let check_3: TOKEN = TOKENTYPE::STRING.into();

    assert_eq!(r#"PRINT"#, check_1.as_string());
    assert_eq!("RPAREN", check_2.as_string());
    assert_eq!(r#"Some(STRING(""))"#, check_3.as_string());
}

#[test]
fn option_of_large_number_gives_its_digits() {
    let v: Option<usize> = Some(9071);
    assert_eq!("9071", v.option_as_string());
    let zero: Option<usize> = Some(0);
    assert_eq!("0", zero.option_as_string());
}

#[test]
fn option_of_text_keeps_escapes_inside_quotes() {
    // The Debug text of a"b is "a\"b"; only the outer quotes go.
    let v: Option<&str> = Some("a\"b");
    assert_eq!("a\\\"b", v.option_as_string());
    let none: Option<&str> = None;
    assert_eq!("", none.option_as_string());
}

#[test]
fn payload_extraction_edge_cases() {
    assert_eq!("7", extract_payload("Some(7)"));
    assert_eq!("x", extract_payload("Some(\"\"x\"\")"));
    assert_eq!("", extract_payload("no brackets"));
    assert_eq!("", extract_payload(")("));
    assert_eq!("", extract_payload("()"));
    assert_eq!("b", extract_payload("a(b)c)"));
}

#[test]
fn token_strings_show_values() {
    let t = TOKEN { kind: TOKENTYPE::RETURN, value: Some(REPDATA::IINT(-42)) };
    assert_eq!("Some(IINT(-42))", t.as_string());
    let u = TOKEN { kind: TOKENTYPE::STRING, value: Some(REPDATA::UINT(305)) };
    assert_eq!("Some(UINT(305))", u.as_string());
    let s = TOKEN { kind: TOKENTYPE::STRING, value: Some(REPDATA::STRING("hi".to_string())) };
    assert_eq!("Some(STRING(\"hi\"))", s.as_string());
    let r = TOKEN { kind: TOKENTYPE::RETURN, value: None };
    assert_eq!("None", r.as_string());
    let f: TOKEN = TOKENTYPE::FUNCTION.into();
    assert_eq!("FUNCTION", Stringify::as_string(&f));
    let l: TOKEN = TOKENTYPE::LPAREN.into();
    assert_eq!("LPAREN", l.as_string());
    let n: TOKEN = TOKENTYPE::NULL.into();
    assert_eq!("NULL", n.as_string());
    assert!(n.value.is_none());
}
