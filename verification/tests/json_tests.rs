use chat_relay::json::is_json_text;

fn valid(s: &str) -> bool {
    let v: Vec<char> = s.chars().collect();
    is_json_text(&v)
}

#[test]
fn accepts_simple_values() {
    assert!(valid("null"));
    assert!(valid("true"));
    assert!(valid("false"));
    assert!(valid("0"));
    assert!(valid("-1"));
    assert!(valid("12.50"));
    assert!(valid("6.02e23"));
    assert!(valid("2E-2"));
    assert!(valid("\"\""));
    assert!(valid("\"hello\""));
    assert!(valid("{}"));
    assert!(valid("[]"));
}

#[test]
fn accepts_nested_values() {
    assert!(valid("{\"id\":\"x\",\"choices\":[{\"message\":{\"role\":\"assistant\",\"content\":\"hello\"}}]}"));
    assert!(valid(" [ 1 , [ 2 , { \"a\" : [ ] } ] , null ] "));
    assert!(valid("{\"a\":{\"b\":{\"c\":[true,false,null]}}}"));
}

#[test]
fn accepts_string_escapes() {
    assert!(valid("\"a\\n\\t\\\"b\\\\c\\/d\""));
    assert!(valid("\"\\u0041\\u00e9\\uBEEF\""));
}

#[test]
fn accepts_surrounding_whitespace() {
    assert!(valid("  \t\r\n {\"a\":1} \n "));
}

#[test]
fn rejects_non_json_words() {
    assert!(!valid("not json"));
    assert!(!valid("hello"));
    assert!(!valid(""));
    assert!(!valid("   "));
    assert!(!valid("nul"));
    assert!(!valid("truee"));
}

#[test]
fn rejects_malformed_structures() {
    assert!(!valid("{"));
    assert!(!valid("}"));
    assert!(!valid("{\"a\":}"));
    assert!(!valid("{\"a\" 1}"));
    assert!(!valid("{a:1}"));
    assert!(!valid("[1,]"));
    assert!(!valid("[1 2]"));
    assert!(!valid("{\"a\":1,}"));
    assert!(!valid("[1,2"));
}

#[test]
fn rejects_malformed_numbers() {
    assert!(!valid("01"));
    assert!(!valid("1."));
    assert!(!valid("-"));
    assert!(!valid("--1"));
    assert!(!valid("1e"));
    assert!(!valid("+1"));
    assert!(!valid(".5"));
}

#[test]
fn rejects_malformed_strings() {
    assert!(!valid("\"unterminated"));
    assert!(!valid("\"bad \\x escape\""));
    assert!(!valid("\"\\u12\""));
    assert!(!valid("\"raw \n newline\""));
}

#[test]
fn rejects_trailing_content() {
    assert!(!valid("{} {}"));
    assert!(!valid("1 2"));
    assert!(!valid("null,"));
}

#[test]
fn agrees_with_serde_json() {
    let cases = [
        "null", "true", "false", "0", "-0", "3.14", "1e10", "\"a\"", "{}", "[]",
        "{\"a\":[1,2,{\"b\":\"c\"}]}", " [ ] ", "\"\\u0000\"", "\"\\\\\"",
        "not json", "hello", "", "{", "[1,]", "{\"a\":}", "01", "1.", "\"\\q\"",
        "{} []", "nan", "Infinity", "'a'", "[\"a\" \"b\"]",
    ];
    for c in cases {
        let ours = valid(c);
        let serde = serde_json::from_str::<serde_json::Value>(c).is_ok();
        assert_eq!(ours, serde, "disagreement on {:?}", c);
    }
}
