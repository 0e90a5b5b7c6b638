use asset_describer::json::{find_member, JsonMember, JsonValue};

fn text(s: &str) -> JsonValue {
    JsonValue::Text(s.to_string())
}

fn object(members: Vec<(&str, JsonValue)>) -> JsonValue {
    JsonValue::Object(
        members.into_iter().map(|(key, value)| JsonMember { key: key.to_string(), value }).collect(),
    )
}

#[test]
fn member_reads_by_key() {
    let doc = object(vec![("b", JsonValue::Number("1".to_string())), ("a", JsonValue::Null)]);
    assert_eq!(doc.member("b"), Some(&JsonValue::Number("1".to_string())));
    assert_eq!(doc.member("a"), Some(&JsonValue::Null));
    assert_eq!(doc.member("c"), None);
    assert_eq!(doc.member(""), None);
}

#[test]
fn member_compares_whole_keys() {
    let doc = object(vec![("choices", JsonValue::Bool(true))]);
    assert_eq!(doc.member("choice"), None);
    assert_eq!(doc.member("choices "), None);
    assert_eq!(doc.member("Choices"), None);
    assert_eq!(doc.member("choices"), Some(&JsonValue::Bool(true)));
}

#[test]
fn member_is_none_on_values_that_are_no_object() {
    assert_eq!(JsonValue::Null.member("a"), None);
    assert_eq!(JsonValue::Array(vec![]).member("a"), None);
    assert_eq!(text("a").member("a"), None);
    assert_eq!(JsonValue::Bool(true).member("a"), None);
    assert_eq!(JsonValue::Number("1".to_string()).member("a"), None);
}

#[test]
fn element_reads_by_position() {
    let doc = JsonValue::Array(vec![text("zero"), text("one")]);
    assert_eq!(doc.element(0), Some(&text("zero")));
    assert_eq!(doc.element(1), Some(&text("one")));
    assert_eq!(doc.element(2), None);
    assert_eq!(doc.element(usize::MAX), None);
}

#[test]
fn element_is_none_on_values_that_are_no_array() {
    assert_eq!(object(vec![]).element(0), None);
    assert_eq!(text("abc").element(0), None);
    assert_eq!(JsonValue::Null.element(0), None);
}

#[test]
fn as_text_reads_strings_only() {
    assert_eq!(text("hi").as_text(), Some(&"hi".to_string()));
    assert_eq!(text("").as_text(), Some(&String::new()));
    assert_eq!(JsonValue::Number("1".to_string()).as_text(), None);
    assert_eq!(JsonValue::Null.as_text(), None);
    assert_eq!(JsonValue::Array(vec![text("hi")]).as_text(), None);
}

#[test]
fn find_member_takes_the_first_match() {
    let members = vec![
        JsonMember { key: "k".to_string(), value: JsonValue::Bool(true) },
        JsonMember { key: "k".to_string(), value: JsonValue::Bool(false) },
    ];
    assert_eq!(find_member(&members, "k"), Some(&JsonValue::Bool(true)));
    assert_eq!(find_member(&members, "other"), None);
    assert_eq!(find_member(&Vec::new(), "k"), None);
}
