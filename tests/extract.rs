use repo_topics::error::ExtractError;
use repo_topics::json::{extract_topics, find_field, Json};

fn text(s: &str) -> Json {
    Json::Str(s.to_string())
}

fn object(members: Vec<(&str, Json)>) -> Json {
    Json::Object(members.into_iter().map(|(k, v)| (k.to_string(), v)).collect())
}

#[test]
fn topics_are_read_in_order() {
    let payload = object(vec![
        ("name", text("libc")),
        ("topics", Json::Array(vec![text("a"), text("b")])),
    ]);
    assert_eq!(extract_topics(&payload), Ok(vec!["a".to_string(), "b".to_string()]));
}

#[test]
fn empty_topics_array_gives_no_values() {
    let payload = object(vec![("topics", Json::Array(vec![]))]);
    assert_eq!(extract_topics(&payload), Ok(vec![]));
}

#[test]
fn missing_field_is_reported() {
    let payload = object(vec![("name", text("x"))]);
    assert_eq!(extract_topics(&payload), Err(ExtractError::FieldMissing));
}

#[test]
fn payload_that_is_not_an_object_has_no_field() {
    assert_eq!(extract_topics(&Json::Array(vec![text("a")])), Err(ExtractError::FieldMissing));
    assert_eq!(extract_topics(&Json::Null), Err(ExtractError::FieldMissing));
}

#[test]
fn field_that_is_not_an_array_is_reported() {
    let payload = object(vec![("topics", text("a"))]);
    assert_eq!(extract_topics(&payload), Err(ExtractError::FieldType));
}

#[test]
fn non_string_element_is_reported() {
    let payload = object(vec![(
        "topics",
        Json::Array(vec![Json::Number("1".to_string()), Json::Number("2".to_string())]),
    )]);
    assert_eq!(extract_topics(&payload), Err(ExtractError::ElementType));
    let mixed = object(vec![("topics", Json::Array(vec![text("a"), Json::Bool(true)]))]);
    assert_eq!(extract_topics(&mixed), Err(ExtractError::ElementType));
}

#[test]
fn first_member_with_the_name_is_found() {
    let fields = vec![
        ("a".to_string(), text("1")),
        ("b".to_string(), text("2")),
        ("b".to_string(), text("3")),
    ];
    assert_eq!(find_field(&fields, &"b".to_string()), Some(&text("2")));
    assert_eq!(find_field(&fields, &"c".to_string()), None);
}
