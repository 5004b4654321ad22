use fpb::extract::extract_command;

#[test]
fn round_trip_returns_the_command_verbatim() {
    assert_eq!(
        extract_command("{\"command\": \"print('hello')\"}"),
        Some("print('hello')".to_string())
    );
    assert_eq!(
        extract_command("{\"command\": \"a = 1\\nprint(a)\"}"),
        Some("a = 1\\nprint(a)".to_string())
    );
}

#[test]
fn surrounding_whitespace_is_trimmed() {
    assert_eq!(
        extract_command("  \r\n {\"command\": \"x\"} \r\n "),
        Some("x".to_string())
    );
    assert_eq!(
        extract_command("{ \"command\" :\t\"x\" }"),
        None,
        "a space before the key's colon defeats the prefix check"
    );
    assert_eq!(
        extract_command("{ \"command\": \"x\" }"),
        Some("x".to_string())
    );
}

#[test]
fn bare_tokens_are_taken_as_they_stand() {
    assert_eq!(extract_command("{\"command\": 42}"), Some("42".to_string()));
    assert_eq!(extract_command("{\"command\": true}"), Some("true".to_string()));
}

#[test]
fn empty_values_come_back_empty() {
    assert_eq!(extract_command("{\"command\": \"\"}"), Some(String::new()));
    assert_eq!(extract_command("{\"command\":}"), Some(String::new()));
}

#[test]
fn a_lone_quote_is_a_bare_token() {
    assert_eq!(extract_command("{\"command\": \"}"), Some("\"".to_string()));
}

#[test]
fn malformed_bodies_yield_no_command() {
    assert_eq!(extract_command(""), None);
    assert_eq!(extract_command("not-json"), None);
    assert_eq!(extract_command("{}"), None);
    assert_eq!(extract_command("{\"cmd\": \"x\"}"), None);
    assert_eq!(extract_command("{\"Command\": \"x\"}"), None);
    assert_eq!(extract_command("\"command\": \"x\""), None);
    assert_eq!(extract_command("{\"command\": \"x\""), None);
}

#[test]
fn quotes_inside_a_quoted_value_are_kept() {
    assert_eq!(
        extract_command("{\"command\": \"print(\\\"hi\\\")\"}"),
        Some("print(\\\"hi\\\")".to_string())
    );
}
