use border_sim::decision::{parse_decision, ParseError};

#[test]
fn test_parse_decision_clean() {
    let raw = r#"{"decision": "FAILED_RUDE", "reason": "The user was hostile"}"#;
    let d = parse_decision(raw).unwrap();
    assert_eq!(d.decision, "FAILED_RUDE");
}

#[test]
fn test_parse_decision_with_think() {
    let raw = r#"<think>The user refused to show their passport and was rude.</think>
{"decision": "FAILED_RUDE", "reason": "Refused passport and was hostile"}"#;
    let d = parse_decision(raw).unwrap();
    assert_eq!(d.decision, "FAILED_RUDE");
    assert!(d.reason.contains("hostile"));
}

#[test]
fn test_parse_decision_with_surrounding_text() {
    let raw = r#"Here is my judgement:
<think>thinking hard...</think>
Based on the interaction, {"decision":"PASSPORT_CHECK","reason":"Cooperated nicely"}. That is my verdict."#;
    let d = parse_decision(raw).unwrap();
    assert_eq!(d.decision, "PASSPORT_CHECK");
}

#[test]
fn think_block_then_object_with_prose() {
    let raw = "<think>reasoning</think>\nHere: {\"decision\":\"PASSPORT_CHECK\",\"reason\":\"Cooperated\"}. Done.";
    let d = parse_decision(raw).unwrap();
    assert_eq!(d.decision, "PASSPORT_CHECK");
    assert_eq!(d.reason, "Cooperated");
}

#[test]
fn no_braces_is_no_json_found() {
    assert_eq!(parse_decision("I will not answer in JSON.").unwrap_err(), ParseError::NoJsonFound);
    assert_eq!(parse_decision("").unwrap_err(), ParseError::NoJsonFound);
    assert_eq!(parse_decision("}}} {{{").unwrap_err(), ParseError::NoJsonFound);
}

#[test]
fn missing_field_is_malformed() {
    let raw = r#"{"decision": "A"}"#;
    assert_eq!(parse_decision(raw).unwrap_err(), ParseError::MalformedJson);
}

#[test]
fn wrong_typed_field_is_malformed() {
    let raw = r#"{"decision": 17, "reason": "ok"}"#;
    assert_eq!(parse_decision(raw).unwrap_err(), ParseError::MalformedJson);
    let raw2 = r#"{"decision": "A", "reason": null}"#;
    assert_eq!(parse_decision(raw2).unwrap_err(), ParseError::MalformedJson);
}

#[test]
fn duplicate_field_is_malformed() {
    let raw = r#"{"decision": "A", "decision": "B", "reason": "ok"}"#;
    assert_eq!(parse_decision(raw).unwrap_err(), ParseError::MalformedJson);
}

#[test]
fn empty_object_is_malformed() {
    assert_eq!(parse_decision("so: {} there").unwrap_err(), ParseError::MalformedJson);
}

#[test]
fn first_flat_span_wins() {
    // The first flat span of `{{"a":1}` is `{"a":1}`, which lacks the fields.
    let raw = r#"{{"a":1} and then {"decision":"A","reason":"B"}"#;
    assert_eq!(parse_decision(raw).unwrap_err(), ParseError::MalformedJson);
}

#[test]
fn object_inside_think_span_is_ignored() {
    let raw = "<think>{\"decision\":\"X\",\"reason\":\"no\"}</think>{\"decision\":\"A\",\"reason\":\"B\"}";
    let d = parse_decision(raw).unwrap();
    assert_eq!(d.decision, "A");
    assert_eq!(d.reason, "B");
}

#[test]
fn several_think_spans_are_all_stripped() {
    let raw = "<think>one</think>mid<think>{\"x\":}</think>{\"decision\":\"GO\",\"reason\":\"r\"}";
    let d = parse_decision(raw).unwrap();
    assert_eq!(d.decision, "GO");
}

#[test]
fn unclosed_think_span_is_kept() {
    // Without a closing tag nothing is stripped, so the object inside the
    // unclosed span is found.
    let raw = "<think>{\"decision\":\"A\",\"reason\":\"B\"}";
    let d = parse_decision(raw).unwrap();
    assert_eq!(d.decision, "A");
}

#[test]
fn string_escapes_are_decoded() {
    let raw = r#"{"decision":"A\nB","reason":"a \"quote\" and \\ and \/ and \t"}"#;
    let d = parse_decision(raw).unwrap();
    assert_eq!(d.decision, "A\nB");
    assert_eq!(d.reason, "a \"quote\" and \\ and / and \t");
}

#[test]
fn unicode_escapes_are_decoded() {
    let raw = r#"{"decision":"A\u00e9","reason":"\uD83D\uDE00"}"#;
    let d = parse_decision(raw).unwrap();
    assert_eq!(d.decision, "A\u{e9}");
    assert_eq!(d.reason, "\u{1F600}");
}

#[test]
fn lone_surrogate_is_malformed() {
    let raw = r#"{"decision":"\uD83D","reason":"x"}"#;
    assert_eq!(parse_decision(raw).unwrap_err(), ParseError::MalformedJson);
}

#[test]
fn control_character_in_string_is_malformed() {
    let raw = "{\"decision\":\"a\nb\",\"reason\":\"x\"}";
    assert_eq!(parse_decision(raw).unwrap_err(), ParseError::MalformedJson);
}

#[test]
fn extra_fields_are_tolerated() {
    let raw = r#"{"confidence": 0.75, "decision": "A", "tags": [1, [true, null], "s"], "reason": "B"}"#;
    let d = parse_decision(raw).unwrap();
    assert_eq!(d.decision, "A");
    assert_eq!(d.reason, "B");
}

#[test]
fn bad_number_in_extra_field_is_malformed() {
    let raw = r#"{"decision":"A","reason":"B","n": 01}"#;
    assert_eq!(parse_decision(raw).unwrap_err(), ParseError::MalformedJson);
}

#[test]
fn trailing_comma_is_malformed() {
    let raw = r#"{"decision":"A","reason":"B",}"#;
    assert_eq!(parse_decision(raw).unwrap_err(), ParseError::MalformedJson);
}

#[test]
fn whitespace_everywhere_is_fine() {
    let raw = "{ \"decision\" :\t\"A\" ,\r\n \"reason\" : \"B\" }";
    let d = parse_decision(raw).unwrap();
    assert_eq!(d.decision, "A");
    assert_eq!(d.reason, "B");
}
