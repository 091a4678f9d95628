//! What the model may answer with.

use edge_agent_core::kernel::command::{parse_model_command, CommandError};

#[test]
fn parse_valid_reply_command() {
    let raw = r#"{"reply": "Hello, how can I help you?"}"#;
    let cmd = parse_model_command(raw).unwrap();
    assert_eq!(cmd.reply.as_deref(), Some("Hello, how can I help you?"));
    assert_eq!(cmd.tool, None);
}

#[test]
fn parse_valid_tool_command() {
    let raw = r#"{"tool": "turn_light_on", "args": {"brightness": 80}}"#;
    let cmd = parse_model_command(raw).unwrap();
    assert_eq!(cmd.reply, None);
    assert_eq!(cmd.tool.as_deref(), Some("turn_light_on"));
    assert_eq!(cmd.args.get("brightness").unwrap().text, "80");
}

#[test]
fn parse_with_markdown_fences() {
    let raw = "Here is the response:\n```json\n{\"reply\": \"Done!\"}\n```\nHope that helps.";
    let cmd = parse_model_command(raw).unwrap();
    assert_eq!(cmd.reply.as_deref(), Some("Done!"));
}

#[test]
fn parse_invalid_shapes() {
    // Both reply and tool
    let raw_both = r#"{"reply": "hi", "tool": "test", "args": {}}"#;
    assert!(parse_model_command(raw_both).is_err());

    // Neither reply nor tool
    let raw_neither = r#"{"args": {}}"#;
    assert!(parse_model_command(raw_neither).is_err());

    // Unknown field
    let raw_unknown = r#"{"reply": "hi", "extra": 123}"#;
    assert!(parse_model_command(raw_unknown).is_err());

    // Not a JSON
    let raw_not_json = "I cannot fulfill this request.";
    assert!(parse_model_command(raw_not_json).is_err());
}

#[test]
fn every_refusal_has_its_reason() {
    let fail = |raw: &str| parse_model_command(raw).unwrap_err();
    assert_eq!(fail("no braces"), CommandError::NoObject);
    assert_eq!(fail("{ open"), CommandError::NoObject);
    assert_eq!(fail("close }"), CommandError::NoObject);
    assert_eq!(fail("} {"), CommandError::Bounds);
    assert_eq!(fail("{reply}"), CommandError::Shape);
    assert_eq!(fail("{\"reply\":1}"), CommandError::Shape);
    assert_eq!(fail("{\"reply\":null}"), CommandError::Choice);
    assert_eq!(fail("{}"), CommandError::Choice);
    assert_eq!(CommandError::Choice.message(), "command must set exactly one of reply/tool");
    assert_eq!(CommandError::NoObject.message(), "no JSON object in output");
    assert_eq!(CommandError::Bounds.message(), "malformed JSON bounds");
}

#[test]
fn fingerprints_tell_actions_apart() {
    let print = |raw: &str| parse_model_command(raw).unwrap().fingerprint();
    assert_eq!(print("{\"reply\":\"a\"}"), print("text {\"reply\": \"a\"}"));
    assert_ne!(print("{\"reply\":\"a\"}"), print("{\"tool\":\"a\"}"));
    assert_ne!(print("{\"tool\":\"a\",\"args\":1}"), print("{\"tool\":\"a\",\"args\":2}"));
    assert_eq!(
        print("{\"tool\":\"a\",\"args\":{\"x\":1,\"y\":2}}"),
        print("{\"args\":{\"y\":2,\"x\":1},\"tool\":\"a\"}")
    );
}
