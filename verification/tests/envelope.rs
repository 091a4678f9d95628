//! The plugin envelope and the sandbox's adjudication.

use edge_agent_core::json::Json;
use edge_agent_core::plugin::abi::{
    pack_ptr_len, unpack_ptr_len, ContextView, HostCallRequest, PluginInput, PluginOutput,
};
use edge_agent_core::plugin::runtime;
use edge_agent_core::plugin::bridge::Warden;
use edge_agent_core::plugin::runtime::{Bridge, HostBridge, NullBridge};

#[test]
fn pack_and_unpack_roundtrip() {
    assert_eq!(unpack_ptr_len(0), None);

    let ptr = 0x1234_5678;
    let len = 0x0000_0042;
    let packed = pack_ptr_len(ptr, len);
    let unpacked = unpack_ptr_len(packed);
    assert_eq!(unpacked, Some((ptr, len)));

    // Max values for 32-bit fields
    let max_ptr = u32::MAX;
    let max_len = u32::MAX;
    let packed_max = pack_ptr_len(max_ptr, max_len);
    assert_eq!(unpack_ptr_len(packed_max), Some((max_ptr, max_len)));
}

#[test]
fn packed_values() {
    assert_eq!(pack_ptr_len(1, 2), 0x1_0000_0002);
    assert_eq!(pack_ptr_len(u32::MAX, u32::MAX), -1);
    assert_eq!(unpack_ptr_len(i64::MIN), Some((0x8000_0000, 0)));
}

#[test]
fn plugin_input_serialization() {
    let input = PluginInput {
        kind: "tool".to_string(),
        hook: None,
        event: Some(Json::parse("{\"kind\":\"command\"}").unwrap()),
        context: Some(vec![ContextView {
            role: "user".to_string(),
            content: "ping".to_string(),
        }]),
        args: Json::parse("{\"param\":1}").unwrap(),
    };
    let s = input.to_json().text;
    assert!(s.contains("\"kind\":\"tool\""));
    assert!(s.contains("\"context\":"));
    assert!(!s.contains("\"hook\"")); // None skipped
    assert_eq!(
        s,
        "{\"kind\":\"tool\",\"event\":{\"kind\":\"command\"},\"context\":[{\"role\":\"user\",\"content\":\"ping\"}],\"args\":{\"param\":1}}"
    );
}

#[test]
fn absent_parts_of_an_input_are_left_out() {
    let input = PluginInput {
        kind: "hook".to_string(),
        hook: Some("pre_task".to_string()),
        event: None,
        context: None,
        args: Json::null(),
    };
    assert_eq!(input.to_json().text, "{\"kind\":\"hook\",\"hook\":\"pre_task\"}");
}

#[test]
fn plugin_output_deserialization_and_strict_check() {
    // Valid
    let json_ok = r#"{
            "ok": true,
            "result": { "temperature": 25.5 },
            "reply": "Room is warm"
        }"#;
    let out = PluginOutput::from_json(json_ok).unwrap();
    assert!(out.ok);
    assert_eq!(out.reply.as_deref(), Some("Room is warm"));
    assert_eq!(out.result.get("temperature").unwrap().text, "25.5");

    // Unknown field must be rejected
    let json_invalid = r#"{
            "ok": true,
            "extra_field": "disallowed"
        }"#;
    assert!(PluginOutput::from_json(json_invalid).is_none());
}

#[test]
fn outputs_that_violate_the_envelope() {
    for document in [
        "{}",
        "{\"ok\":1}",
        "{\"ok\":true,\"reply\":5}",
        "{\"ok\":true,\"ok\":false}",
        "[]",
        "true",
        "{\"ok\":true",
    ] {
        assert!(PluginOutput::from_json(document).is_none(), "{}", document);
    }
    let out = PluginOutput::from_json("{\"ok\":false,\"error\":\"e\",\"decision\":null}").unwrap();
    assert!(!out.ok);
    assert_eq!(out.error.as_deref(), Some("e"));
    assert_eq!(out.decision, None);
    assert!(out.result.is_null());
    // The positional form of the envelope.
    let out = PluginOutput::from_json("[true,7,\"rule\"]").unwrap();
    assert!(out.ok);
    assert_eq!(out.result.text, "7");
    assert_eq!(out.decision.as_deref(), Some("rule"));
}

#[test]
fn output_constructors() {
    let out = PluginOutput::rule("yes");
    assert!(out.ok);
    assert_eq!(out.decision.as_deref(), Some("rule"));
    assert_eq!(out.reply.as_deref(), Some("yes"));
    let out = PluginOutput::fail("broken");
    assert!(!out.ok);
    assert_eq!(out.error.as_deref(), Some("broken"));
    let out = PluginOutput::model();
    assert_eq!(out.decision.as_deref(), Some("model"));
    assert_eq!(out.reply, None);
    let out = PluginOutput::result(Json::string("r"));
    assert_eq!(out.result.text, "\"r\"");
}

#[test]
fn host_call_request_deserialization() {
    let json = r#"{
            "cap": "device:buzzer",
            "op": "beep",
            "args": { "frequency": 440 }
        }"#;
    let req = HostCallRequest::from_json(json).unwrap();
    assert_eq!(req.cap, "device:buzzer");
    assert_eq!(req.op.as_deref(), Some("beep"));
    assert_eq!(req.args.get("frequency").unwrap().text, "440");
}

#[test]
fn requests_need_a_capability() {
    assert!(HostCallRequest::from_json("{\"op\":\"on\"}").is_none());
    assert!(HostCallRequest::from_json("{\"cap\":null}").is_none());
    assert!(HostCallRequest::from_json("{\"cap\":\"c\",\"why\":1}").is_none());
    let req = HostCallRequest::from_json("{\"cap\":\"c\"}").unwrap();
    assert_eq!(req.op, None);
    assert!(req.args.is_null());
}

struct Echo;

impl HostBridge for Echo {
    fn call(
        &self,
        plugin: &str,
        cap: &str,
        op: Option<&str>,
        args: &Json,
    ) -> Result<Json, String> {
        Ok(Json::string(&format!("{}|{}|{:?}|{}", plugin, cap, op, args.text)))
    }
}

#[test]
fn only_declared_capabilities_reach_the_bridge() {
    let caps = vec!["device:relay0".to_string()];
    let raw = b"{\"cap\":\"device:relay0\",\"op\":\"on\",\"args\":{\"n\":1}}";
    let mut warden = Warden::new("lamp", &caps, Bridge::new(Echo));
    let ok = warden.answer(raw).unwrap();
    assert_eq!(
        ok.as_str().unwrap(),
        "lamp|device:relay0|Some(\"on\")|{\"n\":1}"
    );
    let raw = b"{\"cap\":\"device:relay1\"}";
    let err = warden.answer(raw).unwrap_err();
    assert_eq!(err, "capability 'device:relay1' not declared in manifest — denied");
    let err = warden.answer(b"nonsense").unwrap_err();
    assert_eq!(err, "host_call payload violates HostCallRequest");
    let err = warden.answer(&[0xff, 0xfe]).unwrap_err();
    assert_eq!(err, "host_call payload violates HostCallRequest");
    let mut null = Warden::new("lamp", &caps, Bridge::new(NullBridge));
    let raw = b"{\"cap\":\"device:relay0\"}";
    let err = null.answer(raw).unwrap_err();
    assert_eq!(err, "no provider registered for capability 'device:relay0'");
}

#[test]
fn responses_to_the_guest() {
    let ok = runtime::host_response(&Ok(Json::string("d")));
    assert_eq!(ok.text, "{\"data\":\"d\",\"ok\":true}");
    let err = runtime::host_response(&Err("no".to_string()));
    assert_eq!(err.text, "{\"error\":\"no\",\"ok\":false}");
}

#[test]
fn answers_are_checked_before_they_are_read() {
    assert_eq!(runtime::check_allocated(0).unwrap_err(), "guest allocator returned null");
    assert_eq!(runtime::check_allocated(-8).unwrap_err(), "guest allocator returned null");
    assert_eq!(runtime::check_allocated(8), Ok(8));
    assert_eq!(runtime::check_answer(0).unwrap_err(), "plugin reported internal error");
    let cap = 1024 * 1024;
    assert_eq!(runtime::check_answer(pack_ptr_len(16, cap)), Ok((16, cap)));
    assert_eq!(
        runtime::check_answer(pack_ptr_len(16, cap + 1)).unwrap_err(),
        "plugin output exceeds 1MiB cap"
    );
    assert!(runtime::read_answer(b"{\"ok\":true}").unwrap().ok);
    assert_eq!(
        runtime::read_answer(&[0x7b, 0xff]).unwrap_err(),
        "plugin output violates the PluginOutput envelope"
    );
}

#[test]
fn log_lines_name_the_plugin() {
    assert_eq!(runtime::format_log("lamp", "灯 on".as_bytes()), "[plugin:lamp] 灯 on");
    assert_eq!(runtime::format_log("lamp", &[0x61, 0xff]), "[plugin:lamp] a\u{fffd}");
}
