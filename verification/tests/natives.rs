//! Native plugins.

use edge_agent_core::json::Json;
use edge_agent_core::plugin::abi::{PluginInput, PluginOutput};
use edge_agent_core::plugin::native::{FnMutPlugin, FnPlugin, NativePlugin, NativeRegistry};

fn input(kind: &str) -> PluginInput {
    PluginInput {
        kind: kind.into(),
        hook: None,
        event: None,
        context: None,
        args: Json::null(),
    }
}

#[test]
fn closure_plugin_registration_and_invoke() {
    let mut reg = NativeRegistry::default();
    reg.register_tool("relay", &["device:relay0"], FnPlugin::new(|_in: &PluginInput| {
        Ok(PluginOutput::reply("clicked"))
    }));
    assert!(reg.contains("relay"));
    assert_eq!(reg.tool_names(), vec!["relay"]);
    assert_eq!(
        reg.tool_devices("relay"),
        Some(vec!["device:relay0".to_string()])
    );
    let out = reg.invoke("relay", &input("tool")).unwrap();
    assert!(out.ok);
    assert_eq!(out.reply.as_deref(), Some("clicked"));
}

#[test]
fn strategy_and_hook_queries() {
    let mut reg = NativeRegistry::default();
    reg.register_strategy("router-b", FnPlugin::new(|_: &PluginInput| Ok(PluginOutput::model())));
    reg.register_strategy("router-a", FnPlugin::new(|_: &PluginInput| Ok(PluginOutput::model())));
    reg.register_hook(
        "audit",
        &["post_task", "on_degrade"],
        FnPlugin::new(|_: &PluginInput| Ok(PluginOutput::result(Json::null()))),
    );
    // Deterministic pick: lexicographically first.
    assert_eq!(reg.strategy_name().as_deref(), Some("router-a"));
    assert_eq!(reg.hooks_for("post_task"), vec!["audit"]);
    assert_eq!(reg.hooks_for("pre_task"), Vec::<String>::new());
    // Strategy is not a tool.
    assert_eq!(reg.tool_devices("router-a"), None);
}

#[test]
fn invoke_unknown_plugin_errors() {
    let mut reg = NativeRegistry::default();
    assert!(reg.invoke("ghost", &input("tool")).is_err());
    assert_eq!(
        reg.invoke("ghost", &input("tool")).unwrap_err(),
        "native plugin 'ghost' not registered"
    );
}

#[test]
fn stateful_struct_plugin() {
    struct Counter {
        n: u32,
    }
    impl NativePlugin for Counter {
        fn handle(&mut self, _input: &PluginInput) -> Result<PluginOutput, String> {
            self.n += 1;
            Ok(PluginOutput::result(
                Json::parse(&format!("{{\"count\":{}}}", self.n)).unwrap(),
            ))
        }
    }
    let mut reg = NativeRegistry::default();
    reg.register_tool("counter", &[], Counter { n: 0 });
    reg.invoke("counter", &input("tool")).unwrap();
    let out = reg.invoke("counter", &input("tool")).unwrap();
    assert_eq!(out.result.get("count").unwrap().text, "2");
}

#[test]
fn a_second_registration_replaces_the_first() {
    let mut reg = NativeRegistry::default();
    reg.register_tool("x", &["device:a"], FnPlugin::new(|_: &PluginInput| {
        Ok(PluginOutput::reply("old"))
    }));
    reg.register_strategy("x", FnPlugin::new(|_: &PluginInput| Ok(PluginOutput::rule("new"))));
    assert_eq!(reg.tool_devices("x"), None);
    assert!(reg.tool_names().is_empty());
    assert_eq!(reg.strategy_name().as_deref(), Some("x"));
    assert_eq!(reg.invoke("x", &input("strategy")).unwrap().reply.as_deref(), Some("new"));
}

#[test]
fn closures_may_keep_a_state() {
    let mut calls: u32 = 0;
    let mut reg = NativeRegistry::default();
    reg.register_tool("count", &[], FnMutPlugin::new(move |_: &PluginInput| {
        calls += 1;
        Ok(PluginOutput::reply(&format!("{calls}")))
    }));
    assert_eq!(reg.invoke("count", &input("tool")).unwrap().reply.as_deref(), Some("1"));
    assert_eq!(reg.invoke("count", &input("tool")).unwrap().reply.as_deref(), Some("2"));
}
