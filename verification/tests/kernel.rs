//! End-to-end runs of the kernel.

use base64::Engine;
use edge_agent_core::config::{BackendConfig, Config};
use edge_agent_core::context::ContextEntry;
use edge_agent_core::event::Event;
use edge_agent_core::inference::{InferenceBackend, UserInput};
use edge_agent_core::json::Json;
use edge_agent_core::kernel::driver::{Kernel, Pause};
use edge_agent_core::kernel::state::TaskOutcome;
use edge_agent_core::plugin::abi::{PluginInput, PluginOutput};
use edge_agent_core::plugin::manifest::{key_texts, Manifest};
use edge_agent_core::plugin::native::FnPlugin;
use edge_agent_core::plugin::registry::{PluginDir, VersionDir};
use edge_agent_core::plugin::runtime::{Bridge, HostBridge};
use std::sync::atomic::{AtomicUsize, Ordering};
use std::sync::{Arc, Mutex};

// Running a kernel.

fn command(payload: &str) -> Event {
    event("command", Json::string(payload), 1, "test")
}

fn event(kind: &str, payload: Json, priority: u8, source: &str) -> Event {
    Event {
        kind: kind.to_string(),
        payload,
        priority,
        source: source.to_string(),
    }
}

/// What stands in a plugin's directory.
fn listed(name: &str, versions: Result<Vec<VersionDir>, String>) -> PluginDir {
    PluginDir {
        name: name.to_string(),
        versions,
    }
}

/// Follows a run to its end without a disk: every list of versions is empty and
/// every file unreadable.
fn finish(kernel: &mut Kernel, pause: Pause) -> Option<TaskOutcome> {
    let mut pause = pause;
    loop {
        pause = match pause {
            Pause::Done { outcome } => return outcome,
            Pause::Rest => return None,
            Pause::ReadFile { .. } => kernel.resume_file(Err("no disk".to_string())),
            Pause::Ask { .. } => kernel.resume_model(Err("no network".to_string())),
            Pause::Disable { .. } | Pause::Reload { .. } => {
                kernel.resume_package(listed("gone", Err("no disk".to_string())))
            }
        };
    }
}

fn handle(kernel: &mut Kernel, e: Event) -> TaskOutcome {
    let pause = kernel.handle_event(e);
    finish(kernel, pause).unwrap()
}

/// A kernel that has started.
trait Up {
    fn up(self) -> Kernel;
}

impl Up for Result<(Kernel, Pause), String> {
    fn up(self) -> Kernel {
        let (mut kernel, pause) = self.expect("failed to initialize kernel");
        assert!(finish(&mut kernel, pause).is_none());
        assert!(kernel.is_resting());
        kernel
    }
}

fn stop(kernel: &mut Kernel) {
    let pause = kernel.shutdown();
    assert!(finish(kernel, pause).is_none());
}

fn drain(kernel: &mut Kernel) -> Vec<TaskOutcome> {
    let mut outcomes = Vec::new();
    assert!(matches!(kernel.run_pending(&mut outcomes), Pause::Rest));
    outcomes
}

fn mock() -> Config {
    Config {
        dev_allow_unsigned: true,
        backend: BackendConfig::Mock,
        ..Default::default()
    }
}

/// A backend that says what it was given to say, and remembers what it was asked.
struct Script {
    lines: Vec<Result<String, String>>,
    asked: Arc<Mutex<Vec<String>>>,
}

impl InferenceBackend for Script {
    fn generate(
        &mut self,
        system: &str,
        context: &[ContextEntry],
        input: &UserInput,
    ) -> Result<String, String> {
        let turns: Vec<String> = context
            .iter()
            .map(|e| format!("{}:{}", e.role, e.content))
            .collect();
        self.asked.lock().unwrap().push(format!(
            "{}|{}|{}|{}",
            system.len(),
            turns.join(","),
            input.text,
            input.images.len()
        ));
        if self.lines.is_empty() {
            Err("silent".to_string())
        } else {
            self.lines.remove(0)
        }
    }
}

fn script(lines: &[&str]) -> (Script, Arc<Mutex<Vec<String>>>) {
    let asked = Arc::new(Mutex::new(Vec::new()));
    let backend = Script {
        lines: lines.iter().map(|l| Ok(l.to_string())).collect(),
        asked: asked.clone(),
    };
    (backend, asked)
}

type Seen = Arc<Mutex<Vec<String>>>;

fn seen() -> Seen {
    Arc::new(Mutex::new(Vec::new()))
}

/// A hook that writes down each point with its data.
fn observer(
    list: &Seen,
) -> FnPlugin<impl Fn(&PluginInput) -> Result<PluginOutput, String> + Send> {
    let list = list.clone();
    FnPlugin::new(move |input: &PluginInput| {
        let line = format!("{} {}", input.hook.clone().unwrap(), input.args.text);
        list.lock().unwrap().push(line);
        Ok(PluginOutput::result(Json::null()))
    })
}

const ALL_POINTS: [&str; 12] = [
    "kernel_start",
    "kernel_stop",
    "pre_task",
    "post_route",
    "pre_infer",
    "post_infer",
    "on_plan",
    "pre_tool",
    "post_tool",
    "post_task",
    "on_degrade",
    "on_rollback",
];

// Tasks without plugins.

#[test]
fn kernel_mock_event_handling() {
    let mut kernel = Kernel::new(mock(), None, &[]).up();
    let outcome = handle(&mut kernel, command("turn off the light"));
    assert_eq!(outcome.status, "ok");
    assert_eq!(outcome.via, "model");
    assert_eq!(outcome.reply, "[mock] turn off the light");
}

#[test]
fn smoke_basic_end_to_end_mock_flow() {
    let mut kernel = Kernel::new(mock(), None, &[]).up();

    // Push two command events
    kernel.queue.push(event("command", Json::string("turn on living room light"), 1, "voice"));
    kernel.queue.push(event("command", Json::string("set brightness to 50%"), 1, "app"));

    let outcomes = drain(&mut kernel);
    assert_eq!(outcomes.len(), 2);

    assert_eq!(outcomes[0].status, "ok");
    assert_eq!(outcomes[0].via, "model");
    assert_eq!(outcomes[0].reply, "[mock] turn on living room light");

    assert_eq!(outcomes[1].status, "ok");
    assert_eq!(outcomes[1].via, "model");
    assert_eq!(outcomes[1].reply, "[mock] set brightness to 50%");

    stop(&mut kernel);
}

#[test]
fn local_models_are_asked_within_the_task() {
    // Neither the start nor a task without plugins needs anything from outside.
    let (mut kernel, pause) = Kernel::new(mock(), None, &[]).expect("kernel");
    assert!(matches!(pause, Pause::Done { outcome: None }));
    match kernel.handle_event(command("x")) {
        Pause::Done { outcome: Some(o) } => assert_eq!(o.reply, "[mock] x"),
        _ => panic!("expected the mock to answer"),
    }
    let look = "{\"text\":\"look\",\"images\":[{\"mime\":\"image/png\",\"b64\":\"AQID\"}]}";
    match kernel.handle_event(event("command", Json::parse(look).unwrap(), 0, "")) {
        Pause::Done { outcome: Some(o) } => assert_eq!(o.reply, "[mock] look [+1 image(s)]"),
        _ => panic!("expected the mock to answer"),
    }

    // The same holds of a backend of one's own.
    let (backend, asked) = script(&["{\"reply\":\"one\"}", "{\"reply\":\"two\"}"]);
    let (mut kernel, _) = Kernel::builder(mock()).backend(backend).build(&[]).expect("kernel");
    kernel.queue.push(command("a"));
    kernel.queue.push(command("b"));
    let replies: Vec<String> = drain(&mut kernel).into_iter().map(|o| o.reply).collect();
    assert_eq!(replies, vec!["one", "two"]);
    assert!(kernel.queue.is_empty());
    assert_eq!(asked.lock().unwrap().len(), 2);
}

#[test]
fn smoke_event_priority_scheduling() {
    let mut kernel = Kernel::new(mock(), None, &[]).up();

    // Push events with varying priorities and same priorities
    kernel.queue.push(event("command", Json::string("low_1"), 1, "sensor"));
    kernel.queue.push(event("command", Json::string("urgent"), 100, "safety"));
    kernel.queue.push(event("command", Json::string("mid_1"), 10, "timer"));
    kernel.queue.push(event("command", Json::string("mid_2"), 10, "timer"));
    kernel.queue.push(event("command", Json::string("low_2"), 1, "sensor"));

    let outcomes = drain(&mut kernel);
    assert_eq!(outcomes.len(), 5);

    let replies: Vec<_> = outcomes.iter().map(|o| o.reply.as_str()).collect();
    assert_eq!(
        replies,
        vec![
            "[mock] urgent",
            "[mock] mid_1",
            "[mock] mid_2",
            "[mock] low_1",
            "[mock] low_2",
        ]
    );

    stop(&mut kernel);
}

#[test]
fn smoke_dead_loop_breaker_and_safe_reject() {
    // 1. Without strategy plugin: fallback safely rejects
    let cfg_no_strategy = Config {
        breaker_max_repeats: 3,
        ..mock()
    };
    let mut kernel = Kernel::new(cfg_no_strategy, None, &[]).up();

    // Repeating identical command payloads produces identical mock output.
    // 1st time: ok
    let o1 = handle(&mut kernel, command("repeat"));
    assert_eq!(o1.status, "ok");

    // 2nd time: ok
    let o2 = handle(&mut kernel, command("repeat"));
    assert_eq!(o2.status, "ok");

    // 3rd time: trips dead loop breaker -> enters fallback -> safe reject
    let o3 = handle(&mut kernel, command("repeat"));
    assert_eq!(o3.status, "rejected");
    assert_eq!(o3.via, "fallback");
    assert!(o3.reply.contains("repeated action loop"));

    // After fallback, breaker is reset, so a fresh action succeeds
    let o4 = handle(&mut kernel, command("different_action"));
    assert_eq!(o4.status, "ok");

    stop(&mut kernel);
}

#[test]
fn payloads_that_are_no_text_go_to_the_model_as_they_are() {
    let mut kernel = Kernel::new(mock(), None, &[]).up();
    let payload = Json::parse("{\"sensor\": 4}").unwrap();
    let outcome = handle(&mut kernel, event("signal", payload, 0, ""));
    assert_eq!(outcome.reply, "[mock] {\"sensor\":4}");
}

// Attempts at the model.

#[test]
fn malformed_answers_are_retried_and_then_refused() {
    let (backend, asked) = script(&["garbage", "{\"reply\":1}", "{}"]);
    let degraded = seen();
    let mut kernel = Kernel::builder(mock())
        .backend(backend)
        .register_hook("watch", &["pre_infer", "post_infer", "on_degrade"], observer(&degraded))
        .build(&[])
        .up();
    let outcome = handle(&mut kernel, command("x"));
    assert_eq!(outcome.status, "rejected");
    assert_eq!(outcome.via, "fallback");
    assert_eq!(
        outcome.reply,
        "request safely rejected (format violation: command must set exactly one of reply/tool)"
    );
    assert_eq!(asked.lock().unwrap().len(), 3);
    assert_eq!(
        *degraded.lock().unwrap(),
        vec![
            "pre_infer {\"attempt\":0}",
            "post_infer {\"attempt\":0,\"raw\":\"garbage\"}",
            "pre_infer {\"attempt\":1}",
            "post_infer {\"attempt\":1,\"raw\":\"{\\\"reply\\\":1}\"}",
            "pre_infer {\"attempt\":2}",
            "post_infer {\"attempt\":2,\"raw\":\"{}\"}",
            "on_degrade {\"reason\":\"format violation: command must set exactly one of reply/tool\"}",
        ]
    );
}

#[test]
fn a_later_attempt_can_succeed() {
    let (backend, _) = script(&["garbage", "{\"reply\":\"fine\"}"]);
    let mut kernel = Kernel::builder(mock()).backend(backend).build(&[]).up();
    let outcome = handle(&mut kernel, command("x"));
    assert_eq!(outcome.status, "ok");
    assert_eq!(outcome.reply, "fine");
}

#[test]
fn silent_models_open_the_breaker() {
    let (backend, asked) = script(&[]);
    let cfg = Config {
        max_format_retries: 0,
        breaker_max_failures: 2,
        ..mock()
    };
    let mut kernel = Kernel::builder(cfg).backend(backend).build(&[]).up();
    for _ in 0..2 {
        let outcome = handle(&mut kernel, command("x"));
        assert_eq!(
            outcome.reply,
            "request safely rejected (inference error: silent)"
        );
    }
    assert_eq!(asked.lock().unwrap().len(), 2);
    // The breaker is open: the model is not asked.
    let outcome = handle(&mut kernel, command("x"));
    assert_eq!(outcome.reply, "request safely rejected (breaker open)");
    assert_eq!(asked.lock().unwrap().len(), 2);
    // Falling back has closed it again.
    let outcome = handle(&mut kernel, command("x"));
    assert_eq!(
        outcome.reply,
        "request safely rejected (inference error: silent)"
    );
    assert_eq!(asked.lock().unwrap().len(), 3);
}

#[test]
fn conversation_is_kept_for_commands() {
    let (backend, asked) = script(&["{\"reply\":\"one\"}", "{\"reply\":\"two\"}", "{\"reply\":\"3\"}"]);
    let mut kernel = Kernel::builder(mock()).backend(backend).build(&[]).up();
    handle(&mut kernel, command("a"));
    handle(&mut kernel, event("signal", Json::string("b"), 0, ""));
    handle(&mut kernel, command("c"));
    let asked = asked.lock().unwrap();
    assert!(asked[0].ends_with("||a|0"));
    assert!(asked[1].ends_with("|user:a,assistant:one|b|0"));
    assert!(asked[2].ends_with("|user:a,assistant:one|c|0"));
}

// Native plugins.

#[test]
fn rules_answer_without_the_model() {
    let (backend, asked) = script(&["{\"reply\":\"from the model\"}"]);
    let list = seen();
    let mut kernel = Kernel::builder(mock())
        .backend(backend)
        .register_strategy(
            "router",
            FnPlugin::new(|input: &PluginInput| {
                let event = input.event.as_ref().unwrap();
                let payload = event.get("payload").unwrap().as_str().unwrap();
                if payload == "ping" && input.args.text == "{\"phase\":\"route\"}" {
                    Ok(PluginOutput::rule("pong"))
                } else {
                    Ok(PluginOutput::model())
                }
            }),
        )
        .register_hook("watch", &ALL_POINTS, observer(&list))
        .build(&[])
        .up();
    let outcome = handle(&mut kernel, command("ping"));
    assert_eq!(outcome.status, "ok");
    assert_eq!(outcome.via, "rule");
    assert_eq!(outcome.reply, "pong");
    assert!(asked.lock().unwrap().is_empty());
    let outcome = handle(&mut kernel, command("hello there"));
    assert_eq!(outcome.via, "model");
    assert_eq!(outcome.reply, "from the model");
    stop(&mut kernel);
    assert_eq!(
        *list.lock().unwrap(),
        vec![
            "kernel_start {\"plugins\":[]}",
            "pre_task {}",
            "post_route {\"decision\":\"rule\"}",
            "post_task {\"outcome\":{\"reply\":\"pong\",\"status\":\"ok\",\"via\":\"rule\"}}",
            "pre_task {}",
            "post_route {\"decision\":\"model\"}",
            "pre_infer {\"attempt\":0}",
            "post_infer {\"attempt\":0,\"raw\":\"{\\\"reply\\\":\\\"from the model\\\"}\"}",
            "on_plan {\"plan\":{\"args\":null,\"reply\":\"from the model\",\"tool\":null}}",
            "post_task {\"outcome\":{\"reply\":\"from the model\",\"status\":\"ok\",\"via\":\"model\"}}",
            "kernel_stop {}",
        ]
    );
}

#[test]
fn tools_run_with_their_arguments() {
    let (backend, _) = script(&["{\"tool\":\"lamp\",\"args\":{\"on\":true}}"]);
    let list = seen();
    let mut kernel = Kernel::builder(mock())
        .backend(backend)
        .register_tool(
            "lamp",
            &["device:light0"],
            FnPlugin::new(|input: &PluginInput| {
                assert_eq!(input.kind, "tool");
                assert_eq!(input.args.text, "{\"on\":true}");
                assert!(input.context.is_some());
                Ok(PluginOutput::reply("lit"))
            }),
        )
        .register_hook("watch", &["post_route", "pre_tool", "post_tool"], observer(&list))
        .build(&[])
        .up();
    let outcome = handle(&mut kernel, command("light"));
    assert_eq!(outcome.status, "ok");
    assert_eq!(outcome.via, "tool");
    assert_eq!(outcome.reply, "lit");
    assert_eq!(
        *list.lock().unwrap(),
        vec![
            "post_route {\"decision\":\"none\"}",
            "pre_tool {\"args\":{\"on\":true},\"tool\":\"lamp\"}",
            "post_tool {\"ok\":true,\"tool\":\"lamp\"}",
        ]
    );
}

#[test]
fn failing_tools_degrade() {
    let call = "{\"tool\":\"t\",\"args\":{}}";
    let other = "{\"tool\":\"u\"}";
    let (backend, _) = script(&[call, other, "{\"tool\":\"ghost\"}"]);
    let list = seen();
    let mut kernel = Kernel::builder(mock())
        .backend(backend)
        .register_tool("t", &[], FnPlugin::new(|_: &PluginInput| Ok(PluginOutput::fail("jammed"))))
        .register_tool("u", &[], FnPlugin::new(|_: &PluginInput| Err("short circuit".to_string())))
        .register_hook("watch", &["post_tool", "on_degrade"], observer(&list))
        .build(&[])
        .up();
    assert_eq!(handle(&mut kernel, command("1")).reply, "request safely rejected (jammed)");
    assert_eq!(
        handle(&mut kernel, command("2")).reply,
        "request safely rejected (tool 'u' crashed: short circuit)"
    );
    assert_eq!(
        handle(&mut kernel, command("3")).reply,
        "request safely rejected (model asked for unknown tool 'ghost')"
    );
    assert_eq!(
        *list.lock().unwrap(),
        vec![
            "post_tool {\"error\":\"jammed\",\"ok\":false,\"tool\":\"t\"}",
            "on_degrade {\"reason\":\"jammed\"}",
            "post_tool {\"error\":\"tool 'u' crashed: short circuit\",\"ok\":false,\"tool\":\"u\"}",
            "on_degrade {\"reason\":\"tool 'u' crashed: short circuit\"}",
            "on_degrade {\"reason\":\"model asked for unknown tool 'ghost'\"}",
        ]
    );
}

#[test]
fn hooks_cannot_change_the_outcome() {
    let lines = ["{\"tool\":\"lamp\",\"args\":{}}", "{\"reply\":\"plain\"}", "no command"];
    let cfg = || Config {
        max_format_retries: 0,
        ..mock()
    };
    let lamp = || FnPlugin::new(|_: &PluginInput| Ok(PluginOutput::reply("lit")));
    let (quiet_model, _) = script(&lines);
    let mut quiet = Kernel::builder(cfg())
        .backend(quiet_model)
        .register_tool("lamp", &[], lamp())
        .build(&[])
        .up();
    let (loud_model, _) = script(&lines);
    let mut loud = Kernel::builder(cfg())
        .backend(loud_model)
        .register_tool("lamp", &[], lamp())
        .register_hook("a", &ALL_POINTS, FnPlugin::new(|_: &PluginInput| Err("no".to_string())))
        .register_hook("b", &ALL_POINTS, FnPlugin::new(|_: &PluginInput| Ok(PluginOutput::rule("x"))))
        .register_hook("c", &ALL_POINTS, FnPlugin::new(|_: &PluginInput| Ok(PluginOutput::fail("y"))))
        .build(&[])
        .up();
    for _ in 0..3 {
        let expected = handle(&mut quiet, command("go"));
        let outcome = handle(&mut loud, command("go"));
        assert_eq!(outcome.status, expected.status);
        assert_eq!(outcome.via, expected.via);
        assert_eq!(outcome.reply, expected.reply);
    }
    stop(&mut loud);
}

#[test]
fn a_failing_tool_is_called_once() {
    let calls = Arc::new(AtomicUsize::new(0));
    let counter = calls.clone();
    let (backend, asked) = script(&["{\"tool\":\"t\"}", "{\"tool\":\"t\"}"]);
    let mut kernel = Kernel::builder(mock())
        .backend(backend)
        .register_tool(
            "t",
            &[],
            FnPlugin::new(move |_: &PluginInput| {
                counter.fetch_add(1, Ordering::SeqCst);
                Err("dropped".to_string())
            }),
        )
        .build(&[])
        .up();
    let outcome = handle(&mut kernel, command("go"));
    assert_eq!(outcome.status, "rejected");
    assert_eq!(outcome.via, "fallback");
    assert_eq!(calls.load(Ordering::SeqCst), 1);
    assert_eq!(asked.lock().unwrap().len(), 1);
}

#[test]
fn devices_are_free_again_after_every_task() {
    let (backend, _) = script(&[
        "{\"tool\":\"lamp\",\"args\":{\"n\":1}}",
        "{\"tool\":\"lamp\",\"args\":{\"n\":2}}",
        "{\"tool\":\"fan\",\"args\":{\"n\":3}}",
    ]);
    let mut kernel = Kernel::builder(mock())
        .backend(backend)
        .register_tool(
            "lamp",
            &["device:relay0", "device:relay1"],
            FnPlugin::new(|input: &PluginInput| {
                if input.args.text == "{\"n\":1}" {
                    Ok(PluginOutput::fail("stuck"))
                } else {
                    Ok(PluginOutput::reply("lit"))
                }
            }),
        )
        .register_tool(
            "fan",
            &["device:relay1"],
            FnPlugin::new(|_: &PluginInput| Ok(PluginOutput::reply("spinning"))),
        )
        .build(&[])
        .up();
    assert_eq!(handle(&mut kernel, command("a")).status, "rejected");
    assert_eq!(handle(&mut kernel, command("b")).reply, "lit");
    assert_eq!(handle(&mut kernel, command("c")).reply, "spinning");
}

#[test]
fn events_that_are_put_in_the_queue_run_by_priority() {
    let mut kernel = Kernel::new(mock(), None, &[]).up();
    kernel.enqueue(event("command", Json::string("later"), 1, ""));
    kernel.enqueue(event("command", Json::string("sooner"), 9, ""));
    kernel.enqueue(event("command", Json::string("last"), 1, ""));
    let replies: Vec<String> = drain(&mut kernel).into_iter().map(|o| o.reply).collect();
    assert_eq!(replies, vec!["[mock] sooner", "[mock] later", "[mock] last"]);
}

#[test]
fn the_strategy_can_answer_when_the_chain_degrades() {
    let (backend, _) = script(&[]);
    let cfg = Config {
        max_format_retries: 0,
        ..mock()
    };
    let mut kernel = Kernel::builder(cfg)
        .backend(backend)
        .register_strategy(
            "router",
            FnPlugin::new(|input: &PluginInput| {
                if input.args.text == "{\"phase\":\"fallback\"}" {
                    Ok(PluginOutput::rule("later"))
                } else {
                    Err("confused".to_string())
                }
            }),
        )
        .build(&[])
        .up();
    let outcome = handle(&mut kernel, command("x"));
    assert_eq!(outcome.status, "ok");
    assert_eq!(outcome.via, "fallback");
    assert_eq!(outcome.reply, "later");
}

#[test]
fn reserved_plugins_are_out_of_the_models_reach() {
    let (backend, asked) = script(&["not a command", "{\"tool\":\"fixer\"}"]);
    let cfg = Config {
        max_format_retries: 1,
        repair_plugin: Some("fixer".to_string()),
        ..mock()
    };
    let calls = Arc::new(AtomicUsize::new(0));
    let counter = calls.clone();
    let mut kernel = Kernel::builder(cfg)
        .backend(backend)
        .register_tool(
            "fixer",
            &[],
            FnPlugin::new(move |input: &PluginInput| {
                assert_eq!(input.kind, "repair");
                assert_eq!(
                    input.args.text,
                    "{\"error\":\"no JSON object in output\",\"raw\":\"not a command\"}"
                );
                counter.fetch_add(1, Ordering::SeqCst);
                Ok(PluginOutput::reply("still not a command"))
            }),
        )
        .register_tool("lamp", &[], FnPlugin::new(|_: &PluginInput| Ok(PluginOutput::reply("on"))))
        .build(&[])
        .up();
    let outcome = handle(&mut kernel, command("x"));
    assert_eq!(
        outcome.reply,
        "request safely rejected (model asked for unknown tool 'fixer')"
    );
    assert_eq!(calls.load(Ordering::SeqCst), 1);
    // Only the lamp is in the prompt.
    let with_lamp = "You are an edge device agent. Reply with ONE JSON object and nothing else.\nEither {\"reply\": \"<text>\"} to answer the user,\nor {\"tool\": \"<name>\", \"args\": {...}} to act.\nAvailable tools: [lamp]. If no tool fits, use reply.";
    assert!(asked.lock().unwrap()[0].starts_with(&format!("{}|", with_lamp.len())));
}

#[test]
fn repaired_answers_pass_the_same_check() {
    let (backend, _) = script(&["reply: hi"]);
    let cfg = Config {
        repair_plugin: Some("fixer".to_string()),
        ..mock()
    };
    let mut kernel = Kernel::builder(cfg)
        .backend(backend)
        .register_tool(
            "fixer",
            &[],
            FnPlugin::new(|_: &PluginInput| {
                Ok(PluginOutput::result(Json::string("{\"reply\":\"hi\"}")))
            }),
        )
        .build(&[])
        .up();
    let outcome = handle(&mut kernel, command("x"));
    assert_eq!(outcome.status, "ok");
    assert_eq!(outcome.reply, "hi");
}

#[test]
fn inference_can_be_a_plugin() {
    let cfg = Config {
        backend: BackendConfig::Plugin {
            name: "brain".to_string(),
        },
        max_format_retries: 0,
        ..mock()
    };
    let mut kernel = Kernel::builder(cfg)
        .register_tool(
            "brain",
            &[],
            FnPlugin::new(|input: &PluginInput| {
                assert_eq!(input.kind, "infer");
                let said = input.args.get("input").unwrap().as_str().unwrap();
                assert!(input.args.get("system").is_some());
                match said.as_str() {
                    "fail" => Ok(PluginOutput::fail("overheated")),
                    "mute" => Ok(PluginOutput::result(Json::null())),
                    _ => Ok(PluginOutput::reply("{\"reply\":\"thought\"}")),
                }
            }),
        )
        .build(&[])
        .up();
    assert_eq!(handle(&mut kernel, command("x")).reply, "thought");
    assert_eq!(
        handle(&mut kernel, command("fail")).reply,
        "request safely rejected (inference error: inference plugin failed: overheated)"
    );
    assert_eq!(
        handle(&mut kernel, command("mute")).reply,
        "request safely rejected (inference error: inference plugin returned no text)"
    );
    let payload = Json::parse("{\"text\":\"t\",\"images\":[{\"mime\":\"image/png\",\"b64\":\"AQID\"}]}");
    assert_eq!(
        handle(&mut kernel, event("command", payload.unwrap(), 0, "")).reply,
        "request safely rejected (inference error: inference plugins cannot carry images)"
    );
}

#[test]
fn a_missing_inference_plugin_is_reported() {
    let cfg = Config {
        backend: BackendConfig::Plugin {
            name: "brain".to_string(),
        },
        max_format_retries: 0,
        ..mock()
    };
    let mut kernel = Kernel::new(cfg, None, &[]).up();
    assert_eq!(
        handle(&mut kernel, command("x")).reply,
        "request safely rejected (inference error: plugin 'brain' not loaded)"
    );
}

// Images.

#[test]
fn images_come_along_or_from_files() {
    let b64 = base64::engine::general_purpose::STANDARD.encode(b"pic");
    let payload = format!(
        "{{\"text\":\"look\",\"images\":[{{\"mime\":\"image/png\",\"b64\":\"{}\"}},{{\"path\":\"/cam/0.jpg\"}}]}}",
        b64
    );
    let mut kernel = Kernel::new(mock(), None, &[]).up();
    let pause = kernel.handle_event(event("command", Json::parse(&payload).unwrap(), 0, ""));
    match &pause {
        Pause::ReadFile { path } => assert_eq!(path, "/cam/0.jpg"),
        _ => panic!("expected a file to be needed"),
    }
    assert!(!kernel.is_resting());
    let pause = kernel.resume_file(Ok(vec![0xff, 0xd8]));
    let outcome = finish(&mut kernel, pause).unwrap();
    assert_eq!(outcome.reply, "[mock] look [+2 image(s)]");
}

#[test]
fn unusable_images_are_refused() {
    let mut kernel = Kernel::new(mock(), None, &[]).up();
    let mut reply = |payload: &str| {
        let e = event("command", Json::parse(payload).unwrap(), 0, "");
        handle(&mut kernel, e).reply
    };
    assert_eq!(
        reply("{\"text\":\"a\",\"images\":[{\"path\":\"/x.png\"}]}"),
        "request safely rejected (cannot read image '/x.png': no disk)"
    );
    assert_eq!(
        reply("{\"text\":\"a\",\"images\":[{\"mime\":\"image/png\",\"b64\":\"?\"}]}"),
        "request safely rejected (image must be {\"path\"} or {\"mime\", \"b64\"})"
    );
    assert_eq!(
        reply("{\"text\":\"a\",\"images\":[3]}"),
        "request safely rejected (image must be {\"path\"} or {\"mime\", \"b64\"})"
    );
    // Each of them was a failure, and three in a row open the breaker.
    assert_eq!(
        reply("{\"text\":\"a\",\"images\":[3]}"),
        "request safely rejected (breaker open)"
    );
}

#[test]
fn other_payloads_are_handed_over_whole() {
    let mut kernel = Kernel::new(mock(), None, &[]).up();
    let mut reply = |payload: &str| {
        let e = event("command", Json::parse(payload).unwrap(), 0, "");
        handle(&mut kernel, e).reply
    };
    // Neither a text alone nor a text with anything but an image list is picked apart.
    for payload in [
        "{\"text\":\"a\"}",
        "{\"images\":null,\"text\":\"a\"}",
        "{\"images\":3,\"text\":\"a\"}",
        "{\"images\":[],\"level\":3,\"text\":\"a\"}",
        "{\"images\":[],\"text\":3}",
        "[1,2]",
        "null",
    ] {
        assert_eq!(reply(payload), format!("[mock] {payload}"));
    }
    assert_eq!(reply("{\"images\":[],\"text\":\"a\"}"), "[mock] a");
}

// Wasm plugins.

fn leb(n: u64, out: &mut Vec<u8>) {
    let mut n = n;
    loop {
        let b = (n & 0x7f) as u8;
        n >>= 7;
        if n == 0 {
            out.push(b);
            return;
        }
        out.push(b | 0x80);
    }
}

fn sleb(n: i64, out: &mut Vec<u8>) {
    let mut n = n;
    loop {
        let b = (n & 0x7f) as u8;
        n >>= 7;
        if (n == 0 && b & 0x40 == 0) || (n == -1 && b & 0x40 != 0) {
            out.push(b);
            return;
        }
        out.push(b | 0x80);
    }
}

fn section(id: u8, body: &[u8], out: &mut Vec<u8>) {
    out.push(id);
    leb(body.len() as u64, out);
    out.extend_from_slice(body);
}

fn name(s: &str, out: &mut Vec<u8>) {
    leb(s.len() as u64, out);
    out.extend_from_slice(s.as_bytes());
}

/// The code of a guest whose handler has the given instructions, with `data` at
/// address 8. Its allocator always gives the second page.
fn guest(handler: &[u8], data: &[u8]) -> Vec<u8> {
    let mut out = vec![0x00, 0x61, 0x73, 0x6d, 0x01, 0x00, 0x00, 0x00];
    section(
        1,
        &[
            3, 0x60, 2, 0x7f, 0x7f, 0, 0x60, 2, 0x7f, 0x7f, 1, 0x7e, 0x60, 1, 0x7f, 1, 0x7f,
        ],
        &mut out,
    );
    let mut imports = vec![2];
    name("edge", &mut imports);
    name("host_log", &mut imports);
    imports.extend_from_slice(&[0, 0]);
    name("edge", &mut imports);
    name("host_call", &mut imports);
    imports.extend_from_slice(&[0, 1]);
    section(2, &imports, &mut out);
    section(3, &[2, 2, 1], &mut out);
    section(5, &[1, 0, 2], &mut out);
    let mut exports = vec![3];
    name("memory", &mut exports);
    exports.extend_from_slice(&[2, 0]);
    name("ea_alloc", &mut exports);
    exports.extend_from_slice(&[0, 2]);
    name("ea_handle", &mut exports);
    exports.extend_from_slice(&[0, 3]);
    section(7, &exports, &mut out);
    let mut alloc = vec![0, 0x41];
    sleb(65536, &mut alloc);
    alloc.push(0x0b);
    let mut handle = vec![0];
    handle.extend_from_slice(handler);
    handle.push(0x0b);
    let mut code = vec![2];
    leb(alloc.len() as u64, &mut code);
    code.extend_from_slice(&alloc);
    leb(handle.len() as u64, &mut code);
    code.extend_from_slice(&handle);
    section(10, &code, &mut out);
    let mut segment = vec![1, 0, 0x41];
    sleb(8, &mut segment);
    segment.push(0x0b);
    leb(data.len() as u64, &mut segment);
    segment.extend_from_slice(data);
    section(11, &segment, &mut out);
    out
}

/// A guest that always gives the same answer.
fn answering(answer: &str) -> Vec<u8> {
    let mut handler = vec![0x42];
    sleb((8i64 << 32) | answer.len() as i64, &mut handler);
    guest(&handler, answer.as_bytes())
}

/// A guest that logs its input and gives an answer.
fn logging(answer: &str) -> Vec<u8> {
    let mut handler = vec![0x20, 0, 0x20, 1, 0x10, 0, 0x42];
    sleb((8i64 << 32) | answer.len() as i64, &mut handler);
    guest(&handler, answer.as_bytes())
}

/// A guest that makes one host call and answers with the response.
fn calling(request: &str) -> Vec<u8> {
    let mut handler = vec![0x41];
    sleb(8, &mut handler);
    handler.push(0x41);
    sleb(request.len() as i64, &mut handler);
    handler.extend_from_slice(&[0x10, 1]);
    guest(&handler, request.as_bytes())
}

/// A guest that never ends.
fn looping() -> Vec<u8> {
    guest(&[0x03, 0x40, 0x0c, 0, 0x0b, 0x42, 0], &[])
}

fn package(plugin: &str, version: &str, rest: &str, wasm: Vec<u8>) -> VersionDir {
    VersionDir {
        name: version.to_string(),
        path: format!("plugins/{}/{}", plugin, version),
        is_dir: true,
        disabled: false,
        manifest: Ok(format!(
            "{{\"name\":\"{}\",\"version\":\"{}\",{}}}",
            plugin, version, rest
        )),
        wasm: Ok(wasm),
    }
}

fn dir(plugin: &str, rest: &str, wasm: Vec<u8>) -> PluginDir {
    PluginDir {
        name: plugin.to_string(),
        versions: Ok(vec![package(plugin, "1.0.0", rest, wasm)]),
    }
}

#[test]
fn smoke_plugin_hot_reload() {
    let mut kernel = Kernel::new(mock(), None, &[]).up();

    // Send plugin_reload event for strategy-demo
    let reload = |name: &str| {
        let payload = Json::parse(&format!("{{\"name\":\"{}\"}}", name)).unwrap();
        event("plugin_reload", payload, 255, "admin")
    };
    let pause = kernel.handle_event(reload("strategy-demo"));
    match &pause {
        Pause::Reload { name } => assert_eq!(name, "strategy-demo"),
        _ => panic!("expected a reload"),
    }
    let rule = "{\"ok\":true,\"decision\":\"rule\",\"reply\":\"pong\"}";
    let found = package("strategy-demo", "1.0.0", "\"kind\":\"strategy\"", answering(rule));
    let pause = kernel.resume_package(listed("strategy-demo", Ok(vec![found])));
    let outcome = finish(&mut kernel, pause).unwrap();
    assert_eq!(outcome.status, "ok");
    assert_eq!(outcome.via, "kernel");
    assert_eq!(outcome.reply, "plugin 'strategy-demo' reloaded");

    // Reloading nonexistent plugin should report error
    let pause = kernel.handle_event(reload("non_existent_plugin"));
    assert!(matches!(pause, Pause::Reload { .. }));
    let pause = kernel.resume_package(listed("non_existent_plugin", Err("cannot read".to_string())));
    let bad_outcome = finish(&mut kernel, pause).unwrap();
    assert_eq!(bad_outcome.status, "error");
    assert_eq!(bad_outcome.via, "kernel");
    assert!(bad_outcome.reply.contains("reload failed"));
    assert_eq!(bad_outcome.reply, "reload failed: cannot read");

    // The strategy that was loaded is active.
    assert_eq!(handle(&mut kernel, command("ping")).via, "rule");
    stop(&mut kernel);
}

#[test]
fn smoke_strategy_plugin_routing_and_fallback() {
    let answer = "{\"ok\":true,\"decision\":\"model\"}";
    let dirs = [dir("strategy-demo", "\"kind\":\"strategy\"", answering(answer))];
    let mut kernel = Kernel::new(mock(), None, &dirs).up();

    let outcome = handle(&mut kernel, event("command", Json::string("status check"), 1, "app"));

    // Valid outcome from strategy or model
    assert!(outcome.status == "ok" || outcome.status == "rejected");
    assert!(outcome.via == "rule" || outcome.via == "model" || outcome.via == "fallback");
    assert_eq!(outcome.via, "model");

    stop(&mut kernel);
}

/// Custom test HostBridge for checking capability dispatch
struct TestBridge {
    call_count: Arc<AtomicUsize>,
}

impl HostBridge for TestBridge {
    fn call(
        &self,
        plugin: &str,
        cap: &str,
        _op: Option<&str>,
        _args: &Json,
    ) -> Result<Json, String> {
        self.call_count.fetch_add(1, Ordering::SeqCst);
        let document = format!(
            "{{\"plugin\":\"{}\",\"cap\":\"{}\",\"handled\":true}}",
            plugin, cap
        );
        Ok(Json::parse(&document).unwrap())
    }
}

#[test]
fn smoke_host_bridge_integration() {
    let call_count = Arc::new(AtomicUsize::new(0));
    let bridge = Bridge::new(TestBridge {
        call_count: call_count.clone(),
    });

    let mut kernel =
        Kernel::new(mock(), Some(bridge), &[]).up();
    let outcome = handle(&mut kernel, command("ping"));

    assert_eq!(outcome.status, "ok");
    stop(&mut kernel);
}

#[test]
fn host_calls_go_through_adjudication() {
    let call_count = Arc::new(AtomicUsize::new(0));
    let bridge = Bridge::new(TestBridge {
        call_count: call_count.clone(),
    });
    let request = "{\"cap\":\"device:relay0\",\"op\":\"on\"}";
    let declared = "\"kind\":\"tool\",\"permissions\":{\"capabilities\":[\"device:relay0\"]}";
    let dirs = [
        dir("granted", declared, calling(request)),
        dir("denied", "\"kind\":\"tool\"", calling(request)),
    ];
    let (backend, _) = script(&["{\"tool\":\"granted\"}", "{\"tool\":\"denied\"}"]);
    let mut kernel = Kernel::builder(mock())
        .backend(backend)
        .bridge(bridge)
        .build(&dirs)
        .up();
    // The provider answers, and its response is not an answer of the plugin.
    let outcome = handle(&mut kernel, command("1"));
    assert_eq!(call_count.load(Ordering::SeqCst), 1);
    assert_eq!(
        outcome.reply,
        "request safely rejected (tool 'granted' crashed: plugin output violates the PluginOutput envelope)"
    );
    // The refusal happens to be one.
    let outcome = handle(&mut kernel, command("2"));
    assert_eq!(call_count.load(Ordering::SeqCst), 1);
    assert_eq!(
        outcome.reply,
        "request safely rejected (capability 'device:relay0' not declared in manifest — denied)"
    );
}

#[test]
fn without_a_bridge_nothing_is_reachable() {
    let request = "{\"cap\":\"device:relay0\",\"op\":\"on\"}";
    let declared = "\"kind\":\"tool\",\"permissions\":{\"capabilities\":[\"device:relay0\"]}";
    let dirs = [dir("granted", declared, calling(request))];
    let (backend, _) = script(&["{\"tool\":\"granted\"}"]);
    let mut kernel = Kernel::builder(mock()).backend(backend).build(&dirs).up();
    assert_eq!(
        handle(&mut kernel, command("1")).reply,
        "request safely rejected (no provider registered for capability 'device:relay0')"
    );
}

#[test]
fn log_calls_read_the_range_that_they_name() {
    let answer = "{\"ok\":true,\"decision\":\"model\"}";
    let mut handler = Vec::new();
    for (ptr, len) in [(8, 4), (131070, 2), (131070, 3), (-1, 2), (8, -1)] {
        handler.push(0x41);
        sleb(ptr, &mut handler);
        handler.push(0x41);
        sleb(len, &mut handler);
        handler.extend_from_slice(&[0x10, 0]);
    }
    handler.push(0x42);
    sleb((8i64 << 32) | answer.len() as i64, &mut handler);
    let wasm = guest(&handler, answer.as_bytes());
    let dirs = [dir("spy", "\"kind\":\"strategy\"", wasm)];
    let mut kernel = Kernel::new(mock(), None, &dirs).up();
    kernel.take_log();
    handle(&mut kernel, command("x"));
    assert_eq!(
        kernel.take_log(),
        vec![
            "[plugin:spy] {\"ok",
            "[plugin:spy] \0\0",
            "[plugin:spy] ",
            "[plugin:spy] ",
            "[plugin:spy] "
        ]
    );
}

#[test]
fn context_crosses_only_with_permission() {
    let answer = "{\"ok\":true,\"decision\":\"model\"}";
    let allowed = "\"kind\":\"strategy\",\"permissions\":{\"context\":true}";
    let seen_by = |rest: &str| {
        let dirs = [dir("spy", rest, logging(answer))];
        let mut kernel = Kernel::new(mock(), None, &dirs).up();
        handle(&mut kernel, command("secret"));
        kernel.take_log();
        handle(&mut kernel, command("again"));
        kernel.take_log()
    };
    assert_eq!(
        seen_by("\"kind\":\"strategy\""),
        vec!["[plugin:spy] {\"kind\":\"strategy\",\"event\":{\"kind\":\"command\",\"payload\":\"again\",\"priority\":1,\"source\":\"test\"},\"args\":{\"phase\":\"route\"}}"]
    );
    assert_eq!(
        seen_by(allowed),
        vec!["[plugin:spy] {\"kind\":\"strategy\",\"event\":{\"kind\":\"command\",\"payload\":\"again\",\"priority\":1,\"source\":\"test\"},\"context\":[{\"role\":\"user\",\"content\":\"secret\"},{\"role\":\"assistant\",\"content\":\"[mock] secret\"}],\"args\":{\"phase\":\"route\"}}"]
    );
}

#[test]
fn failing_wasm_plugins_are_rolled_back() {
    let list = seen();
    let cfg = Config {
        plugin_max_failures: 2,
        breaker_max_failures: 10,
        ..mock()
    };
    let call = "{\"tool\":\"pump\",\"args\":1}";
    let (backend, _) = script(&[
        call,
        "{\"tool\":\"pump\",\"args\":2}",
        "{\"tool\":\"pump\",\"args\":3}",
    ]);
    let dirs = [PluginDir {
        name: "pump".to_string(),
        versions: Ok(vec![
            package("pump", "1.0.0", "\"kind\":\"tool\"", answering("{\"ok\":true,\"reply\":\"old\"}")),
            package("pump", "2.0.0", "\"kind\":\"tool\"", answering("{\"ok\":false}")),
        ]),
    }];
    let mut kernel = Kernel::builder(cfg)
        .backend(backend)
        .register_hook("watch", &["kernel_start", "on_rollback"], observer(&list))
        .build(&dirs)
        .up();
    assert_eq!(
        handle(&mut kernel, command("1")).reply,
        "request safely rejected (tool reported failure)"
    );
    let pause = kernel.handle_event(command("2"));
    match &pause {
        Pause::Disable { name, dir } => {
            assert_eq!(name, "pump");
            assert_eq!(dir, "plugins/pump/2.0.0");
        }
        _ => panic!("expected the plugin to be disabled"),
    }
    assert_eq!(
        kernel.take_log().last().unwrap(),
        "[registry] plugin 'pump' v2.0.0 disabled, rolling back"
    );
    let mut two = package("pump", "2.0.0", "\"kind\":\"tool\"", answering("{\"ok\":false}"));
    two.disabled = true;
    let one = package("pump", "1.0.0", "\"kind\":\"tool\"", answering("{\"ok\":true,\"reply\":\"old\"}"));
    let pause = kernel.resume_package(listed("pump", Ok(vec![one, two])));
    assert_eq!(
        kernel.take_log(),
        vec![
            "[registry] WARNING: loading UNSIGNED plugin 'pump' (dev mode)",
            "[registry] hot-updated pump -> v1.0.0",
            "[kernel] degraded: tool reported failure",
        ]
    );
    assert_eq!(
        finish(&mut kernel, pause).unwrap().reply,
        "request safely rejected (tool reported failure)"
    );
    assert_eq!(
        *list.lock().unwrap(),
        vec!["kernel_start {\"plugins\":[\"pump\"]}", "on_rollback {\"plugin\":\"pump\"}"]
    );
    // The stable version serves the next task.
    let outcome = handle(&mut kernel, command("3"));
    assert_eq!(outcome.status, "ok");
    assert_eq!(outcome.reply, "old");
}

#[test]
fn runaway_guests_run_out_of_fuel() {
    let cfg = Config {
        plugin_fuel: 10_000,
        ..mock()
    };
    let dirs = [dir("spin", "\"kind\":\"strategy\"", looping())];
    let mut kernel = Kernel::new(cfg, None, &dirs).up();
    // The strategy fails, so the task goes to the model.
    let outcome = handle(&mut kernel, command("x"));
    assert_eq!(outcome.status, "ok");
    assert_eq!(outcome.via, "model");
}

#[test]
fn native_plugins_win_over_wasm_ones() {
    let (backend, _) = script(&["{\"tool\":\"lamp\"}", "{\"tool\":\"audit\"}"]);
    let dirs = [
        dir("lamp", "\"kind\":\"tool\"", answering("{\"ok\":true,\"reply\":\"wasm\"}")),
        dir("audit", "\"kind\":\"tool\"", answering("{\"ok\":true,\"reply\":\"wasm\"}")),
    ];
    let list = seen();
    let mut kernel = Kernel::builder(mock())
        .backend(backend)
        .register_tool("lamp", &[], FnPlugin::new(|_: &PluginInput| Ok(PluginOutput::reply("native"))))
        .register_hook("audit", &["on_degrade"], observer(&list))
        .build(&dirs)
        .up();
    assert_eq!(handle(&mut kernel, command("1")).reply, "native");
    // A native hook of the name hides the wasm tool.
    assert_eq!(
        handle(&mut kernel, command("2")).reply,
        "request safely rejected (model asked for unknown tool 'audit')"
    );
    assert_eq!(list.lock().unwrap().len(), 1);
}

#[test]
fn unsigned_plugins_stay_out_by_default() {
    let dirs = [dir(
        "router",
        "\"kind\":\"strategy\"",
        answering("{\"ok\":true,\"decision\":\"rule\",\"reply\":\"r\"}"),
    )];
    let mut kernel = Kernel::new(Config::default(), None, &dirs).up();
    assert_eq!(handle(&mut kernel, command("x")).via, "model");
}

#[test]
fn only_signed_code_runs_once_a_key_is_trusted() {
    let answer = answering("{\"ok\":true,\"decision\":\"rule\",\"reply\":\"signed\"}");
    let other = answering("{\"ok\":true,\"decision\":\"rule\",\"reply\":\"forged\"}");
    let (secret, public) = key_texts(&[7u8; 32]);
    let document = "{\"name\":\"router\",\"version\":\"1.0.0\",\"kind\":\"strategy\"}";
    let mut manifest = Manifest::from_json(document).unwrap();
    manifest.sign(&answer, &secret).unwrap();
    let rest = format!(
        "\"kind\":\"strategy\",\"signature\":\"{}\"",
        manifest.signature.unwrap()
    );
    let cfg = || Config {
        trusted_pubkey: Some(public.clone()),
        ..Default::default()
    };
    let dirs = [dir("router", &rest, answer.clone())];
    let mut kernel = Kernel::new(cfg(), None, &dirs).up();
    assert_eq!(handle(&mut kernel, command("x")).reply, "signed");

    // The signature is of this code and this manifest alone.
    let dirs = [dir("router", &rest, other)];
    let mut kernel = Kernel::new(cfg(), None, &dirs).up();
    assert_eq!(handle(&mut kernel, command("x")).reply, "[mock] x");
    let more = format!("{},\"permissions\":{{\"context\":true}}", rest);
    let dirs = [dir("router", &more, answer)];
    let mut kernel = Kernel::new(cfg(), None, &dirs).up();
    assert_eq!(handle(&mut kernel, command("x")).reply, "[mock] x");
}

#[test]
fn configurations_that_cannot_be_set_up() {
    let cfg = Config {
        trusted_pubkey: Some("beef".to_string()),
        ..Default::default()
    };
    assert_eq!(Kernel::new(cfg, None, &[]).err().unwrap(), "public key is not 32 bytes");
}

#[test]
fn services_are_asked_from_outside() {
    let openai = BackendConfig::Openai {
        url: "u".to_string(),
        model: "m".to_string(),
        api_key: None,
    };
    let litert = BackendConfig::LitertLm {
        binary: "b".to_string(),
        model_path: "m".to_string(),
        accelerator: None,
        image_arg: None,
        extra_args: vec![],
    };
    for backend in [openai, litert] {
        let cfg = Config {
            backend,
            max_format_retries: 1,
            ..Default::default()
        };
        let mut kernel = Kernel::new(cfg, None, &[]).up();
        match kernel.handle_event(command("hello")) {
            Pause::Ask { input, context, .. } => {
                assert_eq!(input.text, "hello");
                assert!(context.is_empty());
            }
            _ => panic!("expected a question"),
        }
        // What the service says is checked as any answer is, and asked for again.
        assert!(matches!(kernel.resume_model(Ok("no command".to_string())), Pause::Ask { .. }));
        match kernel.resume_model(Ok("{\"reply\":\"hi\"}".to_string())) {
            Pause::Done { outcome } => assert_eq!(outcome.unwrap().reply, "hi"),
            _ => panic!("expected the task to be done"),
        }
        // A service that cannot be reached costs the task its attempts.
        let outcome = handle(&mut kernel, command("again"));
        assert_eq!(outcome.status, "rejected");
        assert_eq!(outcome.reply, "request safely rejected (inference error: no network)");
        assert!(matches!(kernel.resume_model(Ok("x".to_string())), Pause::Rest));
    }
}

#[test]
fn failing_hooks_and_degraded_tasks_are_logged() {
    let cfg = Config {
        max_format_retries: 0,
        ..mock()
    };
    let (backend, _) = script(&["no command"]);
    let broken = FnPlugin::new(|_: &PluginInput| Err::<PluginOutput, String>("stuck".to_string()));
    let mut kernel = Kernel::builder(cfg)
        .backend(backend)
        .register_hook("watch", &["pre_task"], broken)
        .build(&[])
        .up();
    assert_eq!(handle(&mut kernel, command("x")).status, "rejected");
    assert_eq!(
        kernel.take_log(),
        vec![
            "[kernel] hook 'watch'@pre_task failed: stuck",
            "[kernel] degraded: format violation: no JSON object in output"
        ]
    );
}

#[test]
fn versions_that_are_passed_over_are_logged() {
    let good = answering("{\"ok\":true,\"decision\":\"model\"}");
    let rest = "\"kind\":\"strategy\"";
    let dirs = [
        PluginDir {
            name: "p".to_string(),
            versions: Ok(vec![
                package("p", "1.0.0", rest, good.clone()),
                package("other", "2.0.0", rest, good.clone()),
            ]),
        },
        PluginDir {
            name: "q".to_string(),
            versions: Err("cannot list".to_string()),
        },
    ];
    let mut kernel = Kernel::new(mock(), None, &dirs).up();
    assert_eq!(
        kernel.take_log(),
        vec![
            "[registry] p/2.0.0 skipped: manifest name 'other' != directory 'p'",
            "[registry] WARNING: loading UNSIGNED plugin 'p' (dev mode)",
            "[registry] loaded p v1.0.0 (Strategy)",
            "[registry] plugin 'q' rejected: cannot list"
        ]
    );
    let payload = Json::parse("{\"name\":\"p\"}").unwrap();
    kernel.handle_event(event("plugin_reload", payload, 255, "admin"));
    let again = package("other", "3.0.0", rest, good);
    let pause = kernel.resume_package(listed("p", Ok(vec![again])));
    assert_eq!(finish(&mut kernel, pause).unwrap().status, "ok");
    assert_eq!(
        kernel.take_log(),
        vec![
            "[registry] p/3.0.0 skipped: manifest name 'other' != directory 'p'",
            "[registry] plugin 'p' removed (no loadable version)",
        ]
    );
}

#[test]
fn directories_go_by_their_own_names() {
    let (backend, _) = script(&["{\"tool\":\"shed/lamp\"}"]);
    let mut kernel = Kernel::builder(mock()).backend(backend).build(&[]).up();
    let payload = Json::parse("{\"name\":\"shed/lamp\"}").unwrap();
    let pause = kernel.handle_event(event("plugin_reload", payload, 255, "admin"));
    assert!(matches!(&pause, Pause::Reload { name } if name == "shed/lamp"));
    let on = answering("{\"ok\":true,\"reply\":\"on\"}");
    let found = package("lamp", "1.0.0", "\"kind\":\"tool\"", on);
    let pause = kernel.resume_package(listed("lamp", Ok(vec![found])));
    assert_eq!(
        finish(&mut kernel, pause).unwrap().reply,
        "plugin 'shed/lamp' reloaded"
    );
    assert_eq!(
        kernel.take_log(),
        vec![
            "[registry] WARNING: loading UNSIGNED plugin 'lamp' (dev mode)",
            "[registry] hot-updated shed/lamp -> v1.0.0",
        ]
    );
    assert_eq!(handle(&mut kernel, command("x")).reply, "on");
}

#[test]
fn failing_wasm_hooks_are_told_of_after_their_rollback() {
    let cfg = Config {
        plugin_max_failures: 1,
        plugin_fuel: 10_000,
        ..mock()
    };
    let dirs = [dir("spin", "\"kind\":\"hook\",\"hooks\":[\"pre_task\"]", looping())];
    let mut kernel = Kernel::new(cfg, None, &dirs).up();
    kernel.take_log();
    let pause = kernel.handle_event(command("x"));
    assert!(matches!(&pause, Pause::Disable { .. }));
    assert_eq!(
        kernel.take_log(),
        vec!["[registry] plugin 'spin' v1.0.0 disabled, rolling back"]
    );
    let pause = kernel.resume_package(listed("spin", Ok(vec![])));
    assert_eq!(finish(&mut kernel, pause).unwrap().reply, "[mock] x");
    let log = kernel.take_log();
    assert_eq!(log.len(), 2);
    assert_eq!(log[0], "[registry] plugin 'spin' removed (no loadable version)");
    assert!(log[1].starts_with("[kernel] hook 'spin'@pre_task failed: "));
}

#[test]
fn replies_that_nobody_waits_for_change_nothing() {
    let mut kernel = Kernel::new(mock(), None, &[]).up();
    assert!(matches!(kernel.resume_file(Ok(vec![])), Pause::Rest));
    assert!(matches!(kernel.resume_package(listed("p", Ok(vec![]))), Pause::Rest));
    assert!(kernel.is_resting());
    assert!(kernel.take_log().is_empty());
    assert_eq!(handle(&mut kernel, command("x")).reply, "[mock] x");
}
