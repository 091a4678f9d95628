//! The machine that takes the kernel's steps. It is single-threaded and
//! synchronous on purpose: task serialization is the first layer of
//! concurrency arbitration, and every path through it terminates behind a
//! budget, a breaker or a lock.

use crate::breaker::Breaker;
use crate::context;
use crate::context::Context;
use crate::event::Event;
use crate::inference;
use crate::inference::{ImagePart, UserInput};
use crate::json::Json;
use crate::kernel::answers;
use crate::kernel::command;
use crate::kernel::command::{CommandError, ModelCommand};
use crate::kernel::model;
use crate::kernel::model::{HookRun, KernelModel, ReplyModel, SettingsModel, StageModel, WaitModel};
use crate::kernel::payload;
use crate::kernel::payload::ImageSource;
use crate::kernel::state;
use crate::kernel::state::{Action, Hooks, Job, Reply, Stage, TaskOutcome, Wait};
use crate::kernel::words;
use crate::lock::ResourceLocks;
use crate::names;
use crate::plugin::abi;
use crate::plugin::abi::{PluginInput, PluginOutput};
use crate::plugin::native;
use crate::plugin::native::{NativeCall, NativeRegistry};
use crate::plugin::registry;
use crate::plugin::registry::{LoadedPlugin, Registry};
use crate::plugin::runtime;
use crate::text;
use crate::text::Text;
use vstd::prelude::*;

verus! {

/// The part of the configuration that decisions depend on.
pub struct Settings {
    pub max_format_retries: u32,
    pub plugin_max_failures: u32,
    pub repair_plugin: Option<String>,
    pub infer_plugin: Option<String>,
}

impl View for Settings {
    type V = SettingsModel;

    open spec fn view(&self) -> SettingsModel {
        SettingsModel {
            max_retries: self.max_format_retries as nat,
            plugin_max_failures: self.plugin_max_failures as nat,
            repair_plugin: text::opt_text(self.repair_plugin),
            infer_plugin: text::opt_text(self.infer_plugin),
        }
    }
}

pub struct Machine {
    pub(crate) settings: Settings,
    pub(crate) ctx: Context,
    pub(crate) locks: ResourceLocks,
    pub(crate) breaker: Breaker,
    pub(crate) natives: NativeRegistry,
    registry: Registry,
    pub(crate) task_seq: u64,
    pub(crate) event: Option<Event>,
    pub(crate) system: String,
    pub(crate) input: UserInput,
    pub(crate) attempt: u32,
    pub(crate) pending: Vec<String>,
    pub(crate) hooks: Hooks,
    pub(crate) stage: Stage,
    pub(crate) wait: Wait,
}

/// The view of an optional event.
pub open spec fn opt_event(e: Option<Event>) -> Option<crate::event::EventModel> {
    match e {
        Some(e) => Some(e@),
        None => None,
    }
}

impl View for Machine {
    type V = KernelModel;

    closed spec fn view(&self) -> KernelModel {
        KernelModel {
            settings: self.settings@,
            context_budget: self.ctx.budget(),
            context: self.ctx@,
            locks: self.locks@,
            breaker: self.breaker@,
            natives: self.natives@,
            plugins: self.registry@,
            task: self.task_seq,
            event: opt_event(self.event),
            system: self.system@,
            input: self.input@,
            attempt: self.attempt as nat,
            pending: text::texts(self.pending@),
            hooks: self.hooks@,
            stage: self.stage@,
            wait: self.wait@,
        }
    }
}

/// `t` begins with `prefix`.
fn begins_with(t: &str, prefix: &str) -> (r: bool)
    ensures
        r == prefix@.is_prefix_of(t@),
{
    let n: usize = t.unicode_len();
    let m: usize = prefix.unicode_len();
    if n < m {
        return false;
    }
    let head = t.substring_char(0, m);
    let same = text::same_text(head, prefix);
    proof {
        assert(head@ =~= t@.subrange(0, m as int));
    }
    same
}

/// The capabilities that are devices.
fn device_capabilities(list: &[String]) -> (r: Vec<String>)
    ensures
        text::texts(r@) == model::devices_in(text::texts(list@)),
{
    let mut out: Vec<String> = Vec::new();
    let ghost all = text::texts(list@);
    let mut i: usize = 0;
    assert(text::texts(out@) =~= model::devices_in(all.take(0)));
    while i < list.len()
        invariant
            i <= list@.len(),
            all == text::texts(list@),
            text::texts(out@) == model::devices_in(all.take(i as int)),
        decreases list.len() - i,
    {
        let ghost before = text::texts(out@);
        proof {
            let next = all.take(i + 1);
            assert(next.drop_last() =~= all.take(i as int));
            assert(next.last() == all[i as int]);
        }
        if begins_with(list[i].as_str(), "device:") {
            out.push(list[i].clone());
            assert(text::texts(out@) =~= before.push(all[i as int]));
        }
        i += 1;
    }
    assert(all.take(i as int) =~= all);
    out
}

fn same_opt(o: &Option<String>, name: &str) -> (r: bool)
    ensures
        r == (text::opt_text(*o) == Some(name@)),
{
    match o {
        Some(s) => text::same_text(s.as_str(), name),
        None => false,
    }
}

impl Machine {
    /// What native plugins were asked so far.
    pub closed spec fn native_calls(&self) -> Seq<NativeCall> {
        self.natives.calls()
    }

    /// Those of `list` whose names no native plugin has.
    fn unshadowed(&self, list: Vec<String>) -> (r: Vec<String>)
        ensures
            text::texts(r@) == model::unshadowed(self@.natives, text::texts(list@)),
    {
        let mut out: Vec<String> = Vec::new();
        let ghost all = text::texts(list@);
        let ghost natives = self@.natives;
        let mut i: usize = 0;
        assert(text::texts(out@) =~= model::unshadowed(natives, all.take(0)));
        while i < list.len()
            invariant
                i <= list@.len(),
                all == text::texts(list@),
                natives == self@.natives,
                text::texts(out@) == model::unshadowed(natives, all.take(i as int)),
            decreases list.len() - i,
        {
            let ghost before = text::texts(out@);
            proof {
                let next = all.take(i + 1);
                assert(next.drop_last() =~= all.take(i as int));
                assert(next.last() == all[i as int]);
            }
            if !self.natives.contains(list[i].as_str()) {
                out.push(list[i].clone());
                assert(text::texts(out@) =~= before.push(all[i as int]));
            }
            i += 1;
        }
        assert(all.take(i as int) =~= all);
        out
    }

    /// The plugins that attach to a hook point, native ones first.
    fn hook_names(&self, point: &str) -> (r: Vec<String>)
        ensures
            text::texts(r@) == self@.hook_names(point@),
    {
        let mut out = self.natives.hooks_for(point);
        let rest = self.unshadowed(self.registry.hook_names(point));
        append_texts(&mut out, rest);
        out
    }

    /// The strategy that is active.
    fn strategy(&self) -> (r: Option<String>)
        ensures
            text::opt_text(r) == self@.strategy(),
    {
        match self.natives.strategy_name() {
            Some(name) => Some(name),
            None => {
                let list = self.unshadowed(self.registry.strategy_names());
                if list.len() > 0 {
                    assert(text::texts(list@)[0] == list@[0]@);
                    Some(list[0].clone())
                } else {
                    None
                }
            },
        }
    }

    /// Plugins that the kernel itself calls.
    fn reserved(&self, name: &str) -> (r: bool)
        ensures
            r == self@.settings.reserved(name@),
    {
        same_opt(&self.settings.repair_plugin, name) || same_opt(
            &self.settings.infer_plugin,
            name,
        )
    }

    /// The devices of the tool `name`; `None` where the model has no such tool.
    fn tool_devices(&self, name: &str) -> (r: Option<Vec<String>>)
        ensures
            r is Some <==> self@.tool_devices(name@) is Some,
            r matches Some(v) ==> Some(text::texts(v@)) == self@.tool_devices(name@),
    {
        if self.reserved(name) {
            None
        } else if self.natives.contains(name) {
            self.natives.tool_devices(name)
        } else {
            match self.registry.tool(name) {
                Some(p) => Some(
                    device_capabilities(p.manifest.permissions.capabilities.as_slice()),
                ),
                None => None,
            }
        }
    }

    /// Those of `list` that the model may call.
    fn callable(&self, list: &[String]) -> (r: Vec<String>)
        ensures
            text::texts(r@) == self@.settings.callable(text::texts(list@)),
    {
        let mut out: Vec<String> = Vec::new();
        let ghost all = text::texts(list@);
        let ghost k = self@.settings;
        let mut i: usize = 0;
        assert(text::texts(out@) =~= k.callable(all.take(0)));
        while i < list.len()
            invariant
                i <= list@.len(),
                all == text::texts(list@),
                k == self@.settings,
                text::texts(out@) == k.callable(all.take(i as int)),
            decreases list.len() - i,
        {
            let ghost before = text::texts(out@);
            proof {
                let next = all.take(i + 1);
                assert(next.drop_last() =~= all.take(i as int));
                assert(next.last() == all[i as int]);
            }
            if !self.reserved(list[i].as_str()) {
                out.push(list[i].clone());
                assert(text::texts(out@) =~= before.push(all[i as int]));
            }
            i += 1;
        }
        assert(all.take(i as int) =~= all);
        out
    }

    /// What the model is told of its task.
    fn prompt(&self) -> (r: String)
        ensures
            r@ == model::prompt_for(self@.tools()),
    {
        let mut list = self.natives.tool_names();
        let wasm = self.unshadowed(self.registry.tool_names());
        append_texts(&mut list, wasm);
        let mine = self.callable(list.as_slice());
        let sorted = text::sort_texts(mine.as_slice());
        words::system_prompt(sorted.as_slice())
    }
}

impl Machine {
    /// Goes on to `stage` once the hooks at `point` have run.
    fn hooked(&mut self, point: &str, data: Json, with_event: bool, stage: Stage)
        ensures
            final(self).native_calls() == old(self).native_calls(),
            final(self)@ == (KernelModel {
                hooks: HookRun {
                    point: point@,
                    names: old(self)@.hook_names(point@),
                    data: data@,
                    with_event,
                },
                stage: stage@,
                ..old(self)@
            }),
    {
        let names = self.hook_names(point);
        self.hooks = Hooks { point: point.to_string(), names, data, with_event };
        self.stage = stage;
    }

    /// Leaves the happy path after a failure.
    fn failed(&mut self, reason: String)
        ensures
            final(self).native_calls() == old(self).native_calls(),
            final(self)@ == old(self)@.failed(reason@),
    {
        self.breaker.record_failure();
        self.stage = Stage::Degrade { reason, reset: false };
    }

    /// Ends the task.
    fn ended(&mut self, status: &str, via: &str, reply: String)
        ensures
            final(self).native_calls() == old(self).native_calls(),
            final(self)@ == old(self)@.ended(status@, via@, reply@),
    {
        self.stage = Stage::Finish { outcome: TaskOutcome::new(status, via, reply), reset: false };
    }

    /// Takes over what the model said.
    fn heard(&mut self, result: Result<String, String>)
        ensures
            final(self).native_calls() == old(self).native_calls(),
            final(self)@ == old(self)@.heard(text::text_result(result)),
    {
        match result {
            Ok(raw) => {
                let data = words::raw_output(self.attempt, raw.as_str());
                self.hooked("post_infer", data, true, Stage::Check { raw });
            },
            Err(e) => {
                let reason = words::sentence("inference error: ", e.as_str(), "");
                assert(""@ =~= Seq::<char>::empty()) by {
                    reveal_strlit("");
                }
                assert(reason@ =~= "inference error: "@ + e@);
                self.stage = Stage::Missed { reason };
            },
        }
    }

    /// A valid plan exists: audit point before anything executes.
    fn planned(&mut self, cmd: ModelCommand)
        ensures
            final(self).native_calls() == old(self).native_calls(),
            final(self)@ == old(self)@.planned(cmd@),
    {
        let data = words::plan(&cmd);
        self.hooked("on_plan", data, true, Stage::Guard { cmd });
    }

    /// An attempt whose answer was no command.
    fn violated(&mut self, error: CommandError)
        ensures
            final(self).native_calls() == old(self).native_calls(),
            final(self)@ == old(self)@.at(model::violation(error)),
    {
        let mut reason = "format violation: ".to_string();
        reason.append(error.message());
        self.stage = Stage::Missed { reason };
    }

    /// Takes over a plugin's answer.
    fn after(&mut self, job: Job, result: Result<PluginOutput, String>)
        ensures
            final(self).native_calls() == old(self).native_calls(),
            final(self)@ == old(self)@.after(job@, runtime::output_texts(result)),
    {
        reveal(KernelModel::after);
        self.wait = Wait::Nothing;
        match job {
            Job::Hook => {},
            Job::Route => {
                self.stage = Stage::Decide { out: answers::answered(result) };
            },
            Job::Infer => {
                self.heard(answers::inferred(result));
            },
            Job::Repair { error } => match answers::repaired(result) {
                Some(cmd) => {
                    self.planned(cmd);
                },
                None => {
                    self.violated(error);
                },
            },
            Job::Tool { tool } => {
                let done = answers::tool_result(tool.as_str(), result);
                let data = words::tool_done(tool.as_str(), &done);
                self.hooked("post_tool", data, true, Stage::Settle { result: done });
            },
            Job::Fallback => {
                let mut stage = Stage::Idle;
                core::mem::swap(&mut stage, &mut self.stage);
                match stage {
                    Stage::Fallback { reason, reset } => {
                        let outcome = answers::fallback_outcome(
                            answers::answered(result),
                            reason.as_str(),
                        );
                        self.stage = Stage::Finish { outcome, reset };
                    },
                    other => {
                        self.stage = other;
                    },
                }
            },
        }
    }

    /// Single funnel for plugin calls: permission-filtered input, and the wait
    /// for the answer.
    fn called(&mut self, name: String, input: PluginInput, job: Job) -> (r: Action)
        ensures
            final(self).native_calls() == old(self).native_calls(),
            (final(self)@, r@) == old(self)@.called(name@, input@, job@),
    {
        reveal(KernelModel::called);
        let mut input = input;
        if self.natives.contains(name.as_str()) {
            input.context = Some(abi::view_context(self.ctx.entries()));
            self.wait = Wait::Plugin { name: name.clone(), native: true, job };
            return Action::Native { name, input };
        }
        let may_see_context = match self.registry.get(name.as_str()) {
            Some(p) => Some(p.manifest.permissions.context),
            None => None,
        };
        match may_see_context {
            Some(allowed) => {
                if allowed {
                    input.context = Some(abi::view_context(self.ctx.entries()));
                } else {
                    input.context = None;
                }
                self.wait = Wait::Plugin { name: name.clone(), native: false, job };
                Action::Wasm { name, input }
            },
            None => {
                let why = words::sentence("plugin '", name.as_str(), "' not loaded");
                self.after(job, Err(why));
                Action::Continue
            },
        }
    }

    /// The event, as plugins see it.
    fn event_json(&self) -> (r: Option<Json>)
        ensures
            abi::opt_json(r) == self@.event_text(),
    {
        match &self.event {
            Some(e) => Some(e.to_json()),
            None => None,
        }
    }

    fn step_hook(&mut self) -> (r: Action)
        requires
            old(self)@.hooks.names.len() > 0,
        ensures
            final(self).native_calls() == old(self).native_calls(),
            (final(self)@, r@) == old(self)@.step_hook(),
    {
        let event = if self.hooks.with_event {
            self.event_json()
        } else {
            None
        };
        let input = PluginInput {
            kind: "hook".to_string(),
            hook: Some(self.hooks.point.clone()),
            event,
            context: None,
            args: self.hooks.data.clone(),
        };
        assert(input@ == self@.hook_input());
        let ghost before = text::texts(self.hooks.names@);
        let name = self.hooks.names.remove(0);
        assert(text::texts(self.hooks.names@) =~= before.drop_first());
        self.called(name, input, Job::Hook)
    }

    fn strategy_input(&self, phase: &str) -> (r: PluginInput)
        ensures
            r@ == self@.strategy_input(phase@),
    {
        PluginInput {
            kind: "strategy".to_string(),
            hook: None,
            event: self.event_json(),
            context: None,
            args: words::phase(phase),
        }
    }

    fn step_route(&mut self) -> (r: Action)
        ensures
            final(self).native_calls() == old(self).native_calls(),
            (final(self)@, r@) == old(self)@.at(StageModel::Route).step_stage(),
    {
        reveal(KernelModel::step_stage);
        self.stage = Stage::Route;
        match self.strategy() {
            Some(name) => {
                let input = self.strategy_input("route");
                self.called(name, input, Job::Route)
            },
            None => {
                self.stage = Stage::Decide { out: None };
                Action::Continue
            },
        }
    }

    fn step_decide(&mut self, out: Option<PluginOutput>) -> (r: Action)
        ensures
            final(self).native_calls() == old(self).native_calls(),
            (final(self)@, r@) == old(self)@.at(
                StageModel::Decide { out: state::opt_output(out) },
            ).step_stage(),
    {
        reveal(KernelModel::step_stage);
        let decision = answers::decision(&out);
        let data = words::decision(decision.as_str());
        self.hooked("post_route", data, true, Stage::Act { decision, out });
        Action::Continue
    }

    fn step_act(&mut self, decision: String, out: Option<PluginOutput>) -> (r: Action)
        ensures
            final(self).native_calls() == old(self).native_calls(),
            (final(self)@, r@) == old(self)@.at(
                StageModel::Act { decision: decision@, out: state::opt_output(out) },
            ).step_stage(),
    {
        reveal(KernelModel::step_stage);
        if text::same_text(decision.as_str(), "rule") {
            if let Some(o) = out {
                self.breaker.record_success();
                self.ended("ok", "rule", answers::answer_text(o));
                return Action::Continue;
            }
        }
        if self.breaker.is_open() {
            self.stage = Stage::Degrade { reason: "breaker open".to_string(), reset: true };
            return Action::Continue;
        }
        let request = match &self.event {
            Some(e) => payload::read_request(&e.payload),
            None => Err("no event".to_string()),
        };
        match request {
            Err(why) => {
                self.failed(why);
            },
            Ok((t, left)) => {
                self.system = self.prompt();
                self.input = UserInput::text(t.as_str());
                self.stage = Stage::Gather { left };
            },
        }
        Action::Continue
    }

    fn with_image(&mut self, image: ImagePart, left: Vec<ImageSource>)
        ensures
            final(self).native_calls() == old(self).native_calls(),
            final(self)@ == old(self)@.with_image(image@, payload::sources(left@)),
    {
        let ghost before = inference::images(self.input.images@);
        let ghost picture = image@;
        self.input.images.push(image);
        assert(inference::images(self.input.images@) =~= before.push(picture));
        self.stage = Stage::Gather { left };
    }

    fn step_gather(&mut self, left: Vec<ImageSource>) -> (r: Action)
        ensures
            final(self).native_calls() == old(self).native_calls(),
            (final(self)@, r@) == old(self)@.at(
                StageModel::Gather { left: payload::sources(left@) },
            ).step_stage(),
    {
        reveal(KernelModel::step_stage);
        let ghost all = payload::sources(left@);
        let mut left = left;
        if left.len() == 0 {
            self.stage = Stage::Try;
            return Action::Continue;
        }
        let first = left.remove(0);
        assert(payload::sources(left@) =~= all.drop_first());
        assert(first@ == all[0]);
        match first {
            ImageSource::Ready(image) => {
                self.with_image(image, left);
                Action::Continue
            },
            ImageSource::File(path) => {
                left.insert(0, ImageSource::File(path.clone()));
                assert(payload::sources(left@) =~= all);
                self.stage = Stage::Gather { left };
                self.wait = Wait::File { path: path.clone() };
                Action::ReadFile { path }
            },
        }
    }

    fn step_try(&mut self) -> (r: Action)
        ensures
            final(self).native_calls() == old(self).native_calls(),
            (final(self)@, r@) == old(self)@.at(StageModel::Try).step_stage(),
    {
        reveal(KernelModel::step_stage);
        let data = words::attempt(self.attempt);
        self.hooked("pre_infer", data, true, Stage::Infer);
        Action::Continue
    }

    fn step_infer(&mut self) -> (r: Action)
        ensures
            final(self).native_calls() == old(self).native_calls(),
            (final(self)@, r@) == old(self)@.at(StageModel::Infer).step_stage(),
    {
        reveal(KernelModel::step_stage);
        self.stage = Stage::Infer;
        let plugin = match &self.settings.infer_plugin {
            Some(name) => Some(name.clone()),
            None => None,
        };
        match plugin {
            None => {
                self.wait = Wait::Model;
                Action::Ask {
                    system: self.system.clone(),
                    context: context::copy_entries(self.ctx.entries()),
                    input: self.input.clone(),
                }
            },
            Some(name) => {
                if self.input.images.len() > 0 {
                    self.heard(Err("inference plugins cannot carry images".to_string()));
                    return Action::Continue;
                }
                let input = PluginInput {
                    kind: "infer".to_string(),
                    hook: None,
                    event: None,
                    context: None,
                    args: words::infer(self.system.as_str(), self.input.text.as_str()),
                };
                self.called(name, input, Job::Infer)
            },
        }
    }

    fn step_missed(&mut self, reason: String) -> (r: Action)
        ensures
            final(self).native_calls() == old(self).native_calls(),
            (final(self)@, r@) == old(self)@.at(
                StageModel::Missed { reason: reason@ },
            ).step_stage(),
    {
        reveal(KernelModel::step_stage);
        if self.attempt < self.settings.max_format_retries {
            self.attempt = self.attempt + 1;
            self.stage = Stage::Try;
        } else {
            self.failed(reason);
        }
        Action::Continue
    }

    fn step_check(&mut self, raw: String) -> (r: Action)
        ensures
            final(self).native_calls() == old(self).native_calls(),
            (final(self)@, r@) == old(self)@.at(StageModel::Check { raw: raw@ }).step_stage(),
    {
        reveal(KernelModel::step_stage);
        self.stage = Stage::Check { raw: raw.clone() };
        match command::parse_model_command(raw.as_str()) {
            Ok(cmd) => {
                self.planned(cmd);
                Action::Continue
            },
            Err(error) => {
                let plugin = match &self.settings.repair_plugin {
                    Some(name) => Some(name.clone()),
                    None => None,
                };
                match plugin {
                    None => {
                        self.violated(error);
                        Action::Continue
                    },
                    Some(name) => {
                        let input = PluginInput {
                            kind: "repair".to_string(),
                            hook: None,
                            event: None,
                            context: None,
                            args: words::repair(raw.as_str(), error),
                        };
                        assert(input@ == model::repair_input(raw@, error));
                        self.called(name, input, Job::Repair { error })
                    },
                }
            },
        }
    }

    /// Dead-loop guard on the planned action.
    fn step_guard(&mut self, cmd: ModelCommand) -> (r: Action)
        ensures
            final(self).native_calls() == old(self).native_calls(),
            (final(self)@, r@) == old(self)@.at(StageModel::Guard { cmd: cmd@ }).step_stage(),
    {
        reveal(KernelModel::step_stage);
        let fingerprint: u64 = cmd.fingerprint();
        if self.breaker.record_action(fingerprint) {
            self.stage = Stage::Degrade {
                reason: "repeated action loop".to_string(),
                reset: true,
            };
            return Action::Continue;
        }
        match (cmd.reply, cmd.tool) {
            (Some(reply), None) => {
                self.breaker.record_success();
                self.ended("ok", "model", reply);
            },
            (None, Some(tool)) => {
                self.stage = Stage::Tool { tool, args: cmd.args };
            },
            _ => {
                self.failed(CommandError::Choice.message().to_string());
            },
        }
        Action::Continue
    }

    /// Locks the tool's devices, or refuses.
    fn step_tool(&mut self, tool: String, args: Json) -> (r: Action)
        ensures
            final(self).native_calls() == old(self).native_calls(),
            (final(self)@, r@) == old(self)@.at(
                StageModel::Tool { tool: tool@, args: args@ },
            ).step_stage(),
    {
        reveal(KernelModel::step_stage);
        match self.tool_devices(tool.as_str()) {
            None => {
                self.failed(
                    words::sentence("model asked for unknown tool '", tool.as_str(), "'"),
                );
            },
            Some(devices) => match self.locks.acquire_all(self.task_seq, devices.as_slice()) {
                Err(busy) => {
                    self.ended(
                        "busy",
                        "kernel",
                        words::sentence("resource '", busy.as_str(), "' is busy"),
                    );
                },
                Ok(()) => {
                    let data = words::tool_call(tool.as_str(), &args);
                    self.hooked("pre_tool", data, true, Stage::CallTool { tool, args });
                },
            },
        }
        Action::Continue
    }

    fn step_call_tool(&mut self, tool: String, args: Json) -> (r: Action)
        ensures
            final(self).native_calls() == old(self).native_calls(),
            (final(self)@, r@) == old(self)@.at(
                StageModel::CallTool { tool: tool@, args: args@ },
            ).step_stage(),
    {
        reveal(KernelModel::step_stage);
        self.stage = Stage::CallTool { tool: tool.clone(), args: args.clone() };
        let input = PluginInput {
            kind: "tool".to_string(),
            hook: None,
            event: self.event_json(),
            context: None,
            args,
        };
        let name = tool.clone();
        self.called(name, input, Job::Tool { tool })
    }

    fn step_settle(&mut self, result: Result<String, String>) -> (r: Action)
        ensures
            final(self).native_calls() == old(self).native_calls(),
            (final(self)@, r@) == old(self)@.at(
                StageModel::Settle { result: text::text_result(result) },
            ).step_stage(),
    {
        reveal(KernelModel::step_stage);
        match result {
            Ok(reply) => {
                self.breaker.record_success();
                self.ended("ok", "tool", reply);
            },
            Err(why) => {
                self.failed(why);
            },
        }
        Action::Continue
    }

    fn step_degrade(&mut self, reason: String, reset: bool) -> (r: Action)
        ensures
            final(self).native_calls() == old(self).native_calls(),
            (final(self)@, r@) == old(self)@.at(
                StageModel::Degrade { reason: reason@, reset },
            ).step_stage(),
    {
        reveal(KernelModel::step_stage);
        let data = words::reason(reason.as_str());
        self.hooked("on_degrade", data, true, Stage::Fallback { reason, reset });
        Action::Continue
    }

    fn step_fallback(&mut self, reason: String, reset: bool) -> (r: Action)
        ensures
            final(self).native_calls() == old(self).native_calls(),
            (final(self)@, r@) == old(self)@.at(
                StageModel::Fallback { reason: reason@, reset },
            ).step_stage(),
    {
        reveal(KernelModel::step_stage);
        match self.strategy() {
            Some(name) => {
                let input = self.strategy_input("fallback");
                self.stage = Stage::Fallback { reason, reset };
                self.called(name, input, Job::Fallback)
            },
            None => {
                let outcome = answers::fallback_outcome(None, reason.as_str());
                self.stage = Stage::Finish { outcome, reset };
                Action::Continue
            },
        }
    }

    fn step_finish(&mut self, outcome: TaskOutcome, reset: bool) -> (r: Action)
        ensures
            final(self).native_calls() == old(self).native_calls(),
            (final(self)@, r@) == old(self)@.at(
                StageModel::Finish { outcome: outcome@, reset },
            ).step_stage(),
    {
        reveal(KernelModel::step_stage);
        if reset {
            self.breaker.reset();
        }
        self.locks.release_task(self.task_seq);
        let data = words::outcome(&outcome);
        self.hooked("post_task", data, true, Stage::Drain { outcome: Some(outcome) });
        Action::Continue
    }

    fn step_drain(&mut self, outcome: Option<TaskOutcome>) -> (r: Action)
        ensures
            final(self).native_calls() == old(self).native_calls(),
            (final(self)@, r@) == old(self)@.at(
                StageModel::Drain { outcome: state::opt_outcome(outcome) },
            ).step_stage(),
    {
        reveal(KernelModel::step_stage);
        let mut left: Vec<String> = Vec::new();
        assert(text::texts(left@) =~= Seq::<Text>::empty());
        core::mem::swap(&mut left, &mut self.pending);
        self.stage = Stage::Rollbacks { left, outcome };
        Action::Continue
    }

    fn step_rollbacks(&mut self, left: Vec<String>, outcome: Option<TaskOutcome>) -> (r: Action)
        ensures
            final(self).native_calls() == old(self).native_calls(),
            (final(self)@, r@) == old(self)@.at(
                StageModel::Rollbacks {
                    left: text::texts(left@),
                    outcome: state::opt_outcome(outcome),
                },
            ).step_stage(),
    {
        reveal(KernelModel::step_stage);
        let mut left = left;
        if left.len() == 0 {
            self.stage = Stage::Close { outcome };
            return Action::Continue;
        }
        let ghost all = text::texts(left@);
        let plugin = left.remove(0);
        assert(text::texts(left@) =~= all.drop_first());
        let data = words::rollback(plugin.as_str());
        self.hooked("on_rollback", data, false, Stage::Rollbacks { left, outcome });
        Action::Continue
    }

    fn step_close(&mut self, outcome: Option<TaskOutcome>) -> (r: Action)
        ensures
            final(self).native_calls() == old(self).native_calls(),
            (final(self)@, r@) == old(self)@.at(
                StageModel::Close { outcome: state::opt_outcome(outcome) },
            ).step_stage(),
    {
        reveal(KernelModel::step_stage);
        if let Some(o) = &outcome {
            let said = match &self.event {
                Some(e) => {
                    if text::same_text(e.kind.as_str(), "command") {
                        Some(e.payload.as_str())
                    } else {
                        None
                    }
                },
                None => None,
            };
            match said {
                Some(command) => {
                    if let Some(t) = command {
                        self.ctx.push("user", t.as_str());
                    }
                    self.ctx.push("assistant", o.reply.as_str());
                },
                None => {},
            }
        }
        self.event = None;
        self.stage = Stage::Idle;
        Action::Done { outcome }
    }

    fn step_reload(&mut self, name: String) -> (r: Action)
        ensures
            final(self).native_calls() == old(self).native_calls(),
            (final(self)@, r@) == old(self)@.at(StageModel::Reload { name: name@ }).step_stage(),
    {
        reveal(KernelModel::step_stage);
        self.stage = Stage::Reload { name: name.clone() };
        self.wait = Wait::Reload;
        Action::Reload { name }
    }

    /// Takes the next decision.
    fn step_stage(&mut self) -> (r: Action)
        ensures
            final(self).native_calls() == old(self).native_calls(),
            (final(self)@, r@) == old(self)@.step_stage(),
    {
        let ghost before = self@;
        let mut stage = Stage::Idle;
        core::mem::swap(&mut stage, &mut self.stage);
        assert(before == self@.at(stage@));
        match stage {
            Stage::Idle => {
                reveal(KernelModel::step_stage);
                Action::Rest
            },
            Stage::Route => self.step_route(),
            Stage::Decide { out } => self.step_decide(out),
            Stage::Act { decision, out } => self.step_act(decision, out),
            Stage::Gather { left } => self.step_gather(left),
            Stage::Try => self.step_try(),
            Stage::Infer => self.step_infer(),
            Stage::Check { raw } => self.step_check(raw),
            Stage::Missed { reason } => self.step_missed(reason),
            Stage::Guard { cmd } => self.step_guard(cmd),
            Stage::Tool { tool, args } => self.step_tool(tool, args),
            Stage::CallTool { tool, args } => self.step_call_tool(tool, args),
            Stage::Settle { result } => self.step_settle(result),
            Stage::Degrade { reason, reset } => self.step_degrade(reason, reset),
            Stage::Fallback { reason, reset } => self.step_fallback(reason, reset),
            Stage::Finish { outcome, reset } => self.step_finish(outcome, reset),
            Stage::Drain { outcome } => self.step_drain(outcome),
            Stage::Rollbacks { left, outcome } => self.step_rollbacks(left, outcome),
            Stage::Close { outcome } => self.step_close(outcome),
            Stage::Reload { name } => self.step_reload(name),
        }
    }
}

impl Machine {
    /// Takes over a plugin's answer, with health accounting for wasm plugins.
    fn step_answer(
        &mut self,
        name: String,
        native: bool,
        job: Job,
        result: Result<PluginOutput, String>,
    ) -> (r: Action)
        ensures
            final(self).native_calls() == old(self).native_calls(),
            (final(self)@, r@) == old(self)@.step_answer(
                name@,
                native,
                job@,
                runtime::output_texts(result),
            ),
    {
        if native {
            self.after(job, result);
            return Action::Continue;
        }
        let ok = match &result {
            Ok(out) => out.ok,
            Err(_) => false,
        };
        let dir = match self.registry.get(name.as_str()) {
            Some(p) => p.dir.clone(),
            None => String::new(),
        };
        if self.registry.report_result(name.as_str(), ok, self.settings.plugin_max_failures) {
            self.wait = Wait::Package { name: name.clone(), result, job };
            Action::Disable { name, dir }
        } else {
            self.after(job, result);
            Action::Continue
        }
    }

    /// Takes over the stable version of a plugin whose active one was disabled.
    fn step_package(
        &mut self,
        name: String,
        result: Result<PluginOutput, String>,
        job: Job,
        package: Result<Option<LoadedPlugin>, String>,
    ) -> (r: Action)
        ensures
            final(self).native_calls() == old(self).native_calls(),
            (final(self)@, r@) == old(self)@.step_package(
                name@,
                runtime::output_texts(result),
                job@,
                state::package_result(package),
            ),
    {
        match package {
            Ok(p) => {
                self.registry.reload(name.as_str(), p);
            },
            Err(_) => {},
        }
        let ghost before = text::texts(self.pending@);
        let ghost plugin = name@;
        self.pending.push(name);
        assert(text::texts(self.pending@) =~= before.push(plugin));
        self.after(job, result);
        Action::Continue
    }

    fn step_file(&mut self, path: String, result: Result<Vec<u8>, String>)
        ensures
            final(self).native_calls() == old(self).native_calls(),
            final(self)@ == old(self)@.step_file(path@, state::file_result(result)),
    {
        self.wait = Wait::Nothing;
        let mut stage = Stage::Idle;
        core::mem::swap(&mut stage, &mut self.stage);
        match stage {
            Stage::Gather { left } => match result {
                Ok(data) => {
                    let ghost all = payload::sources(left@);
                    let mut left = left;
                    if left.len() > 0 {
                        let _ = left.remove(0);
                    }
                    proof {
                        if all.len() > 0 {
                            assert(payload::sources(left@) =~= all.drop_first());
                        }
                    }
                    let mime = payload::path_mime(path.as_str()).to_string();
                    self.with_image(ImagePart { mime, data }, left);
                },
                Err(e) => {
                    let mut why = words::sentence("cannot read image '", path.as_str(), "': ");
                    why.append(e.as_str());
                    self.failed(why);
                },
            },
            other => {
                self.stage = other;
            },
        }
    }

    fn step_reloaded(&mut self, package: Result<Option<LoadedPlugin>, String>) -> (r: Action)
        ensures
            final(self).native_calls() == old(self).native_calls(),
            (final(self)@, r@) == old(self)@.step_reloaded(state::package_result(package)),
    {
        let mut stage = Stage::Idle;
        core::mem::swap(&mut stage, &mut self.stage);
        let name = match stage {
            Stage::Reload { name } => name,
            _ => String::new(),
        };
        proof {
            if !(old(self)@.stage is Reload) {
                assert(name@ =~= Seq::<char>::empty());
            }
        }
        self.wait = Wait::Nothing;
        self.event = None;
        match package {
            Ok(p) => {
                self.registry.reload(name.as_str(), p);
                let reply = words::sentence("plugin '", name.as_str(), "' reloaded");
                Action::Done { outcome: Some(TaskOutcome::new("ok", "kernel", reply)) }
            },
            Err(e) => {
                let mut reply = "reload failed: ".to_string();
                reply.append(e.as_str());
                Action::Done { outcome: Some(TaskOutcome::new("error", "kernel", reply)) }
            },
        }
    }

    /// One step. A reply that the kernel does not wait for changes nothing.
    pub fn step(&mut self, reply: Reply) -> (r: Action)
        ensures
            final(self).native_calls() == old(self).native_calls(),
            (final(self)@, r@) == old(self)@.step(reply@),
    {
        reveal(KernelModel::step);
        let ghost before = self@;
        let mut wait = Wait::Nothing;
        core::mem::swap(&mut wait, &mut self.wait);
        assert(before == (KernelModel { wait: wait@, ..self@ }));
        proof {
            lemma_swapped(before, self@, reply@);
        }
        match (wait, reply) {
            (Wait::Nothing, Reply::Nothing) => {
                if self.hooks.names.len() > 0 {
                    self.step_hook()
                } else {
                    self.step_stage()
                }
            },
            (Wait::Plugin { name, native, job }, Reply::Plugin { result }) => self.step_answer(
                name,
                native,
                job,
                result,
            ),
            (
                Wait::Package { name, result, job },
                Reply::Package { result: package },
            ) => self.step_package(name, result, job, package),
            (Wait::Model, Reply::Model { result }) => {
                self.heard(result);
                Action::Continue
            },
            (Wait::File { path }, Reply::File { result }) => {
                self.step_file(path, result);
                Action::Continue
            },
            (Wait::Reload, Reply::Package { result: package }) => self.step_reloaded(package),
            (other, _) => {
                self.wait = other;
                Action::Rest
            },
        }
    }

    /// Begins a task.
    pub fn begin(&mut self, event: Event)
        ensures
            final(self).native_calls() == old(self).native_calls(),
            final(self)@ == old(self)@.begun(event@),
    {
        self.task_seq = if self.task_seq == u64::MAX {
            0
        } else {
            self.task_seq + 1
        };
        self.attempt = 0;
        if text::same_text(event.kind.as_str(), "plugin_reload") {
            let name = match event.payload.get("name") {
                Some(v) => match v.as_str() {
                    Some(t) => t,
                    None => String::new(),
                },
                None => String::new(),
            };
            proof {
                if payload::string_member(event.payload@, "name"@) is None {
                    assert(name@ =~= Seq::<char>::empty());
                }
            }
            self.event = Some(event);
            self.stage = Stage::Reload { name };
        } else {
            self.event = Some(event);
            let data = words::no_data();
            self.hooked("pre_task", data, true, Stage::Route);
        }
    }

    /// The kernel starts: the hooks learn which plugins are loaded.
    pub fn start(&mut self)
        ensures
            final(self).native_calls() == old(self).native_calls(),
            final(self)@ == old(self)@.started(),
    {
        let loaded = self.registry.names();
        let data = words::start(loaded.as_slice());
        self.hooked("kernel_start", data, false, Stage::Drain { outcome: None });
    }

    /// The kernel stops: the hooks can flush their state.
    pub fn stop(&mut self)
        ensures
            final(self).native_calls() == old(self).native_calls(),
            final(self)@ == old(self)@.stopping(),
    {
        let data = words::no_data();
        self.hooked("kernel_stop", data, false, Stage::Drain { outcome: None });
    }

    /// The line that a hook leaves in the log where it failed.
    fn note_hook(&self, name: &str, job: &Job, result: &Result<PluginOutput, String>) -> (r: Vec<
        String,
    >)
        ensures
            text::texts(r@) == self@.hook_notes(name@, job@, runtime::output_texts(*result)),
    {
        let mut out: Vec<String> = Vec::new();
        match (job, result) {
            (Job::Hook, Err(e)) => {
                let mut line = "[kernel] hook '".to_string();
                line.append(name);
                line.append("'@");
                line.append(self.hooks.point.as_str());
                line.append(" failed: ");
                line.append(e.as_str());
                out.push(line);
            },
            _ => {},
        }
        assert(text::texts(out@) =~= self@.hook_notes(
            name@,
            job@,
            runtime::output_texts(*result),
        ));
        out
    }

    /// The lines that a reply leaves in the log.
    pub(crate) fn notes(&self, reply: &Reply) -> (r: Vec<String>)
        ensures
            text::texts(r@) == self@.notes(reply@),
    {
        let mut out: Vec<String> = Vec::new();
        match (&self.wait, reply) {
            (Wait::Plugin { name, native, job }, Reply::Plugin { result }) => {
                let ok = match result {
                    Ok(output) => output.ok,
                    Err(_) => false,
                };
                let most: u32 = self.settings.plugin_max_failures;
                match self.registry.get(name.as_str()) {
                    Some(p) => {
                        if !*native && self.registry.would_trip(name.as_str(), ok, most) {
                            out.push(
                                registry::note_rollback(
                                    name.as_str(),
                                    p.manifest.version.as_str(),
                                ),
                            );
                        } else {
                            return self.note_hook(name.as_str(), job, result);
                        }
                    },
                    None => {
                        return self.note_hook(name.as_str(), job, result);
                    },
                }
            },
            (Wait::Package { name, result, job }, Reply::Package { .. }) => {
                return self.note_hook(name.as_str(), job, result);
            },
            (Wait::Nothing, Reply::Nothing) => match &self.stage {
                Stage::Degrade { reason, reset: _ } => {
                    if self.hooks.names.len() == 0 {
                        let mut line = "[kernel] degraded: ".to_string();
                        line.append(reason.as_str());
                        out.push(line);
                    }
                },
                _ => {},
            },
            _ => {},
        }
        assert(text::texts(out@) =~= self@.notes(reply@));
        out
    }

    /// Has a native plugin handle an input.
    pub(crate) fn invoke_native(&mut self, name: &str, input: &PluginInput) -> (r: Result<
        PluginOutput,
        String,
    >)
        ensures
            final(self)@ == old(self)@,
            native::may_answer(old(self)@.natives, name@, input@, runtime::output_texts(r)),
            final(self).native_calls() == old(self).native_calls().push(
                NativeCall { name: name@, input: input@, result: runtime::output_texts(r) },
            ),
    {
        self.natives.invoke(name, input)
    }

    /// The wasm plugin `name`.
    pub(crate) fn plugin(&self, name: &str) -> (r: Option<&LoadedPlugin>)
        ensures
            match r {
                Some(p) => names::find(self@.plugins, name@) == Some(p@),
                None => names::find(self@.plugins, name@) is None,
            },
    {
        self.registry.get(name)
    }

    /// The plugin that is being resolved anew.
    pub fn awaited(&self) -> (r: Option<String>)
        ensures
            text::opt_text(r) == self@.awaited(),
    {
        match &self.wait {
            Wait::Package { name, result: _, job: _ } => Some(name.clone()),
            Wait::Reload => match &self.stage {
                Stage::Reload { name } => Some(name.clone()),
                _ => None,
            },
            _ => None,
        }
    }

    /// Whether no task is under way.
    pub fn is_resting(&self) -> (r: bool)
        ensures
            r == self@.resting(),
    {
        let idle = match &self.stage {
            Stage::Idle => true,
            _ => false,
        };
        let free = match &self.wait {
            Wait::Nothing => true,
            _ => false,
        };
        idle && free && self.hooks.names.len() == 0
    }

    /// A machine between tasks, with an empty conversation and nothing locked.
    pub fn new(
        settings: Settings,
        context_max_bytes: usize,
        breaker: Breaker,
        natives: NativeRegistry,
        registry: Registry,
    ) -> (r: Self)
        ensures
            r.native_calls() == natives.calls(),
            r@ == KernelModel::fresh(
                settings@,
                context_max_bytes as nat,
                breaker@,
                natives@,
                registry@,
            ),
    {
        let names: Vec<String> = Vec::new();
        let pending: Vec<String> = Vec::new();
        let point = String::new();
        let system = String::new();
        proof {
            assert(system@ =~= Seq::<char>::empty());
            assert(text::texts(names@) =~= Seq::<Text>::empty());
            assert(text::texts(pending@) =~= Seq::<Text>::empty());
            assert(point@ =~= Seq::<char>::empty());
        }
        Machine {
            settings,
            ctx: Context::new(context_max_bytes),
            locks: ResourceLocks::default(),
            breaker,
            natives,
            registry,
            task_seq: 0,
            event: None,
            system,
            input: UserInput::default(),
            attempt: 0,
            pending,
            hooks: Hooks { point, names, data: words::no_data(), with_event: false },
            stage: Stage::Idle,
            wait: Wait::Nothing,
        }
    }
}

fn append_texts(list: &mut Vec<String>, more: Vec<String>)
    ensures
        text::texts(final(list)@) == text::texts(old(list)@) + text::texts(more@),
{
    let ghost first = text::texts(list@);
    let ghost all = text::texts(more@);
    let mut i: usize = 0;
    assert(first + all.take(0) =~= first);
    while i < more.len()
        invariant
            i <= more@.len(),
            all == text::texts(more@),
            text::texts(list@) == first + all.take(i as int),
        decreases more.len() - i,
    {
        let ghost before = text::texts(list@);
        list.push(more[i].clone());
        proof {
            assert(text::texts(list@) =~= before.push(all[i as int]));
            assert(all.take(i + 1) =~= all.take(i as int).push(all[i as int]));
            assert(text::texts(list@) =~= first + all.take(i + 1));
        }
        i += 1;
    }
    assert(all.take(i as int) =~= all);
}

/// A reply is taken over in the same way once the kernel has stopped waiting.
proof fn lemma_swapped(before: KernelModel, k: KernelModel, reply: ReplyModel)
    requires
        k == (KernelModel { wait: WaitModel::Nothing, ..before }),
    ensures
        match (before.wait, reply) {
            (WaitModel::Plugin { name, native, job }, ReplyModel::Plugin { result }) =>
                before.step_answer(name, native, job, result) == k.step_answer(
                name,
                native,
                job,
                result,
            ),
            (WaitModel::Package { name, result, job }, ReplyModel::Package { result: package }) =>
                before.step_package(name, result, job, package) == k.step_package(
                name,
                result,
                job,
                package,
            ),
            _ => true,
        },
{
    match (before.wait, reply) {
        (WaitModel::Plugin { name, native, job }, ReplyModel::Plugin { result }) => {
            let ok = match result {
                Ok(out) => out.ok,
                Err(_) => false,
            };
            let reported = registry::reported(before.plugins, name, ok);
            model::lemma_after(before, k, job, result);
            model::lemma_after(
                KernelModel { plugins: reported, ..before },
                KernelModel { plugins: reported, ..k },
                job,
                result,
            );
        },
        (WaitModel::Package { name, result, job }, ReplyModel::Package { result: package }) => {
            let plugins = match package {
                Ok(p) => registry::resolved(before.plugins, name, p),
                Err(_) => before.plugins,
            };
            let pending = before.pending.push(name);
            model::lemma_after(
                KernelModel { plugins, pending, ..before },
                KernelModel { plugins, pending, ..k },
                job,
                result,
            );
        },
        _ => {},
    }
}

} // verus!
