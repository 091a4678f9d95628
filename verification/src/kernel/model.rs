//! The kernel as a state machine. A step does one thing: it runs the next
//! hook, takes the next decision, or takes over the reply to what was asked of
//! the outside. Every path through the machine is spelled out here; the kernel
//! is proved to take exactly these steps.
//!
//! Degradation chain per task:
//!   strategy(rule) -> model -> format retries -> breaker -> strategy(fallback)
//!   -> safe reject. Every stage is deterministic.

use crate::breaker::BreakerModel;
use crate::context;
use crate::context::EntryModel;
use crate::event;
use crate::event::EventModel;
use crate::inference::{ImageModel, TurnModel};
use crate::json;
use crate::kernel::command;
use crate::kernel::command::{CommandError, CommandModel};
use crate::kernel::payload;
use crate::kernel::payload::SourceModel;
use crate::lock;
use crate::names;
use crate::plugin::abi::{InputModel, OutputModel};
use crate::plugin::manifest::PluginKind;
use crate::plugin::native;
use crate::plugin::native::Natives;
use crate::plugin::registry;
use crate::plugin::registry::{PluginModel, Plugins};
use crate::text;
use crate::text::Text;
use vstd::prelude::*;

verus! {

/// How a task ended.
pub struct OutcomeModel {
    pub status: Text,
    pub reply: Text,
    pub via: Text,
}

/// The part of the configuration that decisions depend on.
pub struct SettingsModel {
    pub max_retries: nat,
    pub plugin_max_failures: nat,
    pub repair_plugin: Option<Text>,
    /// The plugin that does the inference, where a plugin does it.
    pub infer_plugin: Option<Text>,
}

/// The hooks that are to run before the stage goes on.
pub struct HookRun {
    pub point: Text,
    pub names: Seq<Text>,
    pub data: Text,
    /// Whether the hooks get to see the event.
    pub with_event: bool,
}

/// Where a task stands.
#[allow(inconsistent_fields)]
pub enum StageModel {
    /// No task.
    Idle,
    /// The strategy is to be asked.
    Route,
    /// The strategy has answered, or there is none.
    Decide { out: Option<OutputModel> },
    /// The decision is taken.
    Act { decision: Text, out: Option<OutputModel> },
    /// The images of the user's turn are collected.
    Gather { left: Seq<SourceModel> },
    /// An attempt at the model begins.
    Try,
    /// The model is to be asked.
    Infer,
    /// The model has answered.
    Check { raw: Text },
    /// An attempt came to nothing.
    Missed { reason: Text },
    /// A valid plan exists.
    Guard { cmd: CommandModel },
    /// A tool is to be called.
    Tool { tool: Text, args: Text },
    /// The tool's devices are held.
    CallTool { tool: Text, args: Text },
    /// The tool is done: its answer, or why it failed.
    Settle { result: Result<Text, Text> },
    /// The happy path is left.
    Degrade { reason: Text, reset: bool },
    /// The strategy gets a chance to answer deterministically.
    Fallback { reason: Text, reset: bool },
    /// The task has an outcome.
    Finish { outcome: OutcomeModel, reset: bool },
    /// Rollbacks are to be announced.
    Drain { outcome: Option<OutcomeModel> },
    /// The rollbacks that are left to announce.
    Rollbacks { left: Seq<Text>, outcome: Option<OutcomeModel> },
    /// Everything is done.
    Close { outcome: Option<OutcomeModel> },
    /// A plugin is to be resolved anew.
    Reload { name: Text },
}

/// What a plugin was called for.
pub enum JobModel {
    Hook,
    Route,
    Infer,
    Repair { error: CommandError },
    Tool { tool: Text },
    Fallback,
}

/// What the kernel waits for.
pub enum WaitModel {
    Nothing,
    /// A plugin's answer.
    Plugin { name: Text, native: bool, job: JobModel },
    /// A plugin's stable version, after the active one was disabled.
    Package { name: Text, result: Result<OutputModel, Text>, job: JobModel },
    /// The model's answer.
    Model,
    /// An image file.
    File { path: Text },
    /// A plugin that is reloaded.
    Reload,
}

pub struct KernelModel {
    pub settings: SettingsModel,
    pub context_budget: nat,
    pub context: Seq<EntryModel>,
    pub locks: Map<Text, u64>,
    pub breaker: BreakerModel,
    pub natives: Natives,
    pub plugins: Plugins,
    pub task: u64,
    pub event: Option<EventModel>,
    /// What the model is told of its task.
    pub system: Text,
    pub input: TurnModel,
    pub attempt: nat,
    /// Plugins whose rollback is still to be announced.
    pub pending: Seq<Text>,
    pub hooks: HookRun,
    pub stage: StageModel,
    pub wait: WaitModel,
}

/// What the kernel asks of the outside.
#[allow(inconsistent_fields)]
pub enum ActionModel {
    /// Nothing: the next step can be taken.
    Continue,
    /// Have a native plugin handle the input.
    Native { name: Text, input: InputModel },
    /// Have a wasm plugin handle the input.
    Wasm { name: Text, input: InputModel },
    /// Ask the model.
    Ask { system: Text, context: Seq<EntryModel>, input: TurnModel },
    /// Read an image file.
    ReadFile { path: Text },
    /// Mark a plugin's version as disabled and resolve the plugin anew.
    Disable { name: Text, dir: Text },
    /// Resolve a plugin anew.
    Reload { name: Text },
    /// The task is done.
    Done { outcome: Option<OutcomeModel> },
    /// Nothing to do, or nothing to do with this reply.
    Rest,
}

/// What the outside replies.
#[allow(inconsistent_fields)]
pub enum ReplyModel {
    Nothing,
    Plugin { result: Result<OutputModel, Text> },
    Model { result: Result<Text, Text> },
    File { result: Result<Seq<u8>, Text> },
    Package { result: Result<Option<PluginModel>, Text> },
}

// Lists of plugins.

/// Those of `list` whose names no native plugin has.
pub open spec fn unshadowed(natives: Natives, list: Seq<Text>) -> Seq<Text>
    decreases list.len(),
{
    if list.len() == 0 {
        seq![]
    } else {
        let front = unshadowed(natives, list.drop_last());
        if names::find(natives, list.last()) is None {
            front.push(list.last())
        } else {
            front
        }
    }
}

/// The line that a hook which failed leaves in the log.
pub open spec fn hook_line(name: Text, point: Text, why: Text) -> Text {
    "[kernel] hook '"@ + name + "'@"@ + point + " failed: "@ + why
}

impl KernelModel {
    /// The plugins that attach to a hook point, native ones first.
    pub open spec fn hook_names(self, point: Text) -> Seq<Text> {
        names::names_where(self.natives, native::attached_to(point)) + unshadowed(
            self.natives,
            registry::called(self.plugins, registry::attached_to(point)),
        )
    }

    /// The strategy that is active: the first native one, or else the first
    /// wasm one.
    pub open spec fn strategy(self) -> Option<Text> {
        match native::strategy_of(self.natives) {
            Some(name) => Some(name),
            None => {
                let list = unshadowed(
                    self.natives,
                    registry::called(self.plugins, registry::of_kind(PluginKind::Strategy)),
                );
                if list.len() > 0 {
                    Some(list[0])
                } else {
                    None
                }
            },
        }
    }

}

impl SettingsModel {
    /// Plugins that the kernel itself calls, for inference or repair. The model
    /// can never call them.
    pub open spec fn reserved(self, name: Text) -> bool {
        self.repair_plugin == Some(name) || self.infer_plugin == Some(name)
    }

    /// Those of `list` that the model may call.
    pub open spec fn callable(self, list: Seq<Text>) -> Seq<Text>
        decreases list.len(),
    {
        if list.len() == 0 {
            seq![]
        } else {
            let front = self.callable(list.drop_last());
            if self.reserved(list.last()) {
                front
            } else {
                front.push(list.last())
            }
        }
    }
}

/// The capabilities that are devices.
pub open spec fn devices_in(capabilities: Seq<Text>) -> Seq<Text>
    decreases capabilities.len(),
{
    if capabilities.len() == 0 {
        seq![]
    } else {
        let front = devices_in(capabilities.drop_last());
        if "device:"@.is_prefix_of(capabilities.last()) {
            front.push(capabilities.last())
        } else {
            front
        }
    }
}

impl KernelModel {
    /// The devices of the tool `name`; `None` where the model has no such tool.
    pub open spec fn tool_devices(self, name: Text) -> Option<Seq<Text>> {
        if self.settings.reserved(name) {
            None
        } else if names::find(self.natives, name) is Some {
            native::devices_of(self.natives, name)
        } else {
            match registry::tool_of(self.plugins, name) {
                Some(p) => Some(devices_in(p.manifest.capabilities)),
                None => None,
            }
        }
    }

    /// The tools that the model is told of, in order.
    pub open spec fn tools(self) -> Seq<Text> {
        text::arranged(
            self.settings.callable(
                names::names_where(self.natives, native::of_kind(PluginKind::Tool)) + unshadowed(
                    self.natives,
                    registry::called(self.plugins, registry::of_kind(PluginKind::Tool)),
                ),
            ),
        )
    }
}

/// `list` with commas between.
pub open spec fn comma_list(list: Seq<Text>) -> Text
    decreases list.len(),
{
    if list.len() == 0 {
        seq![]
    } else if list.len() == 1 {
        list[0]
    } else {
        comma_list(list.drop_last()) + ", "@ + list.last()
    }
}

/// What the model is told of its task.
pub open spec fn prompt_for(tools: Seq<Text>) -> Text {
    "You are an edge device agent. Reply with ONE JSON object and nothing else.\nEither {\"reply\": \"<text>\"} to answer the user,\nor {\"tool\": \"<name>\", \"args\": {...}} to act.\nAvailable tools: ["@
        + comma_list(tools) + "]. If no tool fits, use reply."@
}

// What plugins are told.

pub open spec fn attempt_data(attempt: nat) -> Seq<(Text, Text)> {
    seq![("attempt"@, text::decimal_text(attempt))]
}

pub open spec fn raw_data(attempt: nat, raw: Text) -> Seq<(Text, Text)> {
    seq![("attempt"@, text::decimal_text(attempt)), ("raw"@, json::quoted(raw))]
}

pub open spec fn decision_data(decision: Text) -> Seq<(Text, Text)> {
    seq![("decision"@, json::quoted(decision))]
}

pub open spec fn plan_members(cmd: CommandModel) -> Seq<(Text, Text)> {
    seq![
        ("args"@, cmd.args),
        ("reply"@, json::opt_quoted(cmd.reply)),
        ("tool"@, json::opt_quoted(cmd.tool)),
    ]
}

pub open spec fn plan_data(cmd: CommandModel) -> Seq<(Text, Text)> {
    seq![("plan"@, json::object_text(plan_members(cmd)))]
}

pub open spec fn tool_data(tool: Text, args: Text) -> Seq<(Text, Text)> {
    seq![("args"@, args), ("tool"@, json::quoted(tool))]
}

pub open spec fn tool_done_data(tool: Text, error: Option<Text>) -> Seq<(Text, Text)> {
    match error {
        None => seq![("ok"@, "true"@), ("tool"@, json::quoted(tool))],
        Some(e) => seq![
            ("error"@, json::quoted(e)),
            ("ok"@, "false"@),
            ("tool"@, json::quoted(tool)),
        ],
    }
}

pub open spec fn reason_data(reason: Text) -> Seq<(Text, Text)> {
    seq![("reason"@, json::quoted(reason))]
}

pub open spec fn outcome_members(o: OutcomeModel) -> Seq<(Text, Text)> {
    seq![
        ("reply"@, json::quoted(o.reply)),
        ("status"@, json::quoted(o.status)),
        ("via"@, json::quoted(o.via)),
    ]
}

pub open spec fn outcome_data(o: OutcomeModel) -> Seq<(Text, Text)> {
    seq![("outcome"@, json::object_text(outcome_members(o)))]
}

pub open spec fn rollback_data(plugin: Text) -> Seq<(Text, Text)> {
    seq![("plugin"@, json::quoted(plugin))]
}

pub open spec fn start_data(list: Seq<Text>) -> Seq<(Text, Text)> {
    seq![("plugins"@, json::array_text(json::quoted_all(list)))]
}

pub open spec fn phase_data(phase: Text) -> Seq<(Text, Text)> {
    seq![("phase"@, json::quoted(phase))]
}

pub open spec fn infer_data(system: Text, t: Text) -> Seq<(Text, Text)> {
    seq![("input"@, json::quoted(t)), ("system"@, json::quoted(system))]
}

pub open spec fn repair_data(raw: Text, error: CommandError) -> Seq<(Text, Text)> {
    seq![("error"@, json::quoted(command::command_message(error))), ("raw"@, json::quoted(raw))]
}

impl KernelModel {
    /// The event, as plugins see it.
    pub open spec fn event_text(self) -> Option<Text> {
        match self.event {
            Some(e) => Some(event::event_json(e)),
            None => None,
        }
    }

    pub open spec fn hook_input(self) -> InputModel {
        InputModel {
            kind: "hook"@,
            hook: Some(self.hooks.point),
            event: if self.hooks.with_event {
                self.event_text()
            } else {
                None
            },
            context: None,
            args: self.hooks.data,
        }
    }

    pub open spec fn strategy_input(self, phase: Text) -> InputModel {
        InputModel {
            kind: "strategy"@,
            hook: None,
            event: self.event_text(),
            context: None,
            args: json::object_text(phase_data(phase)),
        }
    }

    pub open spec fn infer_input(self) -> InputModel {
        InputModel {
            kind: "infer"@,
            hook: None,
            event: None,
            context: None,
            args: json::object_text(infer_data(self.system, self.input.text)),
        }
    }

    pub open spec fn tool_input(self, args: Text) -> InputModel {
        InputModel { kind: "tool"@, hook: None, event: self.event_text(), context: None, args }
    }
}

pub open spec fn repair_input(raw: Text, error: CommandError) -> InputModel {
    InputModel {
        kind: "repair"@,
        hook: None,
        event: None,
        context: None,
        args: json::object_text(repair_data(raw, error)),
    }
}

// What is made of plugins' answers.

/// The answer for the user in an output: its reply, or else its result.
pub open spec fn answer_text(out: OutputModel) -> Text {
    match out.reply {
        Some(t) => t,
        None => out.result,
    }
}

/// What the strategy decided. Without a strategy there is no decision, and a
/// strategy that fails leaves the task to the model.
pub open spec fn decision_of(out: Option<OutputModel>) -> Text {
    match out {
        Some(o) => if o.ok {
            match o.decision {
                Some(d) => d,
                None => "model"@,
            }
        } else {
            "model"@
        },
        None => "none"@,
    }
}

/// The text that an output gives: its reply, or else a result that is a string.
pub open spec fn text_in(out: OutputModel) -> Option<Text> {
    match out.reply {
        Some(t) => Some(t),
        None => json::json_string(out.result),
    }
}

/// What an inference plugin said.
pub open spec fn inferred(result: Result<OutputModel, Text>) -> Result<Text, Text> {
    match result {
        Err(e) => Err(e),
        Ok(out) => if !out.ok {
            Err(
                "inference plugin failed: "@ + (match out.error {
                    Some(e) => e,
                    None => seq![],
                }),
            )
        } else {
            match text_in(out) {
                Some(t) => Ok(t),
                None => Err("inference plugin returned no text"@),
            }
        },
    }
}

/// The command that a repair plugin made of an invalid one. It has to pass the
/// same strict check: repair can only help, never widen what is accepted.
pub open spec fn repaired(result: Result<OutputModel, Text>) -> Option<CommandModel> {
    match result {
        Err(_) => None,
        Ok(out) => if !out.ok {
            None
        } else {
            match text_in(out) {
                Some(t) => match command::command_of(t) {
                    Ok(cmd) => Some(cmd),
                    Err(_) => None,
                },
                None => None,
            }
        },
    }
}

/// What a tool came to: its answer, or why it failed.
pub open spec fn tool_result(tool: Text, result: Result<OutputModel, Text>) -> Result<Text, Text> {
    match result {
        Ok(out) => if out.ok {
            Ok(answer_text(out))
        } else {
            Err(
                match out.error {
                    Some(e) => e,
                    None => "tool reported failure"@,
                },
            )
        },
        Err(e) => Err("tool '"@ + tool + "' crashed: "@ + e),
    }
}

/// The outcome when the happy path was left: a deterministic rule, or a safe
/// refusal that says why.
pub open spec fn fallback_outcome(out: Option<OutputModel>, reason: Text) -> OutcomeModel {
    let rejected = OutcomeModel {
        status: "rejected"@,
        reply: "request safely rejected ("@ + reason + ")"@,
        via: "fallback"@,
    };
    match out {
        Some(o) => if o.ok && o.decision == Some("rule"@) {
            OutcomeModel { status: "ok"@, reply: answer_text(o), via: "fallback"@ }
        } else {
            rejected
        },
        None => rejected,
    }
}

pub open spec fn answered(result: Result<OutputModel, Text>) -> Option<OutputModel> {
    match result {
        Ok(out) => Some(out),
        Err(_) => None,
    }
}

// The steps.

impl KernelModel {
    /// Goes on to `stage`.
    pub open spec fn at(self, stage: StageModel) -> Self {
        KernelModel { stage, ..self }
    }

    /// Goes on to `stage` once the hooks at `point` have run.
    pub open spec fn hooked(
        self,
        point: Text,
        data: Seq<(Text, Text)>,
        with_event: bool,
        stage: StageModel,
    ) -> Self {
        KernelModel {
            hooks: HookRun {
                point,
                names: self.hook_names(point),
                data: json::object_text(data),
                with_event,
            },
            stage,
            ..self
        }
    }

    /// Leaves the happy path after a failure.
    pub open spec fn failed(self, reason: Text) -> Self {
        KernelModel {
            breaker: self.breaker.after_failure(),
            stage: StageModel::Degrade { reason, reset: false },
            ..self
        }
    }

    /// Ends the task.
    pub open spec fn ended(self, status: Text, via: Text, reply: Text) -> Self {
        self.at(StageModel::Finish { outcome: OutcomeModel { status, reply, via }, reset: false })
    }

    /// Takes over a plugin's answer.
    #[verifier::opaque]
    pub open spec fn after(self, job: JobModel, result: Result<OutputModel, Text>) -> Self {
        let k = KernelModel { wait: WaitModel::Nothing, ..self };
        match job {
            JobModel::Hook => k,
            JobModel::Route => k.at(StageModel::Decide { out: answered(result) }),
            JobModel::Infer => k.heard(inferred(result)),
            JobModel::Repair { error } => match repaired(result) {
                Some(cmd) => k.planned(cmd),
                None => k.at(violation(error)),
            },
            JobModel::Tool { tool } => {
                let done = tool_result(tool, result);
                k.hooked(
                    "post_tool"@,
                    tool_done_data(
                        tool,
                        match done {
                            Ok(_) => None,
                            Err(e) => Some(e),
                        },
                    ),
                    true,
                    StageModel::Settle { result: done },
                )
            },
            JobModel::Fallback => match self.stage {
                StageModel::Fallback { reason, reset } => k.at(
                    StageModel::Finish {
                        outcome: fallback_outcome(answered(result), reason),
                        reset,
                    },
                ),
                _ => k,
            },
        }
    }

    /// Takes over what the model said.
    pub open spec fn heard(self, result: Result<Text, Text>) -> Self {
        match result {
            Ok(raw) => self.hooked(
                "post_infer"@,
                raw_data(self.attempt, raw),
                true,
                StageModel::Check { raw },
            ),
            Err(e) => self.at(StageModel::Missed { reason: "inference error: "@ + e }),
        }
    }

    /// A valid plan exists: audit point before anything executes.
    pub open spec fn planned(self, cmd: CommandModel) -> Self {
        self.hooked("on_plan"@, plan_data(cmd), true, StageModel::Guard { cmd })
    }

    /// Single funnel for plugin calls. A native plugin always sees the
    /// conversation; to a wasm plugin it crosses only when the signed manifest
    /// declared it.
    #[verifier::opaque]
    pub open spec fn called(self, name: Text, input: InputModel, job: JobModel) -> (
        Self,
        ActionModel,
    ) {
        if names::find(self.natives, name) is Some {
            (
                KernelModel { wait: WaitModel::Plugin { name, native: true, job }, ..self },
                ActionModel::Native {
                    name,
                    input: InputModel { context: Some(self.context), ..input },
                },
            )
        } else {
            match names::find(self.plugins, name) {
                Some(p) => (
                    KernelModel { wait: WaitModel::Plugin { name, native: false, job }, ..self },
                    ActionModel::Wasm {
                        name,
                        input: InputModel {
                            context: if p.manifest.context {
                                Some(self.context)
                            } else {
                                None
                            },
                            ..input
                        },
                    },
                ),
                None => (
                    self.after(job, Err("plugin '"@ + name + "' not loaded"@)),
                    ActionModel::Continue,
                ),
            }
        }
    }

    /// Runs the next hook.
    pub open spec fn step_hook(self) -> (Self, ActionModel) {
        let input = self.hook_input();
        let name = self.hooks.names[0];
        let k = KernelModel {
            hooks: HookRun { names: self.hooks.names.drop_first(), ..self.hooks },
            ..self
        };
        k.called(name, input, JobModel::Hook)
    }

    pub open spec fn step_route(self) -> (Self, ActionModel) {
        match self.strategy() {
            Some(name) => self.called(name, self.strategy_input("route"@), JobModel::Route),
            None => (self.at(StageModel::Decide { out: None }), ActionModel::Continue),
        }
    }

    pub open spec fn step_decide(self, out: Option<OutputModel>) -> Self {
        let decision = decision_of(out);
        self.hooked(
            "post_route"@,
            decision_data(decision),
            true,
            StageModel::Act { decision, out },
        )
    }

    pub open spec fn step_act(self, decision: Text, out: Option<OutputModel>) -> Self {
        if decision == "rule"@ && out is Some {
            KernelModel { breaker: self.breaker.after_success(), ..self }.ended(
                "ok"@,
                "rule"@,
                answer_text(out->0),
            )
        } else if self.breaker.open {
            self.at(StageModel::Degrade { reason: "breaker open"@, reset: true })
        } else {
            match self.event {
                None => self.failed("no event"@),
                Some(e) => match payload::request_of(e.payload) {
                    Err(why) => self.failed(why),
                    Ok((t, left)) => KernelModel {
                        system: prompt_for(self.tools()),
                        input: TurnModel { text: t, images: seq![] },
                        ..self
                    }.at(StageModel::Gather { left }),
                },
            }
        }
    }

    pub open spec fn with_image(self, image: ImageModel, left: Seq<SourceModel>) -> Self {
        KernelModel {
            input: TurnModel { images: self.input.images.push(image), ..self.input },
            ..self
        }.at(StageModel::Gather { left })
    }

    pub open spec fn step_gather(self, left: Seq<SourceModel>) -> (Self, ActionModel) {
        if left.len() == 0 {
            (self.at(StageModel::Try), ActionModel::Continue)
        } else {
            match left[0] {
                SourceModel::Ready(image) => (
                    self.with_image(image, left.drop_first()),
                    ActionModel::Continue,
                ),
                SourceModel::File(path) => (
                    KernelModel { wait: WaitModel::File { path }, ..self },
                    ActionModel::ReadFile { path },
                ),
            }
        }
    }

    pub open spec fn step_try(self) -> Self {
        self.hooked("pre_infer"@, attempt_data(self.attempt), true, StageModel::Infer)
    }

    pub open spec fn step_infer(self) -> (Self, ActionModel) {
        match self.settings.infer_plugin {
            None => (
                KernelModel { wait: WaitModel::Model, ..self },
                ActionModel::Ask {
                    system: self.system,
                    context: self.context,
                    input: self.input,
                },
            ),
            Some(name) => if self.input.images.len() > 0 {
                (
                    self.heard(Err("inference plugins cannot carry images"@)),
                    ActionModel::Continue,
                )
            } else {
                self.called(name, self.infer_input(), JobModel::Infer)
            },
        }
    }

    pub open spec fn step_missed(self, reason: Text) -> Self {
        if self.attempt < self.settings.max_retries {
            KernelModel { attempt: self.attempt + 1, ..self }.at(StageModel::Try)
        } else {
            self.failed(reason)
        }
    }

    pub open spec fn step_check(self, raw: Text) -> (Self, ActionModel) {
        match command::command_of(raw) {
            Ok(cmd) => (self.planned(cmd), ActionModel::Continue),
            Err(e) => match self.settings.repair_plugin {
                None => (self.at(violation(e)), ActionModel::Continue),
                Some(name) => self.called(
                    name,
                    repair_input(raw, e),
                    JobModel::Repair { error: e },
                ),
            },
        }
    }

    /// Dead-loop guard on the planned action.
    pub open spec fn step_guard(self, cmd: CommandModel) -> Self {
        let fingerprint = command::fingerprint_of(cmd);
        let k = KernelModel { breaker: self.breaker.after_action(fingerprint), ..self };
        if self.breaker.loops_on(fingerprint) {
            k.at(StageModel::Degrade { reason: "repeated action loop"@, reset: true })
        } else {
            match (cmd.reply, cmd.tool) {
                (Some(reply), None) => KernelModel {
                    breaker: k.breaker.after_success(),
                    ..k
                }.ended("ok"@, "model"@, reply),
                (None, Some(tool)) => k.at(StageModel::Tool { tool, args: cmd.args }),
                _ => k.failed(command::command_message(CommandError::Choice)),
            }
        }
    }

    /// Every device that the tool declares is locked for the duration of the
    /// task. Busy means rejected: there is no preemption.
    pub open spec fn step_tool(self, tool: Text, args: Text) -> Self {
        match self.tool_devices(tool) {
            None => self.failed("model asked for unknown tool '"@ + tool + "'"@),
            Some(devices) => match lock::first_busy(self.locks, self.task, devices) {
                Some(busy) => self.ended("busy"@, "kernel"@, "resource '"@ + busy + "' is busy"@),
                None => KernelModel {
                    locks: lock::with_all(self.locks, self.task, devices),
                    ..self
                }.hooked(
                    "pre_tool"@,
                    tool_data(tool, args),
                    true,
                    StageModel::CallTool { tool, args },
                ),
            },
        }
    }

    pub open spec fn step_settle(self, result: Result<Text, Text>) -> Self {
        match result {
            Ok(reply) => KernelModel { breaker: self.breaker.after_success(), ..self }.ended(
                "ok"@,
                "tool"@,
                reply,
            ),
            Err(why) => self.failed(why),
        }
    }

    pub open spec fn step_degrade(self, reason: Text, reset: bool) -> Self {
        self.hooked(
            "on_degrade"@,
            reason_data(reason),
            true,
            StageModel::Fallback { reason, reset },
        )
    }

    pub open spec fn step_fallback(self, reason: Text, reset: bool) -> (Self, ActionModel) {
        match self.strategy() {
            Some(name) => self.called(name, self.strategy_input("fallback"@), JobModel::Fallback),
            None => (
                self.at(StageModel::Finish { outcome: fallback_outcome(None, reason), reset }),
                ActionModel::Continue,
            ),
        }
    }

    pub open spec fn step_finish(self, outcome: OutcomeModel, reset: bool) -> Self {
        KernelModel {
            breaker: if reset {
                self.breaker.after_reset()
            } else {
                self.breaker
            },
            locks: lock::without_task(self.locks, self.task),
            ..self
        }.hooked(
            "post_task"@,
            outcome_data(outcome),
            true,
            StageModel::Drain { outcome: Some(outcome) },
        )
    }

    /// Rollbacks that are discovered while the hooks run stay queued for the
    /// next boundary.
    pub open spec fn step_drain(self, outcome: Option<OutcomeModel>) -> Self {
        KernelModel { pending: seq![], ..self }.at(
            StageModel::Rollbacks { left: self.pending, outcome },
        )
    }

    pub open spec fn step_rollbacks(
        self,
        left: Seq<Text>,
        outcome: Option<OutcomeModel>,
    ) -> Self {
        if left.len() == 0 {
            self.at(StageModel::Close { outcome })
        } else {
            self.hooked(
                "on_rollback"@,
                rollback_data(left[0]),
                false,
                StageModel::Rollbacks { left: left.drop_first(), outcome },
            )
        }
    }

    /// The conversation after the task: a command and its answer are kept.
    pub open spec fn remembered(self, outcome: OutcomeModel) -> Seq<EntryModel> {
        match self.event {
            Some(e) => if e.kind == "command"@ {
                let said = match json::json_string(e.payload) {
                    Some(t) => context::pushed(
                        self.context,
                        self.context_budget,
                        "user"@,
                        t,
                    ),
                    None => self.context,
                };
                context::pushed(
                    said,
                    self.context_budget,
                    "assistant"@,
                    outcome.reply,
                )
            } else {
                self.context
            },
            None => self.context,
        }
    }

    pub open spec fn step_close(self, outcome: Option<OutcomeModel>) -> (Self, ActionModel) {
        let k = match outcome {
            Some(o) => KernelModel { context: self.remembered(o), ..self },
            None => self,
        };
        (
            KernelModel { event: None, ..k }.at(StageModel::Idle),
            ActionModel::Done { outcome },
        )
    }

    pub open spec fn step_reload(self, name: Text) -> (Self, ActionModel) {
        (KernelModel { wait: WaitModel::Reload, ..self }, ActionModel::Reload { name })
    }

    /// Takes the next decision.
    #[verifier::opaque]
    pub open spec fn step_stage(self) -> (Self, ActionModel) {
        match self.stage {
            StageModel::Idle => (self, ActionModel::Rest),
            StageModel::Route => self.step_route(),
            StageModel::Decide { out } => (self.step_decide(out), ActionModel::Continue),
            StageModel::Act { decision, out } => (
                self.step_act(decision, out),
                ActionModel::Continue,
            ),
            StageModel::Gather { left } => self.step_gather(left),
            StageModel::Try => (self.step_try(), ActionModel::Continue),
            StageModel::Infer => self.step_infer(),
            StageModel::Check { raw } => self.step_check(raw),
            StageModel::Missed { reason } => (self.step_missed(reason), ActionModel::Continue),
            StageModel::Guard { cmd } => (self.step_guard(cmd), ActionModel::Continue),
            StageModel::Tool { tool, args } => (self.step_tool(tool, args), ActionModel::Continue),
            StageModel::CallTool { tool, args } => self.called(
                tool,
                self.tool_input(args),
                JobModel::Tool { tool },
            ),
            StageModel::Settle { result } => (self.step_settle(result), ActionModel::Continue),
            StageModel::Degrade { reason, reset } => (
                self.step_degrade(reason, reset),
                ActionModel::Continue,
            ),
            StageModel::Fallback { reason, reset } => self.step_fallback(reason, reset),
            StageModel::Finish { outcome, reset } => (
                self.step_finish(outcome, reset),
                ActionModel::Continue,
            ),
            StageModel::Drain { outcome } => (self.step_drain(outcome), ActionModel::Continue),
            StageModel::Rollbacks { left, outcome } => (
                self.step_rollbacks(left, outcome),
                ActionModel::Continue,
            ),
            StageModel::Close { outcome } => self.step_close(outcome),
            StageModel::Reload { name } => self.step_reload(name),
        }
    }

    /// Takes over a plugin's answer, with health accounting for wasm plugins:
    /// one that has failed too often in a row is disabled.
    pub open spec fn step_answer(
        self,
        name: Text,
        native: bool,
        job: JobModel,
        result: Result<OutputModel, Text>,
    ) -> (Self, ActionModel) {
        let ok = match result {
            Ok(out) => out.ok,
            Err(_) => false,
        };
        if native {
            (self.after(job, result), ActionModel::Continue)
        } else {
            let k = KernelModel { plugins: registry::reported(self.plugins, name, ok), ..self };
            if registry::trips(self.plugins, name, ok, self.settings.plugin_max_failures) {
                (
                    KernelModel { wait: WaitModel::Package { name, result, job }, ..k },
                    ActionModel::Disable {
                        name,
                        dir: names::find(self.plugins, name)->0.dir,
                    },
                )
            } else {
                (k.after(job, result), ActionModel::Continue)
            }
        }
    }

    /// Takes over the stable version of a plugin whose active one was disabled.
    pub open spec fn step_package(
        self,
        name: Text,
        result: Result<OutputModel, Text>,
        job: JobModel,
        package: Result<Option<PluginModel>, Text>,
    ) -> (Self, ActionModel) {
        let k = KernelModel {
            plugins: match package {
                Ok(p) => registry::resolved(self.plugins, name, p),
                Err(_) => self.plugins,
            },
            pending: self.pending.push(name),
            ..self
        };
        (k.after(job, result), ActionModel::Continue)
    }

    pub open spec fn step_file(self, path: Text, result: Result<Seq<u8>, Text>) -> Self {
        let k = KernelModel { wait: WaitModel::Nothing, ..self };
        match self.stage {
            StageModel::Gather { left } => match result {
                Ok(data) => k.with_image(
                    ImageModel { mime: payload::mime_of(path), data },
                    if left.len() > 0 {
                        left.drop_first()
                    } else {
                        left
                    },
                ),
                Err(e) => k.failed("cannot read image '"@ + path + "': "@ + e),
            },
            _ => k,
        }
    }

    pub open spec fn step_reloaded(self, package: Result<Option<PluginModel>, Text>) -> (
        Self,
        ActionModel,
    ) {
        let k = KernelModel { wait: WaitModel::Nothing, event: None, ..self }.at(StageModel::Idle);
        let name = match self.stage {
            StageModel::Reload { name } => name,
            _ => seq![],
        };
        match package {
            Ok(p) => (
                KernelModel { plugins: registry::resolved(self.plugins, name, p), ..k },
                ActionModel::Done {
                    outcome: Some(
                        OutcomeModel {
                            status: "ok"@,
                            reply: "plugin '"@ + name + "' reloaded"@,
                            via: "kernel"@,
                        },
                    ),
                },
            ),
            Err(e) => (
                k,
                ActionModel::Done {
                    outcome: Some(
                        OutcomeModel {
                            status: "error"@,
                            reply: "reload failed: "@ + e,
                            via: "kernel"@,
                        },
                    ),
                },
            ),
        }
    }

    /// The line that a hook leaves in the log where it failed: a failing hook only
    /// logs.
    pub open spec fn hook_notes(
        self,
        name: Text,
        job: JobModel,
        result: Result<OutputModel, Text>,
    ) -> Seq<Text> {
        match (job, result) {
            (JobModel::Hook, Err(e)) => seq![hook_line(name, self.hooks.point, e)],
            _ => seq![],
        }
    }

    /// The lines that a reply leaves in the log: a plugin that failed too often is
    /// rolled back, a hook that failed is told of when its health was seen to, and a
    /// task that leaves the happy path says why.
    pub open spec fn notes(self, reply: ReplyModel) -> Seq<Text> {
        match (self.wait, reply) {
            (WaitModel::Plugin { name, native, job }, ReplyModel::Plugin { result }) => {
                let ok = result is Ok && result->Ok_0.ok;
                if !native && registry::trips(
                    self.plugins,
                    name,
                    ok,
                    self.settings.plugin_max_failures,
                ) {
                    seq![
                        registry::rollback_line(
                            name,
                            names::find(self.plugins, name)->0.manifest.version,
                        ),
                    ]
                } else {
                    self.hook_notes(name, job, result)
                }
            },
            (WaitModel::Package { name, result, job }, ReplyModel::Package { .. }) =>
                self.hook_notes(name, job, result),
            (WaitModel::Nothing, ReplyModel::Nothing) => match self.stage {
                StageModel::Degrade { reason, reset } => if self.hooks.names.len() == 0 {
                    seq!["[kernel] degraded: "@ + reason]
                } else {
                    seq![]
                },
                _ => seq![],
            },
            _ => seq![],
        }
    }

    /// One step. A reply that the kernel does not wait for changes nothing.
    #[verifier::opaque]
    pub open spec fn step(self, reply: ReplyModel) -> (Self, ActionModel) {
        match (self.wait, reply) {
            (WaitModel::Nothing, ReplyModel::Nothing) => if self.hooks.names.len() > 0 {
                self.step_hook()
            } else {
                self.step_stage()
            },
            (WaitModel::Plugin { name, native, job }, ReplyModel::Plugin { result }) =>
                self.step_answer(name, native, job, result),
            (WaitModel::Package { name, result, job }, ReplyModel::Package { result: package }) =>
                self.step_package(name, result, job, package),
            (WaitModel::Model, ReplyModel::Model { result }) => (
                KernelModel { wait: WaitModel::Nothing, ..self }.heard(result),
                ActionModel::Continue,
            ),
            (WaitModel::File { path }, ReplyModel::File { result }) => (
                self.step_file(path, result),
                ActionModel::Continue,
            ),
            (WaitModel::Reload, ReplyModel::Package { result: package }) => self.step_reloaded(
                package,
            ),
            _ => (self, ActionModel::Rest),
        }
    }

    /// A task begins. Reloading a plugin is the kernel's own affair, applied
    /// between tasks: no plugin sees the event.
    pub open spec fn begun(self, e: EventModel) -> Self {
        let k = KernelModel {
            task: next_task(self.task),
            event: Some(e),
            attempt: 0,
            ..self
        };
        if e.kind == "plugin_reload"@ {
            k.at(
                StageModel::Reload {
                    name: match payload::string_member(e.payload, "name"@) {
                        Some(t) => t,
                        None => seq![],
                    },
                },
            )
        } else {
            k.hooked("pre_task"@, seq![], true, StageModel::Route)
        }
    }

    /// The kernel starts: the hooks learn which plugins are loaded.
    pub open spec fn started(self) -> Self {
        self.hooked(
            "kernel_start"@,
            start_data(names::names_where(self.plugins, registry::any_plugin())),
            false,
            StageModel::Drain { outcome: None },
        )
    }

    /// The plugin that is being resolved anew.
    pub open spec fn awaited(self) -> Option<Text> {
        match self.wait {
            WaitModel::Package { name, result, job } => Some(name),
            WaitModel::Reload => match self.stage {
                StageModel::Reload { name } => Some(name),
                _ => None,
            },
            _ => None,
        }
    }

    /// The kernel stops: the hooks can flush their state.
    pub open spec fn stopping(self) -> Self {
        self.hooked("kernel_stop"@, seq![], false, StageModel::Drain { outcome: None })
    }

    /// Between tasks, with an empty conversation and nothing locked.
    pub open spec fn fresh(
        settings: SettingsModel,
        context_budget: nat,
        breaker: BreakerModel,
        natives: Natives,
        plugins: Plugins,
    ) -> Self {
        KernelModel {
            settings,
            context_budget,
            context: seq![],
            locks: Map::empty(),
            breaker,
            natives,
            plugins,
            task: 0,
            event: None,
            system: seq![],
            input: TurnModel { text: seq![], images: seq![] },
            attempt: 0,
            pending: seq![],
            hooks: HookRun {
                point: seq![],
                names: seq![],
                data: json::object_text(seq![]),
                with_event: false,
            },
            stage: StageModel::Idle,
            wait: WaitModel::Nothing,
        }
    }

    /// Between tasks.
    pub open spec fn resting(self) -> bool {
        self.stage is Idle && self.wait is Nothing && self.hooks.names.len() == 0
    }
}

/// The number of the next task.
pub open spec fn next_task(task: u64) -> u64 {
    if task == u64::MAX {
        0
    } else {
        (task + 1) as u64
    }
}

/// An attempt whose answer was no command.
pub open spec fn violation(error: CommandError) -> StageModel {
    StageModel::Missed { reason: "format violation: "@ + command::command_message(error) }
}

/// What the kernel waited for does not matter once the answer is there, taking
/// the answer over loads no plugin, and what a hook answered does not matter at
/// all.
pub proof fn lemma_after(
    a: KernelModel,
    b: KernelModel,
    job: JobModel,
    result: Result<OutputModel, Text>,
)
    requires
        b == (KernelModel { wait: b.wait, ..a }),
    ensures
        a.after(job, result) == b.after(job, result),
        a.after(job, result).plugins == a.plugins,
        a.after(JobModel::Hook, result) == (KernelModel { wait: WaitModel::Nothing, ..a }),
{
    reveal(KernelModel::after);
}

} // verus!
