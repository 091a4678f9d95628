//! The values that the kernel's steps work on.

use crate::context;
use crate::context::ContextEntry;
use crate::inference::UserInput;
use crate::json::Json;
use crate::kernel::command::{CommandError, ModelCommand};
use crate::kernel::model::{
    ActionModel, HookRun, JobModel, OutcomeModel, ReplyModel, StageModel, WaitModel,
};
use crate::kernel::payload;
use crate::kernel::payload::ImageSource;
use crate::plugin::abi::{OutputModel, PluginInput, PluginOutput};
use crate::plugin::registry;
use crate::plugin::registry::LoadedPlugin;
use crate::plugin::runtime;
use crate::text;
use crate::text::Text;
use vstd::prelude::*;

verus! {

/// How a task ended.
#[derive(Debug)]
pub struct TaskOutcome {
    /// "ok" | "rejected" | "busy" | "error"
    pub status: String,
    pub reply: String,
    /// Which path produced the answer: "rule" | "model" | "tool" | "fallback" | "kernel"
    pub via: String,
}

impl View for TaskOutcome {
    type V = OutcomeModel;

    open spec fn view(&self) -> OutcomeModel {
        OutcomeModel { status: self.status@, reply: self.reply@, via: self.via@ }
    }
}

impl TaskOutcome {
    pub fn new(status: &str, via: &str, reply: String) -> (r: Self)
        ensures
            r@ == (OutcomeModel { status: status@, reply: reply@, via: via@ }),
    {
        TaskOutcome { status: status.to_string(), reply, via: via.to_string() }
    }
}

pub open spec fn opt_outcome(o: Option<TaskOutcome>) -> Option<OutcomeModel> {
    match o {
        Some(o) => Some(o@),
        None => None,
    }
}

pub open spec fn opt_output(o: Option<PluginOutput>) -> Option<OutputModel> {
    match o {
        Some(o) => Some(o@),
        None => None,
    }
}

/// The hooks that are to run before the stage goes on.
pub struct Hooks {
    pub point: String,
    pub names: Vec<String>,
    pub data: Json,
    pub with_event: bool,
}

impl View for Hooks {
    type V = HookRun;

    open spec fn view(&self) -> HookRun {
        HookRun {
            point: self.point@,
            names: text::texts(self.names@),
            data: self.data@,
            with_event: self.with_event,
        }
    }
}

/// Where a task stands.
#[allow(inconsistent_fields)]
pub enum Stage {
    Idle,
    Route,
    Decide { out: Option<PluginOutput> },
    Act { decision: String, out: Option<PluginOutput> },
    Gather { left: Vec<ImageSource> },
    Try,
    Infer,
    Check { raw: String },
    Missed { reason: String },
    Guard { cmd: ModelCommand },
    Tool { tool: String, args: Json },
    CallTool { tool: String, args: Json },
    Settle { result: Result<String, String> },
    Degrade { reason: String, reset: bool },
    Fallback { reason: String, reset: bool },
    Finish { outcome: TaskOutcome, reset: bool },
    Drain { outcome: Option<TaskOutcome> },
    Rollbacks { left: Vec<String>, outcome: Option<TaskOutcome> },
    Close { outcome: Option<TaskOutcome> },
    Reload { name: String },
}

impl View for Stage {
    type V = StageModel;

    open spec fn view(&self) -> StageModel {
        match *self {
            Stage::Idle => StageModel::Idle,
            Stage::Route => StageModel::Route,
            Stage::Decide { out } => StageModel::Decide { out: opt_output(out) },
            Stage::Act { decision, out } => StageModel::Act {
                decision: decision@,
                out: opt_output(out),
            },
            Stage::Gather { left } => StageModel::Gather { left: payload::sources(left@) },
            Stage::Try => StageModel::Try,
            Stage::Infer => StageModel::Infer,
            Stage::Check { raw } => StageModel::Check { raw: raw@ },
            Stage::Missed { reason } => StageModel::Missed { reason: reason@ },
            Stage::Guard { cmd } => StageModel::Guard { cmd: cmd@ },
            Stage::Tool { tool, args } => StageModel::Tool { tool: tool@, args: args@ },
            Stage::CallTool { tool, args } => StageModel::CallTool { tool: tool@, args: args@ },
            Stage::Settle { result } => StageModel::Settle { result: text::text_result(result) },
            Stage::Degrade { reason, reset } => StageModel::Degrade { reason: reason@, reset },
            Stage::Fallback { reason, reset } => StageModel::Fallback { reason: reason@, reset },
            Stage::Finish { outcome, reset } => StageModel::Finish { outcome: outcome@, reset },
            Stage::Drain { outcome } => StageModel::Drain { outcome: opt_outcome(outcome) },
            Stage::Rollbacks { left, outcome } => StageModel::Rollbacks {
                left: text::texts(left@),
                outcome: opt_outcome(outcome),
            },
            Stage::Close { outcome } => StageModel::Close { outcome: opt_outcome(outcome) },
            Stage::Reload { name } => StageModel::Reload { name: name@ },
        }
    }
}

/// What a plugin was called for.
pub enum Job {
    Hook,
    Route,
    Infer,
    Repair { error: CommandError },
    Tool { tool: String },
    Fallback,
}

impl View for Job {
    type V = JobModel;

    open spec fn view(&self) -> JobModel {
        match *self {
            Job::Hook => JobModel::Hook,
            Job::Route => JobModel::Route,
            Job::Infer => JobModel::Infer,
            Job::Repair { error } => JobModel::Repair { error },
            Job::Tool { tool } => JobModel::Tool { tool: tool@ },
            Job::Fallback => JobModel::Fallback,
        }
    }
}

/// What the kernel waits for.
pub enum Wait {
    Nothing,
    Plugin { name: String, native: bool, job: Job },
    Package { name: String, result: Result<PluginOutput, String>, job: Job },
    Model,
    File { path: String },
    Reload,
}

impl View for Wait {
    type V = WaitModel;

    open spec fn view(&self) -> WaitModel {
        match *self {
            Wait::Nothing => WaitModel::Nothing,
            Wait::Plugin { name, native, job } => WaitModel::Plugin {
                name: name@,
                native,
                job: job@,
            },
            Wait::Package { name, result, job } => WaitModel::Package {
                name: name@,
                result: runtime::output_texts(result),
                job: job@,
            },
            Wait::Model => WaitModel::Model,
            Wait::File { path } => WaitModel::File { path: path@ },
            Wait::Reload => WaitModel::Reload,
        }
    }
}

/// What the kernel asks of the outside.
#[allow(inconsistent_fields)]
pub enum Action {
    /// Nothing: the next step can be taken.
    Continue,
    /// Have a native plugin handle the input.
    Native { name: String, input: PluginInput },
    /// Have a wasm plugin handle the input.
    Wasm { name: String, input: PluginInput },
    /// Ask the model.
    Ask { system: String, context: Vec<ContextEntry>, input: UserInput },
    /// Read an image file.
    ReadFile { path: String },
    /// Mark a plugin's version as disabled and resolve the plugin anew.
    Disable { name: String, dir: String },
    /// Resolve a plugin anew.
    Reload { name: String },
    /// The task is done.
    Done { outcome: Option<TaskOutcome> },
    /// Nothing to do, or nothing to do with this reply.
    Rest,
}

impl View for Action {
    type V = ActionModel;

    open spec fn view(&self) -> ActionModel {
        match *self {
            Action::Continue => ActionModel::Continue,
            Action::Native { name, input } => ActionModel::Native { name: name@, input: input@ },
            Action::Wasm { name, input } => ActionModel::Wasm { name: name@, input: input@ },
            Action::Ask { system, context, input } => ActionModel::Ask {
                system: system@,
                context: context::entries(context@),
                input: input@,
            },
            Action::ReadFile { path } => ActionModel::ReadFile { path: path@ },
            Action::Disable { name, dir } => ActionModel::Disable { name: name@, dir: dir@ },
            Action::Reload { name } => ActionModel::Reload { name: name@ },
            Action::Done { outcome } => ActionModel::Done { outcome: opt_outcome(outcome) },
            Action::Rest => ActionModel::Rest,
        }
    }
}

/// What the outside replies.
#[allow(inconsistent_fields)]
pub enum Reply {
    Nothing,
    Plugin { result: Result<PluginOutput, String> },
    Model { result: Result<String, String> },
    File { result: Result<Vec<u8>, String> },
    Package { result: Result<Option<LoadedPlugin>, String> },
}

/// The views of a file's contents.
pub open spec fn file_result(r: Result<Vec<u8>, String>) -> Result<Seq<u8>, Text> {
    match r {
        Ok(b) => Ok(b@),
        Err(e) => Err(e@),
    }
}

/// The views of a resolved plugin.
pub open spec fn package_result(r: Result<Option<LoadedPlugin>, String>) -> Result<
    Option<registry::PluginModel>,
    Text,
> {
    match r {
        Ok(p) => Ok(registry::opt_plugin(p)),
        Err(e) => Err(e@),
    }
}

impl View for Reply {
    type V = ReplyModel;

    open spec fn view(&self) -> ReplyModel {
        match *self {
            Reply::Nothing => ReplyModel::Nothing,
            Reply::Plugin { result } => ReplyModel::Plugin {
                result: runtime::output_texts(result),
            },
            Reply::Model { result } => ReplyModel::Model { result: text::text_result(result) },
            Reply::File { result } => ReplyModel::File { result: file_result(result) },
            Reply::Package { result } => ReplyModel::Package { result: package_result(result) },
        }
    }
}

} // verus!
