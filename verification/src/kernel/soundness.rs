//! What holds of the kernel in every state that it can reach.

use crate::breaker::BreakerModel;
use crate::context;
use crate::event::EventModel;
use crate::kernel::command;
use crate::kernel::model;
use crate::kernel::model::{
    HookRun, JobModel, KernelModel, OutcomeModel, ReplyModel, SettingsModel, StageModel, WaitModel,
};
use crate::kernel::progress;
use crate::kernel::run;
use crate::lock;
use crate::plugin::abi::{InputModel, OutputModel};
use crate::plugin::native::Natives;
use crate::plugin::registry;
use crate::plugin::registry::Plugins;
use crate::text::Text;
use vstd::prelude::*;

verus! {

/// The outcomes that a task can have.
pub open spec fn known_outcome(o: OutcomeModel) -> bool {
    ||| o.status == "ok"@ && (o.via == "rule"@ || o.via == "model"@ || o.via == "tool"@ || o.via
        == "fallback"@)
    ||| o.status == "rejected"@ && o.via == "fallback"@
    ||| o.status == "busy"@ && o.via == "kernel"@
}

/// Where a task may hold devices: from the call of its tool to its outcome.
pub open spec fn may_hold(stage: StageModel) -> bool {
    stage is CallTool || stage is Settle || stage is Degrade || stage is Fallback
        || stage is Finish
}

/// Where inference is under way.
pub open spec fn infers(stage: StageModel) -> bool {
    stage is Gather || stage is Try || stage is Infer || stage is Check || stage is Missed
        || stage is Guard
}

/// Where a task has an outcome.
pub open spec fn ends(stage: StageModel) -> bool {
    stage is Drain || stage is Rollbacks || stage is Close
}

/// What a plugin was called for, while its answer or its stable version is
/// awaited.
pub open spec fn job_of(wait: WaitModel) -> Option<JobModel> {
    match wait {
        WaitModel::Plugin { name, native, job } => Some(job),
        WaitModel::Package { name, result, job } => Some(job),
        _ => None,
    }
}

impl KernelModel {
    /// The outcome of the task, once it has one.
    pub open spec fn outcome(self) -> Option<OutcomeModel> {
        match self.stage {
            StageModel::Finish { outcome, reset } => Some(outcome),
            StageModel::Drain { outcome } => outcome,
            StageModel::Rollbacks { left, outcome } => outcome,
            StageModel::Close { outcome } => outcome,
            _ => None,
        }
    }

    /// The conversation stays within its budget; attempts at the model stay
    /// within theirs; devices are held by the task under way alone, and only
    /// from the call of its tool to its outcome; no inference is under way
    /// while the breaker is open; what the model may not call is not called for
    /// it; a plan does exactly one thing; and a task ends with one of the outcomes
    /// that are known.
    pub open spec fn sound(self) -> bool {
        &&& self.coherent()
        &&& context::total_cost(self.context) <= self.context_budget
        &&& self.attempt <= self.settings.max_retries
        &&& forall|n: Text| #[trigger]
            self.locks.contains_key(n) ==> self.locks[n] == self.task
        &&& !may_hold(self.stage) ==> self.locks == Map::<Text, u64>::empty()
        &&& infers(self.stage) ==> !self.breaker.open
        &&& self.stage matches StageModel::CallTool { tool, args } ==> !self.settings.reserved(tool)
        &&& job_of(self.wait) matches Some(JobModel::Tool { tool }) ==> self.stage is CallTool
            && self.stage->CallTool_tool == tool
        &&& self.stage matches StageModel::Guard { cmd } ==> (cmd.reply is Some) != (cmd.tool
            is Some)
        &&& self.outcome() matches Some(o) ==> known_outcome(o)
        &&& self.stage is Idle ==> self.event is None
        &&& self.event is Some && ends(self.stage) ==> self.outcome() is Some
    }
}

/// The kernel without what it waits for.
spec fn unheard(k: KernelModel) -> KernelModel {
    KernelModel { wait: WaitModel::Nothing, ..k }
}

proof fn lemma_after_sound(k: KernelModel, job: JobModel, result: Result<OutputModel, Text>)
    requires
        unheard(k).sound(),
        progress::job_fits(job, k.stage),
        job is Hook ==> !(k.stage is Idle),
    ensures
        k.after(job, result).sound(),
{
    reveal(KernelModel::after);
    assert forall|t: Text| (#[trigger] command::command_of(t)) is Ok implies (
    command::command_of(t)->Ok_0.reply is Some) != (command::command_of(t)->Ok_0.tool is Some) by {
        command::law_commands_reply_or_act(t);
    }
}

proof fn lemma_called_sound(k: KernelModel, name: Text, input: InputModel, job: JobModel)
    requires
        k.sound(),
        k.wait is Nothing,
        !(k.stage is Idle),
        progress::job_fits(job, k.stage),
        job is Hook || k.hooks.names.len() == 0,
        job is Tool ==> k.stage is CallTool && k.stage->CallTool_tool == job->Tool_tool,
    ensures
        k.called(name, input, job).0.sound(),
{
    reveal(KernelModel::called);
    assert(unheard(k) == k);
    lemma_after_sound(k, job, Err("plugin '"@ + name + "' not loaded"@));
}

proof fn lemma_hook_sound(k: KernelModel)
    requires
        k.sound(),
        k.wait is Nothing,
        k.hooks.names.len() > 0,
    ensures
        k.step_hook().0.sound(),
{
    let k1 = KernelModel {
        hooks: HookRun { names: k.hooks.names.drop_first(), ..k.hooks },
        ..k
    };
    lemma_called_sound(k1, k.hooks.names[0], k.hook_input(), JobModel::Hook);
}

proof fn lemma_tool_sound(k: KernelModel)
    requires
        k.sound(),
        k.wait is Nothing,
        k.hooks.names.len() == 0,
        k.stage is Tool,
    ensures
        k.step_stage().0.sound(),
{
    reveal(KernelModel::step_stage);
    let tool = k.stage->Tool_tool;
    if k.tool_devices(tool) is Some {
        let devices = k.tool_devices(tool)->0;
        assert(forall|n: Text| #[trigger]
            lock::with_all(k.locks, k.task, devices).contains_key(n) ==> lock::with_all(
                k.locks,
                k.task,
                devices,
            )[n] == k.task);
    }
}

proof fn lemma_finish_sound(k: KernelModel)
    requires
        k.sound(),
        k.wait is Nothing,
        k.hooks.names.len() == 0,
        k.stage is Finish,
    ensures
        k.step_stage().0.sound(),
{
    reveal(KernelModel::step_stage);
    assert(lock::without_task(k.locks, k.task) =~= Map::<Text, u64>::empty());
}

proof fn lemma_close_sound(k: KernelModel)
    requires
        k.sound(),
        k.wait is Nothing,
        k.hooks.names.len() == 0,
        k.stage is Close,
    ensures
        k.step_stage().0.sound(),
{
    reveal(KernelModel::step_stage);
    assert forall|s: Seq<context::EntryModel>, role: Text, t: Text| context::total_cost(
        #[trigger] context::pushed(s, k.context_budget, role, t),
    ) <= k.context_budget by {
        context::law_context_stays_within_budget(s, k.context_budget, role, t);
    }
}

proof fn lemma_called_stages_sound(k: KernelModel)
    requires
        k.sound(),
        k.wait is Nothing,
        k.hooks.names.len() == 0,
        k.stage is Route || k.stage is Infer || k.stage is Check || k.stage is CallTool
            || k.stage is Fallback,
    ensures
        k.step_stage().0.sound(),
{
    reveal(KernelModel::step_stage);
    match k.stage {
        StageModel::Route => {
            if k.strategy() is Some {
                lemma_called_sound(k, k.strategy()->0, k.strategy_input("route"@), JobModel::Route);
            }
        },
        StageModel::Infer => {
            if k.settings.infer_plugin is Some && k.input.images.len() == 0 {
                lemma_called_sound(
                    k,
                    k.settings.infer_plugin->0,
                    k.infer_input(),
                    JobModel::Infer,
                );
            }
        },
        StageModel::Check { raw } => {
            match command::command_of(raw) {
                Ok(_) => {},
                Err(e) => {
                    if k.settings.repair_plugin is Some {
                        lemma_called_sound(
                            k,
                            k.settings.repair_plugin->0,
                            model::repair_input(raw, e),
                            JobModel::Repair { error: e },
                        );
                    }
                },
            }
        },
        StageModel::CallTool { tool, args } => {
            lemma_called_sound(k, tool, k.tool_input(args), JobModel::Tool { tool });
        },
        StageModel::Fallback { reason, reset } => {
            if k.strategy() is Some {
                lemma_called_sound(
                    k,
                    k.strategy()->0,
                    k.strategy_input("fallback"@),
                    JobModel::Fallback,
                );
            }
        },
        _ => {},
    }
}

proof fn lemma_plain_stages_sound(k: KernelModel)
    requires
        k.sound(),
        k.wait is Nothing,
        k.hooks.names.len() == 0,
        k.stage is Idle || k.stage is Decide || k.stage is Act || k.stage is Gather || k.stage is Try
            || k.stage is Missed || k.stage is Guard || k.stage is Settle || k.stage is Degrade
            || k.stage is Drain || k.stage is Rollbacks || k.stage is Reload,
    ensures
        k.step_stage().0.sound(),
{
    reveal(KernelModel::step_stage);
}

proof fn lemma_stage_sound(k: KernelModel)
    requires
        k.sound(),
        k.wait is Nothing,
        k.hooks.names.len() == 0,
    ensures
        k.step_stage().0.sound(),
{
    if k.stage is Tool {
        lemma_tool_sound(k);
    } else if k.stage is Finish {
        lemma_finish_sound(k);
    } else if k.stage is Close {
        lemma_close_sound(k);
    } else if k.stage is Route || k.stage is Infer || k.stage is Check || k.stage is CallTool
        || k.stage is Fallback {
        lemma_called_stages_sound(k);
    } else {
        lemma_plain_stages_sound(k);
    }
}

/// Every step keeps the kernel sound, whatever plugins, the model or the disk
/// reply.
pub proof fn law_every_step_keeps_soundness(k: KernelModel, reply: ReplyModel)
    requires
        k.sound(),
    ensures
        k.step(reply).0.sound(),
{
    reveal(KernelModel::step);
    match (k.wait, reply) {
        (WaitModel::Nothing, ReplyModel::Nothing) => {
            if k.hooks.names.len() > 0 {
                lemma_hook_sound(k);
            } else {
                lemma_stage_sound(k);
            }
        },
        (WaitModel::Plugin { name, native, job }, ReplyModel::Plugin { result }) => {
            let ok = match result {
                Ok(out) => out.ok,
                Err(_) => false,
            };
            let k1 = KernelModel { plugins: registry::reported(k.plugins, name, ok), ..k };
            assert(unheard(k).sound());
            assert(unheard(k1).sound());
            lemma_after_sound(k, job, result);
            lemma_after_sound(k1, job, result);
        },
        (WaitModel::Package { name, result, job }, ReplyModel::Package { result: package }) => {
            let k1 = KernelModel {
                plugins: match package {
                    Ok(p) => registry::resolved(k.plugins, name, p),
                    Err(_) => k.plugins,
                },
                pending: k.pending.push(name),
                ..k
            };
            assert(unheard(k1).sound());
            lemma_after_sound(k1, job, result);
        },
        _ => {},
    }
}

/// A kernel starts out sound.
pub proof fn law_a_fresh_kernel_is_sound(
    settings: SettingsModel,
    context_budget: nat,
    breaker: BreakerModel,
    natives: Natives,
    plugins: Plugins,
)
    ensures
        KernelModel::fresh(settings, context_budget, breaker, natives, plugins).sound(),
        KernelModel::fresh(settings, context_budget, breaker, natives, plugins).resting(),
{
}

/// The beginning of a task, the start and the stop keep the kernel sound.
pub proof fn law_every_beginning_keeps_soundness(k: KernelModel, e: EventModel)
    requires
        k.sound(),
        k.resting(),
    ensures
        k.begun(e).sound(),
        k.started().sound(),
        k.stopping().sound(),
{
}

/// Whatever is replied, the kernel stays sound all along a run.
pub proof fn law_every_run_keeps_soundness(k: KernelModel, replies: Seq<ReplyModel>)
    requires
        k.sound(),
    ensures
        run::after_replies(k, replies).sound(),
    decreases replies.len(),
{
    if replies.len() > 0 {
        law_every_run_keeps_soundness(k, replies.drop_last());
        law_every_step_keeps_soundness(
            run::after_replies(k, replies.drop_last()),
            replies.last(),
        );
    }
}

} // verus!
