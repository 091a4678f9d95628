//! Every task comes to an end: each step brings the kernel nearer to it.

use crate::kernel::command;
use crate::kernel::model;
use crate::kernel::model::{
    ActionModel, JobModel, KernelModel, ReplyModel, StageModel, WaitModel,
};
use crate::kernel::payload::SourceModel;
use crate::plugin::abi::{InputModel, OutputModel};
use crate::plugin::registry;
use crate::text::Text;
use vstd::prelude::*;

verus! {

/// What a plugin was called for fits where the task stands.
pub open spec fn job_fits(job: JobModel, stage: StageModel) -> bool {
    match job {
        JobModel::Hook => true,
        JobModel::Route => stage is Route,
        JobModel::Infer => stage is Infer,
        JobModel::Repair { error } => stage is Check,
        JobModel::Tool { tool } => stage is CallTool,
        JobModel::Fallback => stage is Fallback,
    }
}

impl KernelModel {
    /// What the kernel waits for fits where the task stands, and no hook is
    /// left to run while it waits for anything but a hook.
    pub open spec fn coherent(self) -> bool {
        match self.wait {
            WaitModel::Nothing => self.stage is Idle ==> self.hooks.names.len() == 0,
            WaitModel::Plugin { name, native, job } => !(self.stage is Idle) && job_fits(
                job,
                self.stage,
            ) && (job is Hook || self.hooks.names.len() == 0),
            WaitModel::Package { name, result, job } => !(self.stage is Idle) && job_fits(
                job,
                self.stage,
            ) && (job is Hook || self.hooks.names.len() == 0),
            WaitModel::Model => self.stage is Infer && self.hooks.names.len() == 0,
            WaitModel::File { path } => self.hooks.names.len() == 0 && match self.stage {
                StageModel::Gather { left } => left.len() > 0 && left[0] == SourceModel::File(path),
                _ => false,
            },
            WaitModel::Reload => self.stage is Reload && self.hooks.names.len() == 0,
        }
    }

    /// The kernel waits for the reply to what it has asked for.
    pub open spec fn waits_after(self, action: ActionModel) -> bool {
        match action {
            ActionModel::Continue => self.wait is Nothing && !(self.stage is Idle),
            ActionModel::Native { .. } => self.wait is Plugin,
            ActionModel::Wasm { .. } => self.wait is Plugin,
            ActionModel::Ask { .. } => self.wait is Model,
            ActionModel::ReadFile { .. } => self.wait is File,
            ActionModel::Disable { .. } => self.wait is Package,
            ActionModel::Reload { .. } => self.wait is Reload,
            ActionModel::Done { .. } => self.resting(),
            ActionModel::Rest => true,
        }
    }

    /// `reply` is what the kernel waits for.
    pub open spec fn expects(self, reply: ReplyModel) -> bool {
        match self.wait {
            WaitModel::Nothing => reply is Nothing && !(self.stage is Idle),
            WaitModel::Plugin { .. } => reply is Plugin,
            WaitModel::Package { .. } => reply is Package,
            WaitModel::Model => reply is Model,
            WaitModel::File { .. } => reply is File,
            WaitModel::Reload => reply is Package,
        }
    }

    /// How far the task has come.
    pub open spec fn phase(self) -> nat {
        match self.stage {
            StageModel::Idle => 0,
            StageModel::Close { .. } => 1,
            StageModel::Reload { .. } => 1,
            StageModel::Rollbacks { .. } => 2,
            StageModel::Drain { .. } => 3,
            StageModel::Finish { .. } => 4,
            StageModel::Fallback { .. } => 5,
            StageModel::Degrade { .. } => 6,
            StageModel::Settle { .. } => 7,
            StageModel::CallTool { .. } => 8,
            StageModel::Tool { .. } => 9,
            StageModel::Guard { .. } => 10,
            StageModel::Missed { .. } => 11,
            StageModel::Check { .. } => 11,
            StageModel::Infer => 11,
            StageModel::Try => 11,
            StageModel::Gather { .. } => 12,
            StageModel::Act { .. } => 13,
            StageModel::Decide { .. } => 14,
            StageModel::Route => 15,
        }
    }

    /// How many attempts at the model are left.
    pub open spec fn attempts_left(self) -> nat {
        if self.attempt < self.settings.max_retries {
            (self.settings.max_retries - self.attempt) as nat
        } else {
            0
        }
    }

    /// How far the phase has come.
    pub open spec fn detail(self) -> nat {
        match self.stage {
            StageModel::Rollbacks { left, outcome } => left.len(),
            StageModel::Gather { left } => left.len(),
            StageModel::Missed { reason } => 8 * self.attempts_left() + 2,
            StageModel::Check { raw } => 8 * self.attempts_left() + 4,
            StageModel::Infer => 8 * self.attempts_left() + 6,
            StageModel::Try => 8 * self.attempts_left() + 7,
            _ => 0,
        }
    }

    /// How far a call of the stage has come.
    pub open spec fn call(self) -> nat {
        match self.wait {
            WaitModel::Nothing => 3,
            WaitModel::Plugin { name, native, job } => if job is Hook {
                3
            } else {
                2
            },
            WaitModel::Package { name, result, job } => if job is Hook {
                3
            } else {
                1
            },
            _ => 2,
        }
    }

    /// How far the hooks have come.
    pub open spec fn hooks_left(self) -> nat {
        4 * self.hooks.names.len() + match self.wait {
            WaitModel::Plugin { name, native, job } => if job is Hook {
                2nat
            } else {
                0
            },
            WaitModel::Package { name, result, job } => if job is Hook {
                1nat
            } else {
                0
            },
            _ => 0,
        }
    }
}

/// `b` is nearer to the end than `a`.
pub open spec fn nearer(a: KernelModel, b: KernelModel) -> bool {
    decreases_to!(
        a.phase(), a.detail(), a.call(), a.hooks_left() =>
        b.phase(), b.detail(), b.call(), b.hooks_left()
    )
}

/// The funnel for plugin calls makes progress whenever the stage goes on from
/// a plugin that is not there.
proof fn lemma_after_progress(k: KernelModel, job: JobModel, result: Result<OutputModel, Text>)
    requires
        job_fits(job, k.stage),
        !(job is Hook),
    ensures
        k.after(job, result).coherent(),
        k.after(job, result).waits_after(ActionModel::Continue),
        k.after(job, result).phase() < k.phase() || (k.after(job, result).phase() == k.phase()
            && k.after(job, result).detail() < k.detail()),
{
    reveal(KernelModel::after);
}

proof fn lemma_called_progress(k: KernelModel, name: Text, input: InputModel, job: JobModel)
    requires
        k.wait is Nothing,
        k.hooks.names.len() == 0,
        job_fits(job, k.stage),
        !(job is Hook),
    ensures
        k.called(name, input, job).0.coherent(),
        nearer(k, k.called(name, input, job).0),
        !(k.called(name, input, job).1 is Rest),
        !(k.called(name, input, job).1 is Done),
        k.called(name, input, job).0.waits_after(k.called(name, input, job).1),
{
    reveal(KernelModel::called);
    lemma_after_progress(k, job, Err("plugin '"@ + name + "' not loaded"@));
}

proof fn lemma_route_progress(k: KernelModel)
    requires
        k.wait is Nothing,
        k.hooks.names.len() == 0,
        k.stage is Route,
    ensures
        k.step_stage().0.coherent(),
        nearer(k, k.step_stage().0),
        !(k.step_stage().1 is Rest),
        k.step_stage().0.waits_after(k.step_stage().1),
{
    reveal(KernelModel::step_stage);
    if k.strategy() is Some {
        lemma_called_progress(k, k.strategy()->0, k.strategy_input("route"@), JobModel::Route);
    }
}

proof fn lemma_infer_progress(k: KernelModel)
    requires
        k.wait is Nothing,
        k.hooks.names.len() == 0,
        k.stage is Infer,
    ensures
        k.step_stage().0.coherent(),
        nearer(k, k.step_stage().0),
        !(k.step_stage().1 is Rest),
        k.step_stage().0.waits_after(k.step_stage().1),
{
    reveal(KernelModel::step_stage);
    if k.settings.infer_plugin is Some && k.input.images.len() == 0 {
        lemma_called_progress(
            k,
            k.settings.infer_plugin->0,
            k.infer_input(),
            JobModel::Infer,
        );
    }
}

proof fn lemma_check_progress(k: KernelModel)
    requires
        k.wait is Nothing,
        k.hooks.names.len() == 0,
        k.stage is Check,
    ensures
        k.step_stage().0.coherent(),
        nearer(k, k.step_stage().0),
        !(k.step_stage().1 is Rest),
        k.step_stage().0.waits_after(k.step_stage().1),
{
    reveal(KernelModel::step_stage);
    let raw = k.stage->Check_raw;
    match command::command_of(raw) {
        Ok(_) => {},
        Err(e) => {
            if k.settings.repair_plugin is Some {
                lemma_called_progress(
                    k,
                    k.settings.repair_plugin->0,
                    model::repair_input(raw, e),
                    JobModel::Repair { error: e },
                );
            }
        },
    }
}

proof fn lemma_tool_progress(k: KernelModel)
    requires
        k.wait is Nothing,
        k.hooks.names.len() == 0,
        k.stage is CallTool,
    ensures
        k.step_stage().0.coherent(),
        nearer(k, k.step_stage().0),
        !(k.step_stage().1 is Rest),
        k.step_stage().0.waits_after(k.step_stage().1),
{
    reveal(KernelModel::step_stage);
    let tool = k.stage->CallTool_tool;
    lemma_called_progress(
        k,
        tool,
        k.tool_input(k.stage->CallTool_args),
        JobModel::Tool { tool },
    );
}

proof fn lemma_fallback_progress(k: KernelModel)
    requires
        k.wait is Nothing,
        k.hooks.names.len() == 0,
        k.stage is Fallback,
    ensures
        k.step_stage().0.coherent(),
        nearer(k, k.step_stage().0),
        !(k.step_stage().1 is Rest),
        k.step_stage().0.waits_after(k.step_stage().1),
{
    reveal(KernelModel::step_stage);
    if k.strategy() is Some {
        lemma_called_progress(
            k,
            k.strategy()->0,
            k.strategy_input("fallback"@),
            JobModel::Fallback,
        );
    }
}

proof fn lemma_early_progress(k: KernelModel)
    requires
        k.wait is Nothing,
        k.hooks.names.len() == 0,
        k.stage is Decide || k.stage is Act || k.stage is Gather || k.stage is Try
            || k.stage is Missed,
    ensures
        k.step_stage().0.coherent(),
        nearer(k, k.step_stage().0),
        !(k.step_stage().1 is Rest),
        k.step_stage().0.waits_after(k.step_stage().1),
{
    reveal(KernelModel::step_stage);
}

proof fn lemma_middle_progress(k: KernelModel)
    requires
        k.wait is Nothing,
        k.hooks.names.len() == 0,
        k.stage is Guard || k.stage is Tool || k.stage is Settle || k.stage is Degrade,
    ensures
        k.step_stage().0.coherent(),
        nearer(k, k.step_stage().0),
        !(k.step_stage().1 is Rest),
        k.step_stage().0.waits_after(k.step_stage().1),
{
    reveal(KernelModel::step_stage);
}

proof fn lemma_finish_progress(k: KernelModel)
    requires
        k.wait is Nothing,
        k.hooks.names.len() == 0,
        k.stage is Finish || k.stage is Drain,
    ensures
        k.step_stage().0.coherent(),
        nearer(k, k.step_stage().0),
        !(k.step_stage().1 is Rest),
        k.step_stage().0.waits_after(k.step_stage().1),
{
    reveal(KernelModel::step_stage);
}

proof fn lemma_late_progress(k: KernelModel)
    requires
        k.wait is Nothing,
        k.hooks.names.len() == 0,
        k.stage is Rollbacks || k.stage is Close || k.stage is Reload,
    ensures
        k.step_stage().0.coherent(),
        nearer(k, k.step_stage().0),
        !(k.step_stage().1 is Rest),
        k.step_stage().0.waits_after(k.step_stage().1),
{
    reveal(KernelModel::step_stage);
}

proof fn lemma_stage_progress(k: KernelModel)
    requires
        k.wait is Nothing,
        k.hooks.names.len() == 0,
        !(k.stage is Idle),
    ensures
        k.step_stage().0.coherent(),
        nearer(k, k.step_stage().0),
        !(k.step_stage().1 is Rest),
        k.step_stage().0.waits_after(k.step_stage().1),
{
    match k.stage {
        StageModel::Route => lemma_route_progress(k),
        StageModel::Infer => lemma_infer_progress(k),
        StageModel::Check { .. } => lemma_check_progress(k),
        StageModel::CallTool { .. } => lemma_tool_progress(k),
        StageModel::Fallback { .. } => lemma_fallback_progress(k),
        StageModel::Decide { .. } => lemma_early_progress(k),
        StageModel::Act { .. } => lemma_early_progress(k),
        StageModel::Gather { .. } => lemma_early_progress(k),
        StageModel::Try => lemma_early_progress(k),
        StageModel::Missed { .. } => lemma_early_progress(k),
        StageModel::Guard { .. } => lemma_middle_progress(k),
        StageModel::Tool { .. } => lemma_middle_progress(k),
        StageModel::Settle { .. } => lemma_middle_progress(k),
        StageModel::Degrade { .. } => lemma_middle_progress(k),
        StageModel::Finish { .. } => lemma_finish_progress(k),
        StageModel::Drain { .. } => lemma_finish_progress(k),
        _ => lemma_late_progress(k),
    }
}

proof fn lemma_hook_progress(k: KernelModel)
    requires
        k.coherent(),
        k.wait is Nothing,
        k.hooks.names.len() > 0,
    ensures
        k.step_hook().0.coherent(),
        nearer(k, k.step_hook().0),
        !(k.step_hook().1 is Rest),
        k.step_hook().0.waits_after(k.step_hook().1),
{
    reveal(KernelModel::called);
    reveal(KernelModel::after);
}

/// The kernel always makes progress: every step that does anything brings it
/// nearer to the end of the task, so no task runs forever, and every step
/// leaves it waiting for the reply to what it has asked for, so no task gets
/// stuck. A step does nothing only between tasks, or when the reply is not the
/// one that the kernel waits for.
pub proof fn law_every_step_makes_progress(k: KernelModel, reply: ReplyModel)
    requires
        k.coherent(),
    ensures
        k.step(reply).0.coherent(),
        k.step(reply).1 is Rest ==> k.step(reply).0 == k,
        !(k.step(reply).1 is Rest) ==> nearer(k, k.step(reply).0),
        k.step(reply).0.waits_after(k.step(reply).1),
        k.step(reply).1 is Rest <==> !k.expects(reply),
{
    reveal(KernelModel::step);
    match (k.wait, reply) {
        (WaitModel::Nothing, ReplyModel::Nothing) => {
            if k.hooks.names.len() > 0 {
                lemma_hook_progress(k);
            } else if k.stage is Idle {
                reveal(KernelModel::step_stage);
            } else {
                lemma_stage_progress(k);
            }
        },
        (WaitModel::Plugin { name, native, job }, ReplyModel::Plugin { result }) => {
            let ok = match result {
                Ok(out) => out.ok,
                Err(_) => false,
            };
            let k1 = KernelModel { plugins: registry::reported(k.plugins, name, ok), ..k };
            if job is Hook {
                model::lemma_after(k, k, job, result);
                model::lemma_after(k1, k1, job, result);
            } else {
                lemma_after_progress(k, job, result);
                lemma_after_progress(k1, job, result);
            }
        },
        (WaitModel::Package { name, result, job }, ReplyModel::Package { result: package }) => {
            let k1 = KernelModel {
                plugins: match package {
                    Ok(p) => registry::resolved(k.plugins, name, p),
                    Err(_) => k.plugins,
                },
                pending: k.pending.push(name),
                ..k
            };
            if job is Hook {
                model::lemma_after(k1, k1, job, result);
            } else {
                lemma_after_progress(k1, job, result);
            }
        },
        _ => {},
    }
}

} // verus!
