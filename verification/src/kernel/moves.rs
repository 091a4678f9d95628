//! What a step can change, and what it leaves as it is.

use crate::kernel::command;
use crate::kernel::command::CommandModel;
use crate::kernel::model;
use crate::kernel::model::{
    ActionModel, JobModel, KernelModel, OutcomeModel, ReplyModel, StageModel,
};
use crate::kernel::progress;
use crate::kernel::run;
use crate::kernel::soundness;
use crate::lock;
use crate::names;
use crate::plugin::abi::{InputModel, OutputModel};
use crate::plugin::registry;
use crate::text::Text;
use vstd::prelude::*;

verus! {

// Calls.

/// A plugin is called.
pub open spec fn calls_plugin(action: ActionModel) -> bool {
    action is Native || action is Wasm
}

/// What a step leads to: the model is asked, or a plugin in its place.
pub open spec fn asks(next: (KernelModel, ActionModel)) -> bool {
    next.1 is Ask || calls_plugin(next.1) && soundness::job_of(next.0.wait) == Some(
        JobModel::Infer,
    )
}

/// What a step leads to: a tool is called.
pub open spec fn acts(next: (KernelModel, ActionModel)) -> bool {
    calls_plugin(next.1) && soundness::job_of(next.0.wait) is Some && soundness::job_of(
        next.0.wait,
    )->0 is Tool
}

/// Only the right plugin is called, and it sees what it may.
pub open spec fn calls_rightly(a: KernelModel, next: (KernelModel, ActionModel)) -> bool {
    &&& next.1 matches ActionModel::Wasm { name, input } ==> names::find(a.natives, name) is None
        && names::find(a.plugins, name) is Some && input.context == (if names::find(
        a.plugins,
        name,
    )->0.manifest.context {
        Some(a.context)
    } else {
        None
    })
    &&& next.1 is Wasm ==> next.0.plugins == a.plugins
    &&& asks(next) ==> a.stage is Infer
}

// What stays.

/// What stays as it is throughout a task.
pub open spec fn same_task(a: KernelModel, b: KernelModel) -> bool {
    a.context == b.context && a.context_budget == b.context_budget && a.event == b.event
        && a.natives == b.natives && a.task == b.task
}

/// What a reload is answered.
pub open spec fn reload_outcome(outcome: Option<OutcomeModel>) -> bool {
    outcome is Some && outcome->0.via == "kernel"@ && (outcome->0.status == "ok"@
        || outcome->0.status == "error"@)
}

/// The task stays the same until it is done, plugins change only with the reply
/// to what was asked of one or of the disk, and devices are locked only when a
/// tool is about to be called and released only when the task has its outcome.
pub open spec fn keeps(a: KernelModel, next: (KernelModel, ActionModel)) -> bool {
    let b = next.0;
    &&& b.settings == a.settings
    &&& b.plugins == a.plugins || soundness::job_of(a.wait) is Some || a.wait is Reload
    &&& !(next.1 is Done) ==> same_task(a, b)
    &&& next.1 is Done ==> a.stage is Close || a.stage is Reload
    &&& next.1 is Done && a.stage is Close ==> next.1->Done_outcome == a.outcome() && b.context
        == match a.outcome() {
        Some(o) => a.remembered(o),
        None => a.context,
    }
    &&& next.1 is Done && a.stage is Reload ==> b.context == a.context && reload_outcome(
        next.1->Done_outcome,
    )
    &&& b.stage is Reload ==> a.stage is Reload
    &&& !(a.stage is Tool) && !(a.stage is Finish) ==> b.locks == a.locks
    &&& b.stage is CallTool && !(a.stage is CallTool) ==> a.stage is Tool && a.tool_devices(
        a.stage->Tool_tool,
    ) is Some && lock::first_busy(a.locks, a.task, a.tool_devices(a.stage->Tool_tool)->0) is None
        && b.locks == lock::with_all(a.locks, a.task, a.tool_devices(a.stage->Tool_tool)->0)
    &&& a.stage is Tool && !(b.stage is CallTool) ==> b.locks == a.locks
}

// Budgets.

/// The task is decided by a rule.
pub open spec fn ruled(k: KernelModel) -> bool {
    k.stage is Act && k.stage->Act_decision == "rule"@ && k.stage->Act_out is Some
}

/// How often the model may still be asked.
pub open spec fn asks_left(k: KernelModel) -> nat {
    match k.stage {
        StageModel::Route => k.attempts_left() + 1,
        StageModel::Decide { .. } => k.attempts_left() + 1,
        StageModel::Act { .. } => if ruled(k) {
            0
        } else {
            k.attempts_left() + 1
        },
        StageModel::Gather { .. } => k.attempts_left() + 1,
        StageModel::Try => k.attempts_left() + 1,
        StageModel::Infer => if k.wait is Model || soundness::job_of(k.wait) == Some(
            JobModel::Infer,
        ) {
            k.attempts_left()
        } else {
            k.attempts_left() + 1
        },
        StageModel::Check { .. } => k.attempts_left(),
        StageModel::Missed { .. } => k.attempts_left(),
        _ => 0,
    }
}

/// How often a tool may still be called.
pub open spec fn acts_left(k: KernelModel) -> nat {
    match k.stage {
        StageModel::Route => 1,
        StageModel::Decide { .. } => 1,
        StageModel::Act { .. } => if ruled(k) {
            0
        } else {
            1
        },
        StageModel::Gather { .. } => 1,
        StageModel::Try => 1,
        StageModel::Infer => 1,
        StageModel::Check { .. } => 1,
        StageModel::Missed { .. } => 1,
        StageModel::Guard { .. } => 1,
        StageModel::Tool { .. } => 1,
        StageModel::CallTool { .. } => if soundness::job_of(k.wait) is Some && soundness::job_of(
            k.wait,
        )->0 is Tool {
            0
        } else {
            1
        },
        _ => 0,
    }
}

/// A step spends no more than what is left.
pub open spec fn stays_within(a: KernelModel, next: (KernelModel, ActionModel)) -> bool {
    &&& asks_left(next.0) + (if asks(next) {
        1nat
    } else {
        0
    }) <= asks_left(a)
    &&& acts_left(next.0) + (if acts(next) {
        1nat
    } else {
        0
    }) <= acts_left(a)
}

// Outcomes.

/// A task that goes well.
pub open spec fn well(via: Text, reply: Text) -> OutcomeModel {
    OutcomeModel { status: "ok"@, reply, via }
}

/// The answer that a plan gives at once: it is a reply, and no dead loop.
pub open spec fn plain_answer(k: KernelModel, cmd: CommandModel) -> Option<OutcomeModel> {
    if cmd.reply is Some && cmd.tool is None && !k.breaker.loops_on(command::fingerprint_of(cmd)) {
        Some(well("model"@, cmd.reply->0))
    } else {
        None
    }
}

/// The rule that a strategy gave.
pub open spec fn rule_in(out: Option<OutputModel>) -> Option<OutcomeModel> {
    if model::decision_of(out) == "rule"@ && out is Some {
        Some(well("rule"@, model::answer_text(out->0)))
    } else {
        None
    }
}

/// The outcome that is settled, though hooks may still have to run.
pub open spec fn settled(k: KernelModel) -> Option<OutcomeModel> {
    match k.stage {
        StageModel::Decide { out } => rule_in(out),
        StageModel::Act { decision, out } => if decision == "rule"@ && out is Some {
            Some(well("rule"@, model::answer_text(out->0)))
        } else {
            None
        },
        StageModel::Check { raw } => if k.wait is Nothing || soundness::job_of(k.wait) == Some(
            JobModel::Hook,
        ) {
            match command::command_of(raw) {
                Ok(cmd) => plain_answer(k, cmd),
                Err(_) => None,
            }
        } else {
            None
        },
        StageModel::Guard { cmd } => plain_answer(k, cmd),
        StageModel::Settle { result } => match result {
            Ok(reply) => Some(well("tool"@, reply)),
            Err(_) => None,
        },
        _ => k.outcome(),
    }
}

/// How a task ends that left the happy path for `reason`: by a rule of the
/// strategy, or by a refusal that says why.
pub open spec fn falls_back(o: OutcomeModel, reason: Text) -> bool {
    ||| o.status == "ok"@ && o.via == "fallback"@
    ||| o == (OutcomeModel {
        status: "rejected"@,
        reply: "request safely rejected ("@ + reason + ")"@,
        via: "fallback"@,
    })
}

/// The task has left the happy path for `reason`, or is about to: its tool has
/// failed.
pub open spec fn degraded(k: KernelModel, reason: Text) -> bool {
    match k.stage {
        StageModel::Settle { result } => result == Err::<Text, Text>(reason),
        StageModel::Degrade { reason: r, reset } => r == reason,
        StageModel::Fallback { reason: r, reset } => r == reason,
        _ => k.outcome() is Some && falls_back(k.outcome()->0, reason),
    }
}

/// What is decided stays decided, and a plan comes only from a text that passes
/// the strict check.
pub open spec fn decides(a: KernelModel, next: (KernelModel, ActionModel)) -> bool {
    let b = next.0;
    &&& settled(a) is Some && !(next.1 is Done) ==> settled(b) == settled(a)
    &&& forall|reason: Text| #[trigger]
        degraded(a, reason) && !(next.1 is Done) ==> degraded(b, reason)
    &&& b.stage is Guard && !(a.stage is Guard) ==> exists|t: Text| #[trigger]
        command::command_of(t) == Ok::<_, command::CommandError>(b.stage->Guard_cmd)
    &&& a.stage is Finish && a.stage->Finish_reset && !(b.stage is Finish) ==> b.breaker
        == a.breaker.after_reset()
}

/// What holds of every step.
pub open spec fn moves(a: KernelModel, next: (KernelModel, ActionModel)) -> bool {
    calls_rightly(a, next) && keeps(a, next) && stays_within(a, next) && decides(a, next)
}

/// `k` is `a` but for what it waits for and for its wasm plugins.
spec fn alike(a: KernelModel, k: KernelModel) -> bool {
    k == (KernelModel { plugins: k.plugins, pending: k.pending, wait: k.wait, ..a })
}

proof fn lemma_after_moves(
    a: KernelModel,
    k: KernelModel,
    job: JobModel,
    result: Result<OutputModel, Text>,
)
    requires
        alike(a, k),
        progress::job_fits(job, a.stage),
        soundness::job_of(a.wait) == Some(job) || a.wait is Nothing && !(job is Hook) && k.plugins
            == a.plugins,
        job is Repair ==> soundness::job_of(a.wait) == Some(job) || command::command_of(
            a.stage->Check_raw,
        ) is Err,
    ensures
        moves(a, (k.after(job, result), ActionModel::Continue)),
{
    reveal(KernelModel::after);
}

proof fn lemma_called_moves(k: KernelModel, name: Text, input: InputModel, job: JobModel)
    requires
        k.wait is Nothing,
        progress::job_fits(job, k.stage),
        !(job is Hook),
        job is Repair ==> command::command_of(k.stage->Check_raw) is Err,
    ensures
        moves(k, k.called(name, input, job)),
{
    reveal(KernelModel::called);
    lemma_after_moves(k, k, job, Err("plugin '"@ + name + "' not loaded"@));
}

/// What the stages that call plugins do.
proof fn lemma_calling_stages(k: KernelModel)
    ensures
        k.stage is Route ==> k.step_stage() == k.step_route(),
        k.stage is Infer ==> k.step_stage() == k.step_infer(),
        k.stage is Check ==> k.step_stage() == k.step_check(k.stage->Check_raw),
        k.stage is CallTool ==> k.step_stage() == k.called(
            k.stage->CallTool_tool,
            k.tool_input(k.stage->CallTool_args),
            JobModel::Tool { tool: k.stage->CallTool_tool },
        ),
        k.stage is Fallback ==> k.step_stage() == k.step_fallback(
            k.stage->Fallback_reason,
            k.stage->Fallback_reset,
        ),
{
    reveal(KernelModel::step_stage);
}

proof fn lemma_route_moves(k: KernelModel)
    requires
        k.wait is Nothing,
        k.stage is Route,
    ensures
        moves(k, k.step_route()),
{
    if k.strategy() is Some {
        lemma_called_moves(k, k.strategy()->0, k.strategy_input("route"@), JobModel::Route);
    }
}

proof fn lemma_fallback_moves(k: KernelModel)
    requires
        k.wait is Nothing,
        k.stage is Fallback,
    ensures
        moves(k, k.step_fallback(k.stage->Fallback_reason, k.stage->Fallback_reset)),
{
    if k.strategy() is Some {
        lemma_called_moves(k, k.strategy()->0, k.strategy_input("fallback"@), JobModel::Fallback);
    }
}

proof fn lemma_infer_moves(k: KernelModel)
    requires
        k.wait is Nothing,
        k.stage is Infer,
    ensures
        moves(k, k.step_infer()),
{
    if k.settings.infer_plugin is Some {
        lemma_called_moves(k, k.settings.infer_plugin->0, k.infer_input(), JobModel::Infer);
    }
}

proof fn lemma_check_moves(k: KernelModel)
    requires
        k.wait is Nothing,
        k.stage is Check,
    ensures
        moves(k, k.step_check(k.stage->Check_raw)),
{
    let raw = k.stage->Check_raw;
    if command::command_of(raw) is Err && k.settings.repair_plugin is Some {
        let error = command::command_of(raw)->Err_0;
        lemma_called_moves(
            k,
            k.settings.repair_plugin->0,
            model::repair_input(raw, error),
            JobModel::Repair { error },
        );
    }
}

proof fn lemma_decision_moves(k: KernelModel)
    requires
        k.wait is Nothing,
        k.stage is Decide || k.stage is Act,
    ensures
        moves(k, k.step_stage()),
{
    reveal(KernelModel::step_stage);
}

proof fn lemma_attempt_moves(k: KernelModel)
    requires
        k.wait is Nothing,
        k.stage is Gather || k.stage is Try || k.stage is Missed,
    ensures
        moves(k, k.step_stage()),
{
    reveal(KernelModel::step_stage);
}

proof fn lemma_plan_moves(k: KernelModel)
    requires
        k.wait is Nothing,
        k.stage is Guard || k.stage is Tool || k.stage is Settle,
    ensures
        moves(k, k.step_stage()),
{
    reveal(KernelModel::step_stage);
}

proof fn lemma_outcome_moves(k: KernelModel)
    requires
        k.wait is Nothing,
        k.stage is Degrade || k.stage is Finish,
    ensures
        moves(k, k.step_stage()),
{
    reveal(KernelModel::step_stage);
}

proof fn lemma_end_moves(k: KernelModel)
    requires
        k.wait is Nothing,
        k.stage is Idle || k.stage is Reload || soundness::ends(k.stage),
    ensures
        moves(k, k.step_stage()),
{
    reveal(KernelModel::step_stage);
}

proof fn lemma_stage_moves(k: KernelModel)
    requires
        k.wait is Nothing,
    ensures
        moves(k, k.step_stage()),
{
    lemma_calling_stages(k);
    match k.stage {
        StageModel::Route => lemma_route_moves(k),
        StageModel::Infer => lemma_infer_moves(k),
        StageModel::Check { .. } => lemma_check_moves(k),
        StageModel::CallTool { tool, args } => lemma_called_moves(
            k,
            tool,
            k.tool_input(args),
            JobModel::Tool { tool },
        ),
        StageModel::Fallback { .. } => lemma_fallback_moves(k),
        StageModel::Decide { .. } => lemma_decision_moves(k),
        StageModel::Act { .. } => lemma_decision_moves(k),
        StageModel::Gather { .. } => lemma_attempt_moves(k),
        StageModel::Try => lemma_attempt_moves(k),
        StageModel::Missed { .. } => lemma_attempt_moves(k),
        StageModel::Guard { .. } => lemma_plan_moves(k),
        StageModel::Tool { .. } => lemma_plan_moves(k),
        StageModel::Settle { .. } => lemma_plan_moves(k),
        StageModel::Degrade { .. } => lemma_outcome_moves(k),
        StageModel::Finish { .. } => lemma_outcome_moves(k),
        _ => lemma_end_moves(k),
    }
}

proof fn lemma_hook_moves(k: KernelModel)
    requires
        k.wait is Nothing,
        k.hooks.names.len() > 0,
    ensures
        moves(k, k.step_hook()),
{
    reveal(KernelModel::called);
    reveal(KernelModel::after);
}

proof fn lemma_answer_moves(k: KernelModel, result: Result<OutputModel, Text>)
    requires
        k.coherent(),
        k.wait is Plugin,
    ensures
        moves(k, k.step(ReplyModel::Plugin { result })),
{
    reveal(KernelModel::step);
    let name = k.wait->Plugin_name;
    let job = k.wait->Plugin_job;
    let ok = match result {
        Ok(out) => out.ok,
        Err(_) => false,
    };
    lemma_after_moves(k, k, job, result);
    lemma_after_moves(
        k,
        KernelModel { plugins: registry::reported(k.plugins, name, ok), ..k },
        job,
        result,
    );
}

proof fn lemma_package_moves(
    k: KernelModel,
    package: Result<Option<registry::PluginModel>, Text>,
)
    requires
        k.coherent(),
        k.wait is Package || k.wait is Reload,
    ensures
        moves(k, k.step(ReplyModel::Package { result: package })),
{
    reveal(KernelModel::step);
    if k.wait is Package {
        let k1 = KernelModel {
            plugins: match package {
                Ok(p) => registry::resolved(k.plugins, k.wait->Package_name, p),
                Err(_) => k.plugins,
            },
            pending: k.pending.push(k.wait->Package_name),
            ..k
        };
        lemma_after_moves(k, k1, k.wait->Package_job, k.wait->Package_result);
    }
}

proof fn lemma_other_moves(k: KernelModel, reply: ReplyModel)
    requires
        k.coherent(),
        !(k.wait is Nothing && reply is Nothing),
        !(k.wait is Plugin && reply is Plugin),
        !((k.wait is Package || k.wait is Reload) && reply is Package),
    ensures
        moves(k, k.step(reply)),
{
    reveal(KernelModel::step);
}

/// Every step moves as it should.
pub proof fn lemma_step_moves(k: KernelModel, reply: ReplyModel)
    requires
        k.coherent(),
    ensures
        moves(k, k.step(reply)),
{
    if k.wait is Nothing && reply is Nothing {
        reveal(KernelModel::step);
        if k.hooks.names.len() > 0 {
            lemma_hook_moves(k);
        } else {
            lemma_stage_moves(k);
        }
    } else if k.wait is Plugin && reply is Plugin {
        lemma_answer_moves(k, reply->Plugin_result);
    } else if (k.wait is Package || k.wait is Reload) && reply is Package {
        lemma_package_moves(k, reply->Package_result);
    } else {
        lemma_other_moves(k, reply);
    }
}

/// What a task keeps until it is done.
pub open spec fn kept(a: KernelModel, b: KernelModel) -> bool {
    &&& same_task(a, b)
    &&& b.stage is Reload ==> a.stage is Reload
    &&& settled(a) is Some ==> settled(b) == settled(a)
    &&& forall|reason: Text| #[trigger] degraded(a, reason) ==> degraded(b, reason)
}

/// Along a task that is not done yet, what is to be kept is kept.
pub proof fn lemma_along(k: KernelModel, replies: Seq<ReplyModel>, m: int, n: int)
    requires
        k.coherent(),
        run::ongoing(k, replies),
        0 <= m <= n < replies.len(),
    ensures
        run::after_replies(k, replies.take(n)).coherent(),
        kept(run::after_replies(k, replies.take(m)), run::after_replies(k, replies.take(n))),
    decreases n,
{
    if n > 0 {
        let shorter = replies.take(n);
        let before = run::after_replies(k, replies.take(n - 1));
        assert(shorter.drop_last() =~= replies.take(n - 1));
        lemma_along(
            k,
            replies,
            if m < n {
                m
            } else {
                n - 1
            },
            n - 1,
        );
        progress::law_every_step_makes_progress(before, shorter.last());
        lemma_step_moves(before, shorter.last());
    } else {
        assert(replies.take(0) =~= Seq::<ReplyModel>::empty());
    }
}

} // verus!
