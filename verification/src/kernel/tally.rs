//! What the breaker makes of tasks.

use crate::breaker::BreakerModel;
use crate::event::EventModel;
use crate::kernel::model::{
    ActionModel, JobModel, KernelModel, OutcomeModel, ReplyModel, StageModel, WaitModel,
};
use crate::kernel::moves;
use crate::kernel::progress;
use crate::kernel::run;
use crate::kernel::soundness;
use crate::plugin::abi::OutputModel;
use crate::plugin::registry;
use crate::text::Text;
use vstd::prelude::*;

verus! {

/// One failure more is on record, and the breaker is open where that makes too many.
pub open spec fn one_failure_more(a: BreakerModel, b: BreakerModel) -> bool {
    &&& b.failures == (if a.failures < u32::MAX {
        a.failures + 1
    } else {
        a.failures
    })
    &&& b.open == (a.open || b.failures >= a.max_failures)
}

/// The breaker has seen nothing, and is closed.
pub open spec fn as_new(a: BreakerModel, b: BreakerModel) -> bool {
    b == (BreakerModel {
        failures: 0,
        max_failures: a.max_failures,
        last_action: None,
        repeats: 0,
        max_repeats: a.max_repeats,
        open: false,
    })
}

/// What the breaker makes of a task that began with `a` and had this outcome: success
/// clears the count of failures and closes it; a device that is busy is no failure; and a
/// task that fell back counts as one failure, but for two reasons that leave the breaker
/// as new: that it was open, or that the plan was a dead loop.
pub open spec fn accounted(a: BreakerModel, o: OutcomeModel, b: BreakerModel) -> bool {
    &&& b.max_failures == a.max_failures && b.max_repeats == a.max_repeats
    &&& o.via == "rule"@ || o.via == "model"@ || o.via == "tool"@ ==> b.failures == 0 && !b.open
    &&& o.via == "kernel"@ ==> b.failures == a.failures && b.open == a.open
    &&& o.via == "fallback"@ ==> if a.open {
        as_new(a, b)
    } else {
        one_failure_more(a, b) || as_new(a, b) && moves::falls_back(o, "repeated action loop"@)
    }
}

proof fn lemma_ways_differ()
    ensures
        "fallback"@ != "rule"@,
        "fallback"@ != "model"@,
        "fallback"@ != "tool"@,
        "fallback"@ != "kernel"@,
        "kernel"@ != "rule"@,
        "kernel"@ != "model"@,
        "kernel"@ != "tool"@,
{
    reveal_strlit("fallback");
    reveal_strlit("rule");
    reveal_strlit("model");
    reveal_strlit("tool");
    reveal_strlit("kernel");
    assert("fallback"@.len() == 8 && "rule"@.len() == 4 && "model"@.len() == 5 && "tool"@.len()
        == 4 && "kernel"@.len() == 6);
}

/// What the breaker has made of the task so far.
spec fn booked(k0: KernelModel, k: KernelModel) -> bool {
    let a = k0.breaker;
    let b = k.breaker;
    &&& k.coherent()
    &&& b.max_failures == a.max_failures && b.max_repeats == a.max_repeats
    &&& match k.stage {
        StageModel::Tool { .. } => b.failures == a.failures && !b.open && !a.open,
        StageModel::CallTool { .. } => b.failures == a.failures && !b.open && !a.open,
        StageModel::Settle { .. } => b.failures == a.failures && !b.open && !a.open,
        StageModel::Degrade { reason, reset } => if reset {
            a.open || reason == "repeated action loop"@
        } else {
            !a.open && one_failure_more(a, b)
        },
        StageModel::Fallback { reason, reset } => if reset {
            a.open || reason == "repeated action loop"@
        } else {
            !a.open && one_failure_more(a, b)
        },
        StageModel::Finish { outcome, reset } => if reset {
            outcome.via == "fallback"@ && (a.open || moves::falls_back(
                outcome,
                "repeated action loop"@,
            ))
        } else {
            &&& outcome.via == "rule"@ || outcome.via == "model"@ || outcome.via == "tool"@
                ==> b.failures == 0 && !b.open
            &&& outcome.via == "kernel"@ ==> b.failures == a.failures && b.open == a.open
            &&& outcome.via == "fallback"@ ==> !a.open && one_failure_more(a, b)
        },
        StageModel::Drain { outcome } => outcome is Some ==> accounted(a, outcome->0, b),
        StageModel::Rollbacks { left, outcome } => outcome is Some ==> accounted(a, outcome->0, b),
        StageModel::Close { outcome } => outcome is Some ==> accounted(a, outcome->0, b),
        StageModel::Reload { .. } => false,
        StageModel::Idle => false,
        StageModel::Route => b == a,
        StageModel::Decide { .. } => b == a,
        StageModel::Act { .. } => b == a,
        _ => b == a && !a.open,
    }
}

proof fn lemma_after(
    k0: KernelModel,
    a: KernelModel,
    k: KernelModel,
    job: JobModel,
    result: Result<OutputModel, Text>,
)
    requires
        booked(k0, a),
        k == (KernelModel { plugins: k.plugins, pending: k.pending, wait: k.wait, ..a }),
        progress::job_fits(job, a.stage),
        k.after(job, result).coherent(),
    ensures
        booked(k0, k.after(job, result)),
{
    reveal(KernelModel::after);
    lemma_ways_differ();
}

proof fn lemma_calls(k0: KernelModel, k: KernelModel)
    requires
        booked(k0, k),
        k.wait is Nothing,
        k.hooks.names.len() == 0,
        k.stage is Route || k.stage is Infer || k.stage is Check || k.stage is CallTool || k.stage
            is Fallback,
        k.step_stage().0.coherent(),
    ensures
        booked(k0, k.step_stage().0),
{
    reveal(KernelModel::step_stage);
    reveal(KernelModel::called);
    reveal(KernelModel::after);
    lemma_ways_differ();
}

proof fn lemma_decides(k0: KernelModel, k: KernelModel)
    requires
        booked(k0, k),
        k.wait is Nothing,
        k.hooks.names.len() == 0,
        k.stage is Decide || k.stage is Act || k.stage is Gather || k.stage is Try || k.stage
            is Missed || k.stage is Guard,
        k.step_stage().0.coherent(),
    ensures
        booked(k0, k.step_stage().0),
{
    reveal(KernelModel::step_stage);
    lemma_ways_differ();
}

proof fn lemma_acts(k0: KernelModel, k: KernelModel)
    requires
        booked(k0, k),
        k.wait is Nothing,
        k.hooks.names.len() == 0,
        k.stage is Tool || k.stage is Settle || k.stage is Degrade,
        k.step_stage().0.coherent(),
    ensures
        booked(k0, k.step_stage().0),
{
    reveal(KernelModel::step_stage);
    lemma_ways_differ();
}

proof fn lemma_ends(k0: KernelModel, k: KernelModel)
    requires
        booked(k0, k),
        k.wait is Nothing,
        k.hooks.names.len() == 0,
        k.stage is Finish || k.stage is Drain || k.stage is Rollbacks || k.stage is Close,
        k.step_stage().0.coherent(),
    ensures
        k.step_stage().1 is Done || booked(k0, k.step_stage().0),
{
    reveal(KernelModel::step_stage);
    lemma_ways_differ();
}

proof fn lemma_step(k0: KernelModel, k: KernelModel, reply: ReplyModel)
    requires
        booked(k0, k),
    ensures
        k.step(reply).1 is Done || booked(k0, k.step(reply).0),
{
    progress::law_every_step_makes_progress(k, reply);
    reveal(KernelModel::step);
    match (k.wait, reply) {
        (WaitModel::Nothing, ReplyModel::Nothing) => {
            if k.hooks.names.len() > 0 {
                reveal(KernelModel::called);
                reveal(KernelModel::after);
            } else if k.stage is Route || k.stage is Infer || k.stage is Check || k.stage
                is CallTool || k.stage is Fallback {
                lemma_calls(k0, k);
            } else if k.stage is Tool || k.stage is Settle || k.stage is Degrade {
                lemma_acts(k0, k);
            } else if k.stage is Finish || k.stage is Drain || k.stage is Rollbacks || k.stage
                is Close {
                lemma_ends(k0, k);
            } else {
                lemma_decides(k0, k);
            }
        },
        (WaitModel::Plugin { name, native, job }, ReplyModel::Plugin { result }) => {
            let ok = match result {
                Ok(out) => out.ok,
                Err(_) => false,
            };
            let k1 = KernelModel { plugins: registry::reported(k.plugins, name, ok), ..k };
            if native {
                lemma_after(k0, k, k, job, result);
            } else if !registry::trips(k.plugins, name, ok, k.settings.plugin_max_failures) {
                lemma_after(k0, k, k1, job, result);
            }
        },
        (WaitModel::Package { name, result, job }, ReplyModel::Package { result: package }) => {
            let k1 = KernelModel {
                plugins: match package {
                    Ok(p) => registry::resolved(k.plugins, name, p),
                    Err(_) => k.plugins,
                },
                pending: k.pending.push(name),
                ..k
            };
            lemma_after(k0, k, k1, job, result);
        },
        _ => {},
    }
}

proof fn lemma_along(k: KernelModel, replies: Seq<ReplyModel>, n: int)
    requires
        booked(k, k),
        run::ongoing(k, replies),
        0 <= n < replies.len(),
    ensures
        booked(k, run::after_replies(k, replies.take(n))),
    decreases n,
{
    let now = replies.take(n);
    if n == 0 {
        assert(now =~= Seq::<ReplyModel>::empty());
    } else {
        assert(now.drop_last() =~= replies.take(n - 1));
        lemma_along(k, replies, n - 1);
        lemma_step(k, run::after_replies(k, replies.take(n - 1)), now.last());
        assert(!(run::action_of(k, replies.take(n)) is Done));
    }
}

/// Every task is accounted for: what the breaker makes of it goes by its outcome, and by
/// nothing that hooks or the disk reply.
pub proof fn law_every_task_is_accounted_for(
    k: KernelModel,
    e: EventModel,
    replies: Seq<ReplyModel>,
    end: KernelModel,
    o: OutcomeModel,
)
    requires
        k.sound(),
        k.resting(),
        e.kind != "plugin_reload"@,
        run::leads(k.begun(e), replies, end, ActionModel::Done { outcome: Some(o) }),
    ensures
        accounted(k.breaker, o, end.breaker),
{
    let b = k.begun(e);
    let n = replies.len() - 1;
    let last = run::after_replies(b, replies.drop_last());
    soundness::law_every_beginning_keeps_soundness(k, e);
    assert(replies.take(n) =~= replies.drop_last());
    lemma_along(b, replies, n);
    moves::lemma_step_moves(last, replies.last());
    assert(last.stage is Close);
    assert(end.breaker == last.breaker) by {
        reveal(KernelModel::step);
        reveal(KernelModel::step_stage);
        reveal(KernelModel::called);
        reveal(KernelModel::after);
    }
}

/// A reload leaves the breaker alone.
pub proof fn law_a_reload_is_no_task_of_the_breaker(
    k: KernelModel,
    e: EventModel,
    package: Result<Option<registry::PluginModel>, Text>,
)
    requires
        k.resting(),
        e.kind == "plugin_reload"@,
    ensures
        k.begun(e).step(ReplyModel::Nothing).0.step(
            ReplyModel::Package { result: package },
        ).0.breaker == k.breaker,
{
    reveal(KernelModel::step);
    reveal(KernelModel::step_stage);
}

} // verus!
