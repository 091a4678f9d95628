//! What plugins and the model are told along a task, and what is made of their answers.

use crate::event;
use crate::event::EventModel;
use crate::json;
use crate::kernel::command;
use crate::kernel::command::CommandModel;
use crate::kernel::model;
use crate::kernel::model::{
    ActionModel, HookRun, JobModel, KernelModel, OutcomeModel, ReplyModel, StageModel, WaitModel,
};
use crate::kernel::moves;
use crate::kernel::payload;
use crate::kernel::run;
use crate::kernel::tally;
use crate::lock;
use crate::names;
use crate::plugin::abi::{InputModel, OutputModel};
use crate::plugin::registry;
use crate::text;
use crate::text::Text;
use vstd::prelude::*;

verus! {

/// Nothing is awaited, and no hook is left to run.
pub open spec fn quiet(k: KernelModel) -> bool {
    k.wait is Nothing && k.hooks.names.len() == 0
}

/// The hooks of `k` at a point are to run next, with an object of these members.
pub open spec fn announced(
    k: KernelModel,
    next: KernelModel,
    point: Text,
    members: Seq<(Text, Text)>,
    with_event: bool,
) -> bool {
    next.wait is Nothing && next.hooks == (HookRun {
        point,
        names: k.hook_names(point),
        data: json::object_text(members),
        with_event,
    })
}

/// The event of the task as a document.
pub open spec fn seen_event(k: KernelModel) -> Option<Text> {
    match k.event {
        Some(e) => Some(event::event_json(e)),
        None => None,
    }
}

/// The plugin `name` is called with this input, and with the conversation where it may
/// see it: a native plugin always, a wasm plugin where its manifest says so.
pub open spec fn calls_with(
    k: KernelModel,
    next: (KernelModel, ActionModel),
    name: Text,
    input: InputModel,
    job: JobModel,
) -> bool {
    match names::find(k.natives, name) {
        Some(_) => next.1 == (ActionModel::Native {
            name,
            input: InputModel { context: Some(k.context), ..input },
        }) && next.0.wait == (WaitModel::Plugin { name, native: true, job }),
        None => match names::find(k.plugins, name) {
            Some(p) => next.1 == (ActionModel::Wasm {
                name,
                input: InputModel {
                    context: if p.manifest.context {
                        Some(k.context)
                    } else {
                        None
                    },
                    ..input
                },
            }) && next.0.wait == (WaitModel::Plugin { name, native: false, job }),
            None => next.1 is Continue && next.0.wait is Nothing,
        },
    }
}

// Hooks.

/// The hooks of a point are called one by one, in their order, each with the point, what
/// is told there, and the event where they get to see it; and the task goes on only when
/// none is left.
pub proof fn law_hooks_are_called_one_by_one(k: KernelModel)
    requires
        k.wait is Nothing,
        k.hooks.names.len() > 0,
    ensures
        ({
            let next = k.step(ReplyModel::Nothing);
            &&& calls_with(
                k,
                next,
                k.hooks.names[0],
                InputModel {
                    kind: "hook"@,
                    hook: Some(k.hooks.point),
                    event: if k.hooks.with_event {
                        seen_event(k)
                    } else {
                        None
                    },
                    context: None,
                    args: k.hooks.data,
                },
                JobModel::Hook,
            )
            &&& next.0 == (KernelModel {
                hooks: HookRun { names: k.hooks.names.skip(1), ..k.hooks },
                wait: next.0.wait,
                ..k
            })
        }),
{
    reveal(KernelModel::step);
    reveal(KernelModel::called);
    reveal(KernelModel::after);
    assert(k.hooks.names.skip(1) =~= k.hooks.names.drop_first());
}

/// The hooks are told what the task comes to, before anything is done about it: what the
/// strategy decided, the number of the attempt, the plan, why the happy path is left,
/// the outcome, and which plugin was rolled back.
pub proof fn law_hooks_are_told_of_every_stage(k: KernelModel)
    requires
        quiet(k),
    ensures
        ({
            let next = k.step(ReplyModel::Nothing).0;
            &&& k.stage matches StageModel::Decide { out } ==> announced(
                k,
                next,
                "post_route"@,
                seq![
                    (
                        "decision"@,
                        json::quoted(
                            if out is None {
                                "none"@
                            } else if out->0.ok && out->0.decision is Some {
                                out->0.decision->0
                            } else {
                                "model"@
                            },
                        ),
                    ),
                ],
                true,
            )
            &&& k.stage is Try ==> announced(
                k,
                next,
                "pre_infer"@,
                seq![("attempt"@, text::decimal_text(k.attempt))],
                true,
            )
            &&& k.stage matches StageModel::Check { raw } ==> (command::command_of(
                raw,
            ) matches Ok(cmd) ==> announced(
                k,
                next,
                "on_plan"@,
                seq![
                    (
                        "plan"@,
                        json::object_text(
                            seq![
                                ("args"@, cmd.args),
                                (
                                    "reply"@,
                                    if cmd.reply is Some {
                                        json::quoted(cmd.reply->0)
                                    } else {
                                        "null"@
                                    },
                                ),
                                (
                                    "tool"@,
                                    if cmd.tool is Some {
                                        json::quoted(cmd.tool->0)
                                    } else {
                                        "null"@
                                    },
                                ),
                            ],
                        ),
                    ),
                ],
                true,
            ))
        }),
{
    reveal(KernelModel::step);
    reveal(KernelModel::step_stage);
}

/// The hooks are told how a task ends.
pub proof fn law_hooks_are_told_of_the_end(k: KernelModel)
    requires
        quiet(k),
    ensures
        ({
            let next = k.step(ReplyModel::Nothing).0;
            &&& k.stage matches StageModel::Degrade { reason, reset } ==> announced(
                k,
                next,
                "on_degrade"@,
                seq![("reason"@, json::quoted(reason))],
                true,
            )
            &&& k.stage matches StageModel::Finish { outcome, reset } ==> announced(
                k,
                next,
                "post_task"@,
                seq![
                    (
                        "outcome"@,
                        json::object_text(
                            seq![
                                ("reply"@, json::quoted(outcome.reply)),
                                ("status"@, json::quoted(outcome.status)),
                                ("via"@, json::quoted(outcome.via)),
                            ],
                        ),
                    ),
                ],
                true,
            )
            &&& k.stage matches StageModel::Rollbacks { left, outcome } ==> (left.len() > 0
                ==> announced(
                k,
                next,
                "on_rollback"@,
                seq![("plugin"@, json::quoted(left[0]))],
                false,
            ))
        }),
{
    reveal(KernelModel::step);
    reveal(KernelModel::step_stage);
}

/// The hooks are told what the model said, as it said it, with the number of the
/// attempt, before it is looked at.
pub proof fn law_hooks_are_told_what_the_model_said(k: KernelModel, raw: Text)
    requires
        k.wait is Model,
    ensures
        ({
            let next = k.step(ReplyModel::Model { result: Ok(raw) }).0;
            &&& announced(
                k,
                next,
                "post_infer"@,
                seq![("attempt"@, text::decimal_text(k.attempt)), ("raw"@, json::quoted(raw))],
                true,
            )
            &&& next.stage == (StageModel::Check { raw })
        }),
{
    reveal(KernelModel::step);
}

/// The hooks are told when a task begins, when the kernel starts, with the plugins that
/// are loaded, and when it stops.
pub proof fn law_hooks_are_told_of_every_beginning(k: KernelModel, e: EventModel)
    requires
        k.wait is Nothing,
    ensures
        e.kind != "plugin_reload"@ ==> announced(
            k,
            k.begun(e),
            "pre_task"@,
            Seq::<(Text, Text)>::empty(),
            true,
        ) && k.begun(e).stage is Route,
        announced(
            k,
            k.started(),
            "kernel_start"@,
            seq![
                (
                    "plugins"@,
                    json::array_text(
                        Seq::new(
                            k.plugins.len(),
                            |i: int| json::quoted(k.plugins[i].0),
                        ),
                    ),
                ),
            ],
            false,
        ),
        announced(k, k.stopping(), "kernel_stop"@, Seq::<(Text, Text)>::empty(), false),
        k.started().stage == (StageModel::Drain { outcome: None }),
        k.stopping().stage == (StageModel::Drain { outcome: None }),
{
    lemma_all_names(k.plugins);
    let listed = names::names_where(k.plugins, registry::any_plugin());
    assert(json::quoted_all(listed) =~= Seq::new(
        k.plugins.len(),
        |i: int| json::quoted(k.plugins[i].0),
    ));
    assert(k.begun(e).hook_names("pre_task"@) == k.hook_names("pre_task"@));
}

proof fn lemma_all_names(s: registry::Plugins)
    ensures
        names::names_where(s, registry::any_plugin()).len() == s.len(),
        forall|i: int|
            0 <= i < s.len() ==> #[trigger] names::names_where(s, registry::any_plugin())[i]
                == s[i].0,
    decreases s.len(),
{
    if s.len() > 0 {
        lemma_all_names(s.drop_last());
        let front = names::names_where(s.drop_last(), registry::any_plugin());
        let all = names::names_where(s, registry::any_plugin());
        assert(registry::any_plugin()(s.last()));
        assert forall|i: int| 0 <= i < s.len() implies #[trigger] all[i] == s[i].0 by {
            if i < s.len() - 1 {
                assert(front[i] == s.drop_last()[i].0);
            }
        }
    }
}

/// A task begins afresh: with the next number, with its event, and with no attempt made.
/// All else is as it was.
pub proof fn law_a_task_begins_afresh(k: KernelModel, e: EventModel)
    requires
        k.task < u64::MAX,
    ensures
        k.begun(e) == (KernelModel {
            task: (k.task + 1) as u64,
            event: Some(e),
            attempt: 0,
            hooks: k.begun(e).hooks,
            stage: k.begun(e).stage,
            ..k
        }),
{
}

// The strategy.

/// The strategy is asked first, with the event and the phase. Where there is none, there
/// is no decision.
pub proof fn law_the_strategy_is_asked_first(k: KernelModel)
    requires
        quiet(k),
        k.stage is Route,
    ensures
        ({
            let next = k.step(ReplyModel::Nothing);
            &&& k.strategy() matches Some(name) ==> calls_with(
                k,
                next,
                name,
                InputModel {
                    kind: "strategy"@,
                    hook: None,
                    event: seen_event(k),
                    context: None,
                    args: json::object_text(seq![("phase"@, json::quoted("route"@))]),
                },
                JobModel::Route,
            )
            &&& k.strategy() is None ==> next.0 == k.at(StageModel::Decide { out: None })
        }),
{
    reveal(KernelModel::step);
    reveal(KernelModel::step_stage);
    reveal(KernelModel::called);
    reveal(KernelModel::after);
}

/// When the happy path is left, the strategy is asked again, for this phase. Where there
/// is none, the request is safely rejected, and the refusal says why.
pub proof fn law_the_strategy_is_asked_for_a_fallback(k: KernelModel)
    requires
        quiet(k),
        k.stage is Fallback,
    ensures
        ({
            let next = k.step(ReplyModel::Nothing);
            &&& k.strategy() matches Some(name) ==> calls_with(
                k,
                next,
                name,
                InputModel {
                    kind: "strategy"@,
                    hook: None,
                    event: seen_event(k),
                    context: None,
                    args: json::object_text(seq![("phase"@, json::quoted("fallback"@))]),
                },
                JobModel::Fallback,
            )
            &&& k.strategy() is None ==> next.0.outcome() == Some(
                OutcomeModel {
                    status: "rejected"@,
                    reply: "request safely rejected ("@ + k.stage->Fallback_reason + ")"@,
                    via: "fallback"@,
                },
            )
        }),
{
    reveal(KernelModel::step);
    reveal(KernelModel::step_stage);
    reveal(KernelModel::called);
    reveal(KernelModel::after);
}

/// The answer for the user in an output: its reply where there is one, and else its
/// result.
pub open spec fn shown(out: OutputModel, t: Text) -> bool {
    out.reply == Some(t) || out.reply is None && out.result == t
}

/// What the first reply settles is what is reported.
proof fn lemma_first_settles(
    k: KernelModel,
    replies: Seq<ReplyModel>,
    end: KernelModel,
    done: Option<OutcomeModel>,
)
    requires
        k.coherent(),
        run::leads(k, replies, end, ActionModel::Done { outcome: done }),
        !(k.step(replies[0]).1 is Done),
    ensures
        moves::settled(k.step(replies[0]).0) is Some ==> done == moves::settled(
            k.step(replies[0]).0,
        ),
        forall|reason: Text| #[trigger]
            moves::degraded(k.step(replies[0]).0, reason) ==> done is Some && moves::falls_back(
                done->0,
                reason,
            ),
{
    let one = replies.take(1);
    let first = k.step(replies[0]).0;
    assert(one.drop_last() =~= Seq::<ReplyModel>::empty());
    reveal_with_fuel(run::after_replies, 2);
    assert(run::after_replies(k, one) == first);
    if replies.len() == 1 {
        assert(replies.drop_last() =~= Seq::<ReplyModel>::empty());
    } else {
        let n = replies.len() - 1;
        let last = run::after_replies(k, replies.drop_last());
        assert(replies.take(n) =~= replies.drop_last());
        moves::lemma_along(k, replies, 1, n);
        moves::lemma_step_moves(last, replies.last());
        assert forall|reason: Text| #[trigger] moves::degraded(first, reason) implies done is Some
            && moves::falls_back(done->0, reason) by {
            assert(moves::degraded(last, reason));
        }
    }
}

/// A rule of the strategy is the answer: its reply, or else its result, and the task
/// ends well by that rule.
pub proof fn law_a_rule_is_the_answer(
    k: KernelModel,
    out: OutputModel,
    t: Text,
    replies: Seq<ReplyModel>,
    end: KernelModel,
    done: Option<OutcomeModel>,
)
    requires
        k.coherent(),
        k.wait is Plugin,
        k.wait->Plugin_job is Route,
        out.ok,
        out.decision == Some("rule"@),
        shown(out, t),
        run::leads(k, replies, end, ActionModel::Done { outcome: done }),
        replies[0] == (ReplyModel::Plugin { result: Ok(out) }),
    ensures
        done == Some(OutcomeModel { status: "ok"@, reply: t, via: "rule"@ }),
{
    assert(moves::settled(k.step(replies[0]).0) == Some(moves::well("rule"@, t)) && k.step(
        replies[0],
    ).1 is Continue) by {
        reveal(KernelModel::step);
        reveal(KernelModel::after);
    }
    lemma_first_settles(k, replies, end, done);
}

/// When the happy path was left, a rule of the strategy is the answer, and the task ends
/// well by way of the fallback; whatever else the strategy says, the request is safely
/// rejected, and the refusal says why.
pub proof fn law_a_fallback_is_a_rule_or_a_refusal(
    k: KernelModel,
    result: Result<OutputModel, Text>,
    t: Text,
    replies: Seq<ReplyModel>,
    end: KernelModel,
    done: Option<OutcomeModel>,
)
    requires
        k.coherent(),
        k.wait is Plugin,
        k.wait->Plugin_native,
        k.wait->Plugin_job is Fallback,
        run::leads(k, replies, end, ActionModel::Done { outcome: done }),
        replies[0] == (ReplyModel::Plugin { result }),
    ensures
        result is Ok && result->Ok_0.ok && result->Ok_0.decision == Some("rule"@) && shown(
            result->Ok_0,
            t,
        ) ==> done == Some(OutcomeModel { status: "ok"@, reply: t, via: "fallback"@ }),
        !(result is Ok && result->Ok_0.ok && result->Ok_0.decision == Some("rule"@)) ==> done
            == Some(
            OutcomeModel {
                status: "rejected"@,
                reply: "request safely rejected ("@ + k.stage->Fallback_reason + ")"@,
                via: "fallback"@,
            },
        ),
{
    let s = k.step(replies[0]).0;
    assert(k.step(replies[0]).1 is Continue && s.stage is Finish && (result is Ok
        && result->Ok_0.ok && result->Ok_0.decision == Some("rule"@) && shown(result->Ok_0, t)
        ==> s.stage->Finish_outcome == (OutcomeModel {
        status: "ok"@,
        reply: t,
        via: "fallback"@,
    })) && (!(result is Ok && result->Ok_0.ok && result->Ok_0.decision == Some("rule"@))
        ==> s.stage->Finish_outcome == (OutcomeModel {
        status: "rejected"@,
        reply: "request safely rejected ("@ + k.stage->Fallback_reason + ")"@,
        via: "fallback"@,
    }))) by {
        reveal(KernelModel::step);
        reveal(KernelModel::after);
    }
    lemma_first_settles(k, replies, end, done);
}

// Tools.

/// A tool that succeeds is the answer: its reply, or else its result. One that reports a
/// failure, or crashes, degrades the task, and the reason says what it said.
pub proof fn law_a_tool_is_the_answer_or_the_reason(
    k: KernelModel,
    result: Result<OutputModel, Text>,
    t: Text,
    replies: Seq<ReplyModel>,
    end: KernelModel,
    done: Option<OutcomeModel>,
)
    requires
        k.coherent(),
        k.wait is Plugin,
        k.wait->Plugin_native,
        k.wait->Plugin_job is Tool,
        run::leads(k, replies, end, ActionModel::Done { outcome: done }),
        replies[0] == (ReplyModel::Plugin { result }),
    ensures
        result matches Ok(out) ==> (out.ok && shown(out, t) ==> done == Some(
            OutcomeModel { status: "ok"@, reply: t, via: "tool"@ },
        )),
        result matches Ok(out) ==> (!out.ok && out.error is Some ==> done is Some
            && moves::falls_back(done->0, out.error->0)),
        result matches Ok(out) ==> (!out.ok && out.error is None ==> done is Some
            && moves::falls_back(done->0, "tool reported failure"@)),
        result matches Err(e) ==> done is Some && moves::falls_back(
            done->0,
            "tool '"@ + k.wait->Plugin_job->Tool_tool + "' crashed: "@ + e,
        ),
{
    let s = k.step(replies[0]).0;
    assert(k.step(replies[0]).1 is Continue && s.stage is Settle && match result {
        Ok(out) => if out.ok {
            shown(out, t) ==> s.stage->Settle_result == Ok::<Text, Text>(t)
        } else if out.error is Some {
            s.stage->Settle_result == Err::<Text, Text>(out.error->0)
        } else {
            s.stage->Settle_result == Err::<Text, Text>("tool reported failure"@)
        },
        Err(e) => s.stage->Settle_result == Err::<Text, Text>(
            "tool '"@ + k.wait->Plugin_job->Tool_tool + "' crashed: "@ + e,
        ),
    }) by {
        reveal(KernelModel::step);
        reveal(KernelModel::after);
    }
    lemma_first_settles(k, replies, end, done);
    assert(result is Err ==> moves::degraded(
        s,
        "tool '"@ + k.wait->Plugin_job->Tool_tool + "' crashed: "@ + result->Err_0,
    ));
    assert(result matches Ok(out) ==> (!out.ok && out.error is Some ==> moves::degraded(
        s,
        out.error->0,
    )));
    assert(result matches Ok(out) ==> (!out.ok && out.error is None ==> moves::degraded(
        s,
        "tool reported failure"@,
    )));
}

/// The hooks are told that a tool is done, and whether it went well, but not what it
/// answered.
pub proof fn law_hooks_are_told_what_a_tool_came_to(
    k: KernelModel,
    result: Result<OutputModel, Text>,
)
    requires
        k.wait is Plugin,
        k.wait->Plugin_native,
        k.wait->Plugin_job is Tool,
    ensures
        ({
            let tool = k.wait->Plugin_job->Tool_tool;
            let next = k.step(ReplyModel::Plugin { result }).0;
            &&& result is Ok && result->Ok_0.ok ==> announced(
                k,
                next,
                "post_tool"@,
                seq![("ok"@, "true"@), ("tool"@, json::quoted(tool))],
                true,
            )
            &&& result is Ok && !result->Ok_0.ok && result->Ok_0.error is Some ==> announced(
                k,
                next,
                "post_tool"@,
                seq![
                    ("error"@, json::quoted(result->Ok_0.error->0)),
                    ("ok"@, "false"@),
                    ("tool"@, json::quoted(tool)),
                ],
                true,
            )
            &&& result is Err ==> announced(
                k,
                next,
                "post_tool"@,
                seq![
                    ("error"@, json::quoted("tool '"@ + tool + "' crashed: "@ + result->Err_0)),
                    ("ok"@, "false"@),
                    ("tool"@, json::quoted(tool)),
                ],
                true,
            )
        }),
{
    reveal(KernelModel::step);
    reveal(KernelModel::after);
    let k1 = KernelModel { wait: WaitModel::Nothing, ..k };
    assert(k1.hook_names("post_tool"@) == k.hook_names("post_tool"@));
}

/// A plan to call a tool is carried out: where the model has no such tool, the task is
/// degraded for that reason; where a device of the tool is busy, the task ends with that;
/// and else its devices are locked, the hooks are told, and the tool is called with the
/// arguments of the plan.
pub proof fn law_a_planned_tool_is_called(k: KernelModel, tool: Text, args: Text)
    requires
        quiet(k),
        k.stage == (StageModel::Tool { tool, args }),
    ensures
        ({
            let next = k.step(ReplyModel::Nothing).0;
            &&& k.tool_devices(tool) is None ==> moves::degraded(
                next,
                "model asked for unknown tool '"@ + tool + "'"@,
            ) && next.breaker.failures == (if k.breaker.failures < u32::MAX {
                k.breaker.failures + 1
            } else {
                k.breaker.failures
            })
            &&& k.tool_devices(tool) matches Some(devices) ==> (lock::first_busy(
                k.locks,
                k.task,
                devices,
            ) matches Some(busy) ==> next.outcome() == Some(
                OutcomeModel {
                    status: "busy"@,
                    reply: "resource '"@ + busy + "' is busy"@,
                    via: "kernel"@,
                },
            ) && next.breaker == k.breaker && next.locks == k.locks)
            &&& k.tool_devices(tool) matches Some(devices) ==> (lock::first_busy(
                k.locks,
                k.task,
                devices,
            ) is None ==> announced(
                k,
                next,
                "pre_tool"@,
                seq![("args"@, args), ("tool"@, json::quoted(tool))],
                true,
            ) && next.stage == (StageModel::CallTool { tool, args }) && (forall|d: Text|
                #[trigger] devices.contains(d) ==> next.locks.contains_key(d) && next.locks[d]
                    == k.task))
        }),
{
    reveal(KernelModel::step);
    reveal(KernelModel::step_stage);
}

/// A tool is called with the event and with the arguments that the model gave.
pub proof fn law_a_tool_gets_its_arguments(k: KernelModel, tool: Text, args: Text)
    requires
        quiet(k),
        k.stage == (StageModel::CallTool { tool, args }),
    ensures
        calls_with(
            k,
            k.step(ReplyModel::Nothing),
            tool,
            InputModel {
                kind: "tool"@,
                hook: None,
                event: seen_event(k),
                context: None,
                args,
            },
            JobModel::Tool { tool },
        ),
{
    reveal(KernelModel::step);
    reveal(KernelModel::step_stage);
    reveal(KernelModel::called);
    reveal(KernelModel::after);
}

// Plans.

/// A plan that repeats too often is not carried out: the task is degraded for that
/// reason.
pub proof fn law_a_dead_loop_is_degraded(
    k: KernelModel,
    cmd: CommandModel,
    replies: Seq<ReplyModel>,
    end: KernelModel,
    done: Option<OutcomeModel>,
)
    requires
        k.coherent(),
        quiet(k),
        k.stage == (StageModel::Guard { cmd }),
        k.breaker.loops_on(command::fingerprint_of(cmd)),
        run::leads(k, replies, end, ActionModel::Done { outcome: done }),
        replies[0] is Nothing,
    ensures
        done is Some,
        moves::falls_back(done->0, "repeated action loop"@),
{
    assert(moves::degraded(k.step(replies[0]).0, "repeated action loop"@) && k.step(replies[0]).1
        is Continue) by {
        reveal(KernelModel::step);
        reveal(KernelModel::step_stage);
    }
    lemma_first_settles(k, replies, end, done);
}

/// A plan that does not repeat too often is carried out: a reply is the answer, and a
/// tool is to be called with its arguments. Either way the action is on record.
pub proof fn law_a_plan_is_carried_out(k: KernelModel, cmd: CommandModel)
    requires
        quiet(k),
        k.stage == (StageModel::Guard { cmd }),
        !k.breaker.loops_on(command::fingerprint_of(cmd)),
    ensures
        ({
            let next = k.step(ReplyModel::Nothing).0;
            &&& next.breaker.last_action == Some(command::fingerprint_of(cmd))
            &&& next.breaker.repeats == (if k.breaker.last_action == Some(
                command::fingerprint_of(cmd),
            ) {
                if k.breaker.repeats < u32::MAX {
                    k.breaker.repeats + 1
                } else {
                    k.breaker.repeats
                }
            } else {
                1
            })
            &&& cmd.reply is Some && cmd.tool is None ==> next.outcome() == Some(
                OutcomeModel { status: "ok"@, reply: cmd.reply->0, via: "model"@ },
            ) && next.breaker.failures == 0 && !next.breaker.open
            &&& cmd.reply is None && cmd.tool is Some ==> next.stage == (StageModel::Tool {
                tool: cmd.tool->0,
                args: cmd.args,
            }) && next.breaker.failures == k.breaker.failures && next.breaker.open
                == k.breaker.open
        }),
{
    reveal(KernelModel::step);
    reveal(KernelModel::step_stage);
}

// Inference and repair by plugins.

/// A plugin that does the inference is told the system prompt and the text, and gets no
/// images: a turn that has some is an error of inference.
pub proof fn law_an_inference_plugin_is_asked(k: KernelModel, name: Text)
    requires
        quiet(k),
        k.stage is Infer,
        k.settings.infer_plugin == Some(name),
    ensures
        k.input.images.len() == 0 ==> calls_with(
            k,
            k.step(ReplyModel::Nothing),
            name,
            InputModel {
                kind: "infer"@,
                hook: None,
                event: None,
                context: None,
                args: json::object_text(
                    seq![
                        ("input"@, json::quoted(k.input.text)),
                        ("system"@, json::quoted(k.system)),
                    ],
                ),
            },
            JobModel::Infer,
        ),
        k.input.images.len() > 0 ==> k.step(ReplyModel::Nothing) == (
            k.at(
                StageModel::Missed {
                    reason: "inference error: "@ + "inference plugins cannot carry images"@,
                },
            ),
            ActionModel::Continue,
        ),
{
    reveal(KernelModel::step);
    reveal(KernelModel::step_stage);
    reveal(KernelModel::called);
    reveal(KernelModel::after);
}

/// The text that a plugin gives: its reply where there is one, and else a result that is
/// a string.
pub open spec fn given(out: OutputModel, t: Text) -> bool {
    out.reply == Some(t) || out.reply is None && json::json_string(out.result) == Some(t)
}

/// What a plugin that does the inference gives is looked at as what the model says is;
/// where it fails or gives no text, the attempt has come to nothing, and the reason says
/// what went wrong.
pub proof fn law_an_inference_plugin_is_heard(
    k: KernelModel,
    result: Result<OutputModel, Text>,
    t: Text,
)
    requires
        k.wait is Plugin,
        k.wait->Plugin_native,
        k.wait->Plugin_job is Infer,
    ensures
        ({
            let next = k.step(ReplyModel::Plugin { result }).0;
            &&& next.attempt == k.attempt && next.breaker == k.breaker && next.wait is Nothing
            &&& result matches Ok(out) ==> (out.ok && given(out, t) ==> next.stage == (
            StageModel::Check { raw: t }) && announced(
                k,
                next,
                "post_infer"@,
                seq![("attempt"@, text::decimal_text(k.attempt)), ("raw"@, json::quoted(t))],
                true,
            ))
            &&& result matches Ok(out) ==> (out.ok && out.reply is None && json::json_string(
                out.result,
            ) is None ==> next.stage == (StageModel::Missed {
                reason: "inference error: "@ + "inference plugin returned no text"@,
            }))
            &&& result matches Ok(out) ==> (!out.ok ==> next.stage == (StageModel::Missed {
                reason: "inference error: "@ + ("inference plugin failed: "@ + (
                if out.error is Some {
                    out.error->0
                } else {
                    seq![]
                })),
            }))
            &&& result matches Err(e) ==> next.stage == (StageModel::Missed {
                reason: "inference error: "@ + e,
            })
        }),
{
    reveal(KernelModel::step);
    reveal(KernelModel::after);
    let k1 = KernelModel { wait: WaitModel::Nothing, ..k };
    assert(k1.hook_names("post_infer"@) == k.hook_names("post_infer"@));
}

/// A plugin that repairs is told what the model said and what is wrong with it. Where
/// there is none, the attempt has come to nothing.
pub proof fn law_a_repair_plugin_is_asked(k: KernelModel, raw: Text, error: command::CommandError)
    requires
        quiet(k),
        k.stage == (StageModel::Check { raw }),
        command::command_of(raw) == Err::<CommandModel, command::CommandError>(error),
    ensures
        k.settings.repair_plugin matches Some(name) ==> calls_with(
            k,
            k.step(ReplyModel::Nothing),
            name,
            InputModel {
                kind: "repair"@,
                hook: None,
                event: None,
                context: None,
                args: json::object_text(
                    seq![
                        ("error"@, json::quoted(command::command_message(error))),
                        ("raw"@, json::quoted(raw)),
                    ],
                ),
            },
            JobModel::Repair { error },
        ),
        k.settings.repair_plugin is None ==> k.step(ReplyModel::Nothing) == (
            k.at(
                StageModel::Missed {
                    reason: "format violation: "@ + command::command_message(error),
                },
            ),
            ActionModel::Continue,
        ),
{
    reveal(KernelModel::step);
    reveal(KernelModel::step_stage);
    reveal(KernelModel::called);
    reveal(KernelModel::after);
}

// The health of wasm plugins.

/// The health of a wasm plugin is kept: a call that goes well clears its count, one that
/// does not adds one to it. No other plugin's count changes, and native plugins have
/// none.
pub proof fn law_health_is_kept(
    k: KernelModel,
    result: Result<OutputModel, Text>,
    other: Text,
)
    requires
        k.wait is Plugin,
        names::ascending(k.plugins),
    ensures
        ({
            let name = k.wait->Plugin_name;
            let ok = result is Ok && result->Ok_0.ok;
            let next = k.step(ReplyModel::Plugin { result }).0;
            &&& k.wait->Plugin_native ==> next.plugins == k.plugins
            &&& !k.wait->Plugin_native ==> (names::find(k.plugins, name) matches Some(p)
                ==> names::find(next.plugins, name) == Some(
                registry::PluginModel {
                    failures: if ok {
                        0
                    } else if p.failures < u32::MAX {
                        p.failures + 1
                    } else {
                        p.failures
                    },
                    ..p
                },
            ))
            &&& other != name ==> names::find(next.plugins, other) == names::find(
                k.plugins,
                other,
            )
            &&& !k.wait->Plugin_native ==> (names::find(k.plugins, name) matches Some(p)
                ==> (k.step(ReplyModel::Plugin { result }).1 is Disable <==> !ok && (
            if p.failures < u32::MAX {
                p.failures + 1
            } else {
                p.failures
            }) >= k.settings.plugin_max_failures))
        }),
{
    let name = k.wait->Plugin_name;
    let ok = result is Ok && result->Ok_0.ok;
    reveal(KernelModel::step);
    reveal(KernelModel::after);
    if names::find(k.plugins, name) is Some {
        let p = names::find(k.plugins, name)->0;
        let counted = registry::PluginModel {
            failures: registry::failures_after(p.failures, ok),
            ..p
        };
        names::lemma_put_find(k.plugins, name, counted, other);
        names::lemma_put_find(k.plugins, name, counted, name);
    }
}

// Reloading.

/// A reload is answered: where the versions of the plugin that the payload names could
/// be listed, with success, and else with the reason.
pub proof fn law_a_reload_is_answered(
    k: KernelModel,
    e: EventModel,
    package: Result<Option<registry::PluginModel>, Text>,
)
    requires
        k.resting(),
        e.kind == "plugin_reload"@,
    ensures
        ({
            let name = if payload::string_member(e.payload, "name"@) is Some {
                payload::string_member(e.payload, "name"@)->0
            } else {
                seq![]
            };
            let asked = k.begun(e).step(ReplyModel::Nothing);
            let end = asked.0.step(ReplyModel::Package { result: package });
            &&& asked.1 == (ActionModel::Reload { name })
            &&& package matches Err(why) ==> end.1 == (ActionModel::Done {
                outcome: Some(
                    OutcomeModel {
                        status: "error"@,
                        reply: "reload failed: "@ + why,
                        via: "kernel"@,
                    },
                ),
            })
            &&& package is Ok ==> end.1 == (ActionModel::Done {
                outcome: Some(
                    OutcomeModel {
                        status: "ok"@,
                        reply: "plugin '"@ + name + "' reloaded"@,
                        via: "kernel"@,
                    },
                ),
            })
        }),
{
    reveal(KernelModel::step);
    reveal(KernelModel::step_stage);
}

// The log.

/// What is logged: a hook that could not be called is told of, with its point and why,
/// and a task that leaves the happy path says why. A hook that answers, be it with a
/// failure, leaves no line.
pub proof fn law_failures_are_logged(k: KernelModel, result: Result<OutputModel, Text>)
    ensures
        k.wait is Plugin && k.wait->Plugin_native && k.wait->Plugin_job is Hook ==> k.notes(
            ReplyModel::Plugin { result },
        ) == (match result {
            Err(e) => seq![
                "[kernel] hook '"@ + k.wait->Plugin_name + "'@"@ + k.hooks.point + " failed: "@ + e,
            ],
            Ok(_) => seq![],
        }),
        k.wait is Plugin && !(k.wait->Plugin_job is Hook) && k.wait->Plugin_native ==> k.notes(
            ReplyModel::Plugin { result },
        ).len() == 0,
        k.wait is Plugin && !k.wait->Plugin_native ==> (names::find(
            k.plugins,
            k.wait->Plugin_name,
        ) matches Some(p) ==> (k.step(ReplyModel::Plugin { result }).1 is Disable ==> k.notes(
            ReplyModel::Plugin { result },
        ) == seq![
            "[registry] plugin '"@ + k.wait->Plugin_name + "' v"@ + p.manifest.version
                + " disabled, rolling back"@,
        ])),
        quiet(k) ==> k.notes(ReplyModel::Nothing) == (match k.stage {
            StageModel::Degrade { reason, reset } => seq!["[kernel] degraded: "@ + reason],
            _ => seq![],
        }),
{
    reveal(KernelModel::step);
}

// Attempts.

/// An attempt begins with its announcement and leads to the question. One that came to
/// nothing is followed by the next where one is left, with nothing else changed; and where
/// none is left, the task is degraded for that reason, as one failure.
pub proof fn law_attempts_follow_each_other(k: KernelModel)
    requires
        quiet(k),
    ensures
        k.stage is Try ==> k.step(ReplyModel::Nothing).0.stage is Infer && k.step(
            ReplyModel::Nothing,
        ).0.attempt == k.attempt && k.step(ReplyModel::Nothing).0.breaker == k.breaker,
        k.stage is Missed && k.attempt < k.settings.max_retries ==> k.step(ReplyModel::Nothing)
            == (
            KernelModel { attempt: k.attempt + 1, stage: StageModel::Try, ..k },
            ActionModel::Continue,
        ),
        k.stage is Missed && k.attempt >= k.settings.max_retries ==> moves::degraded(
            k.step(ReplyModel::Nothing).0,
            k.stage->Missed_reason,
        ) && tally::one_failure_more(k.breaker, k.step(ReplyModel::Nothing).0.breaker),
        k.stage is Infer && k.settings.infer_plugin is None ==> k.step(ReplyModel::Nothing).1 == (
        ActionModel::Ask { system: k.system, context: k.context, input: k.input }),
{
    reveal(KernelModel::step);
    reveal(KernelModel::step_stage);
}

/// The same task, at the same point, with the same question and the same breaker.
pub open spec fn as_far(a: KernelModel, b: KernelModel) -> bool {
    &&& a.stage == b.stage && a.attempt == b.attempt && a.breaker == b.breaker
    &&& a.system == b.system && a.input == b.input && a.context == b.context && a.event == b.event
    &&& a.locks == b.locks && a.task == b.task && a.hooks.point == b.hooks.point
    &&& a.hooks.data == b.hooks.data && a.hooks.with_event == b.hooks.with_event
}

/// The answer of a wasm plugin counts as that of a native one does: the task goes on in
/// the same way, be it at once, or after the stable version of the plugin was asked for.
pub proof fn law_native_and_wasm_answers_count_alike(
    k: KernelModel,
    n: KernelModel,
    result: Result<OutputModel, Text>,
    package: Result<Option<registry::PluginModel>, Text>,
)
    requires
        k.wait is Plugin,
        !k.wait->Plugin_native,
        n == (KernelModel {
            wait: WaitModel::Plugin {
                name: k.wait->Plugin_name,
                native: true,
                job: k.wait->Plugin_job,
            },
            ..k
        }),
    ensures
        ({
            let wasm = k.step(ReplyModel::Plugin { result });
            let native = n.step(ReplyModel::Plugin { result });
            &&& native.1 is Continue
            &&& wasm.1 is Continue ==> as_far(wasm.0, native.0) && wasm.0.wait == native.0.wait
            &&& !(wasm.1 is Continue) ==> wasm.1 is Disable && wasm.0.step(
                ReplyModel::Package { result: package },
            ).1 is Continue && as_far(
                wasm.0.step(ReplyModel::Package { result: package }).0,
                native.0,
            )
        }),
{
    reveal(KernelModel::step);
    reveal(KernelModel::after);
}

// Replies.

/// A reply that is not awaited changes nothing, and asks for nothing; neither does a
/// kernel between tasks.
pub proof fn law_only_awaited_replies_count(k: KernelModel, reply: ReplyModel)
    requires
        match k.wait {
            WaitModel::Nothing => !(reply is Nothing) || k.stage is Idle && k.hooks.names.len()
                == 0,
            WaitModel::Plugin { .. } => !(reply is Plugin),
            WaitModel::Package { .. } => !(reply is Package),
            WaitModel::Model => !(reply is Model),
            WaitModel::File { .. } => !(reply is File),
            WaitModel::Reload => !(reply is Package),
        },
    ensures
        k.step(reply) == (k, ActionModel::Rest),
{
    reveal(KernelModel::step);
    reveal(KernelModel::step_stage);
}

/// Where the versions of a plugin that failed too often cannot be listed, it stays as it
/// is, and is announced as rolled back all the same; and where none can be loaded, it is
/// gone.
pub proof fn law_a_failed_plugin_is_resolved_or_gone(
    k: KernelModel,
    package: Result<Option<registry::PluginModel>, Text>,
)
    requires
        k.wait is Package,
        names::ascending(k.plugins),
    ensures
        ({
            let name = k.wait->Package_name;
            let next = k.step(ReplyModel::Package { result: package }).0;
            &&& next.pending == k.pending.push(name)
            &&& package is Err ==> next.plugins == k.plugins
            &&& package matches Ok(found) ==> names::find(next.plugins, name) == found
            &&& k.awaited() == Some(name)
        }),
{
    reveal(KernelModel::step);
    reveal(KernelModel::after);
    let name = k.wait->Package_name;
    match package {
        Ok(Some(p)) => names::lemma_put_find(k.plugins, name, p, name),
        Ok(None) => names::lemma_without_find(k.plugins, name, name),
        Err(_) => {},
    }
}

/// When all rollbacks are announced the task is over: the kernel is between tasks, without
/// an event, and what is reported is the outcome.
pub proof fn law_a_task_is_over_when_all_is_announced(k: KernelModel)
    requires
        quiet(k),
    ensures
        k.stage matches StageModel::Rollbacks { left, outcome } ==> (left.len() == 0 ==> k.step(
            ReplyModel::Nothing,
        ) == (k.at(StageModel::Close { outcome }), ActionModel::Continue)),
        k.stage matches StageModel::Close { outcome } ==> k.step(ReplyModel::Nothing).1 == (
        ActionModel::Done { outcome }) && k.step(ReplyModel::Nothing).0.resting() && k.step(
            ReplyModel::Nothing,
        ).0.event is None,
{
    reveal(KernelModel::step);
    reveal(KernelModel::step_stage);
}

// From stage to stage.

/// What the strategy answered is taken as it stands, and one that could not be asked has
/// said nothing. A decision is what it said, or that the model is to be asked where it
/// failed or said nothing of the kind.
pub proof fn law_the_strategys_answer_is_taken(k: KernelModel, result: Result<OutputModel, Text>)
    requires
        k.wait is Plugin,
        k.wait->Plugin_native,
        k.wait->Plugin_job is Route,
    ensures
        ({
            let next = k.step(ReplyModel::Plugin { result }).0;
            &&& next.wait is Nothing && next.breaker == k.breaker && next.hooks == k.hooks
            &&& result matches Ok(out) ==> next.stage == (StageModel::Decide { out: Some(out) })
            &&& result is Err ==> next.stage == (StageModel::Decide { out: None })
        }),
{
    reveal(KernelModel::step);
    reveal(KernelModel::after);
}

/// Every stage leads to the next: a decision to what it asks for, a valid answer to its
/// plan, a tool that is done to the outcome or to the reason, a reason to the fallback,
/// and an outcome to the end of the task.
pub proof fn law_stages_lead_on(k: KernelModel)
    requires
        quiet(k),
    ensures
        ({
            let next = k.step(ReplyModel::Nothing).0;
            &&& k.stage matches StageModel::Decide { out } ==> next.stage is Act
                && next.stage->Act_out == out && (next.stage->Act_decision == "rule"@ ==> out
                is Some && out->0.ok && out->0.decision == Some("rule"@)) && (out is Some
                && out->0.ok && out->0.decision == Some("rule"@) ==> next.stage->Act_decision
                == "rule"@)
            &&& k.stage matches StageModel::Check { raw } ==> (command::command_of(
                raw,
            ) matches Ok(cmd) ==> next.stage == (StageModel::Guard { cmd }))
            &&& k.stage matches StageModel::Degrade { reason, reset } ==> next.stage == (
            StageModel::Fallback { reason, reset }) && next.breaker == k.breaker
            &&& k.stage matches StageModel::Finish { outcome, reset } ==> next.stage == (
            StageModel::Drain { outcome: Some(outcome) }) && (forall|d: Text|
                #[trigger] next.locks.contains_key(d) <==> k.locks.contains_key(d) && k.locks[d]
                    != k.task)
        }),
{
    reveal(KernelModel::step);
    reveal(KernelModel::step_stage);
    reveal_strlit("model");
    reveal_strlit("rule");
    reveal_strlit("none");
    assert("model"@.len() == 5 && "rule"@.len() == 4);
    assert("none"@[0] == 'n' && "rule"@[0] == 'r');
}

/// A tool that went well ends the task well with its answer and clears the failures; one
/// that did not degrades it as one failure.
pub proof fn law_a_tool_settles_the_task(k: KernelModel, result: Result<Text, Text>)
    requires
        quiet(k),
        k.stage == (StageModel::Settle { result }),
    ensures
        ({
            let next = k.step(ReplyModel::Nothing).0;
            &&& result matches Ok(t) ==> next.outcome() == Some(
                OutcomeModel { status: "ok"@, reply: t, via: "tool"@ },
            ) && next.breaker.failures == 0 && !next.breaker.open
            &&& result matches Err(why) ==> next.stage == (StageModel::Degrade {
                reason: why,
                reset: false,
            }) && tally::one_failure_more(k.breaker, next.breaker)
        }),
{
    reveal(KernelModel::step);
    reveal(KernelModel::step_stage);
}

/// An inference that fails is no answer to look at: no hook is told of one, and all that
/// changes is that the attempt has come to nothing.
pub proof fn law_a_failed_inference_is_no_answer(k: KernelModel, e: Text)
    requires
        k.wait is Model,
    ensures
        k.step(ReplyModel::Model { result: Err(e) }) == (
            KernelModel {
                wait: WaitModel::Nothing,
                stage: StageModel::Missed { reason: "inference error: "@ + e },
                ..k
            },
            ActionModel::Continue,
        ),
{
    reveal(KernelModel::step);
}

/// An image that lies in a file is read from that file, in its turn; one that came along is
/// taken at once; and when none is left, the first attempt begins.
pub proof fn law_images_are_collected_in_turn(k: KernelModel, left: Seq<payload::SourceModel>)
    requires
        quiet(k),
        k.stage == (StageModel::Gather { left }),
    ensures
        ({
            let next = k.step(ReplyModel::Nothing);
            &&& left.len() == 0 ==> next == (k.at(StageModel::Try), ActionModel::Continue)
            &&& left.len() > 0 ==> (left[0] matches payload::SourceModel::File(path) ==> next.1
                == (ActionModel::ReadFile { path }) && next.0 == (KernelModel {
                wait: WaitModel::File { path },
                ..k
            }))
            &&& left.len() > 0 ==> (left[0] matches payload::SourceModel::Ready(image)
                ==> next.0.input.images == k.input.images.push(image) && next.0.stage == (
            StageModel::Gather { left: left.skip(1) }) && next.1 is Continue)
        }),
{
    reveal(KernelModel::step);
    reveal(KernelModel::step_stage);
    if left.len() > 0 {
        assert(left.skip(1) =~= left.drop_first());
    }
}

} // verus!
