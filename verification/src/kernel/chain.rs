//! The degradation chain: when the model is asked, how often it is asked again, and
//! what comes of its answers.

use crate::event::EventModel;
use crate::json;
use crate::kernel::command;
use crate::kernel::command::CommandModel;
use crate::kernel::model;
use crate::kernel::model::{
    ActionModel, JobModel, KernelModel, OutcomeModel, ReplyModel, StageModel, WaitModel,
};
use crate::kernel::moves;
use crate::kernel::payload;
use crate::kernel::progress;
use crate::kernel::run;
use crate::kernel::soundness;
use crate::names;
use crate::plugin::abi::{InputModel, OutputModel};
use crate::plugin::registry;
use crate::text::Text;
use vstd::prelude::*;

verus! {

// What the model said.

/// What the model said along a run, in order.
pub open spec fn heard_in(k: KernelModel, replies: Seq<ReplyModel>) -> Seq<Result<Text, Text>>
    decreases replies.len(),
{
    if replies.len() == 0 {
        seq![]
    } else {
        heard_by(
            run::after_replies(k, replies.drop_last()),
            replies.last(),
            heard_in(k, replies.drop_last()),
        )
    }
}

/// What was heard, and what is heard now where the kernel waits for the model.
pub open spec fn heard_by(
    k: KernelModel,
    reply: ReplyModel,
    h: Seq<Result<Text, Text>>,
) -> Seq<Result<Text, Text>> {
    if k.wait is Model && reply is Model {
        h.push(reply->Model_result)
    } else {
        h
    }
}

/// The model failed, or gave no command.
pub open spec fn missed(answer: Result<Text, Text>) -> bool {
    match answer {
        Ok(raw) => command::command_of(raw) is Err,
        Err(_) => true,
    }
}

/// What is said of an answer that is no command.
pub open spec fn complaint(answer: Result<Text, Text>) -> Text {
    match answer {
        Ok(raw) => "format violation: "@ + command::command_message(
            command::command_of(raw)->Err_0,
        ),
        Err(e) => "inference error: "@ + e,
    }
}

pub open spec fn all_missed(h: Seq<Result<Text, Text>>) -> bool {
    forall|i: int| 0 <= i < h.len() ==> missed(#[trigger] h[i])
}

/// The plugin that repairs makes a command of what the model said.
pub open spec fn mends(k: KernelModel, reply: ReplyModel) -> bool {
    &&& k.wait matches WaitModel::Plugin { name, native, job }
    &&& job is Repair
    &&& k.settings.repair_plugin == Some(name)
    &&& reply matches ReplyModel::Plugin { result: Ok(out) }
    &&& out.ok
    &&& model::text_in(out) matches Some(t)
    &&& command::command_of(t) is Ok
}

/// The strategy decides by a rule.
pub open spec fn rules(k: KernelModel, reply: ReplyModel) -> bool {
    &&& k.wait matches WaitModel::Plugin { name, native, job }
    &&& job is Route
    &&& reply matches ReplyModel::Plugin { result: Ok(out) }
    &&& out.ok
    &&& out.decision == Some("rule"@)
}

/// Somewhere along a run, an answer of the model is mended.
pub open spec fn mended_in(k: KernelModel, replies: Seq<ReplyModel>) -> bool {
    exists|i: int|
        0 <= i < replies.len() && #[trigger] mends(
            run::after_replies(k, replies.take(i)),
            replies[i],
        )
}

/// Somewhere along a run, the strategy decides by a rule.
pub open spec fn ruled_in(k: KernelModel, replies: Seq<ReplyModel>) -> bool {
    exists|i: int|
        0 <= i < replies.len() && #[trigger] rules(
            run::after_replies(k, replies.take(i)),
            replies[i],
        )
}

/// What is said of an image that cannot be read.
pub open spec fn unread(path: Text, e: Text) -> Text {
    "cannot read image '"@ + path + "': "@ + e
}

// Where a task stands.

/// What has been seen of a task so far: what the model said, whether that was mended,
/// and whether there was a rule.
struct Seen {
    h: Seq<Result<Text, Text>>,
    mended: bool,
    ruled: bool,
}

spec fn seen_by(k: KernelModel, reply: ReplyModel, v: Seen) -> Seen {
    Seen {
        h: heard_by(k, reply, v.h),
        mended: v.mended || mends(k, reply),
        ruled: v.ruled || rules(k, reply),
    }
}

spec fn seen_in(k: KernelModel, replies: Seq<ReplyModel>) -> Seen {
    Seen {
        h: heard_in(k, replies),
        mended: mended_in(k, replies),
        ruled: ruled_in(k, replies),
    }
}

/// The task was not left to the model.
spec fn unasked(k0: KernelModel, k: KernelModel, ruled: bool) -> bool {
    ||| ruled && moves::settled(k) is Some && moves::settled(k)->0.via == "rule"@
        && moves::settled(k)->0.status == "ok"@
    ||| k0.breaker.open && moves::degraded(k, "breaker open"@)
    ||| k0.event is Some && payload::request_of(k0.event->0.payload) is Err && moves::degraded(
        k,
        payload::request_of(k0.event->0.payload)->Err_0,
    )
    ||| exists|path: Text, e: Text| #[trigger] moves::degraded(k, unread(path, e))
}

/// The model has answered with a command to reply that is no dead loop.
spec fn replied(k0: KernelModel, h: Seq<Result<Text, Text>>) -> bool {
    h.len() > 0 && (h.last() matches Ok(raw) && command::command_of(raw) is Ok
        && command::command_of(raw)->Ok_0.reply is Some && !k0.breaker.loops_on(
        command::fingerprint_of(command::command_of(raw)->Ok_0),
    ))
}

spec fn said_reply(h: Seq<Result<Text, Text>>) -> Text {
    command::command_of(h.last()->Ok_0)->Ok_0.reply->0
}

/// Before the model is done with.
spec fn early(stage: StageModel) -> bool {
    match stage {
        StageModel::Route => true,
        StageModel::Decide { .. } => true,
        StageModel::Act { .. } => true,
        StageModel::Gather { .. } => true,
        StageModel::Try => true,
        StageModel::Infer => true,
        StageModel::Check { .. } => true,
        StageModel::Missed { .. } => true,
        StageModel::Guard { .. } => true,
        _ => false,
    }
}

/// How the stage fits what has been seen.
spec fn stage_fits(k0: KernelModel, k: KernelModel, v: Seen) -> bool {
    let h = v.h;
    let max = k0.settings.max_retries;
    match k.stage {
        StageModel::Idle => false,
        StageModel::Reload { .. } => false,
        StageModel::Route => h.len() == 0 && k.attempt == 0,
        StageModel::Decide { out } => h.len() == 0 && k.attempt == 0 && (model::decision_of(out)
            == "rule"@ ==> v.ruled),
        StageModel::Act { decision, out } => h.len() == 0 && k.attempt == 0 && (decision == "rule"@
            ==> v.ruled),
        StageModel::Gather { .. } => h.len() == 0 && k.attempt == 0,
        StageModel::Try => h.len() == k.attempt && k.attempt <= max && all_missed(h),
        StageModel::Infer => h.len() == k.attempt && k.attempt <= max && all_missed(h),
        StageModel::Check { raw } => h.len() == k.attempt + 1 && k.attempt <= max && h.last() == Ok::<
            Text,
            Text,
        >(raw) && all_missed(h.drop_last()) && (soundness::job_of(k.wait) matches Some(
            JobModel::Repair { error },
        ) ==> command::command_of(raw) == Err::<CommandModel, command::CommandError>(error)),
        StageModel::Missed { reason } => h.len() == k.attempt + 1 && k.attempt <= max
            && all_missed(h) && reason == complaint(h.last()),
        StageModel::Guard { cmd } => h.len() == k.attempt + 1 && k.attempt <= max && all_missed(
            h.drop_last(),
        ) && (missed(h.last()) ==> v.mended),
        _ => {
            &&& h.len() <= max + 1
            &&& h.len() == 0 ==> unasked(k0, k, v.ruled)
            &&& h.len() > 0 ==> all_missed(h.drop_last())
            &&& h.len() > 0 && missed(h.last()) && !v.mended ==> h.len() == max + 1
                && moves::degraded(k, complaint(h.last()))
        },
    }
}

/// Where a task stands that began with `k0`.
spec fn on_course(k0: KernelModel, k: KernelModel, v: Seen) -> bool {
    &&& k.coherent()
    &&& k.settings == k0.settings
    &&& k.settings.infer_plugin is None
    &&& k.event == k0.event
    &&& k.event is Some
    &&& early(k.stage) ==> k.breaker == k0.breaker
    &&& k.wait matches WaitModel::Package { name, result, job } ==> !(result is Ok
        && result->Ok_0.ok)
    &&& k.wait matches WaitModel::Plugin { name, native, job } ==> (job is Repair
        ==> k.settings.repair_plugin == Some(name))
    &&& soundness::job_of(k.wait) != Some(JobModel::Infer)
    &&& replied(k0, v.h) ==> moves::settled(k) == Some(moves::well("model"@, said_reply(v.h)))
    &&& stage_fits(k0, k, v)
}

/// Where a task stands after a step that does not end it.
spec fn stays_on_course(
    k0: KernelModel,
    next: (KernelModel, ActionModel),
    v: Seen,
) -> bool {
    next.1 is Done || on_course(k0, next.0, v)
}

/// `b` is `a` but for its hooks, its wasm plugins, and what it waits for: a hook, or
/// nothing.
spec fn unmoved(a: KernelModel, b: KernelModel) -> bool {
    &&& b == (KernelModel {
        plugins: b.plugins,
        pending: b.pending,
        wait: b.wait,
        hooks: b.hooks,
        ..a
    })
    &&& b.wait is Nothing || soundness::job_of(b.wait) == Some(JobModel::Hook)
    &&& b.coherent()
}

/// A hook leaves the task where it was.
proof fn lemma_unmoved(k0: KernelModel, a: KernelModel, b: KernelModel, v: Seen)
    requires
        on_course(k0, a, v),
        unmoved(a, b),
        a.wait is Nothing || soundness::job_of(a.wait) == Some(JobModel::Hook),
        b.wait matches WaitModel::Package { name, result, job } ==> !(result is Ok
            && result->Ok_0.ok),
    ensures
        on_course(k0, b, v),
{
    assert(moves::settled(b) == moves::settled(a));
    assert forall|r: Text| moves::degraded(a, r) implies #[trigger] moves::degraded(b, r) by {}
    if !early(a.stage) && v.h.len() == 0 {
        if exists|path: Text, e: Text| #[trigger] moves::degraded(a, unread(path, e)) {
            let (path, e) = choose|path: Text, e: Text| #[trigger]
                moves::degraded(a, unread(path, e));
            assert(moves::degraded(b, unread(path, e)));
        }
    }
}

proof fn lemma_words_differ()
    ensures
        "model"@ != "rule"@,
        "none"@ != "rule"@,
{
    reveal_strlit("model");
    reveal_strlit("rule");
    reveal_strlit("none");
    assert("model"@.len() == 5 && "rule"@.len() == 4);
    assert("none"@[0] == 'n' && "rule"@[0] == 'r');
}

proof fn lemma_pushed_misses(h: Seq<Result<Text, Text>>, r: Result<Text, Text>)
    requires
        all_missed(h),
    ensures
        h.push(r).drop_last() == h,
        h.push(r).last() == r,
        missed(r) ==> all_missed(h.push(r)),
{
    let t = h.push(r);
    assert(t.drop_last() =~= h);
    assert forall|i: int| 0 <= i < t.len() && missed(r) implies missed(#[trigger] t[i]) by {
        if i < h.len() {
            assert(t[i] == h[i]);
        }
    }
}

proof fn lemma_last_misses(h: Seq<Result<Text, Text>>)
    requires
        h.len() > 0,
        all_missed(h.drop_last()),
        missed(h.last()),
    ensures
        all_missed(h),
{
    assert forall|i: int| 0 <= i < h.len() implies missed(#[trigger] h[i]) by {
        if i < h.len() - 1 {
            assert(h[i] == h.drop_last()[i]);
        }
    }
}

/// What is taken over of a plugin's answer leaves the task on its course.
proof fn lemma_after(
    k0: KernelModel,
    a: KernelModel,
    k: KernelModel,
    job: JobModel,
    result: Result<OutputModel, Text>,
    v: Seen,
    w: Seen,
)
    requires
        on_course(k0, a, v),
        k == (KernelModel { plugins: k.plugins, pending: k.pending, wait: k.wait, ..a }),
        soundness::job_of(a.wait) == Some(job) || a.wait is Nothing && !(job is Hook)
            && a.hooks.names.len() == 0,
        a.wait is Nothing ==> result is Err,
        progress::job_fits(job, a.stage),
        !(job is Infer),
        job matches JobModel::Repair { error } ==> a.stage matches StageModel::Check { raw }
            && command::command_of(raw) == Err::<CommandModel, command::CommandError>(error),
        w.h == v.h,
        w.mended == (v.mended || job is Repair && model::repaired(result) is Some),
        w.ruled == (v.ruled || job is Route && result is Ok && result->Ok_0.ok
            && result->Ok_0.decision == Some("rule"@)),
        moves::moves(a, (k.after(job, result), ActionModel::Continue)),
        k.after(job, result).coherent(),
    ensures
        on_course(k0, k.after(job, result), w),
{
    let b = k.after(job, result);
    reveal(KernelModel::after);
    lemma_words_differ();
    match job {
        JobModel::Hook => {
            lemma_unmoved(k0, a, b, v);
        },
        JobModel::Repair { error } => {
            lemma_last_misses(v.h);
        },
        JobModel::Tool { tool } => {
            lemma_later(k0, a, b, v, w);
        },
        JobModel::Fallback => {
            lemma_later(k0, a, b, v, w);
        },
        _ => {},
    }
}

/// Past the model, a step that keeps what is decided keeps the course.
proof fn lemma_later(k0: KernelModel, a: KernelModel, b: KernelModel, v: Seen, w: Seen)
    requires
        on_course(k0, a, v),
        !early(a.stage),
        !early(b.stage),
        !(b.stage is Idle) && !(b.stage is Reload),
        b.coherent(),
        b.wait is Nothing,
        moves::moves(a, (b, ActionModel::Continue)),
        w.h == v.h,
        v.mended ==> w.mended,
        v.ruled ==> w.ruled,
    ensures
        on_course(k0, b, w),
{
    assert forall|r: Text| moves::degraded(a, r) implies #[trigger] moves::degraded(b, r) by {}
    if v.h.len() == 0 {
        if exists|path: Text, e: Text| #[trigger] moves::degraded(a, unread(path, e)) {
            let (path, e) = choose|path: Text, e: Text| #[trigger]
                moves::degraded(a, unread(path, e));
            assert(moves::degraded(b, unread(path, e)));
        }
    }
}

/// The step of a hook.
proof fn lemma_hook_step(k0: KernelModel, k: KernelModel, v: Seen)
    requires
        on_course(k0, k, v),
        k.wait is Nothing,
        k.hooks.names.len() > 0,
        k.step_hook().0.coherent(),
    ensures
        on_course(k0, k.step_hook().0, v),
{
    reveal(KernelModel::called);
    reveal(KernelModel::after);
    lemma_unmoved(k0, k, k.step_hook().0, v);
}

/// The step of a stage up to the first question.
proof fn lemma_opening_step(k0: KernelModel, k: KernelModel, v: Seen)
    requires
        on_course(k0, k, v),
        k.wait is Nothing,
        k.hooks.names.len() == 0,
        k.stage is Decide || k.stage is Act || k.stage is Gather || k.stage is Try || k.stage
            is Infer,
        k.step_stage().0.coherent(),
    ensures
        on_course(k0, k.step_stage().0, v),
{
    reveal(KernelModel::step_stage);
    lemma_words_differ();
}

/// A plugin is called, or is not there.
proof fn lemma_calling(
    k0: KernelModel,
    k: KernelModel,
    name: Text,
    input: InputModel,
    job: JobModel,
    v: Seen,
)
    requires
        on_course(k0, k, v),
        k.wait is Nothing,
        k.hooks.names.len() == 0,
        progress::job_fits(job, k.stage),
        !(job is Infer) && !(job is Hook),
        job matches JobModel::Repair { error } ==> (k.stage matches StageModel::Check { raw }
            && command::command_of(raw) == Err::<CommandModel, command::CommandError>(error))
            && k.settings.repair_plugin == Some(name),
        moves::moves(k, k.called(name, input, job)),
        k.called(name, input, job).0.coherent(),
    ensures
        on_course(k0, k.called(name, input, job).0, v),
{
    reveal(KernelModel::called);
    let result = Err::<OutputModel, Text>("plugin '"@ + name + "' not loaded"@);
    if names_nobody(k, name) {
        lemma_after(k0, k, k, job, result, v, v);
    } else {
        let b = k.called(name, input, job).0;
        assert(moves::settled(b) == moves::settled(k) || k.stage is Check);
        assert forall|r: Text| moves::degraded(k, r) implies #[trigger] moves::degraded(b, r) by {}
        if v.h.len() == 0 && !early(k.stage) {
            if exists|path: Text, e: Text| #[trigger] moves::degraded(k, unread(path, e)) {
                let (path, e) = choose|path: Text, e: Text| #[trigger]
                    moves::degraded(k, unread(path, e));
                assert(moves::degraded(b, unread(path, e)));
            }
        }
    }
}

/// No plugin has the name.
spec fn names_nobody(k: KernelModel, name: Text) -> bool {
    names::find(k.natives, name) is None && names::find(k.plugins, name) is None
}

/// The step of a stage that calls a plugin.
proof fn lemma_calling_step(k0: KernelModel, k: KernelModel, v: Seen)
    requires
        on_course(k0, k, v),
        k.wait is Nothing,
        k.hooks.names.len() == 0,
        k.stage is Route || k.stage is Check || k.stage is CallTool || k.stage is Fallback,
        k.step_stage().0.coherent(),
        moves::moves(k, k.step_stage()),
    ensures
        on_course(k0, k.step_stage().0, v),
{
    reveal(KernelModel::step_stage);
    lemma_words_differ();
    match k.stage {
        StageModel::Route => {
            if k.strategy() is Some {
                lemma_calling(
                    k0,
                    k,
                    k.strategy()->0,
                    k.strategy_input("route"@),
                    JobModel::Route,
                    v,
                );
            }
        },
        StageModel::Check { raw } => {
            match command::command_of(raw) {
                Ok(cmd) => {},
                Err(error) => {
                    if k.settings.repair_plugin is Some {
                        lemma_calling(
                            k0,
                            k,
                            k.settings.repair_plugin->0,
                            model::repair_input(raw, error),
                            JobModel::Repair { error },
                            v,
                        );
                    } else {
                        lemma_last_misses(v.h);
                    }
                },
            }
        },
        StageModel::CallTool { tool, args } => {
            lemma_calling(k0, k, tool, k.tool_input(args), JobModel::Tool { tool }, v);
        },
        StageModel::Fallback { reason, reset } => {
            if k.strategy() is Some {
                lemma_calling(
                    k0,
                    k,
                    k.strategy()->0,
                    k.strategy_input("fallback"@),
                    JobModel::Fallback,
                    v,
                );
            } else {
                lemma_later(k0, k, k.step_stage().0, v, v);
            }
        },
        _ => {},
    }
}

/// The step of the other stages.
proof fn lemma_closing_step(k0: KernelModel, k: KernelModel, v: Seen)
    requires
        on_course(k0, k, v),
        k.wait is Nothing,
        k.hooks.names.len() == 0,
        k.stage is Missed || k.stage is Guard || k.stage is Tool || k.stage is Settle || k.stage
            is Degrade || k.stage is Finish || k.stage is Drain || k.stage is Rollbacks || k.stage
            is Close,
        k.step_stage().0.coherent(),
        moves::moves(k, k.step_stage()),
    ensures
        stays_on_course(k0, k.step_stage(), v),
{
    reveal(KernelModel::step_stage);
    if !early(k.stage) && !(k.stage is Close) {
        lemma_later(k0, k, k.step_stage().0, v, v);
    }
}

/// Every step keeps the course, or ends the task.
proof fn lemma_step(k0: KernelModel, k: KernelModel, reply: ReplyModel, v: Seen)
    requires
        on_course(k0, k, v),
    ensures
        stays_on_course(k0, k.step(reply), seen_by(k, reply, v)),
{
    progress::law_every_step_makes_progress(k, reply);
    moves::lemma_step_moves(k, reply);
    match (k.wait, reply) {
        (WaitModel::Nothing, ReplyModel::Nothing) => {
            reveal(KernelModel::step);
            if k.hooks.names.len() > 0 {
                lemma_hook_step(k0, k, v);
            } else if k.stage is Decide || k.stage is Act || k.stage is Gather || k.stage is Try
                || k.stage is Infer {
                lemma_opening_step(k0, k, v);
            } else if k.stage is Route || k.stage is Check || k.stage is CallTool || k.stage
                is Fallback {
                lemma_calling_step(k0, k, v);
            } else {
                lemma_closing_step(k0, k, v);
            }
        },
        (WaitModel::Plugin { name, native, job }, ReplyModel::Plugin { result }) => {
            lemma_answer(k0, k, result, v);
        },
        (WaitModel::Package { name, result, job }, ReplyModel::Package { result: package }) => {
            lemma_package(k0, k, package, v);
        },
        (WaitModel::Model, ReplyModel::Model { result }) => {
            reveal(KernelModel::step);
            lemma_pushed_misses(v.h, result);
        },
        (WaitModel::File { path }, ReplyModel::File { result }) => {
            reveal(KernelModel::step);
            if result is Err {
                let b = k.step(reply).0;
                assert(moves::degraded(b, unread(path, result->Err_0)));
            }
        },
        _ => {
            reveal(KernelModel::step);
        },
    }
}

proof fn lemma_answer(k0: KernelModel, k: KernelModel, result: Result<OutputModel, Text>, v: Seen)
    requires
        on_course(k0, k, v),
        k.wait is Plugin,
        k.step(ReplyModel::Plugin { result }).0.coherent(),
        moves::moves(k, k.step(ReplyModel::Plugin { result })),
    ensures
        on_course(
            k0,
            k.step(ReplyModel::Plugin { result }).0,
            seen_by(k, ReplyModel::Plugin { result }, v),
        ),
{
    reveal(KernelModel::step);
    let reply = ReplyModel::Plugin { result };
    let name = k.wait->Plugin_name;
    let native = k.wait->Plugin_native;
    let job = k.wait->Plugin_job;
    let w = seen_by(k, reply, v);
    let ok = match result {
        Ok(out) => out.ok,
        Err(_) => false,
    };
    let k1 = KernelModel {
        plugins: registry::reported(k.plugins, name, ok),
        ..k
    };
    let b = k.step(reply).0;
    if native {
        lemma_after(k0, k, k, job, result, v, w);
    } else if registry::trips(
        k.plugins,
        name,
        ok,
        k.settings.plugin_max_failures,
    ) {
        assert(moves::settled(b) == moves::settled(k) || k.stage is Check);
        assert forall|r: Text| moves::degraded(k, r) implies #[trigger] moves::degraded(b, r) by {}
        if v.h.len() == 0 && !early(k.stage) {
            if exists|path: Text, e: Text| #[trigger] moves::degraded(k, unread(path, e)) {
                let (path, e) = choose|path: Text, e: Text| #[trigger]
                    moves::degraded(k, unread(path, e));
                assert(moves::degraded(b, unread(path, e)));
            }
        }
    } else {
        lemma_after(k0, k, k1, job, result, v, w);
    }
}

proof fn lemma_package(
    k0: KernelModel,
    k: KernelModel,
    package: Result<Option<registry::PluginModel>, Text>,
    v: Seen,
)
    requires
        on_course(k0, k, v),
        k.wait is Package,
        k.step(ReplyModel::Package { result: package }).0.coherent(),
        moves::moves(k, k.step(ReplyModel::Package { result: package })),
    ensures
        on_course(
            k0,
            k.step(ReplyModel::Package { result: package }).0,
            seen_by(k, ReplyModel::Package { result: package }, v),
        ),
{
    reveal(KernelModel::step);
    let name = k.wait->Package_name;
    let k1 = KernelModel {
        plugins: match package {
            Ok(p) => registry::resolved(k.plugins, name, p),
            Err(_) => k.plugins,
        },
        pending: k.pending.push(name),
        ..k
    };
    lemma_after(k0, k, k1, k.wait->Package_job, k.wait->Package_result, v, v);
}

proof fn lemma_seen(k: KernelModel, replies: Seq<ReplyModel>)
    requires
        replies.len() > 0,
    ensures
        seen_in(k, replies) == seen_by(
            run::after_replies(k, replies.drop_last()),
            replies.last(),
            seen_in(k, replies.drop_last()),
        ),
{
    let before = replies.drop_last();
    let n = replies.len() - 1;
    let s = run::after_replies(k, before);
    assert(replies.take(n) =~= before);
    assert forall|i: int| 0 <= i < n implies #[trigger] replies.take(i) == before.take(i) by {
        assert(replies.take(i) =~= before.take(i));
    }
    if mended_in(k, before) {
        let i = choose|i: int|
            0 <= i < before.len() && #[trigger] mends(
                run::after_replies(k, before.take(i)),
                before[i],
            );
        assert(replies.take(i) == before.take(i));
        assert(mends(run::after_replies(k, replies.take(i)), replies[i]));
    }
    if ruled_in(k, before) {
        let i = choose|i: int|
            0 <= i < before.len() && #[trigger] rules(
                run::after_replies(k, before.take(i)),
                before[i],
            );
        assert(replies.take(i) == before.take(i));
        assert(rules(run::after_replies(k, replies.take(i)), replies[i]));
    }
    if mends(s, replies.last()) {
        assert(mends(run::after_replies(k, replies.take(n)), replies[n]));
    }
    if rules(s, replies.last()) {
        assert(rules(run::after_replies(k, replies.take(n)), replies[n]));
    }
    if mended_in(k, replies) && !mends(s, replies.last()) {
        let i = choose|i: int|
            0 <= i < replies.len() && #[trigger] mends(
                run::after_replies(k, replies.take(i)),
                replies[i],
            );
        assert(i < n);
        assert(mends(run::after_replies(k, before.take(i)), before[i]));
    }
    if ruled_in(k, replies) && !rules(s, replies.last()) {
        let i = choose|i: int|
            0 <= i < replies.len() && #[trigger] rules(
                run::after_replies(k, replies.take(i)),
                replies[i],
            );
        assert(i < n);
        assert(rules(run::after_replies(k, before.take(i)), before[i]));
    }
}

/// Until it is done, a task is on its course.
proof fn lemma_along(k: KernelModel, replies: Seq<ReplyModel>, n: int)
    requires
        on_course(k, k, (Seen { h: seq![], mended: false, ruled: false })),
        run::ongoing(k, replies),
        0 <= n < replies.len(),
    ensures
        on_course(k, run::after_replies(k, replies.take(n)), seen_in(k, replies.take(n))),
    decreases n,
{
    let now = replies.take(n);
    if n == 0 {
        assert(now =~= Seq::<ReplyModel>::empty());
    } else {
        assert(now.drop_last() =~= replies.take(n - 1));
        lemma_along(k, replies, n - 1);
        let before = run::after_replies(k, replies.take(n - 1));
        lemma_step(k, before, now.last(), seen_in(k, replies.take(n - 1)));
        lemma_seen(k, now);
        assert(!(run::action_of(k, replies.take(n)) is Done));
    }
}

/// What a whole task comes to.
proof fn lemma_whole(
    k: KernelModel,
    e: EventModel,
    replies: Seq<ReplyModel>,
    end: KernelModel,
    done: Option<OutcomeModel>,
)
    requires
        k.sound(),
        k.resting(),
        e.kind != "plugin_reload"@,
        k.settings.infer_plugin is None,
        run::leads(k.begun(e), replies, end, ActionModel::Done { outcome: done }),
    ensures
        ({
            let last = run::after_replies(k.begun(e), replies.drop_last());
            &&& last.stage is Close
            &&& done == last.outcome()
            &&& on_course(k.begun(e), last, seen_in(k.begun(e), replies))
            &&& heard_in(k.begun(e), replies.drop_last()) == heard_in(k.begun(e), replies)
        }),
{
    let b = k.begun(e);
    let n = replies.len() - 1;
    let last = run::after_replies(b, replies.drop_last());
    soundness::law_every_beginning_keeps_soundness(k, e);
    assert(replies.take(n) =~= replies.drop_last());
    lemma_along(b, replies, n);
    moves::lemma_step_moves(last, replies.last());
    lemma_seen(b, replies);
    assert(last.wait is Nothing) by {
        reveal(KernelModel::step);
    }
}

/// Retries are really used. In the task of an event, where the kernel asks the model
/// itself: every answer but the last came to nothing, for the model is asked again only
/// then. Where the last one came to nothing too, and no plugin mended it, the model was
/// asked as often as it may be, once more than there are retries, and only then was the
/// task degraded, for that reason.
pub proof fn law_retries_are_used(
    k: KernelModel,
    e: EventModel,
    replies: Seq<ReplyModel>,
    end: KernelModel,
    done: Option<OutcomeModel>,
)
    requires
        k.sound(),
        k.resting(),
        e.kind != "plugin_reload"@,
        k.settings.infer_plugin is None,
        run::leads(k.begun(e), replies, end, ActionModel::Done { outcome: done }),
    ensures
        ({
            let h = heard_in(k.begun(e), replies);
            &&& h.len() <= k.settings.max_retries + 1
            &&& forall|i: int| 0 <= i < h.len() - 1 ==> missed(#[trigger] h[i])
            &&& h.len() > 0 && missed(h.last()) && !mended_in(k.begun(e), replies) ==> h.len()
                == k.settings.max_retries + 1 && done is Some && moves::falls_back(
                done->0,
                complaint(h.last()),
            )
            &&& k.settings.repair_plugin is None ==> !mended_in(k.begun(e), replies)
        }),
{
    let h = heard_in(k.begun(e), replies);
    lemma_whole(k, e, replies, end, done);
    assert forall|i: int| 0 <= i < h.len() - 1 implies missed(#[trigger] h[i]) by {
        assert(h[i] == h.drop_last()[i]);
    }
    if k.settings.repair_plugin is None && mended_in(k.begun(e), replies) {
        let i = choose|i: int|
            0 <= i < replies.len() && #[trigger] mends(
                run::after_replies(k.begun(e), replies.take(i)),
                replies[i],
            );
        soundness::law_every_beginning_keeps_soundness(k, e);
        lemma_along(k.begun(e), replies, i);
    }
}

/// The first good answer is the answer. In the task of an event, where the kernel asks
/// the model itself: where the model answers with a command to reply that is no dead
/// loop, be it at the first attempt or at the last, the task ends well with that reply,
/// and the model is not asked again.
pub proof fn law_the_first_good_answer_counts(
    k: KernelModel,
    e: EventModel,
    replies: Seq<ReplyModel>,
    end: KernelModel,
    done: Option<OutcomeModel>,
    i: int,
    cmd: CommandModel,
)
    requires
        k.sound(),
        k.resting(),
        e.kind != "plugin_reload"@,
        k.settings.infer_plugin is None,
        run::leads(k.begun(e), replies, end, ActionModel::Done { outcome: done }),
        0 <= i < heard_in(k.begun(e), replies).len(),
        heard_in(k.begun(e), replies)[i] is Ok,
        command::command_of(heard_in(k.begun(e), replies)[i]->Ok_0) == Ok::<
            CommandModel,
            command::CommandError,
        >(cmd),
        cmd.reply is Some,
        !k.breaker.loops_on(command::fingerprint_of(cmd)),
    ensures
        i == heard_in(k.begun(e), replies).len() - 1,
        done == Some(OutcomeModel { status: "ok"@, reply: cmd.reply->0, via: "model"@ }),
{
    law_retries_are_used(k, e, replies, end, done);
    lemma_whole(k, e, replies, end, done);
}

/// The model is asked unless there is a reason not to. In the task of an event, where
/// the kernel asks the model itself and it was never heard: the strategy decided by a
/// rule, or the task was degraded because the breaker was open, because of what the
/// payload holds, or because an image could not be read.
pub proof fn law_the_model_is_asked_unless_there_is_a_reason(
    k: KernelModel,
    e: EventModel,
    replies: Seq<ReplyModel>,
    end: KernelModel,
    done: Option<OutcomeModel>,
)
    requires
        k.sound(),
        k.resting(),
        e.kind != "plugin_reload"@,
        k.settings.infer_plugin is None,
        run::leads(k.begun(e), replies, end, ActionModel::Done { outcome: done }),
        heard_in(k.begun(e), replies).len() == 0,
    ensures
        done is Some,
        ({
            ||| ruled_in(k.begun(e), replies) && done->0.status == "ok"@ && done->0.via == "rule"@
            ||| k.breaker.open && moves::falls_back(done->0, "breaker open"@)
            ||| payload::request_of(e.payload) is Err && moves::falls_back(
                done->0,
                payload::request_of(e.payload)->Err_0,
            )
            ||| exists|path: Text, why: Text| #[trigger]
                moves::falls_back(done->0, unread(path, why))
        }),
{
    lemma_whole(k, e, replies, end, done);
    let last = run::after_replies(k.begun(e), replies.drop_last());
    if exists|path: Text, why: Text| #[trigger] moves::degraded(last, unread(path, why)) {
        let (path, why) = choose|path: Text, why: Text| #[trigger]
            moves::degraded(last, unread(path, why));
        assert(moves::falls_back(done->0, unread(path, why)));
    }
}

// One attempt and the next.

/// The plugin that is to mend an answer has failed, and its stable version is awaited.
spec fn in_vain(wait: WaitModel) -> bool {
    wait matches WaitModel::Package { name, result, job } && job is Repair && !(result is Ok
        && result->Ok_0.ok)
}

/// An attempt has come to nothing, and the next is on its way: for the same task, with
/// the same question, and with the breaker as it was.
spec fn trying_again(k: KernelModel, s: KernelModel) -> bool {
    &&& s.coherent()
    &&& s.settings == k.settings
    &&& s.system == k.system
    &&& s.input == k.input
    &&& s.context == k.context
    &&& s.breaker == k.breaker
    &&& s.wait is Nothing || soundness::job_of(s.wait) == Some(JobModel::Hook) || in_vain(s.wait)
    &&& match s.stage {
        StageModel::Missed { .. } => s.attempt == k.attempt,
        StageModel::Check { raw } => s.attempt == k.attempt && command::command_of(raw) is Err && (
        s.settings.repair_plugin is None || in_vain(s.wait)),
        StageModel::Try => s.attempt == k.attempt + 1,
        StageModel::Infer => s.attempt == k.attempt + 1,
        _ => false,
    }
}

/// The model is asked the same again, in the attempt after that of `k`, and the breaker
/// is as it was.
pub open spec fn asked_again(k: KernelModel, s: KernelModel, action: ActionModel) -> bool {
    &&& action == (ActionModel::Ask { system: k.system, context: k.context, input: k.input })
    &&& s.attempt == k.attempt + 1
    &&& s.breaker == k.breaker
    &&& s.wait is Model
}

proof fn lemma_trying_step(k: KernelModel, s: KernelModel, reply: ReplyModel)
    requires
        trying_again(k, s),
        k.settings.infer_plugin is None,
        k.attempt < k.settings.max_retries,
    ensures
        !(s.step(reply).1 is Done),
        trying_again(k, s.step(reply).0) || asked_again(k, s.step(reply).0, s.step(reply).1),
{
    progress::law_every_step_makes_progress(s, reply);
    reveal(KernelModel::step);
    if s.wait is Nothing {
        if s.hooks.names.len() > 0 {
            reveal(KernelModel::called);
            reveal(KernelModel::after);
        } else {
            reveal(KernelModel::step_stage);
        }
    } else {
        reveal(KernelModel::after);
    }
}

proof fn lemma_trying(
    k: KernelModel,
    s: KernelModel,
    replies: Seq<ReplyModel>,
    n: int,
)
    requires
        trying_again(k, s),
        k.settings.infer_plugin is None,
        k.attempt < k.settings.max_retries,
        0 <= n <= replies.len(),
    ensures
        trying_again(k, run::after_replies(s, replies.take(n))) && (n > 0 ==> !(run::action_of(
            s,
            replies.take(n),
        ) is Done)) || exists|i: int|
            1 <= i <= n && asked_again(
                k,
                run::after_replies(s, #[trigger] replies.take(i)),
                run::action_of(s, replies.take(i)),
            ),
    decreases n,
{
    let now = replies.take(n);
    if n == 0 {
        assert(now =~= Seq::<ReplyModel>::empty());
    } else {
        lemma_trying(k, s, replies, n - 1);
        assert(now.drop_last() =~= replies.take(n - 1));
        if trying_again(k, run::after_replies(s, replies.take(n - 1))) {
            lemma_trying_step(k, run::after_replies(s, replies.take(n - 1)), now.last());
            if asked_again(k, run::after_replies(s, now), run::action_of(s, now)) {
                assert(asked_again(
                    k,
                    run::after_replies(s, replies.take(n)),
                    run::action_of(s, replies.take(n)),
                ));
            }
        }
    }
}

/// An attempt that comes to nothing is followed by another: where the kernel waits for
/// the model, or for the plugin that is to mend its answer, where retries are left, and
/// where the reply is an error or gives no command, then before the task is done the
/// model is asked the same again, one attempt later and with the breaker as it was.
pub proof fn law_a_missed_attempt_is_followed_by_another(
    k: KernelModel,
    replies: Seq<ReplyModel>,
    end: KernelModel,
    done: Option<OutcomeModel>,
)
    requires
        k.coherent(),
        k.settings.infer_plugin is None,
        k.attempt < k.settings.max_retries,
        run::leads(k, replies, end, ActionModel::Done { outcome: done }),
        ({
            ||| k.wait is Model && (replies[0] matches ReplyModel::Model { result } && (result
                is Err || missed(result) && k.settings.repair_plugin is None))
            ||| k.wait is Plugin && k.wait->Plugin_job is Repair && command::command_of(
                k.stage->Check_raw,
            ) is Err && (replies[0] matches ReplyModel::Plugin { result } && (result is Err
                || !result->Ok_0.ok || model::text_in(result->Ok_0) is None || missed(
                Ok(model::text_in(result->Ok_0)->0),
            )))
        }),
    ensures
        exists|i: int|
            2 <= i < replies.len() && asked_again(
                k,
                run::after_replies(k, #[trigger] replies.take(i)),
                run::action_of(k, replies.take(i)),
            ),
{
    let s = k.step(replies[0]).0;
    let rest = replies.skip(1);
    progress::law_every_step_makes_progress(k, replies[0]);
    assert(trying_again(k, s) && !(k.step(replies[0]).1 is Done)) by {
        reveal(KernelModel::step);
        reveal(KernelModel::after);
    }
    assert forall|i: int| 1 <= i <= rest.len() implies run::after_replies(
        k,
        #[trigger] replies.take(i + 1),
    ) == run::after_replies(s, rest.take(i)) && run::action_of(k, replies.take(i + 1))
        == run::action_of(s, rest.take(i)) by {
        lemma_first(k, replies, i);
    }
    let n = rest.len() as int;
    assert(replies.take(n + 1) =~= replies);
    if n == 0 {
        assert(replies.drop_last() =~= Seq::<ReplyModel>::empty());
    } else {
        lemma_trying(k, s, rest, n);
        let i = choose|i: int|
            1 <= i <= n && asked_again(
                k,
                run::after_replies(s, #[trigger] rest.take(i)),
                run::action_of(s, rest.take(i)),
            );
        assert(asked_again(
            k,
            run::after_replies(k, replies.take(i + 1)),
            run::action_of(k, replies.take(i + 1)),
        ));
    }
}

/// Where the plugin that mends makes a command to reply of what the model said, and that
/// is no dead loop, the task ends well with that reply: it counts as the model's.
pub proof fn law_a_mended_reply_is_the_answer(
    k: KernelModel,
    out: OutputModel,
    t: Text,
    cmd: CommandModel,
    replies: Seq<ReplyModel>,
    end: KernelModel,
    done: Option<OutcomeModel>,
)
    requires
        k.coherent(),
        k.wait is Plugin,
        k.wait->Plugin_job is Repair,
        out.ok,
        out.reply == Some(t) || out.reply is None && json::json_string(out.result) == Some(t),
        command::command_of(t) == Ok::<CommandModel, command::CommandError>(cmd),
        cmd.reply is Some,
        !k.breaker.loops_on(command::fingerprint_of(cmd)),
        run::leads(k, replies, end, ActionModel::Done { outcome: done }),
        replies[0] == (ReplyModel::Plugin { result: Ok(out) }),
    ensures
        done == Some(OutcomeModel { status: "ok"@, reply: cmd.reply->0, via: "model"@ }),
{
    command::law_commands_reply_or_act(t);
    let s = k.step(replies[0]).0;
    assert(moves::settled(s) == Some(moves::well("model"@, cmd.reply->0)) && k.step(replies[0]).1
        is Continue) by {
        reveal(KernelModel::step);
        reveal(KernelModel::after);
    }
    lemma_settled_first(k, replies, end, done);
}

/// What the first reply settles is what is reported.
proof fn lemma_settled_first(
    k: KernelModel,
    replies: Seq<ReplyModel>,
    end: KernelModel,
    done: Option<OutcomeModel>,
)
    requires
        k.coherent(),
        run::leads(k, replies, end, ActionModel::Done { outcome: done }),
        !(k.step(replies[0]).1 is Done),
        moves::settled(k.step(replies[0]).0) is Some,
    ensures
        done == moves::settled(k.step(replies[0]).0),
{
    let one = replies.take(1);
    assert(one.drop_last() =~= Seq::<ReplyModel>::empty());
    reveal_with_fuel(run::after_replies, 2);
    assert(run::after_replies(k, one) == k.step(replies[0]).0);
    if replies.len() == 1 {
        assert(replies.drop_last() =~= Seq::<ReplyModel>::empty());
    } else {
        let n = replies.len() - 1;
        assert(replies.take(n) =~= replies.drop_last());
        moves::lemma_along(k, replies, 1, n);
        moves::lemma_step_moves(run::after_replies(k, replies.drop_last()), replies.last());
    }
}

/// The first reply, and then the others.
proof fn lemma_first(k: KernelModel, replies: Seq<ReplyModel>, n: int)
    requires
        1 <= n < replies.len(),
    ensures
        run::after_replies(k, replies.take(n + 1)) == run::after_replies(
            k.step(replies[0]).0,
            replies.skip(1).take(n),
        ),
        run::action_of(k, replies.take(n + 1)) == run::action_of(
            k.step(replies[0]).0,
            replies.skip(1).take(n),
        ),
    decreases n,
{
    let now = replies.take(n + 1);
    let rest = replies.skip(1).take(n);
    assert(now.drop_last() =~= replies.take(n));
    assert(rest.drop_last() =~= replies.skip(1).take(n - 1));
    assert(now.last() == rest.last());
    if n == 1 {
        let one = replies.take(1);
        assert(one.drop_last() =~= Seq::<ReplyModel>::empty());
        assert(rest.drop_last() =~= Seq::<ReplyModel>::empty());
        reveal_with_fuel(run::after_replies, 2);
        assert(run::after_replies(k, one) == k.step(replies[0]).0);
    } else {
        lemma_first(k, replies, n - 1);
    }
}

} // verus!
