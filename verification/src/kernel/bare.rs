//! What holds of a kernel that has no plugins and whose model is local: from its start
//! on, every task is answered at once, and the whole queue is drained. Where the model
//! is the mock, every answer is known.

use crate::breaker::BreakerModel;
use crate::config::Config;
use crate::event::EventModel;
use crate::inference;
use crate::inference::{ImageModel, TurnModel};
use crate::json;
use crate::kernel::builder;
use crate::kernel::command;
use crate::kernel::command::CommandModel;
use crate::kernel::driver;
use crate::kernel::driver::Kernel;
use crate::kernel::laws;
use crate::kernel::model;
use crate::kernel::model::{
    ActionModel, JobModel, KernelModel, OutcomeModel, ReplyModel, StageModel, WaitModel,
};
use crate::kernel::moves;
use crate::kernel::payload;
use crate::kernel::payload::SourceModel;
use crate::kernel::run;
use crate::kernel::run::{Course, World};
use crate::kernel::soundness;
use crate::plugin::abi::InputModel;
use crate::plugin::bridge::Bridge;
use crate::plugin::manifest::PluginKind;
use crate::plugin::registry;
use crate::plugin::registry::{PluginDir, ScanModel};
use crate::text::Text;
use vstd::prelude::*;

verus! {

/// The model is the mock, and is asked within the run.
pub open spec fn mocked(w: World) -> bool {
    w.model == inference::mock_answers() && !w.remote
}

/// A kernel without plugins, whose model is asked by the kernel itself.
pub open spec fn bare(k: KernelModel) -> bool {
    &&& k.natives.len() == 0
    &&& k.plugins.len() == 0
    &&& k.settings.infer_plugin is None
}

/// An event whose task needs nothing from outside: no plugin is resolved anew for it,
/// and its images come along.
pub open spec fn self_contained(e: EventModel) -> bool {
    &&& e.kind != "plugin_reload"@
    &&& payload::request_of(e.payload) matches Ok((t, sources)) ==> all_ready(sources)
}

/// Images that came along.
pub open spec fn all_ready(sources: Seq<SourceModel>) -> bool {
    forall|i: int| 0 <= i < sources.len() ==> #[trigger] sources[i] is Ready
}

/// The images of sources that came along.
pub open spec fn images_in(sources: Seq<SourceModel>) -> Seq<ImageModel> {
    Seq::new(sources.len(), |i: int| sources[i]->Ready_0)
}

/// The command that the mock answers to a turn.
pub open spec fn mock_plan(turn: TurnModel) -> CommandModel {
    CommandModel { reply: Some(inference::mock_text(turn)), tool: None, args: "null"@ }
}

/// What comes of a turn that the mock is asked, and the breaker then: its answer, or a
/// refusal where this is a dead loop.
pub open spec fn spoken_to(b: BreakerModel, turn: TurnModel) -> (OutcomeModel, BreakerModel) {
    let f = command::fingerprint_of(mock_plan(turn));
    if b.loops_on(f) {
        (model::fallback_outcome(None, "repeated action loop"@), b.after_action(f).after_reset())
    } else {
        (moves::well("model"@, inference::mock_text(turn)), b.after_action(f).after_success())
    }
}

/// What comes of a task with this payload, and the breaker then: a refusal where the
/// breaker is open or the payload cannot be used, and else what comes of the turn.
pub open spec fn task_of(b: BreakerModel, payload: Text) -> (OutcomeModel, BreakerModel) {
    if b.open {
        (model::fallback_outcome(None, "breaker open"@), b.after_reset())
    } else {
        match payload::request_of(payload) {
            Err(why) => (model::fallback_outcome(None, why), b.after_failure()),
            Ok((t, sources)) => spoken_to(b, TurnModel { text: t, images: images_in(sources) }),
        }
    }
}

/// What comes of the tasks of events, one after the other, and the breaker then.
pub open spec fn tasks_of(b: BreakerModel, events: Seq<EventModel>) -> (
    Seq<OutcomeModel>,
    BreakerModel,
)
    decreases events.len(),
{
    if events.len() == 0 {
        (seq![], b)
    } else {
        let before = tasks_of(b, events.drop_last());
        let last = task_of(before.1, events.last().payload);
        (before.0.push(last.0), last.1)
    }
}

/// The breaker that a stage leaves behind.
spec fn left_by(b: BreakerModel, reset: bool) -> BreakerModel {
    if reset {
        b.after_reset()
    } else {
        b
    }
}

/// What will come of the task that is under way, and the breaker then.
spec fn outlook(k: KernelModel) -> (Option<OutcomeModel>, BreakerModel) {
    match k.stage {
        StageModel::Gather { left } => {
            let turn = TurnModel {
                text: k.input.text,
                images: k.input.images + images_in(left),
            };
            (Some(spoken_to(k.breaker, turn).0), spoken_to(k.breaker, turn).1)
        },
        StageModel::Try => (
            Some(spoken_to(k.breaker, k.input).0),
            spoken_to(k.breaker, k.input).1,
        ),
        StageModel::Infer => (
            Some(spoken_to(k.breaker, k.input).0),
            spoken_to(k.breaker, k.input).1,
        ),
        StageModel::Check { .. } => (
            Some(spoken_to(k.breaker, k.input).0),
            spoken_to(k.breaker, k.input).1,
        ),
        StageModel::Guard { .. } => (
            Some(spoken_to(k.breaker, k.input).0),
            spoken_to(k.breaker, k.input).1,
        ),
        StageModel::Degrade { reason, reset } => (
            Some(model::fallback_outcome(None, reason)),
            left_by(k.breaker, reset),
        ),
        StageModel::Fallback { reason, reset } => (
            Some(model::fallback_outcome(None, reason)),
            left_by(k.breaker, reset),
        ),
        StageModel::Finish { outcome, reset } => (Some(outcome), left_by(k.breaker, reset)),
        StageModel::Drain { outcome } => (outcome, k.breaker),
        StageModel::Rollbacks { left, outcome } => (outcome, k.breaker),
        StageModel::Close { outcome } => (outcome, k.breaker),
        _ => (
            Some(task_of(k.breaker, k.event->0.payload).0),
            task_of(k.breaker, k.event->0.payload).1,
        ),
    }
}

/// Where a task of a bare kernel can stand.
spec fn on_track(k: KernelModel) -> bool {
    &&& bare(k)
    &&& k.hooks.names.len() == 0
    &&& k.wait is Nothing || (k.wait is Model && k.stage is Infer)
    &&& match k.stage {
        StageModel::Route => k.event matches Some(e) && self_contained(e),
        StageModel::Decide { out } => out is None && (k.event matches Some(e) && self_contained(
            e,
        )),
        StageModel::Act { decision, out } => out is None && (k.event matches Some(e)
            && self_contained(e)),
        StageModel::Gather { left } => all_ready(left),
        StageModel::Try => true,
        StageModel::Infer => true,
        StageModel::Check { raw } => raw == inference::mock_command(k.input),
        StageModel::Guard { cmd } => cmd == mock_plan(k.input),
        StageModel::Degrade { .. } => true,
        StageModel::Fallback { .. } => true,
        StageModel::Finish { .. } => true,
        StageModel::Drain { .. } => true,
        StageModel::Rollbacks { .. } => true,
        StageModel::Close { .. } => true,
        _ => false,
    }
}

/// The same kernel, as far as tasks leave it alone.
spec fn same_kernel(a: KernelModel, b: KernelModel) -> bool {
    &&& a.settings == b.settings
    &&& a.natives == b.natives
    &&& a.plugins == b.plugins
}

/// Without plugins there are no hooks, and no strategy.
proof fn lemma_bare(k: KernelModel)
    requires
        bare(k),
    ensures
        forall|point: Text| #[trigger] k.hook_names(point).len() == 0,
        k.strategy() is None,
{
    assert forall|point: Text| #[trigger] k.hook_names(point).len() == 0 by {
        assert(registry::called(k.plugins, registry::attached_to(point)).len() == 0);
    }
    assert(registry::called(k.plugins, registry::of_kind(PluginKind::Strategy)).len() == 0);
}

/// What a step leads to: on, to a question, or to the end of the task, as was to be
/// expected.
spec fn as_expected(k: KernelModel, next: (KernelModel, ActionModel)) -> bool {
    &&& same_kernel(k, next.0)
    &&& match next.1 {
        ActionModel::Continue => on_track(next.0) && next.0.wait is Nothing && outlook(next.0)
            == outlook(k),
        ActionModel::Ask { input, .. } => on_track(next.0) && next.0.wait is Model && input
            == next.0.input && outlook(next.0) == outlook(k),
        ActionModel::Done { outcome } => outcome == outlook(k).0 && next.0.breaker == outlook(
            k,
        ).1 && next.0.resting(),
        _ => false,
    }
}

/// One image more is collected.
proof fn lemma_gathered(k: KernelModel)
    requires
        on_track(k),
        k.stage is Gather,
        k.wait is Nothing,
    ensures
        as_expected(k, k.step_stage()),
{
    reveal(KernelModel::step_stage);
    let left = k.stage->Gather_left;
    let next = k.step_stage().0;
    if left.len() == 0 {
        assert(k.input.images + images_in(left) =~= k.input.images);
    } else {
        assert(left[0] is Ready);
        let rest = left.drop_first();
        assert forall|i: int| 0 <= i < rest.len() implies #[trigger] rest[i] is Ready by {
            assert(rest[i] == left[i + 1]);
        }
        assert(next.input.images + images_in(rest) =~= k.input.images + images_in(left));
    }
}

/// The decisions up to the question.
proof fn lemma_early_stage(k: KernelModel)
    requires
        on_track(k),
        k.wait is Nothing,
        k.stage is Route || k.stage is Decide || k.stage is Act || k.stage is Try || k.stage
            is Infer,
    ensures
        as_expected(k, k.step_stage()),
{
    reveal(KernelModel::step_stage);
    lemma_bare(k);
    if k.stage is Act && !k.breaker.open {
        let request = payload::request_of(k.event->0.payload);
        if request is Ok {
            let sources = request->Ok_0.1;
            assert(Seq::<ImageModel>::empty() + images_in(sources) =~= images_in(sources));
        }
    }
}

/// The decisions from the answer on.
proof fn lemma_late_stage(k: KernelModel)
    requires
        on_track(k),
        k.wait is Nothing,
        k.stage is Check || k.stage is Guard || k.stage is Degrade || k.stage is Fallback
            || k.stage is Finish || k.stage is Drain || k.stage is Rollbacks || k.stage is Close,
    ensures
        as_expected(k, k.step_stage()),
{
    reveal(KernelModel::step_stage);
    lemma_bare(k);
    if k.stage is Check {
        command::law_replies_are_commands(inference::mock_text(k.input));
    }
    if k.stage is Finish || k.stage is Rollbacks || k.stage is Degrade {
        let next = k.step_stage().0;
        assert(next.hooks.names.len() == 0);
    }
}

/// A step with nothing to go on with.
proof fn lemma_quiet_step(k: KernelModel)
    requires
        on_track(k),
        k.wait is Nothing,
    ensures
        as_expected(k, k.step(ReplyModel::Nothing)),
{
    assert(k.step(ReplyModel::Nothing) == k.step_stage()) by {
        reveal(KernelModel::step);
    }
    if k.stage is Gather {
        lemma_gathered(k);
    } else if k.stage is Route || k.stage is Decide || k.stage is Act || k.stage is Try
        || k.stage is Infer {
        lemma_early_stage(k);
    } else {
        lemma_late_stage(k);
    }
}

/// The step with what the mock said.
proof fn lemma_heard(k: KernelModel)
    requires
        on_track(k),
        k.wait is Model,
    ensures
        as_expected(k, k.step(ReplyModel::Model { result: Ok(inference::mock_command(k.input)) })),
{
    reveal(KernelModel::step);
    lemma_bare(k);
    let heard = KernelModel { wait: WaitModel::Nothing, ..k };
    assert(heard.hook_names("post_infer"@) == k.hook_names("post_infer"@));
}

/// Along a run, everything is as was to be expected at its beginning.
proof fn lemma_along(w: World, k: KernelModel, c: Course, n: int)
    requires
        mocked(w),
        on_track(k),
        k.wait is Nothing,
        run::faithful(w, k, c),
        1 <= n <= c.replies.len(),
        c.replies[0] is Nothing,
    ensures
        as_expected(
            k,
            (run::after_replies(k, c.replies.take(n)), run::action_of(k, c.replies.take(n))),
        ),
    decreases n,
{
    let now = c.replies.take(n);
    let before = run::after_replies(k, now.drop_last());
    assert(now.last() == c.replies[n - 1]);
    if n == 1 {
        assert(now.drop_last() =~= Seq::<ReplyModel>::empty());
        assert(before == k);
        assert(now.last() == ReplyModel::Nothing);
        lemma_quiet_step(k);
    } else {
        assert(now.drop_last() =~= c.replies.take(n - 1));
        lemma_along(w, k, c, n - 1);
        let action = run::action_of(k, c.replies.take(n - 1));
        assert(run::replies_to(
            w,
            before.plugins,
            k.natives,
            action,
            c.replies[n - 1],
            c.guests[n - 1],
        ));
        if action is Continue {
            assert(c.replies[n - 1] == ReplyModel::Nothing);
            lemma_quiet_step(before);
        } else {
            assert(action is Ask);
            assert(c.replies[n - 1] == (ReplyModel::Model {
                result: Ok(inference::mock_command(before.input)),
            }));
            lemma_heard(before);
        }
    }
}

/// A run that pauses has come to its end.
proof fn lemma_to_the_end(
    w: World,
    k: KernelModel,
    c: Course,
    end: KernelModel,
    action: ActionModel,
)
    requires
        mocked(w),
        on_track(k),
        k.wait is Nothing,
        run::run(w, k, ReplyModel::Nothing, c, end, action),
        run::pauses(action),
        action is Ask ==> w.remote,
    ensures
        action == (ActionModel::Done { outcome: outlook(k).0 }),
        end.breaker == outlook(k).1,
        end.resting(),
        same_kernel(k, end),
{
    lemma_along(w, k, c, c.replies.len() as int);
    assert(c.replies.take(c.replies.len() as int) =~= c.replies);
}

/// A whole task: where there are no plugins and the model is the mock, a task that
/// needs nothing from outside is done at once, with the outcome that `task_of` says,
/// and the kernel is between tasks again, with the same settings and no plugins.
pub proof fn law_a_task_is_answered_at_once(
    w: World,
    k: KernelModel,
    e: EventModel,
    c: Course,
    end: KernelModel,
    action: ActionModel,
)
    requires
        mocked(w),
        k.sound(),
        k.resting(),
        bare(k),
        self_contained(e),
        run::run(w, k.begun(e), ReplyModel::Nothing, c, end, action),
        run::pauses(action),
        action is Ask ==> w.remote,
    ensures
        action == (ActionModel::Done { outcome: Some(task_of(k.breaker, e.payload).0) }),
        end.breaker == task_of(k.breaker, e.payload).1,
        end.sound(),
        end.resting(),
        bare(end),
        end.settings == k.settings,
{
    let b = k.begun(e);
    lemma_bare(k);
    assert(b.hooks.names.len() == 0) by {
        assert(KernelModel {
            task: model::next_task(k.task),
            event: Some(e),
            attempt: 0,
            ..k
        }.hook_names("pre_task"@) == k.hook_names("pre_task"@));
    }
    lemma_to_the_end(w, b, c, end, action);
    soundness::law_every_beginning_keeps_soundness(k, e);
    soundness::law_every_run_keeps_soundness(b, c.replies);
}

/// Handling an event, where there are no plugins and the model is the mock: the task
/// is done at once, with the outcome that `task_of` says, and the kernel can handle the
/// next event.
pub proof fn law_an_event_is_handled_at_once(
    before: Kernel,
    e: EventModel,
    said: Seq<Text>,
    after: Kernel,
    action: ActionModel,
)
    requires
        mocked(before.world()),
        before.wf(),
        before.model().resting(),
        bare(before.model()),
        self_contained(e),
        driver::went(
            before,
            said,
            before.model().begun(e),
            ReplyModel::Nothing,
            after,
            action,
        ),
        run::pauses(action),
        action is Ask ==> before.world().remote,
    ensures
        action == (ActionModel::Done {
            outcome: Some(task_of(before.model().breaker, e.payload).0),
        }),
        after.model().breaker == task_of(before.model().breaker, e.payload).1,
        after.model().resting(),
        bare(after.model()),
{
    let w = before.world();
    let b = before.model().begun(e);
    let c = choose|c: Course| #[trigger]
        run::run(w, b, ReplyModel::Nothing, c, after.model(), action);
    law_a_task_is_answered_at_once(w, before.model(), e, c, after.model(), action);
}

/// Where the breaker is closed, a text is answered with what the mock says to it,
/// unless this is a dead loop.
pub proof fn law_a_text_is_answered_by_the_mock(b: BreakerModel, t: Text)
    requires
        !b.open,
        !b.loops_on(
            command::fingerprint_of(
                CommandModel { reply: Some("[mock] "@ + t), tool: None, args: "null"@ },
            ),
        ),
    ensures
        task_of(b, json::quoted(t)).0 == moves::well("model"@, "[mock] "@ + t),
{
    payload::law_strings_are_asked_as_they_stand(t);
}

/// Where the breaker is closed, a text with images that come along is answered with
/// what the mock says to it: the text, and how many images there were, unless this is
/// a dead loop.
pub proof fn law_images_reach_the_mock(
    b: BreakerModel,
    payload: Text,
    t: Text,
    sources: Seq<SourceModel>,
)
    requires
        !b.open,
        payload::request_of(payload) == Ok::<(Text, Seq<SourceModel>), Text>((t, sources)),
        !b.loops_on(
            command::fingerprint_of(
                mock_plan(TurnModel { text: t, images: images_in(sources) }),
            ),
        ),
    ensures
        task_of(b, payload).0 == moves::well(
            "model"@,
            inference::mock_text(TurnModel { text: t, images: images_in(sources) }),
        ),
{
}

/// A dead loop is refused and left behind: the task after it is answered again, be it
/// the same or another.
pub proof fn law_a_dead_loop_is_left_behind(b: BreakerModel, payload: Text, next: Text)
    requires
        !b.open,
        b.max_repeats > 1,
        payload::request_of(payload) matches Ok((t, sources)) && b.loops_on(
            command::fingerprint_of(
                mock_plan(TurnModel { text: t, images: images_in(sources) }),
            ),
        ),
        payload::request_of(next) is Ok,
    ensures
        task_of(b, payload).0 == model::fallback_outcome(None, "repeated action loop"@),
        ({
            let (t, sources) = payload::request_of(next)->Ok_0;
            task_of(task_of(b, payload).1, next).0 == moves::well(
                "model"@,
                inference::mock_text(TurnModel { text: t, images: images_in(sources) }),
            )
        }),
{
}

/// The events that were served had the outcomes that were to be expected.
proof fn lemma_served(
    w: World,
    states: Seq<KernelModel>,
    events: Seq<EventModel>,
    runs: Seq<Course>,
    done: Seq<OutcomeModel>,
    n: int,
)
    requires
        mocked(w),
        run::served(w, states, events, runs, done),
        states[0].sound(),
        states[0].resting(),
        bare(states[0]),
        forall|i: int| 0 <= i < events.len() ==> self_contained(#[trigger] events[i]),
        0 <= n <= events.len(),
    ensures
        states[n].sound(),
        states[n].resting(),
        bare(states[n]),
        states[n].breaker == tasks_of(states[0].breaker, events.take(n)).1,
        done.take(n) == tasks_of(states[0].breaker, events.take(n)).0,
    decreases n,
{
    if n == 0 {
        assert(events.take(0) =~= Seq::<EventModel>::empty());
        assert(done.take(0) =~= Seq::<OutcomeModel>::empty());
    } else {
        let m = n - 1;
        lemma_served(w, states, events, runs, done, m);
        assert(run::run(
            w,
            states[m].begun(events[m]),
            ReplyModel::Nothing,
            runs[m],
            states[m + 1],
            ActionModel::Done { outcome: Some(done[m]) },
        ));
        law_a_task_is_answered_at_once(
            w,
            states[m],
            events[m],
            runs[m],
            states[n],
            ActionModel::Done { outcome: Some(done[m]) },
        );
        assert(events.take(n).drop_last() =~= events.take(m));
        assert(events.take(n).last() == events[m]);
        assert(done.take(n) =~= done.take(m).push(done[m]));
    }
}

/// The whole queue is drained: where there are no plugins and the model is the mock,
/// and no event that waits needs anything from outside, then draining serves every
/// event, in the order in which they wait, with the outcomes that `tasks_of` says, and
/// leaves the queue empty and the kernel between tasks.
pub proof fn law_the_queue_is_drained(
    before: Kernel,
    states: Seq<KernelModel>,
    runs: Seq<Course>,
    done: Seq<OutcomeModel>,
    after: Kernel,
    action: ActionModel,
)
    requires
        mocked(before.world()),
        before.wf(),
        before.model().resting(),
        bare(before.model()),
        forall|i: int|
            0 <= i < before.waiting().len() ==> self_contained(#[trigger] before.waiting()[i]),
        driver::drained(before, states, runs, done),
        driver::paused(before, states, runs, after, action),
        run::pauses(action),
        !(action is Done),
        action is Ask ==> before.world().remote,
    ensures
        done == tasks_of(before.model().breaker, before.waiting()).0,
        after.model().breaker == tasks_of(before.model().breaker, before.waiting()).1,
        after.waiting().len() == 0,
        action is Rest,
        after.model().resting(),
        bare(after.model()),
{
    let w = before.world();
    let all = before.waiting();
    let n = runs.len() as int;
    let events = all.take(n);
    assert forall|i: int| 0 <= i < events.len() implies self_contained(#[trigger] events[i]) by {
        assert(events[i] == all[i]);
    }
    lemma_served(w, states, events, runs, done, n);
    assert(events.take(n) =~= events);
    assert(done.take(n) =~= done);
    let left = all.skip(n);
    if left.len() > 0 {
        let k = states.last();
        assert(left[0] == all[n]);
        let c = choose|c: Course| #[trigger]
            run::run(w, k.begun(left[0]), ReplyModel::Nothing, c, after.model(), action);
        law_a_task_is_answered_at_once(w, k, left[0], c, after.model(), action);
    }
    assert(events =~= all);
}

// Any model that is local.

/// Where a task of a bare kernel can stand, whatever its model says.
spec fn afoot(k: KernelModel) -> bool {
    &&& bare(k)
    &&& k.hooks.names.len() == 0
    &&& k.wait is Nothing || (k.wait is Model && k.stage is Infer)
    &&& match k.stage {
        StageModel::Route => k.event matches Some(e) && self_contained(e),
        StageModel::Decide { .. } => k.event matches Some(e) && self_contained(e),
        StageModel::Act { .. } => k.event matches Some(e) && self_contained(e),
        StageModel::Gather { left } => all_ready(left),
        StageModel::Idle => false,
        StageModel::CallTool { .. } => false,
        StageModel::Reload { .. } => false,
        _ => true,
    }
}

/// A step leads on, to a question, or to the end of the task.
spec fn leads_on(k: KernelModel, next: (KernelModel, ActionModel)) -> bool {
    &&& same_kernel(k, next.0)
    &&& match next.1 {
        ActionModel::Continue => afoot(next.0) && next.0.wait is Nothing,
        ActionModel::Ask { .. } => afoot(next.0) && next.0.wait is Model,
        ActionModel::Done { .. } => next.0.resting(),
        _ => false,
    }
}

/// A call of a plugin comes to nothing.
proof fn lemma_nobody_called(k: KernelModel, name: Text, error: command::CommandError)
    requires
        afoot(k),
        k.wait is Nothing,
    ensures
        forall|input: InputModel| #[trigger]
            k.called(name, input, JobModel::Repair { error }) == (
                k.at(model::violation(error)),
                ActionModel::Continue,
            ),
{
    reveal(KernelModel::called);
    reveal(KernelModel::after);
}

proof fn lemma_early_step(k: KernelModel)
    requires
        afoot(k),
        k.wait is Nothing,
        k.stage is Route || k.stage is Decide || k.stage is Act || k.stage is Gather || k.stage
            is Try || k.stage is Infer || k.stage is Missed,
    ensures
        leads_on(k, k.step_stage()),
{
    reveal(KernelModel::step_stage);
    lemma_bare(k);
    if k.stage is Gather {
        let left = k.stage->Gather_left;
        if left.len() > 0 {
            assert(left[0] is Ready);
            let rest = left.drop_first();
            assert forall|i: int| 0 <= i < rest.len() implies #[trigger] rest[i] is Ready by {
                assert(rest[i] == left[i + 1]);
            }
        }
    }
}

proof fn lemma_late_step(k: KernelModel)
    requires
        afoot(k),
        k.wait is Nothing,
        !(k.stage is Route || k.stage is Decide || k.stage is Act || k.stage is Gather || k.stage
            is Try || k.stage is Infer || k.stage is Missed),
    ensures
        leads_on(k, k.step_stage()),
{
    reveal(KernelModel::step_stage);
    lemma_bare(k);
    if k.stage is Check {
        let raw = k.stage->Check_raw;
        if command::command_of(raw) is Err && k.settings.repair_plugin is Some {
            lemma_nobody_called(
                k,
                k.settings.repair_plugin->0,
                command::command_of(raw)->Err_0,
            );
        }
    }
    if k.stage is Tool {
        assert(k.tool_devices(k.stage->Tool_tool) is None);
    }
}

proof fn lemma_every_step_leads_on(k: KernelModel, reply: ReplyModel)
    requires
        afoot(k),
        k.wait is Nothing ==> reply is Nothing,
        k.wait is Model ==> reply is Model,
    ensures
        leads_on(k, k.step(reply)),
{
    if k.wait is Nothing {
        assert(k.step(reply) == k.step_stage()) by {
            reveal(KernelModel::step);
        }
        if k.stage is Route || k.stage is Decide || k.stage is Act || k.stage is Gather || k.stage
            is Try || k.stage is Infer || k.stage is Missed {
            lemma_early_step(k);
        } else {
            lemma_late_step(k);
        }
    } else {
        reveal(KernelModel::step);
        lemma_bare(k);
        let heard = KernelModel { wait: WaitModel::Nothing, ..k };
        assert(heard.hook_names("post_infer"@) == k.hook_names("post_infer"@));
    }
}

proof fn lemma_on_and_on(w: World, k: KernelModel, c: Course, n: int)
    requires
        afoot(k),
        k.wait is Nothing,
        run::faithful(w, k, c),
        1 <= n <= c.replies.len(),
        c.replies[0] is Nothing,
    ensures
        leads_on(
            k,
            (run::after_replies(k, c.replies.take(n)), run::action_of(k, c.replies.take(n))),
        ),
    decreases n,
{
    let now = c.replies.take(n);
    let before = run::after_replies(k, now.drop_last());
    assert(now.last() == c.replies[n - 1]);
    if n == 1 {
        assert(now.drop_last() =~= Seq::<ReplyModel>::empty());
        assert(before == k);
    } else {
        assert(now.drop_last() =~= c.replies.take(n - 1));
        lemma_on_and_on(w, k, c, n - 1);
        assert(run::replies_to(
            w,
            before.plugins,
            k.natives,
            run::action_of(k, c.replies.take(n - 1)),
            c.replies[n - 1],
            c.guests[n - 1],
        ));
    }
    lemma_every_step_leads_on(before, now.last());
}

/// A local model is asked until the task is done: where there are no plugins, a task
/// that needs nothing from outside is done at once, whatever the model says, and the
/// kernel is between tasks again.
pub proof fn law_a_local_model_is_asked(
    w: World,
    k: KernelModel,
    e: EventModel,
    c: Course,
    end: KernelModel,
    action: ActionModel,
)
    requires
        !w.remote,
        k.sound(),
        k.resting(),
        bare(k),
        self_contained(e),
        run::run(w, k.begun(e), ReplyModel::Nothing, c, end, action),
        run::pauses(action),
        action is Ask ==> w.remote,
    ensures
        action matches ActionModel::Done { outcome } && outcome is Some,
        end.sound(),
        end.resting(),
        bare(end),
        end.settings == k.settings,
{
    let b = k.begun(e);
    lemma_bare(k);
    assert(b.hooks.names.len() == 0) by {
        assert(KernelModel {
            task: model::next_task(k.task),
            event: Some(e),
            attempt: 0,
            ..k
        }.hook_names("pre_task"@) == k.hook_names("pre_task"@));
    }
    lemma_on_and_on(w, b, c, c.replies.len() as int);
    assert(c.replies.take(c.replies.len() as int) =~= c.replies);
    soundness::law_every_beginning_keeps_soundness(k, e);
    soundness::law_every_run_keeps_soundness(b, c.replies);
    run::law_runs_lead(w, b, ReplyModel::Nothing, c, end, action);
    laws::law_every_task_is_answered(k, e, c.replies, end, action->outcome);
}

/// Between the tasks of a bare kernel with a local model, it is one still.
proof fn lemma_still_bare(
    w: World,
    states: Seq<KernelModel>,
    events: Seq<EventModel>,
    runs: Seq<Course>,
    done: Seq<OutcomeModel>,
    n: int,
)
    requires
        !w.remote,
        run::served(w, states, events, runs, done),
        states[0].sound(),
        states[0].resting(),
        bare(states[0]),
        forall|i: int| 0 <= i < events.len() ==> self_contained(#[trigger] events[i]),
        0 <= n <= events.len(),
    ensures
        states[n].sound(),
        states[n].resting(),
        bare(states[n]),
    decreases n,
{
    if n > 0 {
        let m = n - 1;
        lemma_still_bare(w, states, events, runs, done, m);
        let action = ActionModel::Done { outcome: Some(done[m]) };
        assert(run::run(
            w,
            states[m].begun(events[m]),
            ReplyModel::Nothing,
            runs[m],
            states[m + 1],
            action,
        ));
        law_a_local_model_is_asked(w, states[m], events[m], runs[m], states[n], action);
    }
}

/// Whatever a local model says, the whole queue is drained: where there are no plugins,
/// and no event that waits needs anything from outside, then draining gives every event
/// its outcome, and leaves the queue empty and the kernel between tasks.
pub proof fn law_a_local_model_drains_the_queue(
    before: Kernel,
    states: Seq<KernelModel>,
    runs: Seq<Course>,
    done: Seq<OutcomeModel>,
    after: Kernel,
    action: ActionModel,
)
    requires
        !before.world().remote,
        before.wf(),
        before.model().resting(),
        bare(before.model()),
        forall|i: int|
            0 <= i < before.waiting().len() ==> self_contained(#[trigger] before.waiting()[i]),
        driver::drained(before, states, runs, done),
        driver::paused(before, states, runs, after, action),
        run::pauses(action),
        !(action is Done),
        action is Ask ==> before.world().remote,
    ensures
        done.len() == before.waiting().len(),
        after.waiting().len() == 0,
        action is Rest,
        after.model().resting(),
        bare(after.model()),
{
    let w = before.world();
    let all = before.waiting();
    let n = runs.len() as int;
    let events = all.take(n);
    assert forall|i: int| 0 <= i < events.len() implies self_contained(#[trigger] events[i]) by {
        assert(events[i] == all[i]);
    }
    lemma_still_bare(w, states, events, runs, done, n);
    let left = all.skip(n);
    if left.len() > 0 {
        let k = states.last();
        assert(left[0] == all[n]);
        let c = choose|c: Course| #[trigger]
            run::run(w, k.begun(left[0]), ReplyModel::Nothing, c, after.model(), action);
        law_a_local_model_is_asked(w, k, left[0], c, after.model(), action);
    }
}

// The start.

/// A kernel that was just put together, without plugins, comes to the end of its start.
proof fn lemma_started(
    w: World,
    cfg: Config,
    found: ScanModel,
    c: Course,
    end: KernelModel,
    action: ActionModel,
)
    requires
        mocked(w),
        cfg.backend is Mock,
        found.plugins.len() == 0,
        run::run(
            w,
            builder::fresh_model(cfg, None, seq![], found).started(),
            ReplyModel::Nothing,
            c,
            end,
            action,
        ),
        run::pauses(action),
        action is Ask ==> w.remote,
    ensures
        action == (ActionModel::Done { outcome: None }),
        end.resting(),
        bare(end),
        end.breaker == BreakerModel::fresh(
            cfg.breaker_max_failures as nat,
            cfg.breaker_max_repeats as nat,
        ),
{
    let fresh = builder::fresh_model(cfg, None, seq![], found);
    lemma_bare(fresh);
    assert(fresh.started().hooks.names == fresh.hook_names("kernel_start"@));
    lemma_to_the_end(w, fresh.started(), c, end, action);
}

/// A kernel whose model is the mock and which has no plugins starts at once: it is
/// between tasks, with a closed breaker that has seen nothing.
pub proof fn law_a_bare_kernel_starts_at_once(
    cfg: Config,
    supplied: Option<Bridge>,
    k: Kernel,
    action: ActionModel,
)
    requires
        builder::set_up(cfg, None, supplied, seq![], Seq::<PluginDir>::empty(), k, action),
        cfg.backend is Mock,
    ensures
        mocked(k.world()),
        action == (ActionModel::Done { outcome: None }),
        k.model().resting(),
        bare(k.model()),
        k.waiting().len() == 0,
        k.model().breaker == BreakerModel::fresh(
            cfg.breaker_max_failures as nat,
            cfg.breaker_max_repeats as nat,
        ),
{
    let w = k.world();
    let trust = builder::trust_of(cfg);
    let dirs = Seq::<PluginDir>::empty();
    let (states, c) = choose|states: Seq<ScanModel>, c: Course|
        #![trigger registry::scanned_all(states, dirs, trust), run::deeds(
            w,
            builder::fresh_model(cfg, None, seq![], states.last()).started(),
            c,
        )]
        registry::scanned_all(states, dirs, trust) && run::run(
            w,
            builder::fresh_model(cfg, None, seq![], states.last()).started(),
            ReplyModel::Nothing,
            c,
            k.model(),
            action,
        );
    lemma_started(w, cfg, states.last(), c, k.model(), action);
}

} // verus!
