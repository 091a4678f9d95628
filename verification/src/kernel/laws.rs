//! What the kernel promises, whatever plugins, the model or the disk reply.

use crate::context;
use crate::context::EntryModel;
use crate::event::EventModel;
use crate::inference;
use crate::inference::TurnModel;
use crate::json;
use crate::kernel::command;
use crate::kernel::command::CommandModel;
use crate::kernel::model;
use crate::kernel::model::{
    ActionModel, JobModel, KernelModel, OutcomeModel, ReplyModel, StageModel, WaitModel,
};
use crate::kernel::moves;
use crate::kernel::progress;
use crate::kernel::run;
use crate::kernel::run::{Course, World};
use crate::kernel::soundness;
use crate::lock;
use crate::names;
use crate::plugin::abi;
use crate::plugin::abi::OutputModel;
use crate::plugin::bridge;
use crate::plugin::host::SandboxCall;
use crate::plugin::manifest::PluginKind;
use crate::plugin::native;
use crate::plugin::registry;
use crate::plugin::registry::{PluginModel, SkipModel, TrustModel, VersionModel};
use crate::plugin::runtime;
use crate::plugin::runtime::GuestRun;
use crate::text;
use crate::text::Text;
use vstd::prelude::*;
use vstd::utf8;

verus! {

// Plugins.

/// Context crosses the sandbox boundary only when the plugin's manifest
/// declares it, and then whole; and a wasm plugin is called only where no
/// native one has its name.
pub proof fn law_context_crosses_only_with_permission(k: KernelModel, reply: ReplyModel)
    requires
        k.coherent(),
    ensures
        k.step(reply).1 matches ActionModel::Wasm { name, input } ==> names::find(k.natives, name)
            is None && names::find(k.plugins, name) is Some && input.context == (if names::find(
            k.plugins,
            name,
        )->0.manifest.context {
            Some(k.context)
        } else {
            None
        }),
{
    moves::lemma_step_moves(k, reply);
}

/// `p` was loaded under `name` at some point of a run.
pub open spec fn loaded(
    k: KernelModel,
    replies: Seq<ReplyModel>,
    name: Text,
    p: PluginModel,
) -> bool {
    exists|n: int|
        0 <= n <= replies.len() && names::find(
            (#[trigger] run::after_replies(k, replies.take(n))).plugins,
            name,
        ) == Some(p)
}

/// What is asked of a sandbox stays within the manifest: it is opened with the
/// capabilities of a plugin that is loaded, and with the way to them and the
/// budgets that are set, the code that is instantiated in it is that of a loaded
/// plugin, and when it is closed, all that stands on the record of what was handed to
/// the provider are requests of a loaded plugin for capabilities that its manifest
/// declares.
pub open spec fn within_the_manifest(
    w: World,
    k: KernelModel,
    replies: Seq<ReplyModel>,
    call: SandboxCall,
) -> bool {
    match call {
        SandboxCall::Open { plugin, capabilities, bridge, fuel, memory_limit, memories } => bridge
            == w.bridge && memories == runtime::MAX_MEMORIES && fuel == w.fuel && memory_limit == w.memory_limit && exists|p: PluginModel| #[trigger]
            loaded(k, replies, plugin, p) && capabilities == p.manifest.capabilities,
        SandboxCall::Instantiate { code, .. } => exists|name: Text, p: PluginModel| #[trigger]
            loaded(k, replies, name, p) && code == p.code,
        SandboxCall::Close { passed, .. } => exists|name: Text, p: PluginModel| #[trigger]
            loaded(k, replies, name, p) && bridge::all_declared(
                name,
                p.manifest.capabilities,
                w.bridge,
                passed,
            ),
        _ => true,
    }
}

proof fn lemma_visit_is_within(
    w: World,
    k: KernelModel,
    replies: Seq<ReplyModel>,
    n: int,
    action: ActionModel,
    reply: ReplyModel,
    g: GuestRun,
)
    requires
        0 <= n <= replies.len(),
        action matches ActionModel::Wasm { name, input } ==> names::find(
            run::after_replies(k, replies.take(n)).plugins,
            name,
        ) is Some,
        action is Wasm ==> run::replies_to(
            w,
            run::after_replies(k, replies.take(n)).plugins,
            k.natives,
            action,
            reply,
            g,
        ),
    ensures
        ({
            let plugins = run::after_replies(k, replies.take(n)).plugins;
            let calls = run::deed(w, plugins, action, reply, g).sandboxes;
            forall|i: int|
                0 <= i < calls.len() ==> within_the_manifest(w, k, replies, #[trigger] calls[i])
        }),
{
    if action is Wasm {
        let name = action->Wasm_name;
        let plugins = run::after_replies(k, replies.take(n)).plugins;
        let p = names::find(plugins, name)->0;
        let open = run::opening(w, plugins, name);
        let bytes = utf8::encode_utf8(abi::input_json(action->Wasm_input));
        let calls = run::deed(w, plugins, action, reply, g).sandboxes;
        assert(loaded(k, replies, name, p));
        assert(calls == runtime::calls_of(open, p.code, bytes, g));
        assert forall|i: int| 0 <= i < calls.len() implies within_the_manifest(
            w,
            k,
            replies,
            #[trigger] calls[i],
        ) by {
            runtime::lemma_calls_of(open, p.code, bytes, g, i);
            if i == 0 {
                assert(calls[i]->Open_plugin == name);
                assert(loaded(k, replies, calls[i]->Open_plugin, p));
            } else if i == 1 {
                assert(calls[i] == (SandboxCall::Instantiate { code: p.code, outcome: g.entry }));
            } else if i == calls.len() - 1 {
                assert(calls[i] == (SandboxCall::Close { log: g.log, passed: g.passed }));
            }
        }
    }
}

/// Plugins have their quota, and no permission beyond their manifest: every
/// sandbox that is opened along a run is given the fuel and the memory that are
/// set, the capabilities that the plugin's manifest declares, and no code but
/// that of plugins; and on the record of what was handed to the provider for it stand
/// only requests for capabilities that the manifest declares.
pub proof fn law_sandboxes_stay_within_the_manifest(w: World, k: KernelModel, c: Course)
    requires
        k.coherent(),
        run::faithful(w, k, c),
    ensures
        forall|i: int|
            0 <= i < run::deeds(w, k, c).sandboxes.len() ==> within_the_manifest(
                w,
                k,
                c.replies,
                #[trigger] run::deeds(w, k, c).sandboxes[i],
            ),
    decreases c.replies.len(),
{
    if c.replies.len() > 1 {
        let n = c.replies.len() - 1;
        let before = c.replies.drop_last();
        let b = Course { replies: before, guests: c.guests.drop_last() };
        let action = run::action_of(k, before);
        assert(before =~= c.replies.take(n));
        lemma_shorter(w, k, c);
        law_sandboxes_stay_within_the_manifest(w, k, b);
        lemma_run_spends(k, before.drop_last());
        moves::lemma_step_moves(run::after_replies(k, before.drop_last()), before.last());
        lemma_visit_is_within(w, k, c.replies, n, action, c.replies.last(), c.guests.last());
        assert forall|i: int| 0 <= i < run::deeds(w, k, c).sandboxes.len() implies within_the_manifest(
            w,
            k,
            c.replies,
            #[trigger] run::deeds(w, k, c).sandboxes[i],
        ) by {
            let call = run::deeds(w, k, c).sandboxes[i];
            let m = run::deeds(w, k, b).sandboxes.len();
            if i < m {
                assert(call == run::deeds(w, k, b).sandboxes[i]);
                lemma_still_within(w, k, c.replies, call);
            } else {
                let calls = run::deed(
                    w,
                    run::after_replies(k, before).plugins,
                    action,
                    c.replies.last(),
                    c.guests.last(),
                ).sandboxes;
                assert(call == calls[i - m]);
            }
        }
    }
}

/// A run without its last reply is a run.
proof fn lemma_shorter(w: World, k: KernelModel, c: Course)
    requires
        run::faithful(w, k, c),
        c.replies.len() > 0,
    ensures
        run::faithful(
            w,
            k,
            Course { replies: c.replies.drop_last(), guests: c.guests.drop_last() },
        ),
{
    let before = c.replies.drop_last();
    let guests = c.guests.drop_last();
    assert forall|i: int| 1 <= i < before.len() implies run::replies_to(
        w,
        run::after_replies(k, before.take(i)).plugins,
        k.natives,
        run::action_of(k, before.take(i)),
        #[trigger] before[i],
        guests[i],
    ) by {
        assert(before.take(i) =~= c.replies.take(i));
        assert(before[i] == c.replies[i]);
    }
}

/// What was loaded earlier was loaded.
proof fn lemma_still_loaded(k: KernelModel, replies: Seq<ReplyModel>, name: Text, p: PluginModel)
    requires
        replies.len() > 0,
        loaded(k, replies.drop_last(), name, p),
    ensures
        loaded(k, replies, name, p),
{
    let before = replies.drop_last();
    let n = choose|n: int|
        0 <= n <= before.len() && names::find(
            (#[trigger] run::after_replies(k, before.take(n))).plugins,
            name,
        ) == Some(p);
    assert(before.take(n) =~= replies.take(n));
}

proof fn lemma_still_within(
    w: World,
    k: KernelModel,
    replies: Seq<ReplyModel>,
    call: SandboxCall,
)
    requires
        replies.len() > 0,
        within_the_manifest(w, k, replies.drop_last(), call),
    ensures
        within_the_manifest(w, k, replies, call),
{
    let before = replies.drop_last();
    match call {
        SandboxCall::Open { plugin, capabilities, .. } => {
            let p = choose|p: PluginModel| #[trigger]
                loaded(k, before, plugin, p) && capabilities == p.manifest.capabilities;
            lemma_still_loaded(k, replies, plugin, p);
        },
        SandboxCall::Instantiate { code, .. } => {
            let (name, p) = choose|name: Text, p: PluginModel| #[trigger]
                loaded(k, before, name, p) && code == p.code;
            lemma_still_loaded(k, replies, name, p);
        },
        SandboxCall::Close { passed, .. } => {
            let (name, p) = choose|name: Text, p: PluginModel| #[trigger]
                loaded(k, before, name, p) && bridge::all_declared(
                    name,
                    p.manifest.capabilities,
                    w.bridge,
                    passed,
                );
            lemma_still_loaded(k, replies, name, p);
        },
        _ => {},
    }
}

/// Hooks are observers, not interceptors: whatever a hook answers, the task
/// goes on as it would have. Only the health of a wasm plugin is kept, and
/// where it has failed too often its stable version is asked for.
pub proof fn law_hooks_only_observe(k: KernelModel, reply: ReplyModel)
    requires
        soundness::job_of(k.wait) == Some(JobModel::Hook),
    ensures
        k.step(reply).0 == (KernelModel {
            plugins: k.step(reply).0.plugins,
            pending: k.step(reply).0.pending,
            wait: k.step(reply).0.wait,
            ..k
        }),
        k.wait matches WaitModel::Plugin { name, native, job } && native && reply is Plugin
            ==> k.step(reply) == (
            KernelModel { wait: WaitModel::Nothing, ..k },
            ActionModel::Continue,
        ),
{
    reveal(KernelModel::step);
    reveal(KernelModel::after);
}

/// Repair can only help, never widen what is accepted: a plan always comes from
/// a text that passes the strict check.
pub proof fn law_every_plan_passes_the_strict_check(k: KernelModel, reply: ReplyModel)
    requires
        k.coherent(),
        !(k.stage is Guard),
    ensures
        k.step(reply).0.stage matches StageModel::Guard { cmd } ==> exists|t: Text| #[trigger]
            command::command_of(t) == Ok::<_, command::CommandError>(cmd),
{
    moves::lemma_step_moves(k, reply);
}

/// The model can never have a plugin called that the kernel keeps for itself,
/// and is not told of it either.
pub proof fn law_reserved_plugins_are_never_tools(k: KernelModel, reply: ReplyModel, name: Text)
    requires
        k.sound(),
        k.settings.reserved(name),
    ensures
        !k.tools().contains(name),
        k.tool_devices(name) is None,
        soundness::job_of(k.step(reply).0.wait) != Some(JobModel::Tool { tool: name }),
{
    soundness::law_every_step_keeps_soundness(k, reply);
    moves::lemma_step_moves(k, reply);
    let listed = names::names_where(
        k.natives,
        native::of_kind(PluginKind::Tool),
    ) + model::unshadowed(
        k.natives,
        registry::called(k.plugins, registry::of_kind(PluginKind::Tool)),
    );
    lemma_callable(k.settings, listed, name);
    let mine = k.settings.callable(listed);
    text::lemma_arranged(mine);
    assert(text::arranged(mine).to_multiset().count(name) == mine.to_multiset().count(name));
    broadcast use vstd::seq_lib::group_to_multiset_ensures;

}

proof fn lemma_callable(settings: model::SettingsModel, list: Seq<Text>, name: Text)
    requires
        settings.reserved(name),
    ensures
        !settings.callable(list).contains(name),
    decreases list.len(),
{
    if list.len() > 0 {
        lemma_callable(settings, list.drop_last(), name);
    }
}

// Devices.

/// Devices are locked only when a tool is about to be called, all that it
/// declares at once, and stay locked until the task has its outcome.
pub proof fn law_devices_are_held_while_a_tool_runs(k: KernelModel, reply: ReplyModel)
    requires
        k.coherent(),
    ensures
        !(k.stage is Tool) && !(k.stage is Finish) ==> k.step(reply).0.locks == k.locks,
        !(k.stage is CallTool) && k.step(reply).0.stage is CallTool ==> k.stage is Tool
            && k.tool_devices(k.stage->Tool_tool) is Some && lock::first_busy(
            k.locks,
            k.task,
            k.tool_devices(k.stage->Tool_tool)->0,
        ) is None && k.step(reply).0.locks == lock::with_all(
            k.locks,
            k.task,
            k.tool_devices(k.stage->Tool_tool)->0,
        ),
        k.stage is Tool && !(k.step(reply).0.stage is CallTool) ==> k.step(reply).0.locks
            == k.locks,
{
    moves::lemma_step_moves(k, reply);
}

/// When a task is done, no device is locked any more.
pub proof fn law_no_device_stays_locked(
    k: KernelModel,
    replies: Seq<ReplyModel>,
    end: KernelModel,
    outcome: Option<OutcomeModel>,
)
    requires
        k.sound(),
        run::leads(k, replies, end, ActionModel::Done { outcome }),
    ensures
        end.resting(),
        end.locks == Map::<Text, u64>::empty(),
{
    let before = run::after_replies(k, replies.drop_last());
    soundness::law_every_run_keeps_soundness(k, replies.drop_last());
    soundness::law_every_step_keeps_soundness(before, replies.last());
    progress::law_every_step_makes_progress(before, replies.last());
}

// Budgets.

/// How often the model is asked along a run.
pub open spec fn inferences(k: KernelModel, replies: Seq<ReplyModel>) -> nat
    decreases replies.len(),
{
    if replies.len() == 0 {
        0
    } else {
        inferences(k, replies.drop_last()) + if moves::asks(
            run::after_replies(k, replies.drop_last()).step(replies.last()),
        ) {
            1nat
        } else {
            0
        }
    }
}

/// How often a tool is called along a run.
pub open spec fn actions(k: KernelModel, replies: Seq<ReplyModel>) -> nat
    decreases replies.len(),
{
    if replies.len() == 0 {
        0
    } else {
        actions(k, replies.drop_last()) + if moves::acts(
            run::after_replies(k, replies.drop_last()).step(replies.last()),
        ) {
            1nat
        } else {
            0
        }
    }
}

proof fn lemma_run_spends(k: KernelModel, replies: Seq<ReplyModel>)
    requires
        k.coherent(),
    ensures
        run::after_replies(k, replies).coherent(),
        inferences(k, replies) + moves::asks_left(run::after_replies(k, replies))
            <= moves::asks_left(k),
        actions(k, replies) + moves::acts_left(run::after_replies(k, replies))
            <= moves::acts_left(k),
    decreases replies.len(),
{
    if replies.len() > 0 {
        lemma_run_spends(k, replies.drop_last());
        let before = run::after_replies(k, replies.drop_last());
        moves::lemma_step_moves(before, replies.last());
        progress::law_every_step_makes_progress(before, replies.last());
    }
}

/// Execution has its budget: in the task of an event the model is asked at most
/// once more than there are retries, and a tool is called at most once. A tool
/// that fails is not tried again.
pub proof fn law_every_task_has_a_budget(
    k: KernelModel,
    e: EventModel,
    replies: Seq<ReplyModel>,
)
    requires
        k.sound(),
        k.resting(),
    ensures
        inferences(k.begun(e), replies) <= k.settings.max_retries + 1,
        actions(k.begun(e), replies) <= 1,
{
    soundness::law_every_beginning_keeps_soundness(k, e);
    lemma_run_spends(k.begun(e), replies);
}

/// How many sandboxes were opened.
pub open spec fn opened(calls: Seq<SandboxCall>) -> nat
    decreases calls.len(),
{
    if calls.len() == 0 {
        0
    } else {
        opened(calls.drop_last()) + if calls.last() is Open {
            1nat
        } else {
            0
        }
    }
}

/// How many requests of each kind were replied to along a run: for wasm plugins, for
/// native plugins and to the model.
pub open spec fn requests(k: KernelModel, replies: Seq<ReplyModel>) -> (nat, nat, nat)
    decreases replies.len(),
{
    if replies.len() <= 1 {
        (0, 0, 0)
    } else {
        let (wasm, native, model) = requests(k, replies.drop_last());
        match run::action_of(k, replies.drop_last()) {
            ActionModel::Wasm { .. } => (wasm + 1, native, model),
            ActionModel::Native { .. } => (wasm, native + 1, model),
            ActionModel::Ask { .. } => (wasm, native, model + 1),
            _ => (wasm, native, model),
        }
    }
}

proof fn lemma_opened_joined(a: Seq<SandboxCall>, b: Seq<SandboxCall>)
    ensures
        opened(a + b) == opened(a) + opened(b),
    decreases b.len(),
{
    if b.len() == 0 {
        assert(a + b =~= a);
    } else {
        assert((a + b).drop_last() =~= a + b.drop_last());
        lemma_opened_joined(a, b.drop_last());
    }
}

proof fn lemma_none_opened(calls: Seq<SandboxCall>)
    requires
        forall|i: int| 0 <= i < calls.len() ==> !(#[trigger] calls[i] is Open),
    ensures
        opened(calls) == 0,
    decreases calls.len(),
{
    if calls.len() > 0 {
        let front = calls.drop_last();
        assert forall|i: int| 0 <= i < front.len() implies !(#[trigger] front[i] is Open) by {
            assert(front[i] == calls[i]);
        }
        lemma_none_opened(front);
        assert(!(calls[calls.len() - 1] is Open));
    }
}

proof fn lemma_opened_once(open: SandboxCall, code: Seq<u8>, input: Seq<u8>, g: GuestRun)
    requires
        open is Open,
    ensures
        opened(runtime::calls_of(open, code, input, g)) == 1,
{
    let all = runtime::calls_of(open, code, input, g);
    let later = all.skip(1);
    assert(all =~= seq![open] + later) by {
        runtime::lemma_calls_of(open, code, input, g, 0);
    }
    assert forall|i: int| 0 <= i < later.len() implies !(#[trigger] later[i] is Open) by {
        runtime::lemma_calls_of(open, code, input, g, i + 1);
        assert(later[i] == all[i + 1]);
    }
    lemma_none_opened(later);
    lemma_opened_joined(seq![open], later);
    assert(seq![open].drop_last() =~= Seq::<SandboxCall>::empty());
    reveal_with_fuel(opened, 2);
    assert(opened(seq![open]) == 1);
}

/// Nothing is put on record twice: for every request of a run the record of what the
/// kernel has others do holds exactly one sandbox that is opened, or one question to a
/// native plugin or to the model.
pub proof fn law_every_request_is_made_once(w: World, k: KernelModel, c: Course)
    ensures
        opened(run::deeds(w, k, c).sandboxes) == requests(k, c.replies).0,
        run::deeds(w, k, c).natives.len() == requests(k, c.replies).1,
        run::deeds(w, k, c).questions.len() == requests(k, c.replies).2,
    decreases c.replies.len(),
{
    if c.replies.len() > 1 {
        let before = c.replies.drop_last();
        let b = Course { replies: before, guests: c.guests.drop_last() };
        law_every_request_is_made_once(w, k, b);
        let plugins = run::after_replies(k, before).plugins;
        let action = run::action_of(k, before);
        let deed = run::deed(w, plugins, action, c.replies.last(), c.guests.last());
        lemma_opened_joined(run::deeds(w, k, b).sandboxes, deed.sandboxes);
        if action is Wasm {
            lemma_opened_once(
                run::opening(w, plugins, action->Wasm_name),
                names::find(plugins, action->Wasm_name)->0.code,
                utf8::encode_utf8(abi::input_json(action->Wasm_input)),
                c.guests.last(),
            );
        }
    }
}

proof fn lemma_questions_are_inferences(k: KernelModel, replies: Seq<ReplyModel>)
    ensures
        replies.len() > 0 ==> requests(k, replies).2 <= inferences(k, replies.drop_last()),
        requests(k, replies).2 <= inferences(k, replies),
    decreases replies.len(),
{
    if replies.len() > 1 {
        lemma_questions_are_inferences(k, replies.drop_last());
    }
}

/// The budget is kept by what is really asked: in the task of an event the model is
/// asked at most once more than there are retries.
pub proof fn law_the_model_is_asked_within_the_budget(
    w: World,
    k: KernelModel,
    e: EventModel,
    c: Course,
)
    requires
        k.sound(),
        k.resting(),
    ensures
        run::deeds(w, k.begun(e), c).questions.len() <= k.settings.max_retries + 1,
{
    law_every_request_is_made_once(w, k.begun(e), c);
    law_every_task_has_a_budget(k, e, c.replies);
    lemma_questions_are_inferences(k.begun(e), c.replies);
}

/// A rule decides without the model: once the strategy has decided by a rule,
/// no inference is spent and no tool is called.
pub proof fn law_rules_need_no_model(k: KernelModel, replies: Seq<ReplyModel>)
    requires
        k.coherent(),
        moves::ruled(k),
    ensures
        inferences(k, replies) == 0,
        actions(k, replies) == 0,
{
    lemma_run_spends(k, replies);
}

/// No inference is spent while the breaker is open. A task that comes to the
/// model then falls back, and that closes the breaker again.
pub proof fn law_an_open_breaker_spends_no_inference(k: KernelModel, reply: ReplyModel)
    requires
        k.sound(),
    ensures
        moves::asks(k.step(reply)) ==> !k.breaker.open,
        k.breaker.open && k.stage is Act && !moves::ruled(k) && k.wait is Nothing && reply
            is Nothing && k.hooks.names.len() == 0 ==> k.step(reply).0.stage
            == (StageModel::Degrade { reason: "breaker open"@, reset: true }),
        k.stage is Finish && k.stage->Finish_reset && !(k.step(reply).0.stage is Finish)
            ==> k.step(reply).0.breaker == k.breaker.after_reset(),
{
    moves::lemma_step_moves(k, reply);
    lemma_open_breaker(k);
}

proof fn lemma_open_breaker(k: KernelModel)
    ensures
        k.breaker.open && k.stage is Act && !moves::ruled(k) && k.wait is Nothing
            && k.hooks.names.len() == 0 ==> k.step(ReplyModel::Nothing).0.stage
            == (StageModel::Degrade { reason: "breaker open"@, reset: true }),
{
    if k.stage is Act && k.wait is Nothing {
        reveal(KernelModel::step);
        reveal(KernelModel::step_stage);
    }
}

// Outcomes.

/// Every task is answered: when the task of an event is done, it has an outcome,
/// with one of the statuses and ways that are known.
pub proof fn law_every_task_is_answered(
    k: KernelModel,
    e: EventModel,
    replies: Seq<ReplyModel>,
    end: KernelModel,
    outcome: Option<OutcomeModel>,
)
    requires
        k.sound(),
        k.resting(),
        run::leads(k.begun(e), replies, end, ActionModel::Done { outcome }),
    ensures
        outcome is Some,
        soundness::known_outcome(outcome->0) || moves::reload_outcome(outcome),
{
    let begun = k.begun(e);
    soundness::law_every_beginning_keeps_soundness(k, e);
    soundness::law_every_run_keeps_soundness(begun, replies.drop_last());
    lemma_last_step(begun, replies, 0);
}

/// The last step of a task, and what was kept until then.
proof fn lemma_last_step(k: KernelModel, replies: Seq<ReplyModel>, m: int)
    requires
        k.coherent(),
        run::ongoing(k, replies),
        0 <= m < replies.len(),
    ensures
        run::after_replies(k, replies.take(0)) == k,
        moves::kept(
            run::after_replies(k, replies.take(m)),
            run::after_replies(k, replies.drop_last()),
        ),
        moves::moves(
            run::after_replies(k, replies.drop_last()),
            (run::after_replies(k, replies), run::action_of(k, replies)),
        ),
{
    let n = replies.len() - 1;
    assert(replies.take(0) =~= Seq::<ReplyModel>::empty());
    assert(replies.take(n) =~= replies.drop_last());
    moves::lemma_along(k, replies, m, n);
    moves::lemma_step_moves(run::after_replies(k, replies.drop_last()), replies.last());
}

/// The conversation changes only when a task is done, and only by what was
/// said: a command that is a text, and the answer to a command.
pub proof fn law_only_commands_are_remembered(
    k: KernelModel,
    e: EventModel,
    replies: Seq<ReplyModel>,
    end: KernelModel,
    outcome: OutcomeModel,
)
    requires
        k.sound(),
        k.resting(),
        run::leads(k.begun(e), replies, end, ActionModel::Done { outcome: Some(outcome) }),
    ensures
        end.context == k.begun(e).remembered(outcome),
        e.kind != "command"@ ==> end.context == k.context,
{
    soundness::law_every_beginning_keeps_soundness(k, e);
    lemma_last_step(k.begun(e), replies, 0);
    reveal_strlit("command");
    reveal_strlit("plugin_reload");
    assert("command"@.len() != "plugin_reload"@.len());
}

/// A command that is a text, and its answer, are remembered, whatever was said before:
/// they are pushed onto the conversation, the command in the user's role and the answer
/// in the assistant's, so where all fits the budget, the conversation goes on with
/// exactly these two entries.
pub proof fn law_commands_and_answers_are_remembered(
    k: KernelModel,
    e: EventModel,
    t: Text,
    replies: Seq<ReplyModel>,
    end: KernelModel,
    o: OutcomeModel,
)
    requires
        k.sound(),
        k.resting(),
        e.kind == "command"@,
        e.payload == json::quoted(t) || json::json_string(e.payload) == Some(t),
        run::leads(k.begun(e), replies, end, ActionModel::Done { outcome: Some(o) }),
    ensures
        end.context_budget == k.context_budget,
        end.context == context::pushed(
            context::pushed(k.context, k.context_budget, "user"@, t),
            k.context_budget,
            "assistant"@,
            o.reply,
        ),
        context::total_cost(k.context) + text::byte_len("user"@) + text::byte_len(t)
            + text::byte_len("assistant"@) + text::byte_len(o.reply) <= k.context_budget
            ==> end.context == k.context + seq![
            EntryModel { role: "user"@, content: t },
            EntryModel { role: "assistant"@, content: o.reply },
        ],
{
    let b = k.begun(e);
    soundness::law_every_beginning_keeps_soundness(k, e);
    lemma_last_step(b, replies, 0);
    lemma_budget_stays(b, replies);
    reveal_strlit("command");
    reveal_strlit("plugin_reload");
    assert("command"@.len() != "plugin_reload"@.len());
    json::law_strings_read_back(t);
    if context::total_cost(k.context) + text::byte_len("user"@) + text::byte_len(t)
        + text::byte_len("assistant"@) + text::byte_len(o.reply) <= k.context_budget {
        let said = k.context.push(EntryModel { role: "user"@, content: t });
        context::law_nothing_dropped_while_it_fits(k.context, k.context_budget, "user"@, t);
        assert(said.drop_last() =~= k.context);
        context::law_nothing_dropped_while_it_fits(
            said,
            k.context_budget,
            "assistant"@,
            o.reply,
        );
        assert(end.context =~= k.context + seq![
            EntryModel { role: "user"@, content: t },
            EntryModel { role: "assistant"@, content: o.reply },
        ]);
    }
}

/// Of a command that is no text only the answer is remembered, and of any other event
/// nothing is.
pub proof fn law_what_is_no_text_is_not_remembered(
    k: KernelModel,
    e: EventModel,
    replies: Seq<ReplyModel>,
    end: KernelModel,
    o: OutcomeModel,
)
    requires
        k.sound(),
        k.resting(),
        json::json_string(e.payload) is None || e.kind != "command"@,
        run::leads(k.begun(e), replies, end, ActionModel::Done { outcome: Some(o) }),
    ensures
        e.kind == "command"@ ==> end.context == context::pushed(
            k.context,
            k.context_budget,
            "assistant"@,
            o.reply,
        ),
        e.kind != "command"@ ==> end.context == k.context,
{
    soundness::law_every_beginning_keeps_soundness(k, e);
    lemma_last_step(k.begun(e), replies, 0);
    reveal_strlit("command");
    reveal_strlit("plugin_reload");
    assert("command"@.len() != "plugin_reload"@.len());
}

/// The budget of the conversation never changes.
proof fn lemma_budget_stays(k: KernelModel, replies: Seq<ReplyModel>)
    ensures
        run::after_replies(k, replies).context_budget == k.context_budget,
    decreases replies.len(),
{
    if replies.len() > 0 {
        lemma_budget_stays(k, replies.drop_last());
        lemma_step_keeps_budget(run::after_replies(k, replies.drop_last()), replies.last());
    }
}

proof fn lemma_step_keeps_budget(k: KernelModel, reply: ReplyModel)
    ensures
        k.step(reply).0.context_budget == k.context_budget,
{
    reveal(KernelModel::step);
    reveal(KernelModel::step_stage);
    reveal(KernelModel::called);
    reveal(KernelModel::after);
}

/// What is settled is what is reported.
proof fn lemma_settled_is_reported(
    k: KernelModel,
    replies: Seq<ReplyModel>,
    end: KernelModel,
    done: Option<OutcomeModel>,
    m: int,
)
    requires
        k.coherent(),
        run::leads(k, replies, end, ActionModel::Done { outcome: done }),
        0 <= m < replies.len(),
        moves::settled(run::after_replies(k, replies.take(m))) is Some,
    ensures
        done == moves::settled(run::after_replies(k, replies.take(m))),
{
    lemma_last_step(k, replies, m);
}

/// The first reply settles the outcome.
proof fn lemma_first_settles(
    k: KernelModel,
    replies: Seq<ReplyModel>,
    end: KernelModel,
    done: Option<OutcomeModel>,
)
    requires
        k.coherent(),
        run::leads(k, replies, end, ActionModel::Done { outcome: done }),
        k.step(replies[0]).1 is Continue,
        moves::settled(k.step(replies[0]).0) is Some,
    ensures
        done == moves::settled(k.step(replies[0]).0),
{
    let one = replies.take(1);
    assert(one.drop_last() =~= Seq::<ReplyModel>::empty());
    if replies.len() == 1 {
        assert(replies.drop_last() =~= Seq::<ReplyModel>::empty());
    } else {
        lemma_settled_is_reported(k, replies, end, done, 1);
    }
}

/// The outcome stands: once a task has one, nothing that hooks answer or the
/// disk replies can change what is reported.
pub proof fn law_the_outcome_stands(
    k: KernelModel,
    replies: Seq<ReplyModel>,
    end: KernelModel,
    done: Option<OutcomeModel>,
)
    requires
        k.coherent(),
        k.outcome() is Some,
        run::leads(k, replies, end, ActionModel::Done { outcome: done }),
    ensures
        done == k.outcome(),
{
    lemma_last_step(k, replies, 0);
}

/// The task of a turn that comes to the mock is answered with what the mock says to
/// it, where that is no dead loop, whatever hooks say.
pub proof fn law_the_mock_is_the_answer(
    k: KernelModel,
    turn: TurnModel,
    replies: Seq<ReplyModel>,
    end: KernelModel,
    done: Option<OutcomeModel>,
)
    requires
        k.coherent(),
        k.wait is Model,
        !k.breaker.loops_on(
            command::fingerprint_of(
                CommandModel {
                    reply: Some(inference::mock_text(turn)),
                    tool: None,
                    args: "null"@,
                },
            ),
        ),
        run::leads(k, replies, end, ActionModel::Done { outcome: done }),
        replies[0] == (ReplyModel::Model { result: Ok(inference::mock_command(turn)) }),
    ensures
        done == Some(moves::well("model"@, inference::mock_text(turn))),
{
    let said = inference::mock_text(turn);
    command::law_replies_are_commands(said);
    law_the_models_reply_is_the_answer(
        k,
        inference::mock_command(turn),
        CommandModel { reply: Some(said), tool: None, args: "null"@ },
        replies,
        end,
        done,
    );
}

/// When the model answers with a command to reply, and that is no dead loop,
/// the reply is what the task is answered, whatever hooks say.
pub proof fn law_the_models_reply_is_the_answer(
    k: KernelModel,
    raw: Text,
    cmd: CommandModel,
    replies: Seq<ReplyModel>,
    end: KernelModel,
    done: Option<OutcomeModel>,
)
    requires
        k.coherent(),
        k.wait is Model,
        command::command_of(raw) == Ok::<_, command::CommandError>(cmd),
        cmd.reply is Some,
        !k.breaker.loops_on(command::fingerprint_of(cmd)),
        run::leads(k, replies, end, ActionModel::Done { outcome: done }),
        replies[0] == (ReplyModel::Model { result: Ok(raw) }),
    ensures
        done == Some(moves::well("model"@, cmd.reply->0)),
{
    reveal(KernelModel::step);
    command::law_commands_reply_or_act(raw);
    lemma_first_settles(k, replies, end, done);
}

/// When the strategy decides by a rule, its answer is what the task is
/// answered, whatever hooks say.
pub proof fn law_the_strategys_rule_is_the_answer(
    k: KernelModel,
    out: OutputModel,
    replies: Seq<ReplyModel>,
    end: KernelModel,
    done: Option<OutcomeModel>,
)
    requires
        k.coherent(),
        k.wait is Plugin,
        k.wait->Plugin_job is Route,
        out.ok,
        out.decision == Some("rule"@),
        run::leads(k, replies, end, ActionModel::Done { outcome: done }),
        replies[0] == (ReplyModel::Plugin { result: Ok(out) }),
    ensures
        done == Some(moves::well("rule"@, model::answer_text(out))),
{
    reveal(KernelModel::step);
    reveal(KernelModel::after);
    lemma_first_settles(k, replies, end, done);
}

/// When a tool succeeds, its answer is what the task is answered, whatever
/// hooks say.
pub proof fn law_the_tools_answer_is_the_answer(
    k: KernelModel,
    out: OutputModel,
    replies: Seq<ReplyModel>,
    end: KernelModel,
    done: Option<OutcomeModel>,
)
    requires
        k.coherent(),
        k.wait is Plugin,
        k.wait->Plugin_job is Tool,
        out.ok,
        run::leads(k, replies, end, ActionModel::Done { outcome: done }),
        replies[0] == (ReplyModel::Plugin { result: Ok(out) }),
    ensures
        done == Some(moves::well("tool"@, model::answer_text(out))),
{
    reveal(KernelModel::step);
    reveal(KernelModel::after);
    lemma_first_settles(k, replies, end, done);
}

/// A task that leaves the happy path ends with a rule of the strategy, or is
/// safely refused with the reason that was announced to the `on_degrade` hooks.
pub proof fn law_degraded_tasks_fall_back_or_are_refused(
    k: KernelModel,
    reason: Text,
    replies: Seq<ReplyModel>,
    end: KernelModel,
    done: Option<OutcomeModel>,
)
    requires
        k.coherent(),
        moves::degraded(k, reason),
        run::leads(k, replies, end, ActionModel::Done { outcome: done }),
    ensures
        done is Some,
        moves::falls_back(done->0, reason),
{
    lemma_last_step(k, replies, 0);
    assert(moves::degraded(run::after_replies(k, replies.drop_last()), reason));
}

/// The `on_degrade` hooks learn the reason before anything else happens.
pub proof fn law_degradation_is_announced(k: KernelModel, reason: Text, reset: bool)
    requires
        k.stage == (StageModel::Degrade { reason, reset }),
        k.wait is Nothing,
        k.hooks.names.len() == 0,
    ensures
        k.step(ReplyModel::Nothing).0.hooks == (model::HookRun {
            point: "on_degrade"@,
            names: k.hook_names("on_degrade"@),
            data: json::object_text(model::reason_data(reason)),
            with_event: true,
        }),
        k.step(ReplyModel::Nothing).0.stage == (StageModel::Fallback { reason, reset }),
{
    reveal(KernelModel::step);
    reveal(KernelModel::step_stage);
}

// Reloading.

/// A hot update is silent: the kernel asks for the plugin at once, no plugin
/// sees the event, and with the reply it rests again with only that plugin
/// resolved anew; where the versions could not be listed, nothing changes.
pub proof fn law_hot_updates_are_silent(
    k: KernelModel,
    e: EventModel,
    package: Result<Option<PluginModel>, Text>,
)
    requires
        k.resting(),
        k.event is None,
        e.kind == "plugin_reload"@,
    ensures
        ({
            let asked = k.begun(e).step(ReplyModel::Nothing);
            let end = asked.0.step(ReplyModel::Package { result: package });
            &&& asked.1 is Reload
            &&& end.0.resting()
            &&& end.1 is Done
            &&& end.0 == (KernelModel {
                task: model::next_task(k.task),
                attempt: 0,
                plugins: match package {
                    Ok(p) => registry::resolved(k.plugins, asked.1->Reload_name, p),
                    Err(_) => k.plugins,
                },
                ..k
            })
        }),
{
    reveal(KernelModel::step);
    reveal(KernelModel::step_stage);
}

/// A plugin that was rolled back is announced at the next boundary: its name is
/// noted when its stable version comes, and when a task has ended the
/// `on_rollback` hooks learn every name that was noted, in order.
pub proof fn law_rollbacks_are_announced(k: KernelModel, reply: ReplyModel)
    ensures
        k.wait is Package && reply is Package ==> k.step(reply).0.pending == k.pending.push(
            k.wait->Package_name,
        ),
        k.stage is Drain && k.wait is Nothing && reply is Nothing && k.hooks.names.len() == 0
            ==> k.step(reply).0.stage is Rollbacks && k.step(reply).0.stage->Rollbacks_left
            == k.pending && k.step(reply).0.pending == Seq::<Text>::empty(),
        k.stage is Rollbacks && k.stage->Rollbacks_left.len() > 0 && k.wait is Nothing
            && reply is Nothing && k.hooks.names.len() == 0 ==> k.step(reply).0.hooks == (
        model::HookRun {
            point: "on_rollback"@,
            names: k.hook_names("on_rollback"@),
            data: json::object_text(model::rollback_data(k.stage->Rollbacks_left[0])),
            with_event: false,
        }) && k.step(reply).0.stage->Rollbacks_left == k.stage->Rollbacks_left.drop_first(),
{
    reveal(KernelModel::step);
    reveal(KernelModel::after);
    reveal(KernelModel::step_stage);
}

/// A plugin that has failed too often is rolled back. The version that failed is to
/// be disabled, and once its directory is marked, the plugin is the highest other
/// version that can be loaded, with a count of zero, or is gone where there is none.
/// No other plugin changes.
pub proof fn law_a_failing_plugin_is_rolled_back(
    k: KernelModel,
    result: Result<OutputModel, Text>,
    vs: Seq<VersionModel>,
    dir: Text,
    trust: TrustModel,
    order: Seq<usize>,
    plugin: Option<PluginModel>,
    skipped: Seq<SkipModel>,
    other: Text,
)
    requires
        k.wait is Plugin,
        !k.wait->Plugin_native,
        names::ascending(k.plugins),
        registry::trips(
            k.plugins,
            k.wait->Plugin_name,
            result is Ok && result->Ok_0.ok,
            k.settings.plugin_max_failures,
        ),
        forall|i: int|
            0 <= i < vs.len() && (#[trigger] vs[i]).path == names::find(
                k.plugins,
                k.wait->Plugin_name,
            )->0.dir ==> vs[i].disabled,
        registry::ranking(vs, order),
        registry::selected(vs, dir, trust, order, plugin, skipped),
    ensures
        ({
            let name = k.wait->Plugin_name;
            let active = names::find(k.plugins, name)->0;
            let asked = k.step(ReplyModel::Plugin { result });
            let end = asked.0.step(ReplyModel::Package { result: Ok(plugin) }).0;
            &&& asked.1 == (ActionModel::Disable { name, dir: active.dir })
            &&& names::find(end.plugins, name) == plugin
            &&& other != name ==> names::find(end.plugins, other) == names::find(k.plugins, other)
            &&& plugin matches Some(p) ==> p.failures == 0 && p.dir != active.dir
            &&& plugin is None ==> skipped.len() == order.len()
        }),
{
    let name = k.wait->Plugin_name;
    let active = names::find(k.plugins, name)->0;
    let ok = result is Ok && result->Ok_0.ok;
    let counted = PluginModel {
        failures: registry::failures_after(active.failures, ok),
        ..active
    };
    let s = registry::reported(k.plugins, name, ok);
    reveal(KernelModel::step);
    reveal(KernelModel::after);
    names::lemma_put_find(k.plugins, name, counted, other);
    names::lemma_put_ascending(k.plugins, name, counted);
    names::lemma_without_find(s, name, other);
    if plugin is Some {
        names::lemma_put_find(s, name, plugin->0, other);
        let i = order[skipped.len() as int] as int;
        assert(registry::usable(vs[i]));
        assert(vs[i].path == plugin->0.dir);
    }
}

} // verus!
