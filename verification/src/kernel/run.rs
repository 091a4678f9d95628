//! Runs of the kernel: what a sequence of replies makes of it.

use crate::event::EventModel;
use crate::inference::Says;
use crate::kernel::mind::Question;
use crate::kernel::model::{ActionModel, KernelModel, OutcomeModel, ReplyModel};
use crate::names;
use crate::plugin::abi;
use crate::plugin::bridge;
use crate::plugin::bridge::Bridge;
use crate::plugin::host::SandboxCall;
use crate::plugin::native;
use crate::plugin::native::{NativeCall, Natives};
use crate::plugin::registry::Plugins;
use crate::plugin::runtime;
use crate::plugin::runtime::GuestRun;
use crate::text;
use crate::text::Text;
use vstd::prelude::*;
use vstd::utf8;

verus! {

/// The kernel after a sequence of replies.
pub open spec fn after_replies(k: KernelModel, replies: Seq<ReplyModel>) -> KernelModel
    decreases replies.len(),
{
    if replies.len() == 0 {
        k
    } else {
        after_replies(k, replies.drop_last()).step(replies.last()).0
    }
}

/// What the kernel asks for after the last of the replies.
pub open spec fn action_of(k: KernelModel, replies: Seq<ReplyModel>) -> ActionModel {
    after_replies(k, replies.drop_last()).step(replies.last()).1
}

/// What surrounds the kernel: what the model may say, and the way to
/// capabilities and the budgets that a sandbox gets.
pub struct World {
    pub model: Says,
    pub bridge: Bridge,
    pub fuel: u64,
    pub memory_limit: usize,
    /// The model is reached from outside: a question to it ends the run.
    pub remote: bool,
}

/// What came back along a run: the replies, and for each of them what a guest
/// did where one was run for it.
pub struct Course {
    pub replies: Seq<ReplyModel>,
    pub guests: Seq<GuestRun>,
}

/// The sandbox that a wasm plugin gets: one with the capabilities that its
/// manifest declares, and with the way to them and the budgets that are set.
pub open spec fn opening(w: World, plugins: Plugins, name: Text) -> SandboxCall {
    SandboxCall::Open {
        plugin: name,
        capabilities: names::find(plugins, name)->0.manifest.capabilities,
        bridge: w.bridge,
        fuel: w.fuel,
        memory_limit: w.memory_limit,
        memories: runtime::MAX_MEMORIES,
    }
}

/// The record of what the kernel has others do: what it asks of sandboxes, of native
/// plugins and of the model, and what comes back.
#[verifier::ext_equal]
pub struct Deeds {
    pub sandboxes: Seq<SandboxCall>,
    pub natives: Seq<NativeCall>,
    pub questions: Seq<Question>,
}

impl Deeds {
    pub open spec fn none() -> Self {
        Deeds { sandboxes: seq![], natives: seq![], questions: seq![] }
    }

    /// These, and then those.
    pub open spec fn and(self, more: Self) -> Self {
        Deeds {
            sandboxes: self.sandboxes + more.sandboxes,
            natives: self.natives + more.natives,
            questions: self.questions + more.questions,
        }
    }
}

/// What goes on record for an action that is replied to with `reply`, where the guest
/// does `g`: one sandbox that is opened for a wasm plugin, or one question to a native
/// plugin or to the model.
pub open spec fn deed(
    w: World,
    plugins: Plugins,
    action: ActionModel,
    reply: ReplyModel,
    g: GuestRun,
) -> Deeds {
    match action {
        ActionModel::Wasm { name, input } => Deeds {
            sandboxes: runtime::calls_of(
                opening(w, plugins, name),
                names::find(plugins, name)->0.code,
                utf8::encode_utf8(abi::input_json(input)),
                g,
            ),
            ..Deeds::none()
        },
        ActionModel::Native { name, input } => Deeds {
            natives: seq![NativeCall { name, input, result: reply->Plugin_result }],
            ..Deeds::none()
        },
        ActionModel::Ask { system, context, input } => Deeds {
            questions: seq![Question { system, context, input, result: reply->Model_result }],
            ..Deeds::none()
        },
        _ => Deeds::none(),
    }
}

/// A reply to an action that needs no file: nothing to nothing, to a call what
/// the plugin may answer to that input, and to a question what the model may say
/// to it. On the record of what was handed to the provider for a guest stand only
/// requests of that plugin for capabilities that its manifest declares.
pub open spec fn replies_to(
    w: World,
    plugins: Plugins,
    natives: Natives,
    action: ActionModel,
    reply: ReplyModel,
    g: GuestRun,
) -> bool {
    match action {
        ActionModel::Continue => reply is Nothing,
        ActionModel::Native { name, input } => reply is Plugin && native::may_answer(
            natives,
            name,
            input,
            reply->Plugin_result,
        ),
        ActionModel::Wasm { name, input } => reply == (ReplyModel::Plugin {
            result: runtime::run_result(text::byte_len(abi::input_json(input)), g),
        }) && bridge::all_declared(
            name,
            names::find(plugins, name)->0.manifest.capabilities,
            w.bridge,
            g.passed,
        ),
        ActionModel::Ask { system, context, input } => reply is Model && (w.model)(
            system,
            context,
            input,
            reply->Model_result,
        ),
        _ => false,
    }
}

/// Each reply but the first replies to what the kernel asked for before it.
pub open spec fn faithful(w: World, k: KernelModel, c: Course) -> bool {
    &&& c.guests.len() == c.replies.len()
    &&& forall|i: int|
        1 <= i < c.replies.len() ==> replies_to(
            w,
            after_replies(k, c.replies.take(i)).plugins,
            k.natives,
            action_of(k, c.replies.take(i)),
            #[trigger] c.replies[i],
            c.guests[i],
        )
}

/// What is done along a run.
pub open spec fn deeds(w: World, k: KernelModel, c: Course) -> Deeds
    decreases c.replies.len(),
{
    if c.replies.len() <= 1 {
        Deeds::none()
    } else {
        let before = c.replies.drop_last();
        deeds(w, k, Course { replies: before, guests: c.guests.drop_last() }).and(
            deed(
                w,
                after_replies(k, before).plugins,
                action_of(k, before),
                c.replies.last(),
                c.guests.last(),
            ),
        )
    }
}

/// What a guest leaves in the log where one was run for an action.
pub open spec fn guest_lines(action: ActionModel, g: GuestRun) -> Seq<Text> {
    if action is Wasm {
        g.log
    } else {
        seq![]
    }
}

/// What is logged along a run.
pub open spec fn said(k: KernelModel, c: Course) -> Seq<Text>
    decreases c.replies.len(),
{
    if c.replies.len() == 0 {
        seq![]
    } else {
        let before = c.replies.drop_last();
        said(k, Course { replies: before, guests: c.guests.drop_last() }) + (
        if c.replies.len() == 1 {
            seq![]
        } else {
            guest_lines(action_of(k, before), c.guests.last())
        }) + after_replies(k, before).notes(c.replies.last())
    }
}

/// A run from `k` that starts with `first` and ends in `end`, where the kernel
/// asks for `action`.
pub open spec fn run(
    w: World,
    k: KernelModel,
    first: ReplyModel,
    c: Course,
    end: KernelModel,
    action: ActionModel,
) -> bool {
    &&& c.replies.len() > 0
    &&& c.replies[0] == first
    &&& faithful(w, k, c)
    &&& end == after_replies(k, c.replies)
    &&& action == action_of(k, c.replies)
}

/// The run ends where the kernel needs something from outside, or is done.
pub open spec fn pauses(action: ActionModel) -> bool {
    match action {
        ActionModel::ReadFile { .. } => true,
        ActionModel::Ask { .. } => true,
        ActionModel::Disable { .. } => true,
        ActionModel::Reload { .. } => true,
        ActionModel::Done { .. } => true,
        ActionModel::Rest => true,
        _ => false,
    }
}

/// A course that goes one reply further.
pub open spec fn longer(c: Course, reply: ReplyModel, g: GuestRun) -> Course {
    Course { replies: c.replies.push(reply), guests: c.guests.push(g) }
}

/// A run that goes one reply further.
pub proof fn lemma_longer(w: World, k: KernelModel, c: Course, reply: ReplyModel, g: GuestRun)
    requires
        faithful(w, k, c),
        c.replies.len() > 0 ==> replies_to(
            w,
            after_replies(k, c.replies).plugins,
            k.natives,
            action_of(k, c.replies),
            reply,
            g,
        ),
    ensures
        faithful(w, k, longer(c, reply, g)),
        after_replies(k, longer(c, reply, g).replies) == after_replies(k, c.replies).step(reply).0,
        action_of(k, longer(c, reply, g).replies) == after_replies(k, c.replies).step(reply).1,
        deeds(w, k, longer(c, reply, g)) == deeds(w, k, c).and(
            if c.replies.len() == 0 {
                Deeds::none()
            } else {
                deed(w, after_replies(k, c.replies).plugins, action_of(k, c.replies), reply, g)
            },
        ),
        said(k, longer(c, reply, g)) == said(k, c) + (if c.replies.len() == 0 {
            seq![]
        } else {
            guest_lines(action_of(k, c.replies), g)
        }) + after_replies(k, c.replies).notes(reply),
{
    let more = longer(c, reply, g);
    assert(more.replies.drop_last() =~= c.replies);
    assert(more.guests.drop_last() =~= c.guests);
    assert forall|i: int| 1 <= i < more.replies.len() implies replies_to(
        w,
        after_replies(k, more.replies.take(i)).plugins,
        k.natives,
        action_of(k, more.replies.take(i)),
        #[trigger] more.replies[i],
        more.guests[i],
    ) by {
        if i < c.replies.len() {
            assert(more.replies.take(i) =~= c.replies.take(i));
            assert(more.replies[i] == c.replies[i]);
        } else {
            assert(more.replies.take(i) =~= c.replies);
        }
    }
    if c.replies.len() == 0 {
        assert(deeds(w, k, c).and(Deeds::none()) =~= Deeds::none());
    }
}

/// Nothing is done before the last of the replies.
pub open spec fn ongoing(k: KernelModel, replies: Seq<ReplyModel>) -> bool {
    forall|i: int|
        1 <= i < replies.len() ==> !(action_of(k, #[trigger] replies.take(i)) is Done)
}

/// Whatever the outside replied, in whatever order: the replies lead from `k` to
/// `end`, where the kernel asks for `action`, and nothing is done on the way.
pub open spec fn leads(
    k: KernelModel,
    replies: Seq<ReplyModel>,
    end: KernelModel,
    action: ActionModel,
) -> bool {
    &&& replies.len() > 0
    &&& ongoing(k, replies)
    &&& end == after_replies(k, replies)
    &&& action == action_of(k, replies)
}

/// A run leads to where it ends.
pub proof fn law_runs_lead(
    w: World,
    k: KernelModel,
    first: ReplyModel,
    c: Course,
    end: KernelModel,
    action: ActionModel,
)
    requires
        run(w, k, first, c, end, action),
    ensures
        leads(k, c.replies, end, action),
{
    assert forall|i: int| 1 <= i < c.replies.len() implies !(action_of(
        k,
        #[trigger] c.replies.take(i),
    ) is Done) by {
        assert(replies_to(
            w,
            after_replies(k, c.replies.take(i)).plugins,
            k.natives,
            action_of(k, c.replies.take(i)),
            c.replies[i],
            c.guests[i],
        ));
    }
}

proof fn lemma_joined(k: KernelModel, a: Seq<ReplyModel>, b: Seq<ReplyModel>)
    ensures
        after_replies(k, a + b) == after_replies(after_replies(k, a), b),
        b.len() > 0 ==> action_of(k, a + b) == action_of(after_replies(k, a), b),
    decreases b.len(),
{
    if b.len() == 0 {
        assert(a + b =~= a);
    } else {
        assert((a + b).drop_last() =~= a + b.drop_last());
        lemma_joined(k, a, b.drop_last());
    }
}

/// A task that pauses, for a file or for a package, goes on where it paused: what
/// leads to the pause and what leads on from it are one task.
pub proof fn law_pauses_join(
    k: KernelModel,
    a: Seq<ReplyModel>,
    pause: KernelModel,
    asked: ActionModel,
    b: Seq<ReplyModel>,
    end: KernelModel,
    action: ActionModel,
)
    requires
        leads(k, a, pause, asked),
        !(asked is Done),
        leads(pause, b, end, action),
    ensures
        leads(k, a + b, end, action),
{
    lemma_joined(k, a, b);
    assert forall|i: int| 1 <= i < (a + b).len() implies !(action_of(
        k,
        #[trigger] (a + b).take(i),
    ) is Done) by {
        if i < a.len() {
            assert((a + b).take(i) =~= a.take(i));
        } else if i == a.len() {
            assert((a + b).take(i) =~= a);
        } else {
            let m = i - a.len();
            assert((a + b).take(i) =~= a + b.take(m));
            lemma_joined(k, a, b.take(m));
        }
    }
}

/// The events of `events` were served one after the other, from `states[0]` on:
/// each task was a run of its own, and had the outcome given.
pub open spec fn served(
    w: World,
    states: Seq<KernelModel>,
    events: Seq<EventModel>,
    runs: Seq<Course>,
    outcomes: Seq<OutcomeModel>,
) -> bool {
    &&& states.len() == events.len() + 1
    &&& runs.len() == events.len()
    &&& outcomes.len() == events.len()
    &&& forall|i: int|
        0 <= i < events.len() ==> run(
            w,
            states[i].begun(events[i]),
            ReplyModel::Nothing,
            #[trigger] runs[i],
            states[i + 1],
            ActionModel::Done { outcome: Some(outcomes[i]) },
        )
}

/// What is done while events are served.
pub open spec fn all_deeds(
    w: World,
    states: Seq<KernelModel>,
    events: Seq<EventModel>,
    runs: Seq<Course>,
) -> Deeds
    decreases runs.len(),
{
    if runs.len() == 0 {
        Deeds::none()
    } else {
        let n = runs.len() - 1;
        all_deeds(w, states, events, runs.drop_last()).and(
            deeds(w, states[n].begun(events[n]), runs[n]),
        )
    }
}

/// What is logged while events are served.
pub open spec fn all_said(
    states: Seq<KernelModel>,
    events: Seq<EventModel>,
    runs: Seq<Course>,
) -> Seq<Text>
    decreases runs.len(),
{
    if runs.len() == 0 {
        seq![]
    } else {
        let n = runs.len() - 1;
        all_said(states, events, runs.drop_last()) + said(states[n].begun(events[n]), runs[n])
    }
}

/// The log grows in order: with every reply come first the lines of the guest that was run
/// for it, where one was, and then what the kernel has to say itself. Nothing that was
/// said before changes.
pub proof fn law_the_log_grows_in_order(k: KernelModel, c: Course, reply: ReplyModel, g: GuestRun)
    requires
        c.guests.len() == c.replies.len(),
        c.replies.len() > 0,
    ensures
        said(k, longer(c, reply, g)) == said(k, c) + (if action_of(k, c.replies) is Wasm {
            g.log
        } else {
            seq![]
        }) + after_replies(k, c.replies).notes(reply),
        said(k, c).is_prefix_of(said(k, longer(c, reply, g))),
{
    let more = longer(c, reply, g);
    assert(more.replies.drop_last() =~= c.replies);
    assert(more.guests.drop_last() =~= c.guests);
    assert(said(k, c) =~= said(k, more).take(said(k, c).len() as int));
}

/// What was asked is on record as it was asked, with what came back: of the model, and of
/// a native plugin. Other steps leave these records alone.
pub proof fn law_what_is_asked_is_on_record(
    w: World,
    plugins: Plugins,
    action: ActionModel,
    reply: ReplyModel,
    g: GuestRun,
)
    ensures
        action matches ActionModel::Ask { system, context, input } ==> deed(
            w,
            plugins,
            action,
            reply,
            g,
        ).questions == seq![Question { system, context, input, result: reply->Model_result }],
        !(action is Ask) ==> deed(w, plugins, action, reply, g).questions.len() == 0,
        action matches ActionModel::Native { name, input } ==> deed(
            w,
            plugins,
            action,
            reply,
            g,
        ).natives == seq![NativeCall { name, input, result: reply->Plugin_result }],
        !(action is Native) ==> deed(w, plugins, action, reply, g).natives.len() == 0,
        !(action is Wasm) ==> deed(w, plugins, action, reply, g).sandboxes.len() == 0,
{
}

} // verus!
