//! What the model is asked: the whole conversation, and the turn that the event is.

use crate::event::EventModel;
use crate::inference::{ImageModel, TurnModel};
use crate::json;
use crate::kernel::model;
use crate::kernel::model::{ActionModel, JobModel, KernelModel, ReplyModel, StageModel, WaitModel};
use crate::kernel::moves;
use crate::kernel::payload;
use crate::kernel::payload::SourceModel;
use crate::kernel::progress;
use crate::kernel::run;
use crate::kernel::soundness;
use crate::kernel::told;
use crate::plugin::abi::OutputModel;
use crate::plugin::registry;
use crate::text::Text;
use vstd::prelude::*;

verus! {

/// The image is what its source gives: the one that came along, or what a file holds,
/// with the type that the path tells.
pub open spec fn comes_from(image: ImageModel, source: SourceModel) -> bool {
    match source {
        SourceModel::Ready(ready) => image == ready,
        SourceModel::File(path) => image.mime == payload::mime_of(path),
    }
}

/// The images are those of the first sources, in their order.
pub open spec fn collected(images: Seq<ImageModel>, sources: Seq<SourceModel>) -> bool {
    &&& images.len() <= sources.len()
    &&& forall|i: int| 0 <= i < images.len() ==> comes_from(#[trigger] images[i], sources[i])
}

/// The turn is what the payload asks: its text, and all its images in their order.
pub open spec fn turn_of(payload: Text, turn: TurnModel) -> bool {
    &&& payload::request_of(payload) matches Ok((t, sources))
    &&& turn.text == t
    &&& turn.images.len() == sources.len()
    &&& collected(turn.images, sources)
}

/// How far the turn has come.
spec fn carried(k0: KernelModel, k: KernelModel) -> bool {
    let p = k0.event->0.payload;
    &&& k.coherent()
    &&& k.event == k0.event
    &&& k.event is Some
    &&& k.context == k0.context
    &&& k0.stage is Act ==> k == k0 || !(k.stage is Route || k.stage is Decide || k.stage is Act)
    &&& match k.stage {
        StageModel::Gather { left } => {
            &&& payload::request_of(p) is Ok
            &&& k.input.text == payload::request_of(p)->Ok_0.0
            &&& collected(k.input.images, payload::request_of(p)->Ok_0.1)
            &&& left == payload::request_of(p)->Ok_0.1.skip(k.input.images.len() as int)
            &&& k0.stage is Act ==> k.system == model::prompt_for(k0.tools())
        },
        StageModel::Try => turn_of(p, k.input) && (k0.stage is Act ==> k.system
            == model::prompt_for(k0.tools())),
        StageModel::Infer => turn_of(p, k.input) && (k0.stage is Act ==> k.system
            == model::prompt_for(k0.tools())),
        StageModel::Check { .. } => turn_of(p, k.input) && (k0.stage is Act ==> k.system
            == model::prompt_for(k0.tools())),
        StageModel::Missed { .. } => turn_of(p, k.input) && (k0.stage is Act ==> k.system
            == model::prompt_for(k0.tools())),
        _ => true,
    }
}

/// A step that collects an image.
proof fn lemma_collects(
    images: Seq<ImageModel>,
    image: ImageModel,
    sources: Seq<SourceModel>,
)
    requires
        collected(images, sources),
        images.len() < sources.len(),
        comes_from(image, sources[images.len() as int]),
    ensures
        collected(images.push(image), sources),
        sources.skip(images.len() as int).drop_first() == sources.skip(images.len() as int + 1),
        sources.skip(images.len() as int)[0] == sources[images.len() as int],
{
    let all = images.push(image);
    assert forall|i: int| 0 <= i < all.len() implies comes_from(#[trigger] all[i], sources[i]) by {
        if i < images.len() {
            assert(all[i] == images[i]);
        }
    }
    assert(sources.skip(images.len() as int).drop_first() =~= sources.skip(
        images.len() as int + 1,
    ));
}

proof fn lemma_gather_step(k0: KernelModel, k: KernelModel)
    requires
        carried(k0, k),
        k.wait is Nothing,
        k.hooks.names.len() == 0,
        k.stage is Gather,
        k.step_stage().0.coherent(),
    ensures
        carried(k0, k.step_stage().0),
{
    reveal(KernelModel::step_stage);
    let p = k0.event->0.payload;
    let sources = payload::request_of(p)->Ok_0.1;
    let left = k.stage->Gather_left;
    let n = k.input.images.len() as int;
    if left.len() > 0 {
        assert(left[0] == sources[n]);
        if left[0] is Ready {
            lemma_collects(k.input.images, left[0]->Ready_0, sources);
        }
    }
}

proof fn lemma_act_step(k0: KernelModel, k: KernelModel)
    requires
        carried(k0, k),
        k.wait is Nothing,
        k.hooks.names.len() == 0,
        k.stage is Act,
        k.step_stage().0.coherent(),
    ensures
        carried(k0, k.step_stage().0),
{
    reveal(KernelModel::step_stage);
    let next = k.step_stage().0;
    if next.stage is Gather {
        let sources = payload::request_of(k0.event->0.payload)->Ok_0.1;
        assert(sources.skip(0) =~= sources);
    }
}

proof fn lemma_after(
    k0: KernelModel,
    a: KernelModel,
    k: KernelModel,
    job: JobModel,
    result: Result<OutputModel, Text>,
)
    requires
        carried(k0, a),
        k == (KernelModel { plugins: k.plugins, pending: k.pending, wait: k.wait, ..a }),
        progress::job_fits(job, a.stage),
        soundness::job_of(a.wait) is Some || a.wait is Nothing,
        k0.stage is Act ==> a != k0,
        k.after(job, result).coherent(),
    ensures
        carried(k0, k.after(job, result)),
{
    reveal(KernelModel::after);
}

proof fn lemma_calls(k0: KernelModel, k: KernelModel)
    requires
        carried(k0, k),
        k.wait is Nothing,
        k.hooks.names.len() == 0,
        k.stage is Route || k.stage is Infer || k.stage is Check || k.stage is CallTool || k.stage
            is Fallback,
        k.step_stage().0.coherent(),
    ensures
        carried(k0, k.step_stage().0),
{
    reveal(KernelModel::step_stage);
    reveal(KernelModel::called);
    reveal(KernelModel::after);
}

proof fn lemma_other_step(k0: KernelModel, k: KernelModel)
    requires
        carried(k0, k),
        k.wait is Nothing,
        k.hooks.names.len() == 0,
        k.stage is Decide || k.stage is Try || k.stage is Missed || k.stage is Guard || k.stage
            is Tool || k.stage is Settle || k.stage is Degrade || k.stage is Finish,
        k.step_stage().0.coherent(),
    ensures
        carried(k0, k.step_stage().0),
{
    reveal(KernelModel::step_stage);
}

proof fn lemma_end_step(k0: KernelModel, k: KernelModel)
    requires
        carried(k0, k),
        k.wait is Nothing,
        k.hooks.names.len() == 0,
        k.stage is Drain || k.stage is Rollbacks || k.stage is Close || k.stage is Reload,
        k.step_stage().0.coherent(),
        !(k.step_stage().1 is Done),
    ensures
        carried(k0, k.step_stage().0),
{
    reveal(KernelModel::step_stage);
}

proof fn lemma_step(k0: KernelModel, k: KernelModel, reply: ReplyModel)
    requires
        carried(k0, k),
        k0.stage is Act ==> told::quiet(k0),
        !(k.stage is Idle),
    ensures
        k.step(reply).1 is Done || carried(k0, k.step(reply).0) && !(k.step(reply).0.stage is Idle),
{
    progress::law_every_step_makes_progress(k, reply);
    reveal(KernelModel::step);
    match (k.wait, reply) {
        (WaitModel::Nothing, ReplyModel::Nothing) => {
            if k.hooks.names.len() > 0 {
                reveal(KernelModel::called);
                reveal(KernelModel::after);
            } else if k.stage is Gather {
                lemma_gather_step(k0, k);
            } else if k.stage is Act {
                lemma_act_step(k0, k);
            } else if k.stage is Route || k.stage is Infer || k.stage is Check || k.stage
                is CallTool || k.stage is Fallback {
                lemma_calls(k0, k);
            } else if k.stage is Drain || k.stage is Rollbacks || k.stage is Close || k.stage
                is Reload {
                if !(k.step_stage().1 is Done) {
                    lemma_end_step(k0, k);
                }
            } else {
                lemma_other_step(k0, k);
            }
        },
        (WaitModel::Plugin { name, native, job }, ReplyModel::Plugin { result }) => {
            let ok = match result {
                Ok(out) => out.ok,
                Err(_) => false,
            };
            let k1 = KernelModel { plugins: registry::reported(k.plugins, name, ok), ..k };
            if native {
                lemma_after(k0, k, k, job, result);
            } else if !registry::trips(k.plugins, name, ok, k.settings.plugin_max_failures) {
                lemma_after(k0, k, k1, job, result);
            }
        },
        (WaitModel::Package { name, result, job }, ReplyModel::Package { result: package }) => {
            let k1 = KernelModel {
                plugins: match package {
                    Ok(p) => registry::resolved(k.plugins, name, p),
                    Err(_) => k.plugins,
                },
                pending: k.pending.push(name),
                ..k
            };
            lemma_after(k0, k, k1, job, result);
        },
        (WaitModel::File { path }, ReplyModel::File { result }) => {
            let sources = payload::request_of(k0.event->0.payload)->Ok_0.1;
            let n = k.input.images.len() as int;
            assert(k.stage->Gather_left[0] == sources[n]);
            if result is Ok {
                lemma_collects(
                    k.input.images,
                    ImageModel { mime: payload::mime_of(path), data: result->Ok_0 },
                    sources,
                );
            }
        },
        _ => {},
    }
}

proof fn lemma_along(k: KernelModel, replies: Seq<ReplyModel>, n: int)
    requires
        carried(k, k),
        k.stage is Act ==> told::quiet(k),
        !(k.stage is Idle),
        run::ongoing(k, replies),
        0 <= n < replies.len(),
    ensures
        carried(k, run::after_replies(k, replies.take(n))),
        !(run::after_replies(k, replies.take(n)).stage is Idle),
    decreases n,
{
    let now = replies.take(n);
    if n == 0 {
        assert(now =~= Seq::<ReplyModel>::empty());
    } else {
        assert(now.drop_last() =~= replies.take(n - 1));
        lemma_along(k, replies, n - 1);
        lemma_step(k, run::after_replies(k, replies.take(n - 1)), now.last());
        assert(!(run::action_of(k, replies.take(n)) is Done));
    }
}

/// Where the model is asked, it is asked what stands there.
proof fn lemma_question(
    k: KernelModel,
    replies: Seq<ReplyModel>,
    end: KernelModel,
    action: ActionModel,
)
    requires
        carried(k, k),
        k.stage is Act ==> told::quiet(k),
        !(k.stage is Idle),
        run::leads(k, replies, end, action),
        action is Ask,
    ensures
        action->Ask_context == k.context,
        turn_of(k.event->0.payload, action->Ask_input),
        k.stage is Act ==> action->Ask_system == model::prompt_for(k.tools()),
{
    let n = replies.len() - 1;
    let last = run::after_replies(k, replies.drop_last());
    assert(replies.take(n) =~= replies.drop_last());
    lemma_along(k, replies, n);
    moves::lemma_step_moves(last, replies.last());
    assert(action == (ActionModel::Ask {
        system: last.system,
        context: last.context,
        input: last.input,
    })) by {
        reveal(KernelModel::step);
        reveal(KernelModel::step_stage);
        reveal(KernelModel::called);
        reveal(KernelModel::after);
    }
}

/// Whenever the model is asked in the task of an event, it is asked with the whole
/// conversation as it was when the task began, and with the turn that the event's payload
/// is: its text, and all its images in their order. A payload that is a string is asked
/// as it stands.
pub proof fn law_the_model_is_asked_what_the_event_says(
    k: KernelModel,
    e: EventModel,
    replies: Seq<ReplyModel>,
    end: KernelModel,
    action: ActionModel,
    t: Text,
)
    requires
        k.sound(),
        k.resting(),
        run::leads(k.begun(e), replies, end, action),
        action is Ask,
    ensures
        action->Ask_context == k.context,
        turn_of(e.payload, action->Ask_input),
        e.payload == json::quoted(t) ==> action->Ask_input.text == t
            && action->Ask_input.images.len() == 0,
{
    soundness::law_every_beginning_keeps_soundness(k, e);
    lemma_question(k.begun(e), replies, end, action);
    json::law_strings_read_back(t);
}

/// Where the task comes to the model, the model is told of the tools that there are then,
/// in this question and in every further one.
pub proof fn law_the_model_is_told_of_its_tools(
    k: KernelModel,
    replies: Seq<ReplyModel>,
    end: KernelModel,
    action: ActionModel,
)
    requires
        told::quiet(k),
        k.stage is Act,
        k.event is Some,
        run::leads(k, replies, end, action),
        action is Ask,
    ensures
        action->Ask_system == model::prompt_for(k.tools()),
        action->Ask_context == k.context,
        turn_of(k.event->0.payload, action->Ask_input),
{
    lemma_question(k, replies, end, action);
}

/// A file that was read is the next image, with what it holds and with the type that its
/// path tells; one that cannot be read degrades the task, and the reason says which and
/// why.
pub proof fn law_image_files_are_taken_as_they_are(
    k: KernelModel,
    path: Text,
    result: Result<Seq<u8>, Text>,
)
    requires
        k.coherent(),
        k.wait == (WaitModel::File { path }),
    ensures
        ({
            let next = k.step(ReplyModel::File { result }).0;
            &&& result matches Ok(data) ==> next.input.images == k.input.images.push(
                ImageModel { mime: payload::mime_of(path), data },
            ) && next.input.text == k.input.text && next.breaker == k.breaker
            &&& result matches Err(why) ==> moves::degraded(
                next,
                "cannot read image '"@ + path + "': "@ + why,
            ) && next.breaker.failures == (if k.breaker.failures < u32::MAX {
                k.breaker.failures + 1
            } else {
                k.breaker.failures
            })
        }),
{
    reveal(KernelModel::step);
}

/// A task that comes to the model while the breaker is open is degraded for that reason,
/// and one whose payload cannot be used for what is wrong with it; any other goes on to
/// the model.
pub proof fn law_the_way_to_the_model(k: KernelModel, e: EventModel)
    requires
        told::quiet(k),
        k.stage is Act,
        k.event == Some(e),
        k.stage->Act_decision != "rule"@ || k.stage->Act_out is None,
    ensures
        ({
            let next = k.step(ReplyModel::Nothing).0;
            &&& k.breaker.open ==> moves::degraded(next, "breaker open"@) && next.breaker
                == k.breaker
            &&& !k.breaker.open ==> (payload::request_of(e.payload) matches Err(why)
                ==> moves::degraded(next, why) && next.breaker.failures == (
            if k.breaker.failures < u32::MAX {
                k.breaker.failures + 1
            } else {
                k.breaker.failures
            }))
            &&& !k.breaker.open && payload::request_of(e.payload) is Ok ==> next.stage is Gather
                && next.breaker == k.breaker && next.attempt == k.attempt
        }),
{
    reveal(KernelModel::step);
    reveal(KernelModel::step_stage);
}

} // verus!
