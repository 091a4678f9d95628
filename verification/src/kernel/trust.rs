//! Which code runs: only what is trusted.

use crate::kernel::laws;
use crate::kernel::model;
use crate::kernel::model::{KernelModel, ReplyModel, WaitModel};
use crate::kernel::moves;
use crate::kernel::progress;
use crate::kernel::run;
use crate::kernel::run::{Course, World};
use crate::names;
use crate::plugin::host::SandboxCall;
use crate::plugin::manifest;
use crate::plugin::manifest::ManifestModel;
use crate::plugin::registry;
use crate::plugin::registry::{PluginModel, TrustModel};
use crate::text::Text;
use vstd::prelude::*;

verus! {

/// A reply brings no plugin but a trusted one.
pub open spec fn brings_trusted(reply: ReplyModel, trust: TrustModel) -> bool {
    match reply {
        ReplyModel::Package { result: Ok(Some(p)) } => registry::trusted(p, trust),
        _ => true,
    }
}

proof fn lemma_resolved_trusted(
    k: KernelModel,
    name: Text,
    package: Option<PluginModel>,
    trust: TrustModel,
)
    requires
        registry::all_trusted(k.plugins, trust),
        package is Some ==> registry::trusted(package->0, trust),
    ensures
        registry::all_trusted(registry::resolved(k.plugins, name, package), trust),
{
    match package {
        Some(p) => registry::lemma_put_trusted(k.plugins, name, p, trust),
        None => registry::lemma_without_trusted(k.plugins, name, trust),
    }
}

/// Every step keeps the plugins trusted, as long as the disk brings only trusted
/// ones.
pub proof fn law_every_step_keeps_trust(k: KernelModel, reply: ReplyModel, trust: TrustModel)
    requires
        k.coherent(),
        registry::all_trusted(k.plugins, trust),
        brings_trusted(reply, trust),
    ensures
        registry::all_trusted(k.step(reply).0.plugins, trust),
{
    moves::lemma_step_moves(k, reply);
    if k.step(reply).0.plugins != k.plugins {
        reveal(KernelModel::step);
        match (k.wait, reply) {
            (WaitModel::Plugin { name, native, job }, ReplyModel::Plugin { result }) => {
                let ok = match result {
                    Ok(out) => out.ok,
                    Err(_) => false,
                };
                let k1 = KernelModel { plugins: registry::reported(k.plugins, name, ok), ..k };
                registry::lemma_reported_trusted(k.plugins, name, ok, trust);
                model::lemma_after(k, k, job, result);
                model::lemma_after(k1, k1, job, result);
            },
            (WaitModel::Package { name, result, job }, ReplyModel::Package { result: package }) => {
                let k1 = KernelModel {
                    plugins: match package {
                        Ok(p) => registry::resolved(k.plugins, name, p),
                        Err(_) => k.plugins,
                    },
                    pending: k.pending.push(name),
                    ..k
                };
                if package is Ok {
                    lemma_resolved_trusted(k, name, package->Ok_0, trust);
                }
                model::lemma_after(k1, k1, job, result);
            },
            (WaitModel::Reload, ReplyModel::Package { result: package }) => {
                if package is Ok && k.awaited() is Some {
                    lemma_resolved_trusted(k, k.awaited()->0, package->Ok_0, trust);
                }
            },
            _ => {},
        }
    }
}

/// Along a run the plugins stay trusted, as long as the disk brings only trusted
/// ones.
pub proof fn law_every_run_keeps_trust(
    k: KernelModel,
    replies: Seq<ReplyModel>,
    trust: TrustModel,
)
    requires
        k.coherent(),
        registry::all_trusted(k.plugins, trust),
        forall|i: int| 0 <= i < replies.len() ==> brings_trusted(#[trigger] replies[i], trust),
    ensures
        run::after_replies(k, replies).coherent(),
        registry::all_trusted(run::after_replies(k, replies).plugins, trust),
    decreases replies.len(),
{
    if replies.len() > 0 {
        let before = replies.drop_last();
        assert forall|i: int| 0 <= i < before.len() implies brings_trusted(
            #[trigger] before[i],
            trust,
        ) by {
            assert(before[i] == replies[i]);
        }
        law_every_run_keeps_trust(k, before, trust);
        let last = replies.len() - 1;
        assert(brings_trusted(replies[last], trust));
        law_every_step_keeps_trust(run::after_replies(k, before), replies.last(), trust);
        progress::law_every_step_makes_progress(run::after_replies(k, before), replies.last());
    }
}

/// Code that may run: where a key is trusted, it is signed under that key
/// together with some manifest, and else unsigned plugins were asked for.
pub open spec fn may_run(code: Seq<u8>, trust: TrustModel) -> bool {
    match trust.pubkey {
        Some(key) => exists|m: ManifestModel| #[trigger]
            manifest::verify_problem(m, code, key) is None,
        None => trust.allow_unsigned,
    }
}

/// The replies along a run bring only trusted plugins where the first one does:
/// the others come from plugins and the model.
proof fn lemma_course_trusted(w: World, k: KernelModel, c: Course, trust: TrustModel, n: int)
    requires
        k.coherent(),
        registry::all_trusted(k.plugins, trust),
        run::faithful(w, k, c),
        c.replies.len() > 0 ==> brings_trusted(c.replies[0], trust),
        0 <= n <= c.replies.len(),
    ensures
        registry::all_trusted(run::after_replies(k, c.replies.take(n)).plugins, trust),
{
    let front = c.replies.take(n);
    assert forall|j: int| 0 <= j < front.len() implies brings_trusted(
        #[trigger] front[j],
        trust,
    ) by {
        assert(front[j] == c.replies[j]);
        if j > 0 {
            assert(run::replies_to(
                w,
                run::after_replies(k, c.replies.take(j)).plugins,
                k.natives,
                run::action_of(k, c.replies.take(j)),
                c.replies[j],
                c.guests[j],
            ));
        }
    }
    law_every_run_keeps_trust(k, front, trust);
}

/// Whatever is loaded along a run may run.
proof fn lemma_loaded_may_run(
    w: World,
    k: KernelModel,
    c: Course,
    trust: TrustModel,
    name: Text,
    p: PluginModel,
)
    requires
        k.coherent(),
        registry::all_trusted(k.plugins, trust),
        run::faithful(w, k, c),
        c.replies.len() > 0 ==> brings_trusted(c.replies[0], trust),
        laws::loaded(k, c.replies, name, p),
    ensures
        may_run(p.code, trust),
{
    let n = choose|n: int|
        0 <= n <= c.replies.len() && names::find(
            (#[trigger] run::after_replies(k, c.replies.take(n))).plugins,
            name,
        ) == Some(p);
    lemma_course_trusted(w, k, c, trust, n);
    let plugins = run::after_replies(k, c.replies.take(n)).plugins;
    let at = names::lemma_found(plugins, name);
    assert(registry::trusted(plugins[at].1, trust));
}

/// Zero trust: no code runs in a sandbox but code that is signed, together with
/// its manifest, under the trusted key; and where no key is configured, none runs
/// unless unsigned plugins were asked for.
pub proof fn law_only_trusted_code_runs(w: World, k: KernelModel, c: Course, trust: TrustModel)
    requires
        k.coherent(),
        registry::all_trusted(k.plugins, trust),
        run::faithful(w, k, c),
        c.replies.len() > 0 ==> brings_trusted(c.replies[0], trust),
    ensures
        forall|i: int|
            0 <= i < run::deeds(w, k, c).sandboxes.len() ==> (#[trigger] run::deeds(w, k, c).sandboxes[i] matches
                SandboxCall::Instantiate { code, .. } ==> may_run(code, trust)),
{
    laws::law_sandboxes_stay_within_the_manifest(w, k, c);
    let calls = run::deeds(w, k, c).sandboxes;
    assert forall|i: int| 0 <= i < calls.len() implies (#[trigger] calls[i] matches
        SandboxCall::Instantiate { code, .. } ==> may_run(code, trust)) by {
        assert(laws::within_the_manifest(w, k, c.replies, calls[i]));
        if calls[i] is Instantiate {
            let code = calls[i]->Instantiate_code;
            let (name, p) = choose|name: Text, p: PluginModel| #[trigger]
                laws::loaded(k, c.replies, name, p) && code == p.code;
            lemma_loaded_may_run(w, k, c, trust, name, p);
        }
    }
}

} // verus!
