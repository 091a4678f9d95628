//! The kernel: the machine together with the plugins, the sandbox and the
//! model that it runs. It goes on by itself until it needs something from
//! outside, or is done.

use crate::breaker::{Breaker, BreakerModel};
use crate::config::Config;
use crate::context;
use crate::context::ContextEntry;
use crate::event;
use crate::event::{Event, EventQueue};
use crate::inference::UserInput;
use crate::kernel::laws;
use crate::kernel::machine::{Machine, Settings};
use crate::kernel::mind::Mind;
use crate::kernel::model::{ActionModel, KernelModel, OutcomeModel, ReplyModel};
use crate::kernel::moves;
use crate::kernel::progress;
use crate::kernel::run;
use crate::kernel::run::{Course, Deeds, World};
use crate::kernel::soundness;
use crate::kernel::state;
use crate::kernel::state::{Action, Reply, TaskOutcome};
use crate::kernel::trust;
use crate::names;
use crate::plugin::abi;
use crate::plugin::abi::{PluginInput, PluginOutput};
use crate::plugin::bridge;
use crate::plugin::manifest::PublicKey;
use crate::plugin::native::NativeRegistry;
use crate::plugin::registry;
use crate::plugin::registry::{PluginDir, Registry, ScanOptions, SkipModel};
use crate::plugin::runtime;
use crate::plugin::runtime::{Bridge, GuestRun, Invocation, PluginRuntime};
use crate::text;
use crate::text::Text;
use vstd::prelude::*;
use vstd::utf8;

verus! {

pub struct Kernel {
    pub queue: EventQueue,
    machine: Machine,
    mind: Mind,
    runtime: PluginRuntime,
    bridge: Bridge,
    pubkey: Option<PublicKey>,
    allow_unsigned: bool,
    fuel: u64,
    memory_limit: usize,
    log: Vec<String>,
}

/// Why the kernel stopped going on by itself.
pub enum Pause {
    /// The image file at `path` is needed.
    ReadFile { path: String },
    /// The model, which is reached from outside, is to be asked.
    Ask { system: String, context: Vec<ContextEntry>, input: UserInput },
    /// The version directory `dir` is to be marked as disabled, and the
    /// versions of plugin `name` are to be listed anew.
    Disable { name: String, dir: String },
    /// The versions of plugin `name` are to be listed anew.
    Reload { name: String },
    /// The task is done.
    Done { outcome: Option<TaskOutcome> },
    /// There is nothing to do.
    Rest,
}

impl View for Pause {
    type V = ActionModel;

    open spec fn view(&self) -> ActionModel {
        match *self {
            Pause::ReadFile { path } => ActionModel::ReadFile { path: path@ },
            Pause::Ask { system, context, input } => ActionModel::Ask {
                system: system@,
                context: context::entries(context@),
                input: input@,
            },
            Pause::Disable { name, dir } => ActionModel::Disable { name: name@, dir: dir@ },
            Pause::Reload { name } => ActionModel::Reload { name: name@ },
            Pause::Done { outcome } => ActionModel::Done { outcome: state::opt_outcome(outcome) },
            Pause::Rest => ActionModel::Rest,
        }
    }
}

impl Kernel {
    /// Where the kernel stands.
    pub closed spec fn model(&self) -> KernelModel {
        self.machine@
    }

    /// The kernel is in a state that its steps lead to, and all its plugins are
    /// trusted.
    pub open spec fn wf(&self) -> bool {
        self.model().sound() && registry::all_trusted(self.model().plugins, self.trust())
    }

    /// The events that wait, in the order in which they will run.
    pub closed spec fn waiting(&self) -> Seq<event::EventModel> {
        self.queue@
    }

    /// Whose signatures are trusted.
    pub closed spec fn trust(&self) -> registry::TrustModel {
        registry::TrustModel {
            pubkey: match self.pubkey {
                Some(k) => Some(k@),
                None => None,
            },
            allow_unsigned: self.allow_unsigned,
        }
    }

    /// What surrounds the kernel.
    pub closed spec fn world(&self) -> World {
        World {
            model: self.mind.answers(),
            bridge: self.bridge,
            fuel: self.fuel,
            memory_limit: self.memory_limit,
            remote: self.mind.remote(),
        }
    }

    /// What the kernel had others do so far.
    pub closed spec fn deeds(&self) -> Deeds {
        Deeds {
            sandboxes: self.runtime.calls(),
            natives: self.machine.native_calls(),
            questions: self.mind.asked(),
        }
    }

    /// The lines that plugins have logged and nobody has taken yet.
    pub closed spec fn logged(&self) -> Seq<Text> {
        text::texts(self.log@)
    }

    /// The kernel made of its parts, between tasks.
    pub(crate) fn assemble(
        cfg: &Config,
        settings: Settings,
        natives: NativeRegistry,
        registry: Registry,
        runtime: PluginRuntime,
        bridge: Bridge,
        mind: Mind,
        pubkey: Option<PublicKey>,
        log: Vec<String>,
    ) -> (r: Self)
        requires
            registry::all_trusted(
                registry@,
                registry::TrustModel {
                    pubkey: match pubkey {
                        Some(k) => Some(k@),
                        None => None,
                    },
                    allow_unsigned: cfg.dev_allow_unsigned,
                },
            ),
        ensures
            r.wf(),
            r.model() == KernelModel::fresh(
                settings@,
                cfg.context_max_bytes as nat,
                BreakerModel::fresh(
                    cfg.breaker_max_failures as nat,
                    cfg.breaker_max_repeats as nat,
                ),
                natives@,
                registry@,
            ),
            r.waiting() == Seq::<event::EventModel>::empty(),
            r.logged() == text::texts(log@),
            r.deeds() == (Deeds {
                sandboxes: runtime.calls(),
                natives: natives.calls(),
                questions: mind.asked(),
            }),
            r.world() == (World {
                model: mind.answers(),
                bridge,
                fuel: cfg.plugin_fuel,
                memory_limit: cfg.plugin_memory_limit,
                remote: mind.remote(),
            }),
            r.trust() == (registry::TrustModel {
                pubkey: match pubkey {
                    Some(k) => Some(k@),
                    None => None,
                },
                allow_unsigned: cfg.dev_allow_unsigned,
            }),
    {
        let breaker = Breaker::new(cfg.breaker_max_failures, cfg.breaker_max_repeats);
        Kernel {
            queue: EventQueue::default(),
            machine: Machine::new(settings, cfg.context_max_bytes, breaker, natives, registry),
            mind,
            runtime,
            bridge,
            pubkey,
            allow_unsigned: cfg.dev_allow_unsigned,
            fuel: cfg.plugin_fuel,
            memory_limit: cfg.plugin_memory_limit,
            log,
        }
    }

    /// Runs a wasm plugin, and keeps what it logged.
    fn run_wasm(&mut self, name: &str, input: &PluginInput) -> (r: Result<PluginOutput, String>)
        requires
            names::find(old(self).machine@.plugins, name@) is Some,
        ensures
            final(self).machine@ == old(self).machine@,
            final(self).queue@ == old(self).queue@,
            same_surroundings(*old(self), *final(self)),
            exists|g: GuestRun|
                runtime::output_texts(r) == runtime::run_result(
                    text::byte_len(abi::input_json(input@)),
                    g,
                ) && bridge::all_declared(
                    name@,
                    names::find(old(self).machine@.plugins, name@)->0.manifest.capabilities,
                    old(self).world().bridge,
                    g.passed,
                ) && final(self).logged() == old(self).logged() + g.log && final(self).deeds()
                    == (Deeds {
                    sandboxes: old(self).deeds().sandboxes + #[trigger] runtime::calls_of(
                        run::opening(old(self).world(), old(self).machine@.plugins, name@),
                        names::find(old(self).machine@.plugins, name@)->0.code,
                        utf8::encode_utf8(abi::input_json(input@)),
                        g,
                    ),
                    ..old(self).deeds()
                }),
    {
        let ghost before = self.logged();
        let ghost calls = self.runtime.calls();
        let done = match self.machine.plugin(name) {
            Some(p) => self.runtime.invoke(
                &p.module,
                name,
                p.manifest.permissions.capabilities.as_slice(),
                self.bridge.clone(),
                input,
                self.fuel,
                self.memory_limit,
            ),
            None => {
                return Err("plugin is not loaded".to_string());
            },
        };
        let Invocation { result, log } = done;
        let ghost plugins = old(self).machine@.plugins;
        let ghost open = run::opening(old(self).world(), plugins, name@);
        let ghost code = names::find(plugins, name@)->0.code;
        let ghost bytes = utf8::encode_utf8(abi::input_json(input@));
        let ghost g = choose|g: GuestRun|
            runtime::output_texts(result) == runtime::run_result(
                text::byte_len(abi::input_json(input@)),
                g,
            ) && text::texts(log@) == g.log && bridge::all_declared(
                name@,
                names::find(plugins, name@)->0.manifest.capabilities,
                old(self).world().bridge,
                g.passed,
            ) && self.runtime.calls() == calls
                + #[trigger] runtime::calls_of(open, code, bytes, g);
        let mut lines = log;
        self.log.append(&mut lines);
        assert(self.logged() =~= before + g.log);
        assert(self.deeds().sandboxes == calls + runtime::calls_of(open, code, bytes, g));
        result
    }

    /// Does what the machine asks for, and gives the reply to it. Where something is
    /// needed from outside, or nothing is left to do, the kernel pauses instead.
    fn act(&mut self, action: Action) -> (r: Result<Reply, Pause>)
        requires
            action@ matches ActionModel::Wasm { name, input } ==> names::find(
                old(self).model().plugins,
                name,
            ) is Some,
        ensures
            final(self).model() == old(self).model(),
            final(self).queue@ == old(self).queue@,
            same_surroundings(*old(self), *final(self)),
            match r {
                Ok(reply) => !(reply@ is Package) && exists|g: GuestRun| #[trigger]
                    acted(*old(self), action@, reply@, g, *final(self)),
                Err(pause) => pause@ == action@ && run::pauses(action@) && (action@ is Ask
                    ==> old(self).world().remote) && final(self).deeds() == old(self).deeds()
                    && final(self).logged() == old(self).logged(),
            },
    {
        let ghost asked = action@;
        let ghost any: GuestRun = arbitrary();
        match action {
            Action::Continue => {
                let reply = Reply::Nothing;
                proof {
                    lemma_quiet(*self, asked, reply@, any);
                }
                Ok(reply)
            },
            Action::Native { name, input } => {
                let result = self.machine.invoke_native(name.as_str(), &input);
                let reply = Reply::Plugin { result };
                assert(self.deeds() =~= old(self).deeds().and(
                    run::deed(old(self).world(), old(self).model().plugins, asked, reply@, any),
                ));
                assert(self.logged() =~= old(self).logged() + run::guest_lines(asked, any));
                assert(acted(*old(self), asked, reply@, any, *self));
                Ok(reply)
            },
            Action::Wasm { name, input } => {
                let ghost w = self.world();
                let ghost plugins = self.model().plugins;
                let ghost open = run::opening(w, plugins, name@);
                let ghost code = names::find(plugins, name@)->0.code;
                let ghost bytes = utf8::encode_utf8(abi::input_json(input@));
                let ghost size = text::byte_len(abi::input_json(input@));
                let result = self.run_wasm(name.as_str(), &input);
                let ghost g = choose|g: GuestRun|
                    runtime::output_texts(result) == runtime::run_result(size, g)
                        && bridge::all_declared(
                        name@,
                        names::find(plugins, name@)->0.manifest.capabilities,
                        w.bridge,
                        g.passed,
                    ) && self.logged() == old(self).logged() + g.log && self.deeds() == (Deeds {
                        sandboxes: old(self).deeds().sandboxes + #[trigger] runtime::calls_of(
                            open,
                            code,
                            bytes,
                            g,
                        ),
                        ..old(self).deeds()
                    });
                let reply = Reply::Plugin { result };
                assert(self.deeds() =~= old(self).deeds().and(
                    run::deed(w, plugins, asked, reply@, g),
                ));
                assert(acted(*old(self), asked, reply@, g, *self));
                Ok(reply)
            },
            Action::Ask { system, context, input } => {
                if self.mind.is_remote() {
                    return Err(Pause::Ask { system, context, input });
                }
                let result = self.mind.ask(system.as_str(), context.as_slice(), &input);
                let reply = Reply::Model { result };
                assert(self.deeds() =~= old(self).deeds().and(
                    run::deed(old(self).world(), old(self).model().plugins, asked, reply@, any),
                ));
                assert(self.logged() =~= old(self).logged() + run::guest_lines(asked, any));
                assert(acted(*old(self), asked, reply@, any, *self));
                Ok(reply)
            },
            Action::ReadFile { path } => Err(Pause::ReadFile { path }),
            Action::Disable { name, dir } => Err(Pause::Disable { name, dir }),
            Action::Reload { name } => Err(Pause::Reload { name }),
            Action::Done { outcome } => Err(Pause::Done { outcome }),
            Action::Rest => Err(Pause::Rest),
        }
    }

    /// Goes on, with `reply` to what was asked for, until something from outside
    /// is needed or there is nothing left to do.
    #[verifier::rlimit(60)]
    fn advance(&mut self, reply: Reply) -> (r: Pause)
        requires
            old(self).wf(),
            trust::brings_trusted(reply@, old(self).trust()),
        ensures
            final(self).wf(),
            final(self).queue@ == old(self).queue@,
            same_surroundings(*old(self), *final(self)),
            run::pauses(r@),
            old(self).model().expects(reply@) ==> !(r@ is Rest),
            !old(self).model().expects(reply@) ==> r@ is Rest && final(self).model() == old(
                self,
            ).model(),
            final(self).model().waits_after(r@),
            r@ is Ask ==> old(self).world().remote,
            went(
                *old(self),
                old(self).logged(),
                old(self).model(),
                reply@,
                *final(self),
                r@,
            ),
    {
        let ghost w = self.world();
        let ghost k = self.machine@;
        let ghost first = reply@;
        let ghost mut c = Course { replies: seq![], guests: seq![] };
        let ghost mut g: GuestRun = arbitrary();
        let ghost mut pending: Deeds = Deeds::none();
        let mut next = reply;
        assert(self.deeds() =~= old(self).deeds().and(run::deeds(w, k, c).and(pending)));
        let ghost mut heard: Seq<Text> = seq![];
        assert(self.logged() =~= old(self).logged() + (run::said(k, c) + heard));
        loop
            invariant
                self.machine@.sound(),
                registry::all_trusted(self.machine@.plugins, old(self).trust()),
                trust::brings_trusted(next@, old(self).trust()),
                self.machine@.natives == k.natives,
                self.queue@ == old(self).queue@,
                same_surroundings(*old(self), *self),
                w == old(self).world(),
                k == old(self).model(),
                self.machine@ == run::after_replies(k, c.replies),
                run::faithful(w, k, c),
                k.expects(first) ==> self.machine@.expects(next@),
                c.replies.len() > 0 ==> k.expects(first),
                first == reply@,
                c.replies.len() == 0 ==> next@ == first && pending == Deeds::none(),
                c.replies.len() > 0 ==> c.replies[0] == first && run::replies_to(
                    w,
                    self.machine@.plugins,
                    k.natives,
                    run::action_of(k, c.replies),
                    next@,
                    g,
                ) && pending == run::deed(
                    w,
                    self.machine@.plugins,
                    run::action_of(k, c.replies),
                    next@,
                    g,
                ),
                self.deeds() == old(self).deeds().and(run::deeds(w, k, c).and(pending)),
                self.logged() == old(self).logged() + (run::said(k, c) + heard),
                c.replies.len() == 0 ==> heard.len() == 0,
                c.replies.len() > 0 ==> heard == run::guest_lines(run::action_of(k, c.replies), g),
            decreases
                self.machine@.phase(),
                self.machine@.detail(),
                self.machine@.call(),
                self.machine@.hooks_left(),
        {
            let ghost before = self.machine@;
            let ghost here = next@;
            proof {
                progress::law_every_step_makes_progress(before, here);
                soundness::law_every_step_keeps_soundness(before, here);
                trust::law_every_step_keeps_trust(before, here, old(self).trust());
                moves::lemma_step_moves(before, here);
                run::lemma_longer(w, k, c, here, g);
            }
            let ghost before_note = self.logged();
            let mut lines = self.machine.notes(&next);
            let ghost noted = text::texts(lines@);
            self.log.append(&mut lines);
            assert(self.logged() =~= before_note + noted);
            let action = self.machine.step(next);
            let ghost after = self.machine@;
            let ghost asked = action@;
            proof {
                assert(run::deeds(w, k, c).and(pending) == run::deeds(
                    w,
                    k,
                    run::longer(c, here, g),
                ));
                assert(self.logged() =~= old(self).logged() + run::said(
                    k,
                    run::longer(c, here, g),
                ));
                c = run::longer(c, here, g);
                pending = Deeds::none();
                heard = seq![];
                assert(run::said(k, c) + heard =~= run::said(k, c));
                assert(after == before.step(here).0);
                assert(asked == before.step(here).1);
                assert(run::deeds(w, k, c).and(pending) =~= run::deeds(w, k, c));
            }
            let ghost start = *self;
            match self.act(action) {
                Ok(reply) => {
                    next = reply;
                    proof {
                        g = choose|g: GuestRun| #[trigger] acted(start, asked, next@, g, *self);
                        pending = run::deed(w, after.plugins, asked, next@, g);
                        heard = run::guest_lines(asked, g);
                        lemma_acted(*old(self), start, run::deeds(w, k, c), asked, next@, g, *self);
                        assert(self.logged() =~= old(self).logged() + (run::said(k, c) + heard));
                    }
                },
                Err(pause) => {
                    assert(run::run(w, k, first, c, after, pause@));
                    return pause;
                },
            }
        }
    }

    /// Fires the `kernel_start` hooks.
    pub(crate) fn start(&mut self) -> (r: Pause)
        requires
            old(self).wf(),
            old(self).model().resting(),
        ensures
            final(self).wf(),
            final(self).waiting() == old(self).waiting(),
            same_surroundings(*old(self), *final(self)),
            run::pauses(r@),
            !(r@ is Rest),
            r@ is Ask ==> old(self).world().remote,
            final(self).model().waits_after(r@),
            went(
                *old(self),
                old(self).logged(),
                old(self).model().started(),
                ReplyModel::Nothing,
                *final(self),
                r@,
            ),
    {
        proof {
            soundness::law_every_beginning_keeps_soundness(self.machine@, arbitrary());
        }
        self.machine.start();
        let ghost begun = *self;
        let pause = self.advance(Reply::Nothing);
        proof {
            lemma_went(
                *old(self),
                begun,
                old(self).logged(),
                begun.model(),
                ReplyModel::Nothing,
                *self,
                pause@,
            );
        }
        pause
    }

    /// Graceful stop: fires `kernel_stop` hooks so plugins can flush state.
    pub fn shutdown(&mut self) -> (r: Pause)
        requires
            old(self).wf(),
            old(self).model().resting(),
        ensures
            final(self).wf(),
            final(self).waiting() == old(self).waiting(),
            same_surroundings(*old(self), *final(self)),
            run::pauses(r@),
            !(r@ is Rest),
            r@ is Ask ==> old(self).world().remote,
            final(self).model().waits_after(r@),
            went(
                *old(self),
                old(self).logged(),
                old(self).model().stopping(),
                ReplyModel::Nothing,
                *final(self),
                r@,
            ),
    {
        proof {
            soundness::law_every_beginning_keeps_soundness(self.machine@, arbitrary());
        }
        self.machine.stop();
        let ghost begun = *self;
        let pause = self.advance(Reply::Nothing);
        proof {
            lemma_went(
                *old(self),
                begun,
                old(self).logged(),
                begun.model(),
                ReplyModel::Nothing,
                *self,
                pause@,
            );
        }
        pause
    }

    /// Begins the task of `event` and goes on until something from disk is
    /// needed or the task is done. What plugins and the model answer is their
    /// own affair; what is asked of them, and what is made of their answers, is
    /// a run of the machine.
    pub fn handle_event(&mut self, event: Event) -> (r: Pause)
        requires
            old(self).wf(),
            old(self).model().resting(),
        ensures
            final(self).wf(),
            final(self).waiting() == old(self).waiting(),
            same_surroundings(*old(self), *final(self)),
            run::pauses(r@),
            !(r@ is Rest),
            r@ is Ask ==> old(self).world().remote,
            final(self).model().waits_after(r@),
            went(
                *old(self),
                old(self).logged(),
                old(self).model().begun(event@),
                ReplyModel::Nothing,
                *final(self),
                r@,
            ),
    {
        proof {
            soundness::law_every_beginning_keeps_soundness(self.machine@, event@);
        }
        self.machine.begin(event);
        let ghost begun = *self;
        let pause = self.advance(Reply::Nothing);
        proof {
            lemma_went(
                *old(self),
                begun,
                old(self).logged(),
                begun.model(),
                ReplyModel::Nothing,
                *self,
                pause@,
            );
        }
        pause
    }

    /// Goes on with the image file that was needed, or with why it could not be
    /// read.
    pub fn resume_file(&mut self, result: Result<Vec<u8>, String>) -> (r: Pause)
        requires
            old(self).wf(),
        ensures
            final(self).wf(),
            final(self).waiting() == old(self).waiting(),
            same_surroundings(*old(self), *final(self)),
            run::pauses(r@),
            r@ is Ask ==> old(self).world().remote,
            old(self).model().wait is File ==> !(r@ is Rest),
            !(old(self).model().wait is File) ==> r@ is Rest && final(self).model()
                == old(self).model(),
            final(self).model().waits_after(r@),
            went(
                *old(self),
                old(self).logged(),
                old(self).model(),
                ReplyModel::File { result: state::file_result(result) },
                *final(self),
                r@,
            ),
    {
        self.advance(Reply::File { result })
    }

    /// Goes on with what the model said, where it is reached from outside, or with
    /// why it could not be asked.
    pub fn resume_model(&mut self, result: Result<String, String>) -> (r: Pause)
        requires
            old(self).wf(),
        ensures
            final(self).wf(),
            final(self).waiting() == old(self).waiting(),
            same_surroundings(*old(self), *final(self)),
            run::pauses(r@),
            r@ is Ask ==> old(self).world().remote,
            old(self).model().wait is Model ==> !(r@ is Rest),
            !(old(self).model().wait is Model) ==> r@ is Rest && final(self).model()
                == old(self).model(),
            final(self).model().waits_after(r@),
            went(
                *old(self),
                old(self).logged(),
                old(self).model(),
                ReplyModel::Model { result: text::text_result(result) },
                *final(self),
                r@,
            ),
    {
        self.advance(Reply::Model { result })
    }

    /// Resolves the plugin `name` from the directory that was found for it, and logs
    /// what was tried and what came of it.
    fn resolve(&mut self, name: &str, found: PluginDir) -> (r: Result<
        Option<registry::LoadedPlugin>,
        String,
    >)
        ensures
            final(self).machine == old(self).machine,
            final(self).queue == old(self).queue,
            final(self).world() == old(self).world(),
            final(self).trust() == old(self).trust(),
            final(self).deeds() == old(self).deeds(),
            exists|skipped: Seq<SkipModel>| #[trigger]
                resolves(found, old(self).trust(), state::package_result(r), skipped)
                    && final(self).logged() == old(self).logged() + resolve_lines(
                    found,
                    name@,
                    old(self).trust(),
                    state::package_result(r),
                    skipped,
                ),
    {
        let ghost trust = self.trust();
        match &found.versions {
            Err(e) => {
                let ghost none = Seq::<SkipModel>::empty();
                let r = Err(e.clone());
                proof {
                    let package = state::package_result(r);
                    assert(self.logged() =~= self.logged() + resolve_lines(
                        found,
                        name@,
                        trust,
                        package,
                        none,
                    ));
                    assert(resolves(found, trust, package, none));
                }
                r
            },
            Ok(list) => {
                let pubkey = match &self.pubkey {
                    Some(key) => Some(key),
                    None => None,
                };
                let opts = ScanOptions { pubkey, allow_unsigned: self.allow_unsigned };
                assert(opts@ == trust);
                let dir = found.name.as_str();
                let selection = registry::load_best_version(
                    &self.runtime,
                    dir,
                    list.as_slice(),
                    &opts,
                );
                let ghost skipped = registry::skips(selection.skipped@);
                let ghost plugin = registry::opt_plugin(selection.plugin);
                let ghost order = choose|order: Seq<usize>| #[trigger]
                    registry::ranking(registry::versions(list@), order) && registry::selected(
                        registry::versions(list@),
                        dir@,
                        trust,
                        order,
                        plugin,
                        skipped,
                    );
                let mut lines = registry::note_trial(dir, &opts, &selection);
                let line = registry::note_update(name, &selection.plugin);
                let ghost tried = text::texts(lines@);
                let ghost before = self.logged();
                self.log.append(&mut lines);
                assert(self.logged() =~= before + tried);
                self.log.push(line);
                let r = Ok(selection.plugin);
                proof {
                    let package = state::package_result(r);
                    assert(package->Ok_0 == plugin);
                    assert(self.logged() =~= before + resolve_lines(
                        found,
                        name@,
                        trust,
                        package,
                        skipped,
                    ));
                    assert(registry::selected(
                        registry::versions(list@),
                        dir@,
                        trust,
                        order,
                        package->Ok_0,
                        skipped,
                    ));
                    assert(resolves(found, trust, package, skipped));
                }
                r
            },
        }
    }

    /// Resolves the plugin that is awaited from the directory that was found for it,
    /// and goes on. The directory goes by its own name, which is the last part of a
    /// plugin's name that is a path.
    pub fn resume_package(&mut self, found: PluginDir) -> (r: Pause)
        requires
            old(self).wf(),
        ensures
            final(self).wf(),
            final(self).waiting() == old(self).waiting(),
            same_surroundings(*old(self), *final(self)),
            run::pauses(r@),
            r@ is Ask ==> old(self).world().remote,
            final(self).model().waits_after(r@),
            resumed(*old(self), found, *final(self), r@),
    {
        let name = match self.machine.awaited() {
            Some(name) => name,
            None => {
                return Pause::Rest;
            },
        };
        let package = self.resolve(name.as_str(), found);
        let ghost resolved = state::package_result(package);
        let ghost skipped = choose|skipped: Seq<SkipModel>| #[trigger]
            resolves(found, self.trust(), resolved, skipped) && self.logged() == old(
                self,
            ).logged() + resolve_lines(found, name@, self.trust(), resolved, skipped);
        let ghost said = self.logged();
        let ghost begun = *self;
        let ghost reply = ReplyModel::Package { result: resolved };
        proof {
            lemma_resolved_is_trusted(found, self.trust(), resolved, skipped);
        }
        let pause = self.advance(Reply::Package { result: package });
        proof {
            lemma_went(*old(self), begun, said, begun.model(), reply, *self, pause@);
            let awaited = old(self).model().awaited();
            assert(awaited == Some(name@));
            assert(went_with_package(
                *old(self),
                found,
                awaited->0,
                resolved,
                skipped,
                *self,
                pause@,
            ));
            assert(resumed(*old(self), found, *self, pause@));
        }
        pause
    }

    /// Puts an event in the queue.
    pub fn enqueue(&mut self, event: Event)
        ensures
            final(self).waiting() == old(self).waiting().insert(
                event::ahead_of(old(self).waiting(), event.priority) as int,
                event@,
            ),
            final(self).model() == old(self).model(),
            final(self).world() == old(self).world(),
            final(self).trust() == old(self).trust(),
            final(self).logged() == old(self).logged(),
            final(self).deeds() == old(self).deeds(),
    {
        self.queue.push(event);
    }

    /// Whether no task is under way.
    pub fn is_resting(&self) -> (r: bool)
        ensures
            r == self.model().resting(),
    {
        self.machine.is_resting()
    }

    /// The lines that plugins have logged since the last call.
    pub fn take_log(&mut self) -> (r: Vec<String>)
        ensures
            text::texts(r@) == old(self).logged(),
            final(self).logged() == Seq::<Text>::empty(),
            final(self).model() == old(self).model(),
            final(self).waiting() == old(self).waiting(),
            final(self).world() == old(self).world(),
            final(self).trust() == old(self).trust(),
            final(self).deeds() == old(self).deeds(),
            old(self).wf() ==> final(self).wf(),
    {
        let mut lines: Vec<String> = Vec::new();
        assert(text::texts(lines@) =~= Seq::<Text>::empty());
        core::mem::swap(&mut lines, &mut self.log);
        lines
    }

    /// Begins the task of the next event that waits, if there is one.
    fn serve_next(&mut self) -> (r: Option<Pause>)
        requires
            old(self).wf(),
            old(self).model().resting(),
        ensures
            final(self).wf(),
            same_surroundings(*old(self), *final(self)),
            r is None <==> old(self).waiting().len() == 0,
            r is None ==> final(self).model() == old(self).model() && final(self).waiting()
                == old(self).waiting() && final(self).deeds() == old(self).deeds()
                && final(self).logged() == old(self).logged(),
            r matches Some(pause) ==> {
                &&& final(self).waiting() == old(self).waiting().drop_first()
                &&& run::pauses(pause@)
                &&& !(pause@ is Rest)
                &&& pause@ is Ask ==> old(self).world().remote
                &&& final(self).model().waits_after(pause@)
                &&& went(
                    *old(self),
                    old(self).logged(),
                    old(self).model().begun(old(self).waiting()[0]),
                    ReplyModel::Nothing,
                    *final(self),
                    pause@,
                )
            },
    {
        let event = match self.queue.pop() {
            None => {
                return None;
            },
            Some(event) => event,
        };
        let ghost begun = *self;
        let ghost k = self.model().begun(event@);
        let pause = self.handle_event(event);
        proof {
            lemma_went(*old(self), begun, old(self).logged(), k, ReplyModel::Nothing, *self, pause@);
        }
        Some(pause)
    }

    /// Drain the queue. Business code pushes events and calls this. The
    /// outcomes of the tasks that were done are added to `outcomes`, and the kernel
    /// goes on until the queue is empty. Only where a task needs something from
    /// outside does it pause before, and once that task is done the rest of the
    /// queue can be drained.
    pub fn run_pending(&mut self, outcomes: &mut Vec<TaskOutcome>) -> (r: Pause)
        requires
            old(self).wf(),
            old(self).model().resting(),
        ensures
            final(self).wf(),
            same_surroundings(*old(self), *final(self)),
            run::pauses(r@),
            !(r@ is Done),
            r@ is Ask ==> old(self).world().remote,
            final(self).model().waits_after(r@),
            exists|states: Seq<KernelModel>, runs: Seq<Course>, done: Seq<OutcomeModel>|
                state_list(final(outcomes)@) == state_list(old(outcomes)@) + done
                    && #[trigger] drained(*old(self), states, runs, done) && paused(
                    *old(self),
                    states,
                    runs,
                    *final(self),
                    r@,
                ),
    {
        let ghost given = state_list(outcomes@);
        let ghost mut states: Seq<KernelModel> = seq![self.model()];
        let ghost mut runs: Seq<Course> = seq![];
        let ghost mut done: Seq<OutcomeModel> = seq![];
        proof {
            lemma_serving_starts(*self);
            assert(given + done =~= given);
        }
        loop
            invariant
                self.wf(),
                self.model().resting(),
                same_surroundings(*old(self), *self),
                given == state_list(old(outcomes)@),
                state_list(outcomes@) == given + done,
                serving(*old(self), *self, states, runs, done),
            decreases self.waiting().len(),
        {
            let ghost start = *self;
            match self.serve_next() {
                None => {
                    proof {
                        lemma_serving_ends(*old(self), start, states, runs, done, *self);
                    }
                    return Pause::Rest;
                },
                Some(Pause::Done { outcome: Some(o) }) => {
                    let ghost outcome = o@;
                    let ghost reported = state_list(outcomes@);
                    outcomes.push(o);
                    proof {
                        assert(state_list(outcomes@) =~= reported.push(outcome));
                        assert(given + done.push(outcome) =~= (given + done).push(outcome));
                        let c = lemma_serving_goes_on(
                            *old(self),
                            start,
                            states,
                            runs,
                            done,
                            *self,
                            outcome,
                        );
                        states = states.push(self.model());
                        runs = runs.push(c);
                        done = done.push(outcome);
                    }
                },
                Some(other) => {
                    proof {
                        lemma_done_is_answered(start, *self, other@);
                        lemma_serving_pauses(
                            *old(self),
                            start,
                            states,
                            runs,
                            done,
                            *self,
                            other@,
                        );
                    }
                    return other;
                },
            }
        }
    }
}

/// What stays as it is whatever the kernel does: what surrounds it and whom it
/// trusts.
pub open spec fn same_surroundings(before: Kernel, after: Kernel) -> bool {
    &&& after.world() == before.world()
    &&& after.trust() == before.trust()
}

/// The kernel went on from `k` with `first`, when `said` was logged: the record of
/// what it has others do has grown by what the machine asks for, each once, and what
/// guests logged meanwhile is in the log, with what the kernel has to say itself.
pub open spec fn went(
    before: Kernel,
    said: Seq<Text>,
    k: KernelModel,
    first: ReplyModel,
    after: Kernel,
    action: ActionModel,
) -> bool {
    exists|c: Course| #[trigger]
        run::run(before.world(), k, first, c, after.model(), action) && after.deeds()
            == before.deeds().and(run::deeds(before.world(), k, c)) && after.logged() == said
            + run::said(k, c)
}

/// What the machine asked for was done, and replied to.
pub open spec fn acted(
    before: Kernel,
    action: ActionModel,
    reply: ReplyModel,
    g: GuestRun,
    after: Kernel,
) -> bool {
    &&& run::replies_to(
        before.world(),
        before.model().plugins,
        before.model().natives,
        action,
        reply,
        g,
    )
    &&& after.deeds() == before.deeds().and(
        run::deed(before.world(), before.model().plugins, action, reply, g),
    )
    &&& after.logged() == before.logged() + run::guest_lines(action, g)
}

/// To go on with nothing takes nothing.
proof fn lemma_quiet(k: Kernel, action: ActionModel, reply: ReplyModel, g: GuestRun)
    requires
        action is Continue,
        reply is Nothing,
    ensures
        acted(k, action, reply, g, k),
{
    assert(k.deeds() =~= k.deeds().and(Deeds::none()));
    assert(k.logged() =~= k.logged() + Seq::<Text>::empty());
}

/// What was done before, and what was done now.
proof fn lemma_acted(
    begin: Kernel,
    before: Kernel,
    done: Deeds,
    action: ActionModel,
    reply: ReplyModel,
    g: GuestRun,
    after: Kernel,
)
    requires
        before.deeds() == begin.deeds().and(done),
        acted(before, action, reply, g, after),
    ensures
        after.deeds() == begin.deeds().and(
            done.and(run::deed(before.world(), before.model().plugins, action, reply, g)),
        ),
{
    let more = run::deed(before.world(), before.model().plugins, action, reply, g);
    assert(after.deeds() =~= begin.deeds().and(done.and(more)));
}

/// Only what surrounds the kernel, and what it had others do before, matters to how
/// it went on.
proof fn lemma_went(
    before: Kernel,
    begun: Kernel,
    said: Seq<Text>,
    k: KernelModel,
    first: ReplyModel,
    after: Kernel,
    action: ActionModel,
)
    requires
        begun.world() == before.world(),
        begun.deeds() == before.deeds(),
        went(begun, said, k, first, after, action),
    ensures
        went(before, said, k, first, after, action),
{
    let c = choose|c: Course| #[trigger]
        run::run(begun.world(), k, first, c, after.model(), action) && after.deeds()
            == begun.deeds().and(run::deeds(begun.world(), k, c)) && after.logged() == said
            + run::said(k, c);
    assert(run::run(before.world(), k, first, c, after.model(), action));
}

/// How an awaited plugin is resolved: not at all where its versions could not
/// be listed, and else to the one that is selected from them. Those in `skipped`
/// were passed over.
pub open spec fn resolves(
    found: PluginDir,
    trust: registry::TrustModel,
    package: Result<Option<registry::PluginModel>, Text>,
    skipped: Seq<SkipModel>,
) -> bool {
    match found.versions {
        Err(e) => package == Err::<Option<registry::PluginModel>, Text>(e@) && skipped.len() == 0,
        Ok(list) => package is Ok && exists|order: Seq<usize>|
            registry::ranking(registry::versions(list@), order) && #[trigger] registry::selected(
                registry::versions(list@),
                found.name@,
                trust,
                order,
                package->Ok_0,
                skipped,
            ),
    }
}

/// What resolving the plugin `name` leaves in the log: what was tried in its
/// directory, and what came of it.
pub open spec fn resolve_lines(
    found: PluginDir,
    name: Text,
    trust: registry::TrustModel,
    package: Result<Option<registry::PluginModel>, Text>,
    skipped: Seq<SkipModel>,
) -> Seq<Text> {
    match package {
        Err(_) => seq![],
        Ok(plugin) => registry::trial_lines(found.name@, trust, plugin, skipped).push(
            registry::update_line(name, plugin),
        ),
    }
}

/// The awaited plugin was resolved, what was tried and what came of it was logged,
/// and the kernel went on.
pub open spec fn went_with_package(
    before: Kernel,
    found: PluginDir,
    name: Text,
    package: Result<Option<registry::PluginModel>, Text>,
    skipped: Seq<SkipModel>,
    after: Kernel,
    action: ActionModel,
) -> bool {
    &&& resolves(found, before.trust(), package, skipped)
    &&& went(
        before,
        before.logged() + resolve_lines(found, name, before.trust(), package, skipped),
        before.model(),
        ReplyModel::Package { result: package },
        after,
        action,
    )
}

/// The kernel went on with the plugin that it awaited, and did nothing where it
/// awaited none.
pub open spec fn resumed(
    before: Kernel,
    found: PluginDir,
    after: Kernel,
    action: ActionModel,
) -> bool {
    match before.model().awaited() {
        None => action is Rest && after.model() == before.model() && after.deeds()
            == before.deeds() && after.logged() == before.logged(),
        Some(name) => !(action is Rest) && exists|
            package: Result<Option<registry::PluginModel>, Text>,
            skipped: Seq<SkipModel>,
        | #[trigger] went_with_package(before, found, name, package, skipped, after, action),
    }
}

/// What an awaited plugin is resolved to is trusted.
proof fn lemma_resolved_is_trusted(
    found: PluginDir,
    trust: registry::TrustModel,
    package: Result<Option<registry::PluginModel>, Text>,
    skipped: Seq<SkipModel>,
)
    requires
        resolves(found, trust, package, skipped),
    ensures
        trust::brings_trusted(ReplyModel::Package { result: package }, trust),
{
}

/// The outcomes of a vector, in order.
pub open spec fn state_list(v: Seq<TaskOutcome>) -> Seq<OutcomeModel> {
    Seq::new(v.len(), |i: int| v[i]@)
}

/// The first events that waited were served, one for each of `runs`.
pub open spec fn drained(
    before: Kernel,
    states: Seq<KernelModel>,
    runs: Seq<Course>,
    done: Seq<OutcomeModel>,
) -> bool {
    &&& runs.len() <= before.waiting().len()
    &&& states.len() == runs.len() + 1
    &&& states[0] == before.model()
    &&& run::served(
        before.world(),
        states,
        before.waiting().take(runs.len() as int),
        runs,
        done,
    )
}

/// Where draining stops: the queue is empty, or the task of the next event has
/// paused.
pub open spec fn paused(
    before: Kernel,
    states: Seq<KernelModel>,
    runs: Seq<Course>,
    after: Kernel,
    action: ActionModel,
) -> bool {
    let w = before.world();
    let left = before.waiting().skip(runs.len() as int);
    let k = states.last();
    let done = run::all_deeds(w, states, before.waiting(), runs);
    let said = run::all_said(states, before.waiting(), runs);
    if left.len() == 0 {
        after.model() == k && after.waiting() == left && action is Rest && after.deeds()
            == before.deeds().and(done) && after.logged() == before.logged() + said
    } else {
        after.waiting() == left.drop_first() && !(action is Rest) && exists|c: Course| #[trigger]
            run::run(w, k.begun(left[0]), ReplyModel::Nothing, c, after.model(), action)
                && after.deeds() == before.deeds().and(
                done.and(run::deeds(w, k.begun(left[0]), c)),
            ) && after.logged() == before.logged() + (said + run::said(k.begun(left[0]), c))
    }
}

/// The queue is being drained: `now` is between two tasks.
#[verifier::opaque]
spec fn serving(
    before: Kernel,
    now: Kernel,
    states: Seq<KernelModel>,
    runs: Seq<Course>,
    done: Seq<OutcomeModel>,
) -> bool {
    &&& drained(before, states, runs, done)
    &&& now.world() == before.world()
    &&& now.model() == states.last()
    &&& now.waiting() == before.waiting().skip(runs.len() as int)
    &&& now.deeds() == before.deeds().and(
        run::all_deeds(before.world(), states, before.waiting(), runs),
    )
    &&& now.logged() == before.logged() + run::all_said(states, before.waiting(), runs)
}

proof fn lemma_serving_starts(k: Kernel)
    ensures
        serving(k, k, seq![k.model()], seq![], seq![]),
{
    reveal(serving);
    assert(k.waiting().take(0) =~= Seq::<event::EventModel>::empty());
    assert(k.waiting().skip(0) =~= k.waiting());
    assert(k.deeds().and(Deeds::none()) =~= k.deeds());
    assert(k.logged() + Seq::<Text>::empty() =~= k.logged());
}

proof fn lemma_serving_ends(
    before: Kernel,
    now: Kernel,
    states: Seq<KernelModel>,
    runs: Seq<Course>,
    done: Seq<OutcomeModel>,
    after: Kernel,
)
    requires
        serving(before, now, states, runs, done),
        now.waiting().len() == 0,
        after.model() == now.model(),
        after.waiting() == now.waiting(),
        after.deeds() == now.deeds(),
        after.logged() == now.logged(),
    ensures
        drained(before, states, runs, done),
        paused(before, states, runs, after, ActionModel::Rest),
{
    reveal(serving);
}

/// The task of the next event was begun, and went on to `action`.
spec fn next_task(now: Kernel, after: Kernel, action: ActionModel) -> bool {
    &&& now.waiting().len() > 0
    &&& after.world() == now.world()
    &&& after.waiting() == now.waiting().drop_first()
    &&& went(
        now,
        now.logged(),
        now.model().begun(now.waiting()[0]),
        ReplyModel::Nothing,
        after,
        action,
    )
}

proof fn lemma_serving_goes_on(
    before: Kernel,
    now: Kernel,
    states: Seq<KernelModel>,
    runs: Seq<Course>,
    done: Seq<OutcomeModel>,
    after: Kernel,
    outcome: OutcomeModel,
) -> (c: Course)
    requires
        serving(before, now, states, runs, done),
        next_task(now, after, ActionModel::Done { outcome: Some(outcome) }),
    ensures
        serving(before, after, states.push(after.model()), runs.push(c), done.push(outcome)),
{
    let c = lemma_next_course(now, after, ActionModel::Done { outcome: Some(outcome) });
    lemma_serving_one_more(before, now, states, runs, done, after, outcome, c);
    c
}

/// The course that the next task took.
proof fn lemma_next_course(now: Kernel, after: Kernel, action: ActionModel) -> (c: Course)
    requires
        next_task(now, after, action),
    ensures
        run::run(
            now.world(),
            now.model().begun(now.waiting()[0]),
            ReplyModel::Nothing,
            c,
            after.model(),
            action,
        ),
        after.deeds() == now.deeds().and(
            run::deeds(now.world(), now.model().begun(now.waiting()[0]), c),
        ),
        after.logged() == now.logged() + run::said(now.model().begun(now.waiting()[0]), c),
{
    let w = now.world();
    let begun = now.model().begun(now.waiting()[0]);
    choose|c: Course| #[trigger]
        run::run(w, begun, ReplyModel::Nothing, c, after.model(), action) && after.deeds()
            == now.deeds().and(run::deeds(w, begun, c)) && after.logged() == now.logged()
            + run::said(begun, c)
}

/// The next task has an outcome where it is done.
proof fn lemma_done_is_answered(now: Kernel, after: Kernel, action: ActionModel)
    requires
        now.model().sound(),
        now.model().resting(),
        next_task(now, after, action),
    ensures
        action matches ActionModel::Done { outcome } ==> outcome is Some,
{
    if action is Done {
        let e = now.waiting()[0];
        let c = lemma_next_course(now, after, action);
        run::law_runs_lead(
            now.world(),
            now.model().begun(e),
            ReplyModel::Nothing,
            c,
            after.model(),
            action,
        );
        laws::law_every_task_is_answered(
            now.model(),
            e,
            c.replies,
            after.model(),
            action->outcome,
        );
    }
}

#[verifier::rlimit(40)]
proof fn lemma_serving_one_more(
    before: Kernel,
    now: Kernel,
    states: Seq<KernelModel>,
    runs: Seq<Course>,
    done: Seq<OutcomeModel>,
    after: Kernel,
    outcome: OutcomeModel,
    c: Course,
)
    requires
        serving(before, now, states, runs, done),
        now.waiting().len() > 0,
        after.world() == now.world(),
        after.waiting() == now.waiting().drop_first(),
        run::run(
            now.world(),
            now.model().begun(now.waiting()[0]),
            ReplyModel::Nothing,
            c,
            after.model(),
            ActionModel::Done { outcome: Some(outcome) },
        ),
        after.deeds() == now.deeds().and(
            run::deeds(now.world(), now.model().begun(now.waiting()[0]), c),
        ),
        after.logged() == now.logged() + run::said(now.model().begun(now.waiting()[0]), c),
    ensures
        serving(before, after, states.push(after.model()), runs.push(c), done.push(outcome)),
{
    reveal(serving);
    let w = before.world();
    let all = before.waiting();
    let n = runs.len() as int;
    assert(all.skip(n)[0] == all[n]);
    assert(all.skip(n).drop_first() =~= all.skip(n + 1));
    lemma_one_more(w, states, all, runs, done, c, after.model(), outcome);
    let done = run::all_deeds(w, states, all, runs);
    let more = run::deeds(w, now.model().begun(all[n]), c);
    let said = run::all_said(states, all, runs);
    let later = run::said(now.model().begun(all[n]), c);
    lemma_deeds_joined(before, now, done, more, said, later, after);
    assert(run::all_deeds(w, states.push(after.model()), all, runs.push(c)) == done.and(more));
    assert(run::all_said(states.push(after.model()), all, runs.push(c)) == said + later);
}

proof fn lemma_serving_pauses(
    before: Kernel,
    now: Kernel,
    states: Seq<KernelModel>,
    runs: Seq<Course>,
    done: Seq<OutcomeModel>,
    after: Kernel,
    action: ActionModel,
)
    requires
        serving(before, now, states, runs, done),
        next_task(now, after, action),
        !(action is Rest),
    ensures
        drained(before, states, runs, done),
        paused(before, states, runs, after, action),
{
    reveal(serving);
    let all = before.waiting();
    let w = before.world();
    assert(all.skip(runs.len() as int)[0] == all[runs.len() as int]);
    let c = lemma_next_course(now, after, action);
    let done = run::all_deeds(w, states, all, runs);
    let more = run::deeds(w, now.model().begun(now.waiting()[0]), c);
    let said = run::all_said(states, all, runs);
    let later = run::said(now.model().begun(now.waiting()[0]), c);
    lemma_deeds_joined(before, now, done, more, said, later, after);
}

/// What was done and said up to now, and what was done and said then.
proof fn lemma_deeds_joined(
    before: Kernel,
    now: Kernel,
    done: Deeds,
    more: Deeds,
    said: Seq<Text>,
    later: Seq<Text>,
    after: Kernel,
)
    requires
        now.deeds() == before.deeds().and(done),
        now.logged() == before.logged() + said,
        after.deeds() == now.deeds().and(more),
        after.logged() == now.logged() + later,
    ensures
        after.deeds() == before.deeds().and(done.and(more)),
        after.logged() == before.logged() + (said + later),
{
    assert(after.deeds() =~= before.deeds().and(done.and(more)));
    assert(after.logged() =~= before.logged() + (said + later));
}

/// One more event was served.
proof fn lemma_one_more(
    w: World,
    states: Seq<KernelModel>,
    all: Seq<event::EventModel>,
    runs: Seq<Course>,
    done: Seq<OutcomeModel>,
    c: Course,
    end: KernelModel,
    outcome: OutcomeModel,
)
    requires
        runs.len() < all.len(),
        run::served(w, states, all.take(runs.len() as int), runs, done),
        run::run(
            w,
            states.last().begun(all[runs.len() as int]),
            ReplyModel::Nothing,
            c,
            end,
            ActionModel::Done { outcome: Some(outcome) },
        ),
    ensures
        run::served(
            w,
            states.push(end),
            all.take(runs.len() as int + 1),
            runs.push(c),
            done.push(outcome),
        ),
        run::all_deeds(w, states.push(end), all, runs.push(c)) == run::all_deeds(
            w,
            states,
            all,
            runs,
        ).and(run::deeds(w, states.last().begun(all[runs.len() as int]), c)),
        run::all_said(states.push(end), all, runs.push(c)) == run::all_said(states, all, runs)
            + run::said(states.last().begun(all[runs.len() as int]), c),
{
    let events = all.take(runs.len() as int);
    let s = states.push(end);
    let es = all.take(runs.len() as int + 1);
    let rs = runs.push(c);
    let ds = done.push(outcome);
    assert forall|i: int| 0 <= i < es.len() implies run::run(
        w,
        s[i].begun(es[i]),
        ReplyModel::Nothing,
        #[trigger] rs[i],
        s[i + 1],
        ActionModel::Done { outcome: Some(ds[i]) },
    ) by {
        if i < events.len() {
            assert(rs[i] == runs[i]);
            assert(events[i] == es[i]);
            assert(s[i] == states[i] && s[i + 1] == states[i + 1]);
        } else {
            assert(s[i] == states.last());
        }
    }
    assert(rs.drop_last() =~= runs);
    lemma_deeds_state(w, states, all, runs, end);
}

/// Only the states before a run matter to what was asked along it.
proof fn lemma_deeds_state(
    w: World,
    states: Seq<KernelModel>,
    events: Seq<event::EventModel>,
    runs: Seq<Course>,
    end: KernelModel,
)
    requires
        states.len() >= runs.len(),
    ensures
        run::all_deeds(w, states.push(end), events, runs) == run::all_deeds(
            w,
            states,
            events,
            runs,
        ),
        run::all_said(states.push(end), events, runs) == run::all_said(states, events, runs),
    decreases runs.len(),
{
    if runs.len() > 0 {
        lemma_deeds_state(w, states, events, runs.drop_last(), end);
    }
}

/// What resolving a plugin leaves in the log ends with what came of it: the version that is
/// active now, or that there is none. Where its versions could not be listed, nothing is
/// logged.
pub proof fn law_an_update_is_logged(
    found: PluginDir,
    name: Text,
    trust: registry::TrustModel,
    package: Result<Option<registry::PluginModel>, Text>,
    skipped: Seq<SkipModel>,
)
    ensures
        package is Err ==> resolve_lines(found, name, trust, package, skipped).len() == 0,
        package matches Ok(Some(p)) ==> resolve_lines(found, name, trust, package, skipped)
            == registry::trial_lines(found.name@, trust, Some(p), skipped).push(
            "[registry] hot-updated "@ + name + " -> v"@ + p.manifest.version,
        ),
        package == Ok::<Option<registry::PluginModel>, Text>(None) ==> resolve_lines(
            found,
            name,
            trust,
            package,
            skipped,
        ) == registry::trial_lines(found.name@, trust, None, skipped).push(
            "[registry] plugin '"@ + name + "' removed (no loadable version)"@,
        ),
{
}

} // verus!
