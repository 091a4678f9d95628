//! Putting a kernel together. Native plugins are registered here, so that the
//! hooks at `kernel_start` can see them.

use crate::breaker::BreakerModel;
use crate::config::{BackendConfig, Config};
use crate::event::EventModel;
use crate::inference;
use crate::inference::{InferenceBackend, OwnBackend, Says};
use crate::kernel::driver::{Kernel, Pause};
use crate::kernel::machine::Settings;
use crate::kernel::mind;
use crate::kernel::mind::Mind;
use crate::kernel::model::{ActionModel, KernelModel, ReplyModel, SettingsModel};
use crate::kernel::run;
use crate::kernel::run::Course;
use crate::names;
use crate::plugin::host;
use crate::plugin::host::SandboxCall;
use crate::plugin::manifest;
use crate::plugin::manifest::PluginKind;
use crate::plugin::native;
use crate::plugin::native::{NativeCall, NativeModel, NativePlugin, NativeRegistry, Natives};
use crate::plugin::registry;
use crate::plugin::registry::{PluginDir, Registry, ScanModel, ScanOptions, TrustModel};
use crate::plugin::runtime::{Bridge, NullBridge, PluginRuntime};
use crate::record;
use crate::text;
use crate::text::Text;
use vstd::prelude::*;

verus! {

pub struct KernelBuilder {
    cfg: Config,
    natives: NativeRegistry,
    backend: Option<OwnBackend>,
    bridge: Option<Bridge>,
}

/// The settings of a configuration. A backend of one's own takes the place of
/// the configured one.
pub open spec fn settings_of(cfg: Config, injected: bool) -> SettingsModel {
    SettingsModel {
        max_retries: cfg.max_format_retries as nat,
        plugin_max_failures: cfg.plugin_max_failures as nat,
        repair_plugin: text::opt_text(cfg.repair_plugin),
        infer_plugin: match cfg.backend {
            BackendConfig::Plugin { name } => if injected {
                None
            } else {
                Some(name@)
            },
            _ => None,
        },
    }
}

/// What keeps a configuration from being set up, if anything: a trusted key that
/// is none.
pub open spec fn setup_problem(cfg: Config) -> Option<Text> {
    match cfg.trusted_pubkey {
        Some(t) => match manifest::pubkey_of(t@) {
            Ok(_) => None,
            Err(e) => Some(e),
        },
        None => None,
    }
}

/// What the model of a configuration may say within a run, where `own` is what a
/// backend of one's own may say. A service that is reached from outside says
/// nothing there: the questions to it leave the kernel.
pub open spec fn model_of(cfg: Config, own: Option<Says>) -> Says {
    match own {
        Some(says) => says,
        None => match cfg.backend {
            BackendConfig::Mock => inference::mock_answers(),
            BackendConfig::Plugin { .. } => mind::absence(),
            _ => mind::silence(),
        },
    }
}

/// The model of a configuration is reached from outside.
pub open spec fn is_remote(cfg: Config, own: Option<Says>) -> bool {
    own is None && (cfg.backend is Openai || cfg.backend is LitertLm)
}

/// Whose signatures a configuration trusts.
pub open spec fn trust_of(cfg: Config) -> TrustModel {
    TrustModel {
        pubkey: match cfg.trusted_pubkey {
            Some(t) => match manifest::pubkey_of(t@) {
                Ok(bytes) => Some(bytes),
                Err(_) => None,
            },
            None => None,
        },
        allow_unsigned: cfg.dev_allow_unsigned,
    }
}

/// A kernel as configured, with the plugins that were found, whose `kernel_start`
/// hooks have run up to `action`. Its plugins reach capabilities by the bridge that
/// was supplied, and reach none where there was none.
pub open spec fn set_up(
    cfg: Config,
    own: Option<Says>,
    supplied: Option<Bridge>,
    natives: Natives,
    dirs: Seq<PluginDir>,
    k: Kernel,
    action: ActionModel,
) -> bool {
    &&& k.wf()
    &&& run::pauses(action)
    &&& !(action is Rest)
    &&& action is Ask ==> k.world().remote
    &&& k.model().waits_after(action)
    &&& k.waiting() == Seq::<EventModel>::empty()
    &&& k.trust() == trust_of(cfg)
    &&& k.world().fuel == cfg.plugin_fuel
    &&& k.world().memory_limit == cfg.plugin_memory_limit
    &&& match supplied {
        Some(bridge) => k.world().bridge == bridge,
        None => k.world().bridge.leads_nowhere(),
    }
    &&& k.world().model == model_of(cfg, own)
    &&& k.world().remote == is_remote(cfg, own)
    &&& exists|states: Seq<ScanModel>, c: Course|
        #![trigger registry::scanned_all(states, dirs, trust_of(cfg)), run::deeds(
            k.world(),
            fresh_model(cfg, own, natives, states.last()).started(),
            c,
        )]
        registry::scanned_all(states, dirs, trust_of(cfg)) && run::run(
            k.world(),
            fresh_model(cfg, own, natives, states.last()).started(),
            ReplyModel::Nothing,
            c,
            k.model(),
            action,
        ) && k.deeds() == run::deeds(
            k.world(),
            fresh_model(cfg, own, natives, states.last()).started(),
            c,
        ) && k.logged() == states.last().notes + run::said(
            fresh_model(cfg, own, natives, states.last()).started(),
            c,
        )
}

/// The kernel before it starts, with what a scan found.
pub open spec fn fresh_model(
    cfg: Config,
    own: Option<Says>,
    natives: Natives,
    found: ScanModel,
) -> KernelModel {
    KernelModel::fresh(
        settings_of(cfg, own is Some),
        cfg.context_max_bytes as nat,
        BreakerModel::fresh(cfg.breaker_max_failures as nat, cfg.breaker_max_repeats as nat),
        natives,
        found.plugins,
    )
}

impl KernelBuilder {
    /// No plugin was asked anything yet.
    #[verifier::type_invariant]
    spec fn wf(self) -> bool {
        self.natives.calls() == Seq::<NativeCall>::empty()
    }

    /// The configuration.
    pub closed spec fn config(&self) -> Config {
        self.cfg
    }

    /// The native plugins that were registered.
    pub closed spec fn natives(&self) -> Natives {
        self.natives@
    }

    /// What the backend of one's own may say, where one was supplied.
    pub closed spec fn own(&self) -> Option<Says> {
        match self.backend {
            Some(b) => Some(b.says()),
            None => None,
        }
    }

    /// The bridge that was supplied.
    pub closed spec fn supplied(&self) -> Option<Bridge> {
        self.bridge
    }

    pub fn new(cfg: Config) -> (r: Self)
        ensures
            r.config() == cfg,
            r.natives() == Seq::<(Text, NativeModel)>::empty(),
            r.own() is None,
            r.supplied() is None,
    {
        KernelBuilder { cfg, natives: NativeRegistry::default(), backend: None, bridge: None }
    }

    /// Registers a native tool that occupies `devices`.
    pub fn register_tool<P: NativePlugin + 'static>(
        self,
        name: &str,
        devices: &[&str],
        plugin: P,
    ) -> (r: Self)
        ensures
            r.config() == self.config(),
            r.own() == self.own(),
            r.supplied() == self.supplied(),
            r.natives() == names::put(
                self.natives(),
                name@,
                NativeModel {
                    kind: PluginKind::Tool,
                    hooks: seq![],
                    devices: record::names_of(devices@),
                    answers: native::answers_of(plugin),
                },
            ),
    {
        proof {
            use_type_invariant(&self);
        }
        let KernelBuilder { cfg, natives, backend, bridge } = self;
        let mut natives = natives;
        natives.register_tool(name, devices, plugin);
        KernelBuilder { cfg, natives, backend, bridge }
    }

    /// Registers a native strategy.
    pub fn register_strategy<P: NativePlugin + 'static>(self, name: &str, plugin: P) -> (r: Self)
        ensures
            r.config() == self.config(),
            r.own() == self.own(),
            r.supplied() == self.supplied(),
            r.natives() == names::put(
                self.natives(),
                name@,
                NativeModel {
                    kind: PluginKind::Strategy,
                    hooks: seq![],
                    devices: seq![],
                    answers: native::answers_of(plugin),
                },
            ),
    {
        proof {
            use_type_invariant(&self);
        }
        let KernelBuilder { cfg, natives, backend, bridge } = self;
        let mut natives = natives;
        natives.register_strategy(name, plugin);
        KernelBuilder { cfg, natives, backend, bridge }
    }

    /// Registers a native hook at `points`.
    pub fn register_hook<P: NativePlugin + 'static>(
        self,
        name: &str,
        points: &[&str],
        plugin: P,
    ) -> (r: Self)
        ensures
            r.config() == self.config(),
            r.own() == self.own(),
            r.supplied() == self.supplied(),
            r.natives() == names::put(
                self.natives(),
                name@,
                NativeModel {
                    kind: PluginKind::Hook,
                    hooks: record::names_of(points@),
                    devices: seq![],
                    answers: native::answers_of(plugin),
                },
            ),
    {
        proof {
            use_type_invariant(&self);
        }
        let KernelBuilder { cfg, natives, backend, bridge } = self;
        let mut natives = natives;
        natives.register_hook(name, points, plugin);
        KernelBuilder { cfg, natives, backend, bridge }
    }

    /// Supplies a backend, in place of the configured one.
    pub fn backend<B: InferenceBackend + 'static>(self, backend: B) -> (r: Self)
        ensures
            r.config() == self.config(),
            r.natives() == self.natives(),
            r.own() == Some(inference::says_of(backend)),
            r.supplied() == self.supplied(),
    {
        proof {
            use_type_invariant(&self);
        }
        let KernelBuilder { cfg, natives, backend: _, bridge } = self;
        KernelBuilder { cfg, natives, backend: Some(OwnBackend::new(backend)), bridge }
    }

    /// Supplies the provider of capabilities for wasm plugins.
    pub fn bridge(self, bridge: Bridge) -> (r: Self)
        ensures
            r.config() == self.config(),
            r.natives() == self.natives(),
            r.own() == self.own(),
            r.supplied() == Some(bridge),
    {
        proof {
            use_type_invariant(&self);
        }
        let KernelBuilder { cfg, natives, backend, bridge: _ } = self;
        KernelBuilder { cfg, natives, backend, bridge: Some(bridge) }
    }

    /// Builds the kernel with the wasm plugins found in `dirs`, and starts it. It
    /// fails where the trusted key is none, and else only where the machine cannot
    /// run the sandbox. The `kernel_start` hooks run until something is needed from
    /// outside.
    pub fn build(self, dirs: &[PluginDir]) -> (r: Result<(Kernel, Pause), String>)
        ensures
            match setup_problem(self.config()) {
                Some(e) => r is Err && r->Err_0@ == e,
                None => host::may_make_engine(true, 0, host::outcome_of(r)) && (r matches Ok(
                    (k, pause),
                ) ==> set_up(
                    self.config(),
                    self.own(),
                    self.supplied(),
                    self.natives(),
                    dirs@,
                    k,
                    pause@,
                )),
            },
    {
        match &self.cfg.trusted_pubkey {
            Some(t) => match manifest::parse_pubkey(t.as_str()) {
                Ok(_) => {},
                Err(e) => {
                    return Err(e);
                },
            },
            None => {},
        }
        match PluginRuntime::new() {
            Ok(runtime) => self.build_in(runtime, dirs),
            Err(e) => Err(e),
        }
    }

    /// Builds the kernel in a sandbox that nothing was asked of yet, and starts it.
    /// It fails exactly where the trusted key is none.
    pub fn build_in(self, runtime: PluginRuntime, dirs: &[PluginDir]) -> (r: Result<
        (Kernel, Pause),
        String,
    >)
        requires
            runtime.calls() == Seq::<SandboxCall>::empty(),
        ensures
            match setup_problem(self.config()) {
                Some(e) => r is Err && r->Err_0@ == e,
                None => r matches Ok((k, pause)) && set_up(
                    self.config(),
                    self.own(),
                    self.supplied(),
                    self.natives(),
                    dirs@,
                    k,
                    pause@,
                ),
            },
    {
        proof {
            use_type_invariant(&self);
        }
        let KernelBuilder { cfg, natives, backend, bridge } = self;
        let pubkey = match &cfg.trusted_pubkey {
            Some(t) => match manifest::parse_pubkey(t.as_str()) {
                Ok(key) => Some(key),
                Err(e) => {
                    return Err(e);
                },
            },
            None => None,
        };
        let mut infer_plugin: Option<String> = None;
        let mind = match backend {
            Some(b) => Mind::own(b),
            None => match &cfg.backend {
                BackendConfig::Mock => Mind::mock(),
                BackendConfig::Plugin { name } => {
                    infer_plugin = Some(name.clone());
                    Mind::absent()
                },
                _ => Mind::elsewhere(),
            },
        };
        let key = match &pubkey {
            Some(k) => Some(k),
            None => None,
        };
        let opts = ScanOptions { pubkey: key, allow_unsigned: cfg.dev_allow_unsigned };
        assert(opts@ == trust_of(cfg));
        let (registry, notes) = Registry::scan_noting(&runtime, dirs, &opts);
        let bridge = match bridge {
            Some(b) => b,
            None => Bridge::new(NullBridge),
        };
        let repair_plugin = match &cfg.repair_plugin {
            Some(name) => Some(name.clone()),
            None => None,
        };
        let settings = Settings {
            max_format_retries: cfg.max_format_retries,
            plugin_max_failures: cfg.plugin_max_failures,
            repair_plugin,
            infer_plugin,
        };
        let ghost found = ScanModel { plugins: registry@, notes: text::texts(notes@) };
        let ghost states = choose|states: Seq<ScanModel>| #[trigger]
            registry::scanned_all(states, dirs@, opts@) && states.last() == found;
        proof {
            registry::law_only_trusted_code_is_scanned(states, dirs@, trust_of(cfg));
        }
        let mut k = Kernel::assemble(
            &cfg,
            settings,
            natives,
            registry,
            runtime,
            bridge,
            mind,
            pubkey,
            notes,
        );
        let ghost fresh = k;
        let pause = k.start();
        proof {
            let begun = fresh.model().started();
            let c = choose|c: Course| #[trigger]
                run::run(fresh.world(), begun, ReplyModel::Nothing, c, k.model(), pause@)
                    && k.deeds() == fresh.deeds().and(run::deeds(fresh.world(), begun, c))
                    && k.logged() == fresh.logged() + run::said(begun, c);
            assert(k.deeds() =~= run::deeds(k.world(), begun, c));
            assert(registry::scanned_all(states, dirs@, trust_of(cfg)));
            assert(begun == fresh_model(cfg, self.own(), self.natives(), states.last()).started());
        }
        Ok((k, pause))
    }
}

impl Kernel {
    /// Begins to put a kernel together.
    pub fn builder(cfg: Config) -> (r: KernelBuilder)
        ensures
            r.config() == cfg,
            r.natives() == Seq::<(Text, NativeModel)>::empty(),
            r.own() is None,
            r.supplied() is None,
    {
        KernelBuilder::new(cfg)
    }

    /// A kernel without native plugins, which has started: its `kernel_start` hooks
    /// have run, or have run until something is needed from outside.
    pub fn new(cfg: Config, bridge: Option<Bridge>, dirs: &[PluginDir]) -> (r: Result<
        (Self, Pause),
        String,
    >)
        ensures
            match setup_problem(cfg) {
                Some(e) => r is Err && r->Err_0@ == e,
                None => host::may_make_engine(true, 0, host::outcome_of(r)) && (r matches Ok(
                    (k, pause),
                ) ==> set_up(cfg, None, bridge, seq![], dirs@, k, pause@)),
            },
    {
        let b = KernelBuilder::new(cfg);
        match bridge {
            Some(bridge) => b.bridge(bridge).build(dirs),
            None => b.build(dirs),
        }
    }
}

/// A kernel starts as it is configured: with the limits and the plugins that are named
/// there, an empty conversation, a closed breaker that has seen nothing, and no device
/// locked. A plugin does the inference only where that is configured and no backend of
/// one's own takes its place.
pub proof fn law_a_kernel_starts_as_configured(
    cfg: Config,
    own: Option<Says>,
    natives: Natives,
    found: ScanModel,
)
    ensures
        ({
            let k = fresh_model(cfg, own, natives, found);
            &&& k.settings.max_retries == cfg.max_format_retries
            &&& k.settings.plugin_max_failures == cfg.plugin_max_failures
            &&& k.settings.repair_plugin is Some == cfg.repair_plugin is Some
            &&& cfg.repair_plugin matches Some(name) ==> k.settings.repair_plugin == Some(name@)
            &&& k.settings.infer_plugin is Some <==> cfg.backend is Plugin && own is None
            &&& k.settings.infer_plugin matches Some(name) ==> name == cfg.backend->Plugin_name@
            &&& k.context_budget == cfg.context_max_bytes
            &&& k.context.len() == 0
            &&& k.breaker.max_failures == cfg.breaker_max_failures
            &&& k.breaker.max_repeats == cfg.breaker_max_repeats
            &&& k.breaker.failures == 0 && k.breaker.last_action is None && k.breaker.repeats == 0
                && !k.breaker.open
            &&& forall|n: Text| !(#[trigger] k.locks.contains_key(n))
            &&& k.natives == natives && k.plugins == found.plugins
            &&& k.task == 0 && k.event is None && k.pending.len() == 0
            &&& k.resting()
        }),
{
}

/// Whom a configuration trusts: the key that it names, and unsigned plugins only where it
/// says so. A key that is none keeps the kernel from being set up.
pub proof fn law_trust_is_as_configured(cfg: Config)
    ensures
        cfg.trusted_pubkey is None ==> trust_of(cfg).pubkey is None && setup_problem(cfg) is None,
        cfg.trusted_pubkey matches Some(t) ==> match manifest::pubkey_of(t@) {
            Ok(key) => trust_of(cfg).pubkey == Some(key) && setup_problem(cfg) is None,
            Err(e) => setup_problem(cfg) == Some(e),
        },
        trust_of(cfg).allow_unsigned == cfg.dev_allow_unsigned,
        is_remote(cfg, None) <==> cfg.backend is Openai || cfg.backend is LitertLm,
{
}

} // verus!
