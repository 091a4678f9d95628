//! Native (in-process) plugins. Wasm is only one execution form -- the one
//! that supports hot update from disk on a running device. Business code
//! built on this crate as a library registers plain Rust implementations
//! here: no sandbox, no signature, no serialization round-trip. Native code
//! is trusted by definition -- it is compiled into the same binary as the
//! kernel -- so it always sees the conversation context and needs no
//! capability adjudication (it can call hardware directly).
//!
//! Native and wasm plugins share the same `PluginInput`/`PluginOutput`
//! contract and the same kernel dispatch (tools, strategy, hooks). On a name
//! collision the native registration wins: in-tree code beats disk artifacts.

use crate::names;
use crate::names::NameMap;
use crate::plugin::abi::{InputModel, OutputModel, PluginInput, PluginOutput};
use crate::plugin::manifest::PluginKind;
use crate::plugin::runtime;
use crate::record;
use crate::text;
use crate::text::Text;
use vstd::prelude::*;

verus! {

/// Implement this (or wrap a closure in `FnPlugin`, or one that keeps a state of its
/// own in `FnMutPlugin`) and register it on `Kernel::builder`.
pub trait NativePlugin: Send {
    /// What the plugin may ever answer to an input. Anything, unless it says
    /// otherwise.
    open spec fn answers(&self, input: InputModel, result: Result<OutputModel, Text>) -> bool {
        true
    }

    fn handle(&mut self, input: &PluginInput) -> (r: Result<PluginOutput, String>)
        ensures
            old(self).answers(input@, runtime::output_texts(r)),
            forall|i: InputModel, o: Result<OutputModel, Text>| #[trigger]
                final(self).answers(i, o) == old(self).answers(i, o),
    ;
}

/// A closure as a plugin.
pub struct FnPlugin<F: Fn(&PluginInput) -> Result<PluginOutput, String> + Send> {
    f: F,
}

impl<F: Fn(&PluginInput) -> Result<PluginOutput, String> + Send> FnPlugin<F> {
    #[verifier::type_invariant]
    spec fn wf(self) -> bool {
        forall|input: &PluginInput| #[trigger] call_requires(self.f, (input,))
    }

    /// The closure.
    pub closed spec fn closure(&self) -> F {
        self.f
    }

    pub fn new(f: F) -> (r: Self)
        requires
            forall|input: &PluginInput| #[trigger] call_requires(f, (input,)),
        ensures
            r.closure() == f,
    {
        FnPlugin { f }
    }
}

impl<F: Fn(&PluginInput) -> Result<PluginOutput, String> + Send> NativePlugin for FnPlugin<F> {
    open spec fn answers(&self, input: InputModel, result: Result<OutputModel, Text>) -> bool {
        exists|i: &PluginInput, r: Result<PluginOutput, String>|
            i@ == input && runtime::output_texts(r) == result && #[trigger] call_ensures(
                self.closure(),
                (i,),
                r,
            )
    }

    fn handle(&mut self, input: &PluginInput) -> (r: Result<PluginOutput, String>)
        ensures
            call_ensures(old(self).closure(), (input,), r),
            final(self).closure() == old(self).closure(),
    {
        proof {
            use_type_invariant(&*self);
        }
        let r = (self.f)(input);
        assert(call_ensures(self.closure(), (input,), r));
        r
    }
}

/// Whatever state a closure of this type is in, it takes every input.
struct Willing<F: FnMut(&PluginInput) -> Result<PluginOutput, String> + Send> {
    closures: Ghost<Option<F>>,
}

impl<F: FnMut(&PluginInput) -> Result<PluginOutput, String> + Send> Willing<F> {
    #[verifier::type_invariant]
    spec fn wf(self) -> bool {
        forall|f: F, input: &PluginInput| #[trigger] call_requires(f, (input,))
    }
}

/// A closure that keeps a state of its own, as a plugin.
pub struct FnMutPlugin<F: FnMut(&PluginInput) -> Result<PluginOutput, String> + Send> {
    f: F,
    willing: Willing<F>,
}

impl<F: FnMut(&PluginInput) -> Result<PluginOutput, String> + Send> FnMutPlugin<F> {
    /// The closure.
    pub closed spec fn closure(&self) -> F {
        self.f
    }

    pub fn new(f: F) -> (r: Self)
        requires
            forall|g: F, input: &PluginInput| #[trigger] call_requires(g, (input,)),
        ensures
            r.closure() == f,
    {
        FnMutPlugin { f, willing: Willing { closures: Ghost(None) } }
    }
}

impl<F: FnMut(&PluginInput) -> Result<PluginOutput, String> + Send> NativePlugin for FnMutPlugin<
    F,
> {
    /// What a closure of this type may answer, in whatever state it is.
    open spec fn answers(&self, input: InputModel, result: Result<OutputModel, Text>) -> bool {
        exists|f: F, i: &PluginInput, r: Result<PluginOutput, String>|
            i@ == input && runtime::output_texts(r) == result && #[trigger] call_ensures(
                f,
                (i,),
                r,
            )
    }

    fn handle(&mut self, input: &PluginInput) -> (r: Result<PluginOutput, String>)
        ensures
            call_ensures(old(self).closure(), (input,), r),
    {
        proof {
            use_type_invariant(&self.willing);
        }
        (self.f)(input)
    }
}

/// What a plugin may answer.
pub open spec fn answers_of<P: NativePlugin>(plugin: P) -> spec_fn(
    InputModel,
    Result<OutputModel, Text>,
) -> bool {
    |i: InputModel, r: Result<OutputModel, Text>| plugin.answers(i, r)
}

/// A plugin as a registration holds it.
struct Held<P: NativePlugin> {
    plugin: P,
}

impl<P: NativePlugin> NativePlugin for Held<P> {
    closed spec fn answers(&self, input: InputModel, result: Result<OutputModel, Text>) -> bool {
        self.plugin.answers(input, result)
    }

    fn handle(&mut self, input: &PluginInput) -> (r: Result<PluginOutput, String>) {
        self.plugin.handle(input)
    }
}

struct Entry {
    kind: PluginKind,
    hooks: Vec<String>,
    /// Resources locked for the duration of a tool invocation -- same
    /// arbitration as wasm tools declare via their manifest.
    devices: Vec<String>,
    plugin: Box<dyn NativePlugin>,
}

/// A registration as the contracts see it.
pub struct NativeModel {
    pub kind: PluginKind,
    pub hooks: Seq<Text>,
    pub devices: Seq<Text>,
    /// What the plugin may answer.
    pub answers: spec_fn(InputModel, Result<OutputModel, Text>) -> bool,
}

impl View for Entry {
    type V = NativeModel;

    closed spec fn view(&self) -> NativeModel {
        NativeModel {
            kind: self.kind,
            hooks: text::texts(self.hooks@),
            devices: text::texts(self.devices@),
            answers: |i: InputModel, r: Result<OutputModel, Text>| self.plugin.answers(i, r),
        }
    }
}

/// The registrations, in name order.
pub type Natives = Seq<(Text, NativeModel)>;

/// Registrations of one kind.
pub open spec fn of_kind(kind: PluginKind) -> spec_fn((Text, NativeModel)) -> bool {
    |e: (Text, NativeModel)| e.1.kind == kind
}

/// Registrations that attach to a hook point.
pub open spec fn attached_to(point: Text) -> spec_fn((Text, NativeModel)) -> bool {
    |e: (Text, NativeModel)| e.1.kind == PluginKind::Hook && e.1.hooks.contains(point)
}

/// The resources that the tool `name` occupies; `None` where no tool has that
/// name.
pub open spec fn devices_of(s: Natives, name: Text) -> Option<Seq<Text>> {
    match names::find(s, name) {
        Some(e) => if e.kind == PluginKind::Tool {
            Some(e.devices)
        } else {
            None
        },
        None => None,
    }
}

/// What may come of having the plugin `name` handle an input.
pub open spec fn may_answer(
    s: Natives,
    name: Text,
    input: InputModel,
    result: Result<OutputModel, Text>,
) -> bool {
    match names::find(s, name) {
        Some(e) => (e.answers)(input, result),
        None => result == Err::<OutputModel, Text>(
            "native plugin '"@ + name + "' not registered"@,
        ),
    }
}

/// The names of the strategies, in order.
pub open spec fn strategies(s: Natives) -> Seq<Text> {
    names::names_where(s, of_kind(PluginKind::Strategy))
}

/// The one strategy that is active: the first by name.
pub open spec fn strategy_of(s: Natives) -> Option<Text> {
    if strategies(s).len() > 0 {
        Some(strategies(s)[0])
    } else {
        None
    }
}

/// What a plugin was asked, and what it answered.
pub struct NativeCall {
    pub name: Text,
    pub input: InputModel,
    pub result: Result<OutputModel, Text>,
}

/// The registrations, with the record of what was asked of them. Nothing outside this
/// module can name a registered plugin, and here only `invoke` calls one and adds to
/// the record.
pub struct NativeRegistry {
    entries: NameMap<Entry>,
    calls: Ghost<Seq<NativeCall>>,
}

impl View for NativeRegistry {
    type V = Natives;

    closed spec fn view(&self) -> Natives {
        self.entries@
    }
}

impl Default for NativeRegistry {
    fn default() -> (r: Self)
        ensures
            r@ == Seq::<(Text, NativeModel)>::empty(),
            r.calls() == Seq::<NativeCall>::empty(),
    {
        let ghost none = Seq::<NativeCall>::empty();
        NativeRegistry { entries: NameMap::new(), calls: Ghost(none) }
    }
}

fn own_texts(list: &[&str]) -> (r: Vec<String>)
    ensures
        text::texts(r@) == record::names_of(list@),
{
    let mut out: Vec<String> = Vec::new();
    let mut i: usize = 0;
    while i < list.len()
        invariant
            i <= list@.len(),
            out@.len() == i,
            forall|j: int| 0 <= j < i ==> (#[trigger] out@[j])@ == list@[j]@,
        decreases list.len() - i,
    {
        out.push(list[i].to_string());
        i += 1;
    }
    assert(text::texts(out@) =~= record::names_of(list@));
    out
}

impl NativeRegistry {
    /// What was asked so far.
    pub closed spec fn calls(&self) -> Seq<NativeCall> {
        self.calls@
    }

    /// Registers a tool, in place of what had its name.
    pub fn register_tool<P: NativePlugin + 'static>(
        &mut self,
        name: &str,
        devices: &[&str],
        plugin: P,
    )
        ensures
            final(self).calls() == old(self).calls(),
            final(self)@ == names::put(
                old(self)@,
                name@,
                NativeModel {
                    kind: PluginKind::Tool,
                    hooks: seq![],
                    devices: record::names_of(devices@),
                    answers: answers_of(plugin),
                },
            ),
    {
        let hooks: Vec<String> = Vec::new();
        assert(text::texts(hooks@) =~= Seq::<Text>::empty());
        let entry = Entry {
            kind: PluginKind::Tool,
            hooks,
            devices: own_texts(devices),
            plugin: Box::new(Held { plugin }),
        };
        assert(entry@.answers =~= answers_of(plugin));
        self.entries.insert(name.to_string(), entry);
    }

    /// Registers a strategy, in place of what had its name.
    pub fn register_strategy<P: NativePlugin + 'static>(&mut self, name: &str, plugin: P)
        ensures
            final(self).calls() == old(self).calls(),
            final(self)@ == names::put(
                old(self)@,
                name@,
                NativeModel {
                    kind: PluginKind::Strategy,
                    hooks: seq![],
                    devices: seq![],
                    answers: answers_of(plugin),
                },
            ),
    {
        let hooks: Vec<String> = Vec::new();
        let devices: Vec<String> = Vec::new();
        assert(text::texts(hooks@) =~= Seq::<Text>::empty());
        assert(text::texts(devices@) =~= Seq::<Text>::empty());
        let entry = Entry { kind: PluginKind::Strategy, hooks, devices, plugin: Box::new(Held { plugin }) };
        assert(entry@.answers =~= answers_of(plugin));
        self.entries.insert(name.to_string(), entry);
    }

    /// Registers a hook at `points`, in place of what had its name.
    pub fn register_hook<P: NativePlugin + 'static>(
        &mut self,
        name: &str,
        points: &[&str],
        plugin: P,
    )
        ensures
            final(self).calls() == old(self).calls(),
            final(self)@ == names::put(
                old(self)@,
                name@,
                NativeModel {
                    kind: PluginKind::Hook,
                    hooks: record::names_of(points@),
                    devices: seq![],
                    answers: answers_of(plugin),
                },
            ),
    {
        let devices: Vec<String> = Vec::new();
        assert(text::texts(devices@) =~= Seq::<Text>::empty());
        let entry = Entry {
            kind: PluginKind::Hook,
            hooks: own_texts(points),
            devices,
            plugin: Box::new(Held { plugin }),
        };
        assert(entry@.answers =~= answers_of(plugin));
        self.entries.insert(name.to_string(), entry);
    }

    pub fn contains(&self, name: &str) -> (r: bool)
        ensures
            r == names::find(self@, name@) is Some,
    {
        self.entries.get(name).is_some()
    }

    /// Some(devices) iff `name` is a registered native tool.
    pub fn tool_devices(&self, name: &str) -> (r: Option<Vec<String>>)
        ensures
            r is Some <==> devices_of(self@, name@) is Some,
            r matches Some(v) ==> Some(text::texts(v@)) == devices_of(self@, name@),
    {
        match self.entries.get(name) {
            Some(e) => {
                if e.kind == PluginKind::Tool {
                    Some(text::copy_texts(e.devices.as_slice()))
                } else {
                    None
                }
            },
            None => None,
        }
    }

    fn names_of_kind(&self, kind: PluginKind) -> (r: Vec<String>)
        ensures
            text::texts(r@) == names::names_where(self@, of_kind(kind)),
    {
        let mut out: Vec<String> = Vec::new();
        let mut i: usize = 0;
        assert(text::texts(out@) =~= names::names_where(self@.take(0), of_kind(kind)));
        while i < self.entries.len()
            invariant
                i <= self@.len(),
                self@ == self.entries@,
                text::texts(out@) == names::names_where(self@.take(i as int), of_kind(kind)),
            decreases self@.len() - i,
        {
            let ghost before = text::texts(out@);
            proof {
                let next = self@.take(i + 1);
                assert(next.drop_last() =~= self@.take(i as int));
                assert(next.last() == self@[i as int]);
            }
            if self.entries.value_at(i).kind == kind {
                out.push(self.entries.name_at(i).clone());
                assert(text::texts(out@) =~= before.push(self@[i as int].0));
            }
            i += 1;
        }
        assert(self@.take(i as int) =~= self@);
        out
    }

    /// The names of the tools, in order.
    pub fn tool_names(&self) -> (r: Vec<String>)
        ensures
            text::texts(r@) == names::names_where(self@, of_kind(PluginKind::Tool)),
    {
        self.names_of_kind(PluginKind::Tool)
    }

    /// The single active native strategy (deterministic pick if several exist).
    pub fn strategy_name(&self) -> (r: Option<String>)
        ensures
            text::opt_text(r) == strategy_of(self@),
    {
        let found = self.names_of_kind(PluginKind::Strategy);
        if found.len() > 0 {
            assert(text::texts(found@)[0] == found@[0]@);
            Some(found[0].clone())
        } else {
            None
        }
    }

    /// The names of the hooks at `point`, in order.
    pub fn hooks_for(&self, point: &str) -> (r: Vec<String>)
        ensures
            text::texts(r@) == names::names_where(self@, attached_to(point@)),
    {
        let mut out: Vec<String> = Vec::new();
        let mut i: usize = 0;
        assert(text::texts(out@) =~= names::names_where(self@.take(0), attached_to(point@)));
        while i < self.entries.len()
            invariant
                i <= self@.len(),
                self@ == self.entries@,
                text::texts(out@) == names::names_where(
                    self@.take(i as int),
                    attached_to(point@),
                ),
            decreases self@.len() - i,
        {
            let ghost before = text::texts(out@);
            proof {
                let next = self@.take(i + 1);
                assert(next.drop_last() =~= self@.take(i as int));
                assert(next.last() == self@[i as int]);
            }
            let entry = self.entries.value_at(i);
            if entry.kind == PluginKind::Hook && text::has_text(entry.hooks.as_slice(), point) {
                out.push(self.entries.name_at(i).clone());
                assert(text::texts(out@) =~= before.push(self@[i as int].0));
            }
            i += 1;
        }
        assert(self@.take(i as int) =~= self@);
        out
    }

    /// Has the plugin `name` handle `input`. Fails where none has that name;
    /// what a plugin answers is its own affair.
    pub fn invoke(&mut self, name: &str, input: &PluginInput) -> (r: Result<PluginOutput, String>)
        ensures
            final(self)@ == old(self)@,
            may_answer(old(self)@, name@, input@, runtime::output_texts(r)),
            final(self).calls() == old(self).calls().push(
                NativeCall { name: name@, input: input@, result: runtime::output_texts(r) },
            ),
    {
        let ghost before = self.entries@;
        let r = match self.entries.remove(name) {
            Some(entry) => {
                let mut entry = entry;
                let ghost was = entry@;
                let r = entry.plugin.handle(input);
                assert(entry@.answers =~= was.answers);
                self.entries.insert(name.to_string(), entry);
                proof {
                    names::lemma_put_back(before, name@);
                }
                r
            },
            None => {
                let mut message = "native plugin '".to_string();
                message.append(name);
                message.append("' not registered");
                Err(message)
            },
        };
        let ghost call = NativeCall {
            name: name@,
            input: input@,
            result: runtime::output_texts(r),
        };
        self.calls = Ghost(self.calls@.push(call));
        r
    }
}

} // verus!
