//! The ground that sandboxes stand on: the engine, the linker, and the record of
//! what is asked of guests.

use crate::plugin::abi::{HOST_CALL, HOST_LOG, HOST_MODULE};
use crate::plugin::bridge::{Bridge, Passed, Warden};
use crate::plugin::runtime;
use crate::text;
use crate::text::Text;
use vstd::prelude::*;
use wasmtime::{
    Caller, Engine, Func, Instance, Linker, Memory, Module, Store, StoreLimits, TypedFunc,
};

verus! {

#[verifier::external_type_specification]
#[verifier::external_body]
pub struct ExEngine(wasmtime::Engine);

#[verifier::external_type_specification]
#[verifier::external_body]
#[verifier::reject_recursive_types(T)]
pub struct ExStore<T: 'static>(wasmtime::Store<T>);

#[verifier::external_type_specification]
#[verifier::external_body]
pub struct ExModule(wasmtime::Module);

#[verifier::external_type_specification]
#[verifier::external_body]
pub struct ExInstance(wasmtime::Instance);

#[verifier::external_type_specification]
#[verifier::external_body]
pub struct ExMemory(wasmtime::Memory);

#[verifier::external_type_specification]
#[verifier::external_body]
pub struct ExFunc(wasmtime::Func);

#[verifier::external_type_specification]
#[verifier::external_body]
pub struct ExStoreLimits(wasmtime::StoreLimits);

#[verifier::external_type_specification]
#[verifier::external_body]
#[verifier::reject_recursive_types(T)]
pub struct ExLinker<T>(wasmtime::Linker<T>);

#[verifier::external_type_specification]
#[verifier::external_body]
#[verifier::reject_recursive_types(T)]
pub struct ExCaller<'a, T: 'static>(wasmtime::Caller<'a, T>);

#[verifier::external_type_specification]
#[verifier::external_body]
#[verifier::reject_recursive_types(Params)]
#[verifier::reject_recursive_types(Results)]
pub struct ExTypedFunc<Params, Results>(wasmtime::TypedFunc<Params, Results>);

/// What a running guest's host calls need to know.
pub struct HostState {
    pub(crate) limits: StoreLimits,
    pub(crate) warden: Warden,
    pub(crate) log: Vec<String>,
}

/// What is asked of a sandbox, and what came back.
#[allow(inconsistent_fields)]
pub enum SandboxCall {
    /// To open, for a plugin with these capabilities and this way to them, within
    /// these budgets.
    Open {
        plugin: Text,
        capabilities: Seq<Text>,
        bridge: Bridge,
        fuel: u64,
        memory_limit: usize,
        memories: usize,
    },
    /// To instantiate code.
    Instantiate { code: Seq<u8>, outcome: Result<(), Text> },
    /// To find a function with its type.
    Function { name: Text, outcome: Result<(), Text> },
    /// To find something by its name alone.
    Lookup { name: Text, found: bool },
    /// To give a function that was found its type.
    Typed { outcome: Result<(), Text> },
    /// To call the guest's allocator.
    Alloc { len: int, outcome: Result<i32, Text> },
    /// To call the guest's allocator out of a host call, when `passed` had been handed
    /// to the provider.
    Reenter { passed: Seq<Passed>, len: int, outcome: Result<i32, Text> },
    /// To write into the guest's memory.
    Write { at: int, bytes: Seq<u8>, outcome: Result<(), Text> },
    /// To call the guest's handler.
    Handle { at: int, len: int, outcome: Result<i64, Text> },
    /// To read from the guest's memory.
    Read { at: int, len: int, outcome: Result<Seq<u8>, Text> },
    /// To close: what the guest has logged, and the record of what was handed to the
    /// provider for it.
    Close { log: Seq<Text>, passed: Seq<Passed> },
}

/// Whether something went well, or why not.
pub open spec fn outcome_of<T>(r: Result<T, String>) -> Result<(), Text> {
    match r {
        Ok(_) => Ok(()),
        Err(e) => Err(e@),
    }
}

/// A number that came back, or why there is none.
pub open spec fn number_of<T>(r: Result<T, String>) -> Result<T, Text> {
    match r {
        Ok(v) => Ok(v),
        Err(e) => Err(e@),
    }
}

/// The bytes that came back, or why there are none.
pub open spec fn bytes_of(r: Result<Vec<u8>, String>) -> Result<Seq<u8>, Text> {
    match r {
        Ok(v) => Ok(v@),
        Err(e) => Err(e@),
    }
}

/// An engine that was made by `make_engine`, and whether guests spend fuel in it.
pub(crate) struct Metered {
    engine: Engine,
    fueled: Ghost<bool>,
}

/// What making an engine, in which guests spend fuel where `fuel` says so and whose
/// memories have `reserved` bytes of address space ahead of them, may come to. It
/// says nothing of which outcomes those are: whether there is an engine depends on
/// the machine.
pub uninterp spec fn may_make_engine(
    fuel: bool,
    reserved: u64,
    outcome: Result<(), Seq<char>>,
) -> bool;

/// Calls `wasmtime::Engine::new` with a configuration that consumes fuel where
/// `fuel` says so, and that reserves `reserved` bytes of address space ahead of a
/// guest's memory. It claims that guests spend fuel in the engine exactly where
/// `fuel` says so, and that what came of it is a thing that may come of it. Of its
/// address space nothing is claimed.
#[verifier::external_body]
fn make_engine(fuel: bool, reserved: u64) -> (r: Result<Metered, String>)
    ensures
        may_make_engine(fuel, reserved, outcome_of(r)),
        r matches Ok(m) ==> m.fueled() == fuel,
{
    let mut cfg = wasmtime::Config::new();
    cfg.consume_fuel(fuel);
    cfg.memory_reservation(reserved);
    cfg.memory_reservation_for_growth(reserved);
    cfg.memory_guard_size(reserved);
    let engine = Engine::new(&cfg).map_err(|e| format!("{e:#}"))?;
    Ok(Metered { engine, fueled: Ghost(fuel) })
}

impl Metered {
    /// Guests spend fuel.
    pub(crate) closed spec fn fueled(&self) -> bool {
        self.fueled@
    }

    /// The engine itself.
    pub(crate) closed spec fn inner(&self) -> Engine {
        self.engine
    }

    /// An engine in which guests spend fuel. It reserves no address space ahead
    /// of a guest's memory: the many gigabytes that an engine reserves of itself
    /// are more than small devices let a process have.
    pub(crate) fn new() -> (r: Result<Self, String>)
        ensures
            may_make_engine(true, 0, outcome_of(r)),
            r matches Ok(m) ==> m.fueled(),
    {
        make_engine(true, 0)
    }
}

/// A door of the sandbox: to the log, or to capabilities.
pub enum Door {
    Log,
    Call,
}

/// The doors of a sandbox, by the module and the name under which guests import
/// them.
pub type Doors = Map<(Text, Text), Door>;

/// The two doors that every sandbox has.
pub open spec fn host_doors() -> Doors {
    map![(HOST_MODULE@, HOST_LOG@) => Door::Log, (HOST_MODULE@, HOST_CALL@) => Door::Call]
}

/// What a linker defines.
pub uninterp spec fn linked(linker: Linker<HostState>) -> Doors;

/// The engine that a linker was made for.
pub uninterp spec fn linker_engine(linker: Linker<HostState>) -> Engine;

/// Calls `wasmtime::Linker::new`: a linker for that engine, which defines nothing.
#[verifier::external_body]
fn new_linker(engine: &Engine) -> (r: Linker<HostState>)
    ensures
        linked(r) == Doors::empty(),
        linker_engine(r) == *engine,
{
    Linker::new(engine)
}

/// Calls `wasmtime::Linker::func_wrap` with `host_log`: it is defined as the door
/// to the log, under a name that is not defined yet.
#[verifier::external_body]
fn link_log(linker: &mut Linker<HostState>, module: &str, name: &str) -> (r: Result<(), String>)
    ensures
        linker_engine(*final(linker)) == linker_engine(*old(linker)),
        !linked(*old(linker)).contains_key((module@, name@)) ==> r is Ok,
        r is Ok ==> linked(*final(linker)) == linked(*old(linker)).insert(
            (module@, name@),
            Door::Log,
        ),
{
    let log = |mut c: Caller<'_, HostState>, ptr: i32, len: i32| {
        runtime::host_log(&mut c, ptr, len)
    };
    linker.func_wrap(module, name, log).map(|_| ()).map_err(|e| format!("{e:#}"))
}

/// Calls `wasmtime::Linker::func_wrap` with `host_call`: it is defined as the door
/// to capabilities, under a name that is not defined yet.
#[verifier::external_body]
fn link_call(linker: &mut Linker<HostState>, module: &str, name: &str) -> (r: Result<(), String>)
    ensures
        linker_engine(*final(linker)) == linker_engine(*old(linker)),
        !linked(*old(linker)).contains_key((module@, name@)) ==> r is Ok,
        r is Ok ==> linked(*final(linker)) == linked(*old(linker)).insert(
            (module@, name@),
            Door::Call,
        ),
{
    let call = |mut c: Caller<'_, HostState>, ptr: i32, len: i32| {
        runtime::host_call(&mut c, ptr, len)
    };
    linker.func_wrap(module, name, call).map(|_| ()).map_err(|e| format!("{e:#}"))
}

/// A linker with the two doors.
fn link_host(engine: &Engine) -> (r: Result<Linker<HostState>, String>)
    ensures
        r is Ok,
        linked(r->Ok_0) == host_doors(),
        linker_engine(r->Ok_0) == *engine,
{
    let mut linker = new_linker(engine);
    proof {
        reveal_strlit("host_log");
        reveal_strlit("host_call");
        assert(HOST_LOG@.len() != HOST_CALL@.len());
    }
    match link_log(&mut linker, HOST_MODULE, HOST_LOG) {
        Ok(()) => match link_call(&mut linker, HOST_MODULE, HOST_CALL) {
            Ok(()) => {
                assert(linked(linker) =~= host_doors());
                Ok(linker)
            },
            Err(e) => Err(e),
        },
        Err(e) => Err(e),
    }
}

/// The code that a module was compiled from.
pub uninterp spec fn module_code(module: Module) -> Seq<u8>;

/// What compiling this code may come to. It says nothing of which outcomes those
/// are: what compiles depends on the machine.
pub uninterp spec fn may_compile(code: Seq<u8>, outcome: Result<(), Seq<char>>) -> bool;

/// Calls `wasmtime::Module::new`: the module is made from these very bytes, and
/// what came of it is a thing that may come of compiling them.
#[verifier::external_body]
fn compile_module(engine: &Engine, wasm: &[u8]) -> (r: Result<Module, String>)
    ensures
        may_compile(wasm@, outcome_of(r)),
        r matches Ok(m) ==> module_code(m) == wasm@,
{
    Module::new(engine, wasm).map_err(|e| format!("{e:#}"))
}

/// The most bytes that each linear memory may have under these limits, and how
/// many memories there may be.
pub uninterp spec fn limits_of(limits: StoreLimits) -> (usize, usize);

/// Calls `wasmtime::StoreLimitsBuilder::memory_size`, `memories` and `build`:
/// limits with these two numbers.
#[verifier::external_body]
pub(crate) fn store_limits(memory_limit: usize, memories: usize) -> (r: StoreLimits)
    ensures
        limits_of(r) == (memory_limit, memories),
{
    wasmtime::StoreLimitsBuilder::new().memory_size(memory_limit).memories(memories).build()
}

/// What tells a store from all others; what a store holds carries it too.
pub uninterp spec fn store_key(store: Store<HostState>) -> int;

/// The engine that a store was made for.
pub uninterp spec fn store_engine(store: Store<HostState>) -> Engine;

/// The warden that a store was opened with.
pub uninterp spec fn opened_with(store: Store<HostState>) -> Warden;

/// The same store, whatever went on in it.
pub open spec fn same_store(before: Store<HostState>, after: Store<HostState>) -> bool {
    &&& store_key(after) == store_key(before)
    &&& opened_with(after) == opened_with(before)
}

/// The store that an instance belongs to.
pub uninterp spec fn instance_key(instance: Instance) -> int;

/// The store that a memory belongs to.
pub uninterp spec fn memory_key(memory: Memory) -> int;

/// The store that a function belongs to.
pub uninterp spec fn func_key(func: Func) -> int;

/// The store that an allocator belongs to.
pub uninterp spec fn alloc_key(f: TypedFunc<i32, i32>) -> int;

/// The store that a handler belongs to.
pub uninterp spec fn handler_key(f: TypedFunc<(i32, i32), i64>) -> int;

/// An engine in which guests spend fuel, with its linker, which has the two doors.
struct Ground {
    metered: Metered,
    linker: Linker<HostState>,
}

impl Ground {
    #[verifier::type_invariant]
    spec fn wf(self) -> bool {
        &&& self.metered.fueled()
        &&& linked(self.linker) == host_doors()
        &&& linker_engine(self.linker) == self.metered.inner()
    }
}

/// What sandboxes stand on, with the record of what was asked of them and what
/// came back. The record is that of the calls below: nothing else is asked of a
/// sandbox from outside, and nothing else adds to it.
pub(crate) struct Host {
    ground: Ground,
    calls: Ghost<Seq<SandboxCall>>,
}

impl Host {
    /// What was asked of sandboxes so far.
    pub(crate) closed spec fn calls(&self) -> Seq<SandboxCall> {
        self.calls@
    }

    /// Guests spend fuel.
    pub(crate) closed spec fn fueled(&self) -> bool {
        self.ground.metered.fueled()
    }

    /// The ways out of a sandbox.
    pub(crate) closed spec fn doors(&self) -> Doors {
        linked(self.ground.linker)
    }

    /// The engine of all sandboxes.
    pub(crate) closed spec fn engine(&self) -> Engine {
        self.ground.metered.inner()
    }

    /// The engine that the linker was made for.
    closed spec fn linker_engine(&self) -> Engine {
        linker_engine(self.ground.linker)
    }

    /// There is one wherever the machine can make an engine.
    pub(crate) fn new() -> (r: Result<Self, String>)
        ensures
            may_make_engine(true, 0, outcome_of(r)),
            r matches Ok(h) ==> h.fueled() && h.doors() == host_doors() && h.calls() == Seq::<
                SandboxCall,
            >::empty(),
    {
        let ghost none = Seq::<SandboxCall>::empty();
        match Metered::new() {
            Err(e) => Err(e),
            Ok(metered) => match link_host(&metered.engine) {
                Err(e) => Err(e),
                Ok(linker) => Ok(Host { ground: Ground { metered, linker }, calls: Ghost(none) }),
            },
        }
    }

    /// Compiles code.
    pub(crate) fn compile(&self, wasm: &[u8]) -> (r: Result<Module, String>)
        ensures
            may_compile(wasm@, outcome_of(r)),
            r matches Ok(m) ==> module_code(m) == wasm@,
    {
        compile_module(&self.ground.metered.engine, wasm)
    }

    /// Calls `wasmtime::Store::new`, `limiter` and `set_fuel`: a fresh store with
    /// this state, which limits its growth, and with `fuel` to spend. It fails
    /// only where the engine does not consume fuel. That the limits and the fuel
    /// are kept to is the engine's part.
    #[verifier::external_body]
    fn open_store(&mut self, state: HostState, fuel: u64) -> (r: Result<Store<HostState>, String>)
        ensures
            old(self).fueled() ==> r is Ok,
            r matches Ok(s) ==> store_engine(s) == old(self).engine(),
            r matches Ok(s) ==> opened_with(s) == state.warden,
            final(self).engine() == old(self).engine(),
            final(self).calls() == old(self).calls().push(
                SandboxCall::Open {
                    plugin: state.warden.plugin(),
                    capabilities: state.warden.capabilities(),
                    bridge: state.warden.bridge(),
                    fuel,
                    memory_limit: limits_of(state.limits).0,
                    memories: limits_of(state.limits).1,
                },
            ),
    {
        let mut store = Store::new(&self.ground.metered.engine, state);
        store.limiter(|s| &mut s.limits);
        store.set_fuel(fuel).map_err(|e| format!("{e:#}"))?;
        Ok(store)
    }

    /// Opens a sandbox. There always is one.
    pub(crate) fn open(&mut self, state: HostState, fuel: u64) -> (r: Result<
        Store<HostState>,
        String,
    >)
        ensures
            r is Ok,
            store_engine(r->Ok_0) == final(self).engine(),
            opened_with(r->Ok_0) == state.warden,
            final(self).calls() == old(self).calls().push(
                SandboxCall::Open {
                    plugin: state.warden.plugin(),
                    capabilities: state.warden.capabilities(),
                    bridge: state.warden.bridge(),
                    fuel,
                    memory_limit: limits_of(state.limits).0,
                    memories: limits_of(state.limits).1,
                },
            ),
    {
        proof {
            use_type_invariant(&self.ground);
        }
        self.open_store(state, fuel)
    }

    /// Calls `wasmtime::Linker::instantiate`. Whether the code can be instantiated
    /// is up to it and to its budgets.
    #[verifier::external_body]
    fn link(&mut self, store: &mut Store<HostState>, module: &Module) -> (r: Result<
        Instance,
        String,
    >)
        requires
            store_engine(*old(store)) == old(self).linker_engine(),
        ensures
            same_store(*old(store), *final(store)),
            r matches Ok(i) ==> instance_key(i) == store_key(*old(store)),
            final(self).calls() == old(self).calls().push(
                SandboxCall::Instantiate { code: module_code(*module), outcome: outcome_of(r) },
            ),
    {
        self.ground.linker.instantiate(store, module).map_err(|e| format!("{e:#}"))
    }

    /// Instantiates code in a sandbox.
    pub(crate) fn instantiate(&mut self, store: &mut Store<HostState>, module: &Module) -> (r:
        Result<Instance, String>)
        requires
            store_engine(*old(store)) == old(self).engine(),
        ensures
            same_store(*old(store), *final(store)),
            r matches Ok(i) ==> instance_key(i) == store_key(*old(store)),
            final(self).calls() == old(self).calls().push(
                SandboxCall::Instantiate { code: module_code(*module), outcome: outcome_of(r) },
            ),
    {
        proof {
            use_type_invariant(&self.ground);
        }
        self.link(store, module)
    }

    /// Calls `wasmtime::Instance::get_typed_func` for a function from a number to
    /// a number. Whether there is one is up to the guest.
    #[verifier::external_body]
    pub(crate) fn find_allocator(
        &mut self,
        store: &mut Store<HostState>,
        instance: &Instance,
        name: &str,
    ) -> (r: Result<TypedFunc<i32, i32>, String>)
        requires
            instance_key(*instance) == store_key(*old(store)),
        ensures
            same_store(*old(store), *final(store)),
            r matches Ok(f) ==> alloc_key(f) == store_key(*old(store)),
            final(self).calls() == old(self).calls().push(
                SandboxCall::Function { name: name@, outcome: outcome_of(r) },
            ),
    {
        instance.get_typed_func(store, name).map_err(|e| format!("{e:#}"))
    }

    /// Calls `wasmtime::Instance::get_typed_func` for a function from two numbers
    /// to a long one. Whether there is one is up to the guest.
    #[verifier::external_body]
    pub(crate) fn find_handler(
        &mut self,
        store: &mut Store<HostState>,
        instance: &Instance,
        name: &str,
    ) -> (r: Result<TypedFunc<(i32, i32), i64>, String>)
        requires
            instance_key(*instance) == store_key(*old(store)),
        ensures
            same_store(*old(store), *final(store)),
            r matches Ok(f) ==> handler_key(f) == store_key(*old(store)),
            final(self).calls() == old(self).calls().push(
                SandboxCall::Function { name: name@, outcome: outcome_of(r) },
            ),
    {
        instance.get_typed_func(store, name).map_err(|e| format!("{e:#}"))
    }

    /// Calls `wasmtime::Instance::get_memory`. Whether there is one is up to the
    /// guest.
    #[verifier::external_body]
    pub(crate) fn find_memory(
        &mut self,
        store: &mut Store<HostState>,
        instance: &Instance,
        name: &str,
    ) -> (r: Option<Memory>)
        requires
            instance_key(*instance) == store_key(*old(store)),
        ensures
            same_store(*old(store), *final(store)),
            r matches Some(m) ==> memory_key(m) == store_key(*old(store)),
            final(self).calls() == old(self).calls().push(
                SandboxCall::Lookup { name: name@, found: r is Some },
            ),
    {
        instance.get_memory(store, name)
    }

    /// Calls `wasmtime::TypedFunc::call` on the guest's allocator. What it returns
    /// is up to the guest.
    #[verifier::external_body]
    pub(crate) fn call_allocator(
        &mut self,
        store: &mut Store<HostState>,
        f: &TypedFunc<i32, i32>,
        len: i32,
    ) -> (r: Result<i32, String>)
        requires
            alloc_key(*f) == store_key(*old(store)),
        ensures
            same_store(*old(store), *final(store)),
            final(self).calls() == old(self).calls().push(
                SandboxCall::Alloc { len: len as int, outcome: number_of(r) },
            ),
    {
        f.call(store, len).map_err(|e| format!("{e:#}"))
    }

    /// Calls `wasmtime::TypedFunc::call` on the guest's handler. What it returns
    /// is up to the guest.
    #[verifier::external_body]
    pub(crate) fn call_handler(
        &mut self,
        store: &mut Store<HostState>,
        f: &TypedFunc<(i32, i32), i64>,
        at: i32,
        len: i32,
    ) -> (r: Result<i64, String>)
        requires
            handler_key(*f) == store_key(*old(store)),
        ensures
            same_store(*old(store), *final(store)),
            final(self).calls() == old(self).calls().push(
                SandboxCall::Handle { at: at as int, len: len as int, outcome: number_of(r) },
            ),
    {
        f.call(store, (at, len)).map_err(|e| format!("{e:#}"))
    }

    /// Calls `wasmtime::Memory::write`. Whether the memory reaches so far is up to
    /// the guest.
    #[verifier::external_body]
    pub(crate) fn write(
        &mut self,
        store: &mut Store<HostState>,
        memory: &Memory,
        at: usize,
        bytes: &[u8],
    ) -> (r: Result<(), String>)
        requires
            memory_key(*memory) == store_key(*old(store)),
        ensures
            same_store(*old(store), *final(store)),
            final(self).calls() == old(self).calls().push(
                SandboxCall::Write { at: at as int, bytes: bytes@, outcome: outcome_of(r) },
            ),
    {
        memory.write(store, at, bytes).map_err(|e| e.to_string())
    }

    /// Calls `wasmtime::Memory::read` with a buffer of `len` bytes. Which bytes
    /// they are, and whether the memory reaches so far, is up to the guest.
    #[verifier::external_body]
    pub(crate) fn read(
        &mut self,
        store: &Store<HostState>,
        memory: &Memory,
        at: usize,
        len: usize,
    ) -> (r: Result<Vec<u8>, String>)
        requires
            memory_key(*memory) == store_key(*store),
        ensures
            r matches Ok(v) ==> v@.len() == len,
            final(self).calls() == old(self).calls().push(
                SandboxCall::Read { at: at as int, len: len as int, outcome: bytes_of(r) },
            ),
    {
        let mut buffer = vec![0u8; len];
        memory.read(store, at, &mut buffer).map_err(|e| e.to_string())?;
        Ok(buffer)
    }

    /// Calls `wasmtime::Store::into_data`: the state as the host calls left it. A guest
    /// changes the state through the two doors alone, and what stands behind them
    /// leaves the warden with the plugin, the capabilities and the way to them that the
    /// store was opened with.
    #[verifier::external_body]
    pub(crate) fn close(&mut self, store: Store<HostState>) -> (r: HostState)
        ensures
            r.warden.same_plugin(opened_with(store)),
            final(self).calls() == old(self).calls().push(
                SandboxCall::Close { log: text::texts(r.log@), passed: r.warden.passed() },
            ),
    {
        store.into_data()
    }
}

/// What tells the store behind a caller from all others.
pub uninterp spec fn caller_key(caller: Caller<'_, HostState>) -> int;

/// The warden in the store behind a caller.
pub uninterp spec fn caller_warden(caller: Caller<'_, HostState>) -> Warden;

/// The lines that were logged so far in the store behind a caller.
pub uninterp spec fn caller_log(caller: Caller<'_, HostState>) -> Seq<Seq<char>>;

/// What was asked of the calling guest through this caller.
pub uninterp spec fn caller_asked(caller: Caller<'_, HostState>) -> Seq<SandboxCall>;

/// The memory that the calling guest exports under a name.
pub uninterp spec fn exported_memory(caller: Caller<'_, HostState>, name: Seq<char>) -> Option<
    Memory,
>;

/// What stands in a memory of the store behind a caller.
pub uninterp spec fn caller_bytes(caller: Caller<'_, HostState>, memory: Memory) -> Seq<u8>;

/// All that stands behind a caller stays as it is, but for what was asked of the
/// guest.
pub open spec fn same_behind(
    before: Caller<'_, HostState>,
    after: Caller<'_, HostState>,
) -> bool {
    &&& caller_key(after) == caller_key(before)
    &&& caller_warden(after) == caller_warden(before)
    &&& caller_log(after) == caller_log(before)
    &&& forall|name: Text| #[trigger]
        exported_memory(after, name) == exported_memory(before, name)
    &&& forall|m: Memory| #[trigger] caller_bytes(after, m) == caller_bytes(before, m)
}

/// A range of bytes, where they reach so far.
pub open spec fn range_of(bytes: Seq<u8>, at: int, len: int) -> Option<Seq<u8>> {
    if 0 <= at && 0 <= len && at + len <= bytes.len() {
        Some(bytes.subrange(at, at + len))
    } else {
        None
    }
}

/// Calls `wasmtime::Caller::get_export` and `Extern::into_memory`.
#[verifier::external_body]
pub(crate) fn caller_memory(caller: &mut Caller<'_, HostState>, name: &str) -> (r: Option<Memory>)
    ensures
        same_behind(*old(caller), *final(caller)),
        r == exported_memory(*old(caller), name@),
        r matches Some(m) ==> memory_key(m) == caller_key(*old(caller)),
        caller_asked(*final(caller)) == caller_asked(*old(caller)).push(
            SandboxCall::Lookup { name: name@, found: r is Some },
        ),
{
    caller.get_export(name).and_then(|e| e.into_memory())
}

/// Calls `wasmtime::Memory::read` with a buffer of `len` bytes: what stands there,
/// or an error where the memory does not reach so far. The wording of the error is
/// left open.
#[verifier::external_body]
pub(crate) fn caller_read(
    caller: &Caller<'_, HostState>,
    memory: &Memory,
    at: usize,
    len: usize,
) -> (r: Result<Vec<u8>, String>)
    requires
        memory_key(*memory) == caller_key(*caller),
    ensures
        match r {
            Ok(v) => range_of(caller_bytes(*caller, *memory), at as int, len as int) == Some(v@),
            Err(_) => range_of(caller_bytes(*caller, *memory), at as int, len as int) is None,
        },
{
    let mut buffer = vec![0u8; len];
    memory.read(caller, at, &mut buffer).map_err(|e| e.to_string())?;
    Ok(buffer)
}

/// Calls `wasmtime::Memory::write`: the bytes stand there, or there is an error
/// where the memory does not reach so far, and then nothing is written. The
/// wording of the error is left open.
#[verifier::external_body]
pub(crate) fn caller_write(
    caller: &mut Caller<'_, HostState>,
    memory: &Memory,
    at: usize,
    bytes: &[u8],
) -> (r: Result<(), String>)
    requires
        memory_key(*memory) == caller_key(*old(caller)),
    ensures
        caller_key(*final(caller)) == caller_key(*old(caller)),
        caller_warden(*final(caller)) == caller_warden(*old(caller)),
        caller_log(*final(caller)) == caller_log(*old(caller)),
        forall|name: Text| #[trigger]
            exported_memory(*final(caller), name) == exported_memory(*old(caller), name),
        r is Ok <==> at + bytes@.len() <= caller_bytes(*old(caller), *memory).len(),
        r is Ok ==> range_of(
            caller_bytes(*final(caller), *memory),
            at as int,
            bytes@.len() as int,
        ) == Some(bytes@),
        r is Err ==> caller_bytes(*final(caller), *memory) == caller_bytes(*old(caller), *memory),
        caller_asked(*final(caller)) == caller_asked(*old(caller)).push(
            SandboxCall::Write { at: at as int, bytes: bytes@, outcome: outcome_of(r) },
        ),
{
    memory.write(caller, at, bytes).map_err(|e| e.to_string())
}

/// Calls `wasmtime::Caller::get_export` and `Extern::into_func`. Whether there is
/// such a function is up to the guest.
#[verifier::external_body]
pub(crate) fn caller_func(caller: &mut Caller<'_, HostState>, name: &str) -> (r: Option<Func>)
    ensures
        same_behind(*old(caller), *final(caller)),
        r matches Some(f) ==> func_key(f) == caller_key(*old(caller)),
        caller_asked(*final(caller)) == caller_asked(*old(caller)).push(
            SandboxCall::Lookup { name: name@, found: r is Some },
        ),
{
    caller.get_export(name).and_then(|e| e.into_func())
}

/// Calls `wasmtime::Func::typed` for a function from a number to a number. Whether
/// the function is one is up to the guest.
#[verifier::external_body]
pub(crate) fn caller_typed(caller: &mut Caller<'_, HostState>, func: &Func) -> (r: Result<
    TypedFunc<i32, i32>,
    String,
>)
    requires
        func_key(*func) == caller_key(*old(caller)),
    ensures
        same_behind(*old(caller), *final(caller)),
        r matches Ok(f) ==> alloc_key(f) == caller_key(*old(caller)),
        caller_asked(*final(caller)) == caller_asked(*old(caller)).push(
            SandboxCall::Typed { outcome: outcome_of(r) },
        ),
{
    func.typed::<i32, i32>(&*caller).map_err(|e| format!("{e:#}"))
}

/// Calls `wasmtime::TypedFunc::call` on the calling guest's allocator. What it
/// returns, and what it does meanwhile, is up to the guest.
#[verifier::external_body]
pub(crate) fn caller_reenter(
    caller: &mut Caller<'_, HostState>,
    f: &TypedFunc<i32, i32>,
    len: i32,
) -> (r: Result<i32, String>)
    requires
        alloc_key(*f) == caller_key(*old(caller)),
    ensures
        caller_key(*final(caller)) == caller_key(*old(caller)),
        caller_asked(*final(caller)) == caller_asked(*old(caller)).push(
            SandboxCall::Reenter {
                passed: caller_warden(*old(caller)).passed(),
                len: len as int,
                outcome: number_of(r),
            },
        ),
{
    f.call(caller, len).map_err(|e| format!("{e:#}"))
}

/// Calls `wasmtime::Caller::data_mut`: the state of the running invocation, which
/// is what the store behind the caller holds, and which the store holds as the
/// borrower leaves it. Guests and their memories are not part of it.
#[verifier::external_body]
pub(crate) fn caller_state<'a, 'b>(caller: &'a mut Caller<'b, HostState>) -> (r: &'a mut HostState)
    ensures
        r.warden == caller_warden(*old(caller)),
        text::texts(r.log@) == caller_log(*old(caller)),
        caller_key(*final(caller)) == caller_key(*old(caller)),
        caller_warden(*final(caller)) == final(r).warden,
        caller_log(*final(caller)) == text::texts(final(r).log@),
        forall|name: Text| #[trigger]
            exported_memory(*final(caller), name) == exported_memory(*old(caller), name),
        forall|m: Memory| #[trigger]
            caller_bytes(*final(caller), m) == caller_bytes(*old(caller), m),
        caller_asked(*final(caller)) == caller_asked(*old(caller)),
{
    caller.data_mut()
}

} // verus!
