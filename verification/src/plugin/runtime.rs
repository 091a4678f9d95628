//! Wasm sandbox execution. Fresh store per invocation (no state leaks across
//! calls), fuel budget as execution-time quota, hard linear-memory cap.
//! The sandbox has exactly two doors to the outside world: `host_log` and the
//! capability-gated `host_call`. Everything else is unreachable by construction.

use crate::json;
use crate::json::{Json, ObjectWriter};
use crate::plugin::abi;
use crate::plugin::abi::{PluginInput, PluginOutput, GUEST_ALLOC, GUEST_HANDLE};
use crate::plugin::bridge;
use crate::plugin::bridge::{Passed, Warden};
use crate::plugin::host;
use crate::plugin::host::{Doors, Host, HostState, SandboxCall};
use crate::plugin::warden;
use crate::record;
use crate::text;
use crate::text::Text;
use vstd::prelude::*;
use vstd::utf8;
use wasmtime::{Caller, Memory, Module, Store, TypedFunc};

pub use crate::plugin::bridge::{Bridge, HostBridge, NullBridge};

verus! {

/// Most bytes that a plugin may answer with.
pub const MAX_OUTPUT: u32 = 1024 * 1024;

/// The name under which a guest exports its memory.
pub const GUEST_MEMORY: &'static str = "memory";

/// How many memories a guest may have.
pub const MAX_MEMORIES: usize = 1;

/// Compiled code. The view is the code that it was compiled from.
pub struct Program {
    module: Module,
}

impl View for Program {
    type V = Seq<u8>;

    closed spec fn view(&self) -> Seq<u8> {
        host::module_code(self.module)
    }
}

/// The sandbox in which plugins run.
pub struct PluginRuntime {
    host: Host,
}

/// What an invocation came to: the plugin's answer, or why there is none, and the
/// lines that the plugin logged.
pub struct Invocation {
    pub result: Result<PluginOutput, String>,
    pub log: Vec<String>,
}

/// What the kernel uses of an instantiated guest.
struct Guest {
    memory: Memory,
    allocator: TypedFunc<i32, i32>,
    handler: TypedFunc<(i32, i32), i64>,
}

impl Guest {
    /// All of it belongs to that store.
    spec fn lives_in(&self, key: int) -> bool {
        &&& host::memory_key(self.memory) == key
        &&& host::alloc_key(self.allocator) == key
        &&& host::handler_key(self.handler) == key
    }
}

/// The answer that a plugin's bytes are; `None` where they violate the envelope.
pub open spec fn answer_of(bytes: Seq<u8>) -> Option<abi::OutputModel> {
    if utf8::valid_utf8(bytes) {
        abi::output_of(utf8::decode_utf8(bytes))
    } else {
        None
    }
}

/// The document that goes back to the guest.
pub open spec fn response_members(result: Result<Text, Text>) -> Seq<(Text, Text)> {
    match result {
        Ok(data) => seq![("data"@, data), ("ok"@, "true"@)],
        Err(e) => seq![("error"@, json::quoted(e)), ("ok"@, "false"@)],
    }
}

/// The document that goes back to the guest.
pub fn host_response(result: &Result<Json, String>) -> (r: Json)
    ensures
        r@ == json::object_text(response_members(bridge::result_texts(*result))),
{
    let w = match result {
        Ok(data) => ObjectWriter::new().raw("data", data.text.as_str()).raw("ok", "true"),
        Err(e) => ObjectWriter::new().string("error", e.as_str()).raw("ok", "false"),
    };
    assert(w@ =~= response_members(bridge::result_texts(*result)));
    w.close()
}

/// The line that a guest's log message becomes.
pub open spec fn log_line(plugin: Text, message: Seq<u8>) -> Text {
    "[plugin:"@ + plugin + "] "@ + text::utf8_lossy(message)
}

/// The line that a guest's log message becomes.
pub fn format_log(plugin: &str, message: &[u8]) -> (r: String)
    ensures
        r@ == log_line(plugin@, message@),
{
    let mut line = "[plugin:".to_string();
    line.append(plugin);
    line.append("] ");
    let body = text::lossy_text(message);
    line.append(body.as_str());
    line
}

/// The address that a guest's allocator gave.
pub open spec fn allocated(ptr: int) -> Result<int, Text> {
    if ptr <= 0 {
        Err("guest allocator returned null"@)
    } else {
        Ok(ptr)
    }
}

/// The address that a guest's allocator gave; it never gives null.
pub fn check_allocated(ptr: i32) -> (r: Result<u32, String>)
    ensures
        match allocated(ptr as int) {
            Ok(p) => r is Ok && r->Ok_0 == p,
            Err(e) => r is Err && r->Err_0@ == e,
        },
{
    if ptr <= 0 {
        Err("guest allocator returned null".to_string())
    } else {
        Ok(ptr as u32)
    }
}

/// The length in the number that a handler returned.
pub open spec fn lower_half(v: i64) -> int {
    v as int % 0x1_0000_0000
}

/// The address in the number that a handler returned.
pub open spec fn upper_half(v: i64) -> int {
    (v as int / 0x1_0000_0000) % 0x1_0000_0000
}

/// The buffer that `v` stands for is longer than an answer may be.
pub open spec fn over_cap(v: i64) -> bool {
    lower_half(v) > MAX_OUTPUT
}

/// The buffer that a guest answers with: zero is an internal error, and a
/// length over the cap is refused before anything is read.
pub fn check_answer(v: i64) -> (r: Result<(u32, u32), String>)
    ensures
        v == 0 ==> r is Err && r->Err_0@ == "plugin reported internal error"@,
        v != 0 && over_cap(v) ==> r is Err && r->Err_0@ == "plugin output exceeds 1MiB cap"@,
        v != 0 && !over_cap(v) ==> (r matches Ok((ptr, len)) && ptr == upper_half(v) && len
            == lower_half(v) && abi::packed(ptr, len) == v),
{
    match abi::unpack_ptr_len(v) {
        None => Err("plugin reported internal error".to_string()),
        Some((ptr, len)) => {
            assert(lower_half(v) == len && upper_half(v) == ptr);
            if len > MAX_OUTPUT {
                Err("plugin output exceeds 1MiB cap".to_string())
            } else {
                Ok((ptr, len))
            }
        },
    }
}

/// Reads what a guest answered: the strict envelope, or a hard error.
pub fn read_answer(bytes: &[u8]) -> (r: Result<PluginOutput, String>)
    ensures
        match answer_of(bytes@) {
            Some(out) => r is Ok && r->Ok_0@ == out,
            None => r is Err && r->Err_0@ == "plugin output violates the PluginOutput envelope"@,
        },
{
    let parsed = match text::utf8_text(bytes) {
        Some(document) => PluginOutput::from_json(document),
        None => None,
    };
    match parsed {
        Some(out) => Ok(out),
        None => Err("plugin output violates the PluginOutput envelope".to_string()),
    }
}

/// What a guest did when it was run: how far it got, and what it gave back.
pub struct GuestRun {
    /// Whether it could be instantiated.
    pub entry: Result<(), Text>,
    /// Whether it has an allocator.
    pub allocator: Result<(), Text>,
    /// Whether it has a handler.
    pub handler: Result<(), Text>,
    /// Whether it has a memory.
    pub memory: bool,
    /// What its allocator returned.
    pub alloc: Result<i32, Text>,
    /// Whether the input could be written where the allocator said.
    pub write: Result<(), Text>,
    /// What its handler returned.
    pub handle: Result<i64, Text>,
    /// What stood in the buffer that the handler named.
    pub read: Result<Seq<u8>, Text>,
    /// What it logged.
    pub log: Seq<Text>,
    /// The record of what was handed to the provider of capabilities for it.
    pub passed: Seq<Passed>,
}

/// Whether a guest can be used: it could be instantiated, and has all it needs.
pub open spec fn entered(g: GuestRun) -> Result<(), Text> {
    match g.entry {
        Err(e) => Err(e),
        Ok(_) => match g.allocator {
            Err(e) => Err(e),
            Ok(_) => match g.handler {
                Err(e) => Err(e),
                Ok(_) => if g.memory {
                    Ok(())
                } else {
                    Err("plugin exports no linear memory"@)
                },
            },
        },
    }
}

/// What the kernel makes of a run on an input of `size` bytes.
pub open spec fn run_result(size: nat, g: GuestRun) -> Result<abi::OutputModel, Text> {
    match entered(g) {
        Err(e) => Err(e),
        Ok(_) => if size > i32::MAX {
            Err("plugin input exceeds the guest's address range"@)
        } else {
            match g.alloc {
                Err(e) => Err(e),
                Ok(p) => match allocated(p as int) {
                    Err(e) => Err(e),
                    Ok(_) => match g.write {
                        Err(e) => Err(e),
                        Ok(_) => match g.handle {
                            Err(e) => Err(e),
                            Ok(v) => answered(v, g.read),
                        },
                    },
                },
            }
        },
    }
}

/// What the kernel makes of the number that a handler returned, and of what
/// stood in the buffer that it names.
pub open spec fn answered(v: i64, read: Result<Seq<u8>, Text>) -> Result<abi::OutputModel, Text> {
    if v == 0 {
        Err("plugin reported internal error"@)
    } else if over_cap(v) {
        Err("plugin output exceeds 1MiB cap"@)
    } else {
        match read {
            Err(e) => Err(e),
            Ok(bytes) => match answer_of(bytes) {
                Some(out) => Ok(out),
                None => Err("plugin output violates the PluginOutput envelope"@),
            },
        }
    }
}

/// What is asked of an open sandbox to enter it: to instantiate the code, and then
/// for its allocator, its handler and its memory, as long as all is well.
pub open spec fn entry_calls(code: Seq<u8>, g: GuestRun) -> Seq<SandboxCall> {
    let started = seq![SandboxCall::Instantiate { code, outcome: g.entry }];
    if g.entry is Err {
        started
    } else {
        let one = started.push(
            SandboxCall::Function { name: GUEST_ALLOC@, outcome: g.allocator },
        );
        if g.allocator is Err {
            one
        } else {
            let two = one.push(SandboxCall::Function { name: GUEST_HANDLE@, outcome: g.handler });
            if g.handler is Err {
                two
            } else {
                two.push(SandboxCall::Lookup { name: GUEST_MEMORY@, found: g.memory })
            }
        }
    }
}

/// What is asked of a guest that can be used: each thing only when what came
/// before it went well, and the input is written whole, where the guest's
/// allocator said.
pub open spec fn guest_calls(input: Seq<u8>, g: GuestRun) -> Seq<SandboxCall> {
    if input.len() > i32::MAX {
        seq![]
    } else {
        let asked = seq![SandboxCall::Alloc { len: input.len() as int, outcome: g.alloc }];
        if g.alloc is Err || allocated(g.alloc->Ok_0 as int) is Err {
            asked
        } else {
            let at = g.alloc->Ok_0 as int;
            let written = asked.push(SandboxCall::Write { at, bytes: input, outcome: g.write });
            if g.write is Err {
                written
            } else {
                let handled = written.push(
                    SandboxCall::Handle { at, len: input.len() as int, outcome: g.handle },
                );
                if g.handle is Err || g.handle->Ok_0 == 0 || over_cap(g.handle->Ok_0) {
                    handled
                } else {
                    handled.push(
                        SandboxCall::Read {
                            at: upper_half(g.handle->Ok_0),
                            len: lower_half(g.handle->Ok_0),
                            outcome: g.read,
                        },
                    )
                }
            }
        }
    }
}

/// What is asked of an open sandbox along a run of `code` on `input`.
pub open spec fn exchange_calls(code: Seq<u8>, input: Seq<u8>, g: GuestRun) -> Seq<SandboxCall> {
    if entered(g) is Err {
        entry_calls(code, g)
    } else {
        entry_calls(code, g) + guest_calls(input, g)
    }
}

/// What is asked of a sandbox along a run, from its opening to its closing.
pub open spec fn calls_of(open: SandboxCall, code: Seq<u8>, input: Seq<u8>, g: GuestRun) -> Seq<
    SandboxCall,
> {
    (seq![open] + exchange_calls(code, input, g)).push(
        SandboxCall::Close { log: g.log, passed: g.passed },
    )
}

/// Of what is asked of a sandbox, the first opens it, only the second instantiates
/// code, and none between the first and the last closes it.
pub proof fn lemma_calls_of(open: SandboxCall, code: Seq<u8>, input: Seq<u8>, g: GuestRun, i: int)
    requires
        0 <= i < calls_of(open, code, input, g).len(),
    ensures
        i == 0 ==> calls_of(open, code, input, g)[i] == open,
        i == 1 ==> calls_of(open, code, input, g)[i] == (SandboxCall::Instantiate {
            code,
            outcome: g.entry,
        }),
        i > 1 ==> !(calls_of(open, code, input, g)[i] is Open) && !(calls_of(
            open,
            code,
            input,
            g,
        )[i] is Instantiate),
        0 < i < calls_of(open, code, input, g).len() - 1 ==> !(calls_of(
            open,
            code,
            input,
            g,
        )[i] is Close),
{
    let entry = entry_calls(code, g);
    let inner = exchange_calls(code, input, g);
    assert(entry[0] == (SandboxCall::Instantiate { code, outcome: g.entry }));
    if 0 < i <= inner.len() {
        assert(calls_of(open, code, input, g)[i] == inner[i - 1]);
        if i <= entry.len() {
            assert(inner[i - 1] == entry[i - 1]);
        } else {
            assert(inner[i - 1] == guest_calls(input, g)[i - 1 - entry.len()]);
        }
    }
}

/// The views of an invocation's result.
pub open spec fn output_texts(r: Result<PluginOutput, String>) -> Result<abi::OutputModel, Text> {
    match r {
        Ok(out) => Ok(out@),
        Err(e) => Err(e@),
    }
}

/// Whatever a guest does, what comes out of the sandbox is an answer in the
/// strict envelope, or an error.
pub proof fn law_only_envelopes_leave_the_sandbox(size: nat, g: GuestRun)
    ensures
        run_result(size, g) matches Ok(out) ==> g.read is Ok && answer_of(g.read->Ok_0) == Some(
            out,
        ),
{
}

/// What stands in the calling guest's memory, where it exports one.
pub open spec fn memory_of(caller: Caller<'_, HostState>) -> Option<Seq<u8>> {
    match host::exported_memory(caller, GUEST_MEMORY@) {
        Some(m) => Some(host::caller_bytes(caller, m)),
        None => None,
    }
}

/// The range of the calling guest's memory that a host call names, where there is
/// one.
pub open spec fn named_range(caller: Caller<'_, HostState>, ptr: i32, len: i32) -> Option<
    Seq<u8>,
> {
    match memory_of(caller) {
        Some(bytes) => host::range_of(bytes, ptr as int, len as int),
        None => None,
    }
}

/// Why a range of the calling guest's memory is refused before it is read.
pub open spec fn range_problem(caller: Caller<'_, HostState>, ptr: i32, len: i32) -> Option<Text> {
    if memory_of(caller) is None {
        Some("plugin exports no linear memory"@)
    } else if ptr < 0 || len < 0 {
        Some("negative guest pointer/length"@)
    } else {
        None
    }
}

/// The guest was only asked for its memory.
pub open spec fn looked_for_memory(
    before: Caller<'_, HostState>,
    after: Caller<'_, HostState>,
) -> bool {
    host::caller_asked(after) == host::caller_asked(before).push(
        SandboxCall::Lookup { name: GUEST_MEMORY@, found: memory_of(before) is Some },
    )
}

/// A range of the calling guest's memory. Negative addresses and lengths are
/// refused.
fn read_guest_bytes(caller: &mut Caller<'_, HostState>, ptr: i32, len: i32) -> (r: Result<
    Vec<u8>,
    String,
>)
    ensures
        range_problem(*old(caller), ptr, len) matches Some(e) ==> r is Err && r->Err_0@ == e,
        match r {
            Ok(v) => named_range(*old(caller), ptr, len) == Some(v@),
            Err(_) => named_range(*old(caller), ptr, len) is None,
        },
        host::same_behind(*old(caller), *final(caller)),
        looked_for_memory(*old(caller), *final(caller)),
{
    let memory = match host::caller_memory(caller, GUEST_MEMORY) {
        Some(m) => m,
        None => {
            return Err("plugin exports no linear memory".to_string());
        },
    };
    if ptr < 0 || len < 0 {
        return Err("negative guest pointer/length".to_string());
    }
    host::caller_read(caller, &memory, ptr as usize, len as usize)
}

/// What came of handing bytes to the calling guest.
pub struct Delivery {
    /// Whether it has a function of the allocator's name.
    pub found: bool,
    /// Whether that function is one.
    pub typed: Result<(), Text>,
    /// What its allocator returned.
    pub alloc: Result<i32, Text>,
    /// Whether it has a memory.
    pub memory: bool,
    /// Whether the bytes could be written where the allocator said.
    pub write: Result<(), Text>,
}

/// What writing `n` bytes into guest memory comes to: the buffer, or why there
/// is none.
pub open spec fn written(n: nat, d: Delivery) -> Result<(u32, u32), Text> {
    if n > i32::MAX {
        Err("host response exceeds the guest's address range"@)
    } else if !d.found {
        Err("plugin exports no "@ + GUEST_ALLOC@)
    } else if d.typed is Err {
        Err(d.typed->Err_0)
    } else {
        match d.alloc {
            Err(e) => Err(e),
            Ok(p) => match allocated(p as int) {
                Err(e) => Err(e),
                Ok(at) => if !d.memory {
                    Err("plugin exports no linear memory"@)
                } else {
                    match d.write {
                        Err(e) => Err(e),
                        Ok(_) => Ok((at as u32, n as u32)),
                    }
                },
            },
        }
    }
}

/// What is asked of the calling guest to hand bytes to it, when `passed` had been
/// handed to the provider: each thing only when what came before it went well.
pub open spec fn delivery_calls(bytes: Seq<u8>, passed: Seq<Passed>, d: Delivery) -> Seq<
    SandboxCall,
> {
    if bytes.len() > i32::MAX {
        seq![]
    } else {
        let one = seq![SandboxCall::Lookup { name: GUEST_ALLOC@, found: d.found }];
        if !d.found {
            one
        } else {
            let two = one.push(SandboxCall::Typed { outcome: d.typed });
            if d.typed is Err {
                two
            } else {
                let three = two.push(
                    SandboxCall::Reenter { passed, len: bytes.len() as int, outcome: d.alloc },
                );
                if d.alloc is Err || allocated(d.alloc->Ok_0 as int) is Err {
                    three
                } else {
                    let four = three.push(
                        SandboxCall::Lookup { name: GUEST_MEMORY@, found: d.memory },
                    );
                    if !d.memory {
                        four
                    } else {
                        four.push(
                            SandboxCall::Write {
                                at: d.alloc->Ok_0 as int,
                                bytes,
                                outcome: d.write,
                            },
                        )
                    }
                }
            }
        }
    }
}

/// The views of a buffer, or of why there is none.
pub open spec fn buffer_texts(r: Result<(u32, u32), String>) -> Result<(u32, u32), Text> {
    match r {
        Ok(b) => Ok(b),
        Err(e) => Err(e@),
    }
}

/// The bytes were handed to the calling guest, as far as it let them: where there
/// is a buffer, they stand in it.
pub open spec fn delivered(
    before: Caller<'_, HostState>,
    bytes: Seq<u8>,
    buffer: Result<(u32, u32), Text>,
    d: Delivery,
    after: Caller<'_, HostState>,
) -> bool {
    &&& buffer == written(bytes.len(), d)
    &&& host::caller_asked(after) == host::caller_asked(before) + delivery_calls(
        bytes,
        host::caller_warden(before).passed(),
        d,
    )
    &&& buffer matches Ok((at, n)) ==> memory_of(after) matches Some(memory) && host::range_of(
        memory,
        at as int,
        n as int,
    ) == Some(bytes)
}

/// Writes into guest memory via the guest's own allocator (re-entrant call),
/// so the host never picks addresses on the guest's behalf.
fn write_guest_bytes(caller: &mut Caller<'_, HostState>, bytes: &[u8]) -> (r: Result<
    (u32, u32),
    String,
>)
    ensures
        exists|d: Delivery| #[trigger]
            delivered(*old(caller), bytes@, buffer_texts(r), d, *final(caller)),
{
    let ghost before = *caller;
    let ghost asked = host::caller_asked(*caller);
    let ghost passed = host::caller_warden(*caller).passed();
    let ghost d = Delivery {
        found: false,
        typed: Ok(()),
        alloc: Err(seq![]),
        memory: false,
        write: Ok(()),
    };
    if bytes.len() > i32::MAX as usize {
        let r = Err("host response exceeds the guest's address range".to_string());
        assert(host::caller_asked(*caller) =~= asked + delivery_calls(bytes@, passed, d));
        assert(delivered(before, bytes@, buffer_texts(r), d, *caller));
        return r;
    }
    let func = match host::caller_func(caller, GUEST_ALLOC) {
        Some(f) => f,
        None => {
            let mut message = "plugin exports no ".to_string();
            message.append(GUEST_ALLOC);
            let r = Err(message);
            assert(host::caller_asked(*caller) =~= asked + delivery_calls(bytes@, passed, d));
            assert(delivered(before, bytes@, buffer_texts(r), d, *caller));
            return r;
        },
    };
    let ghost d = Delivery { found: true, ..d };
    let allocator = match host::caller_typed(caller, &func) {
        Ok(f) => f,
        Err(e) => {
            let ghost d = Delivery { typed: Err(e@), ..d };
            let r = Err(e);
            assert(host::caller_asked(*caller) =~= asked + delivery_calls(bytes@, passed, d));
            assert(delivered(before, bytes@, buffer_texts(r), d, *caller));
            return r;
        },
    };
    let p: i32 = match host::caller_reenter(caller, &allocator, bytes.len() as i32) {
        Ok(p) => p,
        Err(e) => {
            let ghost d = Delivery { alloc: Err(e@), ..d };
            let r = Err(e);
            assert(host::caller_asked(*caller) =~= asked + delivery_calls(bytes@, passed, d));
            assert(delivered(before, bytes@, buffer_texts(r), d, *caller));
            return r;
        },
    };
    let ghost d = Delivery { alloc: Ok(p), ..d };
    let at: u32 = match check_allocated(p) {
        Ok(at) => at,
        Err(e) => {
            let r = Err(e);
            assert(host::caller_asked(*caller) =~= asked + delivery_calls(bytes@, passed, d));
            assert(delivered(before, bytes@, buffer_texts(r), d, *caller));
            return r;
        },
    };
    let memory = match host::caller_memory(caller, GUEST_MEMORY) {
        Some(m) => m,
        None => {
            let r = Err("plugin exports no linear memory".to_string());
            assert(host::caller_asked(*caller) =~= asked + delivery_calls(bytes@, passed, d));
            assert(delivered(before, bytes@, buffer_texts(r), d, *caller));
            return r;
        },
    };
    let ghost d = Delivery { memory: true, ..d };
    let r = match host::caller_write(caller, &memory, at as usize, bytes) {
        Ok(()) => Ok((at, bytes.len() as u32)),
        Err(e) => {
            proof {
                d = Delivery { write: Err(e@), ..d };
            }
            Err(e)
        },
    };
    assert(host::caller_asked(*caller) =~= asked + delivery_calls(bytes@, passed, d));
    assert(delivered(before, bytes@, buffer_texts(r), d, *caller));
    r
}

/// What a request of the calling guest comes to: `result`, and the warden behind the
/// caller is then `after`. Where the named range cannot be read the warden stays as
/// it is.
pub open spec fn handled(
    caller: Caller<'_, HostState>,
    ptr: i32,
    len: i32,
    result: Result<Text, Text>,
    after: Warden,
) -> bool {
    let before = host::caller_warden(caller);
    match named_range(caller, ptr, len) {
        Some(raw) => warden::settled(before, raw, result, after),
        None => result is Err && after == before && (range_problem(caller, ptr, len) matches Some(e)
            ==> result == Err::<Text, Text>(e)),
    }
}

/// Reads, adjudicates and routes a request of the calling guest.
fn handle_host_call(caller: &mut Caller<'_, HostState>, ptr: i32, len: i32) -> (r: Result<
    Json,
    String,
>)
    ensures
        handled(
            *old(caller),
            ptr,
            len,
            bridge::result_texts(r),
            host::caller_warden(*final(caller)),
        ),
        looked_for_memory(*old(caller), *final(caller)),
        host::caller_log(*final(caller)) == host::caller_log(*old(caller)),
{
    match read_guest_bytes(caller, ptr, len) {
        Err(e) => Err(e),
        Ok(raw) => {
            let state = host::caller_state(caller);
            state.warden.answer(raw.as_slice())
        },
    }
}

/// The document that a guest gets for its host call.
pub open spec fn response_bytes(result: Result<Text, Text>) -> Seq<u8> {
    utf8::encode_utf8(json::object_text(response_members(result)))
}

/// The number that a guest gets for its host call: the buffer with the
/// response, or zero where none could be written.
pub open spec fn host_value(buffer: Result<(u32, u32), Text>) -> int {
    match buffer {
        Ok((at, n)) => abi::packed(at, n),
        Err(_) => 0,
    }
}

/// A host call: the request is handled, which leaves `mid` behind, and then the
/// response is handed to the guest.
pub open spec fn host_called(
    before: Caller<'_, HostState>,
    ptr: i32,
    len: i32,
    result: Result<Text, Text>,
    mid: Caller<'_, HostState>,
    d: Delivery,
    value: int,
    after: Caller<'_, HostState>,
) -> bool {
    &&& handled(before, ptr, len, result, host::caller_warden(mid))
    &&& looked_for_memory(before, mid)
    &&& delivered(mid, response_bytes(result), written(response_bytes(result).len(), d), d, after)
    &&& value == host_value(written(response_bytes(result).len(), d))
}

/// `edge.host_call`: the one way from a guest to a capability. The guest gets a
/// buffer with the response, or zero where none could be written.
pub(crate) fn host_call(caller: &mut Caller<'_, HostState>, ptr: i32, len: i32) -> (r: i64)
    ensures
        exists|result: Result<Text, Text>, mid: Caller<'_, HostState>, d: Delivery| #[trigger]
            host_called(*old(caller), ptr, len, result, mid, d, r as int, *final(caller)),
{
    let ghost before = *caller;
    let result = handle_host_call(caller, ptr, len);
    let ghost mid = *caller;
    let response = host_response(&result);
    let buffer = write_guest_bytes(caller, response.text.as_str().as_bytes());
    let r: i64 = match buffer {
        Ok((p, l)) => abi::pack_ptr_len(p, l),
        Err(_) => 0,
    };
    proof {
        let outcome = bridge::result_texts(result);
        let d = choose|d: Delivery| #[trigger]
            delivered(mid, response_bytes(outcome), buffer_texts(buffer), d, *caller);
        assert(host_called(before, ptr, len, outcome, mid, d, r as int, *caller));
    }
    r
}

/// The line that a log call adds. What cannot be read is an empty message.
pub open spec fn logged_line(caller: Caller<'_, HostState>, ptr: i32, len: i32) -> Text {
    log_line(
        host::caller_warden(caller).plugin(),
        match named_range(caller, ptr, len) {
            Some(message) => message,
            None => seq![],
        },
    )
}

/// `edge.host_log`: a line for the operator. It goes behind those that were
/// logged before, and nothing else changes.
pub(crate) fn host_log(caller: &mut Caller<'_, HostState>, ptr: i32, len: i32)
    ensures
        host::caller_warden(*final(caller)) == host::caller_warden(*old(caller)),
        memory_of(*final(caller)) == memory_of(*old(caller)),
        looked_for_memory(*old(caller), *final(caller)),
        host::caller_log(*final(caller)) == host::caller_log(*old(caller)).push(
            logged_line(*old(caller), ptr, len),
        ),
{
    let ghost before = host::caller_log(*caller);
    let ghost added = logged_line(*caller, ptr, len);
    let message = match read_guest_bytes(caller, ptr, len) {
        Ok(bytes) => bytes,
        Err(_) => Vec::new(),
    };
    let state = host::caller_state(caller);
    let line = format_log(state.warden.name(), message.as_slice());
    assert(line@ == added);
    state.log.push(line);
    assert(text::texts(state.log@) =~= before.push(added));
}

impl PluginRuntime {
    /// Guests spend fuel.
    pub closed spec fn fueled(&self) -> bool {
        self.host.fueled()
    }

    /// The ways out of a sandbox.
    pub closed spec fn doors(&self) -> Doors {
        self.host.doors()
    }

    /// What was asked of sandboxes so far.
    pub closed spec fn calls(&self) -> Seq<SandboxCall> {
        self.host.calls()
    }

    /// A runtime in which guests spend fuel, and in which they can reach nothing
    /// but the two doors. There is one wherever the machine can make an engine, and
    /// the error is that of making it.
    pub fn new() -> (r: Result<Self, String>)
        ensures
            host::may_make_engine(true, 0, host::outcome_of(r)),
            r matches Ok(rt) ==> rt.fueled() && rt.doors() == host::host_doors() && rt.calls()
                == Seq::<SandboxCall>::empty(),
    {
        match Host::new() {
            Err(e) => Err(e),
            Ok(host) => Ok(PluginRuntime { host }),
        }
    }

    /// Compiles code: these very bytes. What compiles depends on the machine.
    pub fn compile(&self, wasm: &[u8]) -> (r: Result<Program, String>)
        ensures
            host::may_compile(wasm@, host::outcome_of(r)),
            r matches Ok(p) ==> p@ == wasm@,
    {
        match self.host.compile(wasm) {
            Ok(module) => Ok(Program { module }),
            Err(e) => Err(e),
        }
    }

    /// Enters an open sandbox with a program.
    fn enter(&mut self, store: &mut Store<HostState>, program: &Program) -> (r: Result<
        Guest,
        String,
    >)
        requires
            host::store_engine(*old(store)) == old(self).host.engine(),
        ensures
            host::same_store(*old(store), *final(store)),
            r matches Ok(guest) ==> guest.lives_in(host::store_key(*old(store))),
            exists|g: GuestRun|
                host::outcome_of(r) == entered(g) && final(self).calls() == old(self).calls()
                    + #[trigger] entry_calls(program@, g),
    {
        let ghost before = self.calls();
        let ghost code = program@;
        let ghost g = GuestRun {
            entry: Ok(()),
            allocator: Ok(()),
            handler: Ok(()),
            memory: true,
            alloc: Err(seq![]),
            write: Ok(()),
            handle: Err(seq![]),
            read: Err(seq![]),
            log: seq![],
            passed: seq![],
        };
        let instance = match self.host.instantiate(store, &program.module) {
            Ok(instance) => instance,
            Err(e) => {
                let ghost g = GuestRun { entry: Err(e@), ..g };
                assert(self.calls() =~= before + entry_calls(code, g));
                return Err(e);
            },
        };
        let allocator = match self.host.find_allocator(store, &instance, GUEST_ALLOC) {
            Ok(f) => f,
            Err(e) => {
                let ghost g = GuestRun { allocator: Err(e@), ..g };
                assert(self.calls() =~= before + entry_calls(code, g));
                return Err(e);
            },
        };
        let handler = match self.host.find_handler(store, &instance, GUEST_HANDLE) {
            Ok(f) => f,
            Err(e) => {
                let ghost g = GuestRun { handler: Err(e@), ..g };
                assert(self.calls() =~= before + entry_calls(code, g));
                return Err(e);
            },
        };
        match self.host.find_memory(store, &instance, GUEST_MEMORY) {
            Some(memory) => {
                assert(self.calls() =~= before + entry_calls(code, g));
                Ok(Guest { memory, allocator, handler })
            },
            None => {
                let ghost g = GuestRun { memory: false, ..g };
                assert(self.calls() =~= before + entry_calls(code, g));
                Err("plugin exports no linear memory".to_string())
            },
        }
    }

    /// Runs one exchange with a guest that can be used.
    fn converse(&mut self, store: &mut Store<HostState>, guest: &Guest, bytes: &[u8]) -> (r: Result<
        PluginOutput,
        String,
    >)
        requires
            guest.lives_in(host::store_key(*old(store))),
        ensures
            host::same_store(*old(store), *final(store)),
            exists|g: GuestRun|
                entered(g) is Ok && output_texts(r) == run_result(bytes@.len(), g) && final(self).calls() == old(self).calls() + #[trigger] guest_calls(bytes@, g),
    {
        let ghost size = bytes@.len();
        let ghost before = self.calls();
        let ghost g = GuestRun {
            entry: Ok(()),
            allocator: Ok(()),
            handler: Ok(()),
            memory: true,
            alloc: Err(seq![]),
            write: Ok(()),
            handle: Err(seq![]),
            read: Err(seq![]),
            log: seq![],
            passed: seq![],
        };
        if bytes.len() > i32::MAX as usize {
            let e = "plugin input exceeds the guest's address range".to_string();
            assert(run_result(size, g) == Err::<abi::OutputModel, Text>(e@));
            assert(self.calls() =~= before + guest_calls(bytes@, g));
            return Err(e);
        }
        let p: i32 = match self.host.call_allocator(store, &guest.allocator, bytes.len() as i32) {
            Ok(p) => p,
            Err(e) => {
                let ghost g = GuestRun { alloc: Err(e@), ..g };
                assert(run_result(size, g) == Err::<abi::OutputModel, Text>(e@));
                assert(self.calls() =~= before + guest_calls(bytes@, g));
                return Err(e);
            },
        };
        let ghost g = GuestRun { alloc: Ok(p), ..g };
        let at: u32 = match check_allocated(p) {
            Ok(at) => at,
            Err(e) => {
                assert(run_result(size, g) == Err::<abi::OutputModel, Text>(e@));
                assert(self.calls() =~= before + guest_calls(bytes@, g));
                return Err(e);
            },
        };
        match self.host.write(store, &guest.memory, at as usize, bytes) {
            Ok(()) => {},
            Err(e) => {
                let ghost g = GuestRun { write: Err(e@), ..g };
                assert(run_result(size, g) == Err::<abi::OutputModel, Text>(e@));
                assert(self.calls() =~= before + guest_calls(bytes@, g));
                return Err(e);
            },
        }
        let v: i64 = match self.host.call_handler(store, &guest.handler, p, bytes.len() as i32) {
            Ok(v) => v,
            Err(e) => {
                let ghost g = GuestRun { handle: Err(e@), ..g };
                assert(run_result(size, g) == Err::<abi::OutputModel, Text>(e@));
                assert(self.calls() =~= before + guest_calls(bytes@, g));
                return Err(e);
            },
        };
        let ghost g = GuestRun { handle: Ok(v), ..g };
        let (out_ptr, out_len) = match check_answer(v) {
            Ok(buffer) => buffer,
            Err(e) => {
                assert(run_result(size, g) == Err::<abi::OutputModel, Text>(e@));
                assert(self.calls() =~= before + guest_calls(bytes@, g));
                return Err(e);
            },
        };
        match self.host.read(store, &guest.memory, out_ptr as usize, out_len as usize) {
            Ok(out) => {
                let ghost g = GuestRun { read: Ok(out@), ..g };
                let answer = read_answer(out.as_slice());
                assert(run_result(size, g) == output_texts(answer));
                assert(self.calls() =~= before + guest_calls(bytes@, g));
                answer
            },
            Err(e) => {
                let ghost g = GuestRun { read: Err(e@), ..g };
                assert(run_result(size, g) == Err::<abi::OutputModel, Text>(e@));
                assert(self.calls() =~= before + guest_calls(bytes@, g));
                Err(e)
            },
        }
    }

    /// Runs one exchange in an open sandbox.
    fn exchange(&mut self, store: &mut Store<HostState>, program: &Program, bytes: &[u8]) -> (r:
        Result<PluginOutput, String>)
        requires
            host::store_engine(*old(store)) == old(self).host.engine(),
        ensures
            host::same_store(*old(store), *final(store)),
            exists|g: GuestRun|
                output_texts(r) == run_result(bytes@.len(), g) && final(self).calls() == old(self).calls() + #[trigger] exchange_calls(program@, bytes@, g),
    {
        let ghost before = self.calls();
        let ghost code = program@;
        let entry = self.enter(store, program);
        let ghost a = choose|g: GuestRun|
            host::outcome_of(entry) == entered(g) && self.calls() == before
                + #[trigger] entry_calls(code, g);
        let ghost inside = self.calls();
        match entry {
            Err(e) => {
                assert(exchange_calls(code, bytes@, a) == entry_calls(code, a));
                Err(e)
            },
            Ok(guest) => {
                let r = self.converse(store, &guest, bytes);
                proof {
                    let b = choose|g: GuestRun|
                        entered(g) is Ok && output_texts(r) == run_result(bytes@.len(), g)
                            && self.calls() == inside + #[trigger] guest_calls(bytes@, g);
                    let g = GuestRun {
                        entry: a.entry,
                        allocator: a.allocator,
                        handler: a.handler,
                        memory: a.memory,
                        ..b
                    };
                    assert(entered(g) == entered(a));
                    assert(entry_calls(code, g) == entry_calls(code, a));
                    assert(guest_calls(bytes@, g) == guest_calls(bytes@, b));
                    assert(run_result(bytes@.len(), g) == run_result(bytes@.len(), b));
                    assert(self.calls() =~= before + exchange_calls(code, bytes@, g));
                }
                r
            },
        }
    }

    /// Runs a plugin on `input` in a fresh sandbox, with `fuel` to spend and at
    /// most `memory_limit` bytes of memory. The sandbox is asked for what
    /// `calls_of` says, and the result is what the kernel makes of what came back. On
    /// the record of what was handed to the provider stand only requests of this
    /// plugin for the capabilities that it is allowed.
    pub fn invoke(
        &mut self,
        program: &Program,
        plugin_name: &str,
        allowed_caps: &[String],
        bridge: Bridge,
        input: &PluginInput,
        fuel: u64,
        memory_limit: usize,
    ) -> (r: Invocation)
        ensures
            exists|g: GuestRun|
                output_texts(r.result) == run_result(
                    text::byte_len(abi::input_json(input@)),
                    g,
                ) && text::texts(r.log@) == g.log && bridge::all_declared(
                    plugin_name@,
                    text::texts(allowed_caps@),
                    bridge,
                    g.passed,
                ) && final(self).calls() == old(self).calls()
                    + #[trigger] calls_of(
                    SandboxCall::Open {
                        plugin: plugin_name@,
                        capabilities: text::texts(allowed_caps@),
                        bridge,
                        fuel,
                        memory_limit,
                        memories: MAX_MEMORIES,
                    },
                    program@,
                    utf8::encode_utf8(abi::input_json(input@)),
                    g,
                ),
    {
        let document = input.to_json();
        let ghost before = self.calls();
        let ghost open = SandboxCall::Open {
            plugin: plugin_name@,
            capabilities: text::texts(allowed_caps@),
            bridge,
            fuel,
            memory_limit,
            memories: MAX_MEMORIES,
        };
        let state = HostState {
            limits: host::store_limits(memory_limit, MAX_MEMORIES),
            warden: Warden::new(plugin_name, allowed_caps, bridge),
            log: Vec::new(),
        };
        let mut store = match self.host.open(state, fuel) {
            Ok(s) => s,
            Err(e) => {
                return Invocation { result: Err(e), log: Vec::new() };
            },
        };
        let ghost opened = self.calls();
        let bytes = document.text.as_str().as_bytes();
        let result = self.exchange(&mut store, program, bytes);
        let ghost g = choose|g: GuestRun|
            output_texts(result) == run_result(bytes@.len(), g) && self.calls() == opened
                + #[trigger] exchange_calls(program@, bytes@, g);
        let state = self.host.close(store);
        proof {
            use_type_invariant(&state.warden);
            let done = GuestRun {
                log: text::texts(state.log@),
                passed: state.warden.passed(),
                ..g
            };
            assert(exchange_calls(program@, bytes@, done) == exchange_calls(program@, bytes@, g));
            assert(run_result(bytes@.len(), done) == run_result(bytes@.len(), g));
            assert(self.calls() =~= before + calls_of(open, program@, bytes@, done));
        }
        Invocation { result, log: state.log }
    }
}

// What a run comes to.

/// A guest that does all that is asked of it is answered for: where it can be entered, its
/// allocator gives an address, the input is written, its handler names a buffer of at
/// most a mebibyte, and what stands there is an answer, that answer is the result.
pub proof fn law_a_good_run_is_answered(size: nat, g: GuestRun, out: abi::OutputModel)
    requires
        g.entry is Ok && g.allocator is Ok && g.handler is Ok && g.memory,
        size <= i32::MAX,
        g.alloc is Ok && g.alloc->Ok_0 > 0,
        g.write is Ok,
        g.handle is Ok && g.handle->Ok_0 != 0,
        g.handle->Ok_0 as int % 0x1_0000_0000 <= 1048576,
        g.read is Ok,
        answer_of(g.read->Ok_0) == Some(out),
    ensures
        run_result(size, g) == Ok::<abi::OutputModel, Text>(out),
{
}

/// A guest that falls short anywhere is an error that says where.
pub proof fn law_a_bad_run_says_why(size: nat, g: GuestRun)
    requires
        g.entry is Ok && g.allocator is Ok && g.handler is Ok,
    ensures
        !g.memory ==> run_result(size, g) == Err::<abi::OutputModel, Text>(
            "plugin exports no linear memory"@,
        ),
        g.memory && size > i32::MAX ==> run_result(size, g) == Err::<abi::OutputModel, Text>(
            "plugin input exceeds the guest's address range"@,
        ),
        g.memory && size <= i32::MAX ==> match g.alloc {
            Err(e) => run_result(size, g) == Err::<abi::OutputModel, Text>(e),
            Ok(p) => if p <= 0 {
                run_result(size, g) == Err::<abi::OutputModel, Text>(
                    "guest allocator returned null"@,
                )
            } else {
                match (g.write, g.handle) {
                    (Err(e), _) => run_result(size, g) == Err::<abi::OutputModel, Text>(e),
                    (Ok(_), Err(e)) => run_result(size, g) == Err::<abi::OutputModel, Text>(e),
                    (Ok(_), Ok(v)) => {
                        &&& v == 0 ==> run_result(size, g) == Err::<abi::OutputModel, Text>(
                            "plugin reported internal error"@,
                        )
                        &&& v != 0 && v as int % 0x1_0000_0000 > 1048576 ==> run_result(size, g)
                            == Err::<abi::OutputModel, Text>("plugin output exceeds 1MiB cap"@)
                        &&& v != 0 && v as int % 0x1_0000_0000 <= 1048576 && g.read is Ok
                            && answer_of(g.read->Ok_0) is None ==> run_result(size, g) == Err::<
                            abi::OutputModel,
                            Text,
                        >("plugin output violates the PluginOutput envelope"@)
                    },
                }
            },
        },
{
}

/// The guest is handed its input whole, and is read where it says: the handler gets the
/// address and the length of what was written, all of the input, where the allocator
/// said; and the answer is read from the buffer that the handler's number stands for.
pub proof fn law_the_guest_gets_its_input_whole(input: Seq<u8>, g: GuestRun, i: int)
    requires
        0 <= i < guest_calls(input, g).len(),
    ensures
        guest_calls(input, g)[i] matches SandboxCall::Alloc { len, outcome } ==> len
            == input.len() && outcome == g.alloc,
        guest_calls(input, g)[i] matches SandboxCall::Write { at, bytes, outcome } ==> bytes
            == input && g.alloc is Ok && at == g.alloc->Ok_0 && at > 0,
        guest_calls(input, g)[i] matches SandboxCall::Handle { at, len, outcome } ==> i > 0
            && guest_calls(input, g)[i - 1] == (SandboxCall::Write {
            at,
            bytes: input,
            outcome: Ok(()),
        }) && len == input.len(),
        guest_calls(input, g)[i] matches SandboxCall::Read { at, len, outcome } ==> g.handle is Ok
            && 0 <= at <= u32::MAX && 0 <= len <= 1048576 && abi::packed(at as u32, len as u32)
            == g.handle->Ok_0,
        g.alloc is Ok && g.alloc->Ok_0 > 0 && g.write is Ok && input.len() <= i32::MAX
            ==> guest_calls(input, g).len() >= 3 && guest_calls(input, g)[2] == (
        SandboxCall::Handle {
            at: g.alloc->Ok_0 as int,
            len: input.len() as int,
            outcome: g.handle,
        }),
{
    if g.write is Ok {
        assert(g.write->Ok_0 == ());
        assert(g.write == Ok::<(), Text>(()));
    }
}

/// A guest's request is answered in an object that says whether it went well, with the
/// data as they stand, or with the error.
pub proof fn law_responses_read_back(data: Text, e: Text)
    ensures
        record::lookup(response_members(Ok(data)), "ok"@) == Some("true"@),
        record::lookup(response_members(Ok(data)), "data"@) == Some(data),
        response_members(Ok(data)).len() == 2,
        json::plain_value(data) ==> record::member(
            json::object_text(response_members(Ok(data))),
            "data"@,
        ) == Some(data) && record::member(json::object_text(response_members(Ok(data))), "ok"@)
            == Some("true"@),
        record::text_member(json::object_text(response_members(Err(e))), "error"@) == Some(e),
        record::member(json::object_text(response_members(Err(e))), "ok"@) == Some("false"@),
{
    reveal_strlit("ok");
    reveal_strlit("data");
    reveal_strlit("error");
    assert("ok"@.len() == 2 && "data"@.len() == 4 && "error"@.len() == 5);
    let good = response_members(Ok(data));
    let bad = response_members(Err(e));
    assert(good[0].0 == "data"@ && good[1].0 == "ok"@);
    assert(bad[0].0 == "error"@ && bad[1].0 == "ok"@);
    record::lemma_lookup_at(good, 0);
    record::lemma_lookup_at(good, 1);
    if json::plain_value(data) {
        assert(json::plain_value(good[1].1));
        record::law_members_read_back(good, "data"@);
        record::law_members_read_back(good, "ok"@);
    }
    json::law_strings_read_back(e);
    assert(json::plain_value(bad[0].1));
    assert(json::plain_value(bad[1].1));
    record::law_members_read_back(bad, "error"@);
    record::law_members_read_back(bad, "ok"@);
    record::lemma_lookup_at(bad, 0);
    record::lemma_lookup_at(bad, 1);
}

/// The bytes that a guest is handed out of a host call come by its own allocator: the
/// buffer that it is told of is where that said, and as long as the response. Where
/// anything goes wrong, it gets none, which zero stands for.
pub proof fn law_responses_go_where_the_guest_says(n: nat, d: Delivery)
    ensures
        written(n, d) matches Ok((at, len)) ==> d.found && d.typed is Ok && d.memory && d.write
            is Ok && d.alloc == Ok::<i32, Text>(at as i32) && at > 0 && len == n,
        n <= i32::MAX && d.found && d.typed is Ok && d.memory && d.write is Ok && d.alloc is Ok
            && d.alloc->Ok_0 > 0 ==> written(n, d) == Ok::<(u32, u32), Text>(
            (d.alloc->Ok_0 as u32, n as u32),
        ),
        written(n, d) matches Ok((at, len)) ==> host_value(written(n, d)) != 0 && host_value(
            written(n, d),
        ) == at * 0x1_0000_0000 + len,
        written(n, d) is Err ==> host_value(written(n, d)) == 0,
{
}

/// The names by which host and guest know each other, and the one memory that a guest may
/// have.
pub proof fn law_host_and_guest_know_each_other()
    ensures
        GUEST_ALLOC@ == "ea_alloc"@,
        GUEST_HANDLE@ == "ea_handle"@,
        GUEST_MEMORY@ == "memory"@,
        MAX_MEMORIES == 1,
        host::host_doors().dom() == set![
            ("edge"@, "host_log"@),
            ("edge"@, "host_call"@),
        ],
        host::host_doors()[("edge"@, "host_log"@)] is Log,
        host::host_doors()[("edge"@, "host_call"@)] is Call,
{
    reveal_strlit("host_log");
    reveal_strlit("host_call");
    assert("host_log"@.len() != "host_call"@.len());
    assert(host::host_doors().dom() =~= set![
        ("edge"@, "host_log"@),
        ("edge"@, "host_call"@),
    ]);
}

} // verus!
