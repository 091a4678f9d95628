//! Plugin ABI: the only contract between kernel and plugins.
//!
//! Data flow -- plugins never touch kernel memory, only serialized copies:
//!   1. kernel builds a `PluginInput` *view* filtered by the manifest's
//!      permissions (no `context` permission => no context bytes cross);
//!   2. input JSON is written into guest memory via the guest's `ea_alloc`;
//!   3. guest's `ea_handle(ptr, len) -> i64` returns packed (ptr << 32 | len)
//!      of its response buffer, 0 on internal error;
//!   4. kernel parses the response strictly as `PluginOutput`; anything
//!      malformed is discarded and counted as a plugin failure.
//!
//! Capability calls happen *during* execution through the single host import
//! `edge.host_call(ptr, len) -> i64`, gated per-call against the manifest.

use crate::context;
use crate::context::{ContextEntry, EntryModel};
use crate::json;
use crate::json::{Json, ObjectWriter};
use crate::record;
use crate::text;
use crate::text::Text;
use vstd::prelude::*;

verus! {

/// Guest-facing symbol names.
pub const GUEST_ALLOC: &'static str = "ea_alloc";

pub const GUEST_HANDLE: &'static str = "ea_handle";

pub const HOST_MODULE: &'static str = "edge";

pub const HOST_LOG: &'static str = "host_log";

pub const HOST_CALL: &'static str = "host_call";

/// A turn of the conversation, as a plugin gets to see it.
#[derive(Debug)]
pub struct ContextView {
    pub role: String,
    pub content: String,
}

impl View for ContextView {
    type V = EntryModel;

    open spec fn view(&self) -> EntryModel {
        EntryModel { role: self.role@, content: self.content@ }
    }
}

/// The turns of a vector, in order.
pub open spec fn turns(v: Seq<ContextView>) -> Seq<EntryModel> {
    Seq::new(v.len(), |i: int| v[i]@)
}

/// A copy of the conversation for a plugin.
pub fn view_context(list: &[ContextEntry]) -> (r: Vec<ContextView>)
    ensures
        turns(r@) == context::entries(list@),
{
    let mut out: Vec<ContextView> = Vec::new();
    let mut i: usize = 0;
    while i < list.len()
        invariant
            i <= list@.len(),
            out@.len() == i,
            forall|j: int| 0 <= j < i ==> (#[trigger] out@[j])@ == list@[j]@,
        decreases list.len() - i,
    {
        out.push(
            ContextView { role: list[i].role.clone(), content: list[i].content.clone() },
        );
        i += 1;
    }
    assert(turns(out@) =~= context::entries(list@));
    out
}

/// What the kernel sends to a plugin.
#[derive(Debug)]
pub struct PluginInput {
    /// "tool" | "strategy" | "hook" | "infer" | "repair"
    /// (infer/repair are kernel-reserved invocations of tool-kind plugins
    /// designated in the config; the model can never call them directly.)
    pub kind: String,
    /// Hook point name when kind == "hook" (e.g. "pre_infer", "post_task").
    pub hook: Option<String>,
    /// The triggering event, if any.
    pub event: Option<Json>,
    /// Conversation context -- present ONLY if the manifest declares
    /// `"context": true`. Untrusted plugins simply never see it.
    pub context: Option<Vec<ContextView>>,
    /// Tool arguments planned by the model / strategy.
    pub args: Json,
}

/// An input as the contracts see it.
pub struct InputModel {
    pub kind: Text,
    pub hook: Option<Text>,
    pub event: Option<Text>,
    pub context: Option<Seq<EntryModel>>,
    pub args: Text,
}

/// The text of an optional JSON value.
pub open spec fn opt_json(o: Option<Json>) -> Option<Text> {
    match o {
        Some(j) => Some(j@),
        None => None,
    }
}

pub open spec fn opt_turns(o: Option<Vec<ContextView>>) -> Option<Seq<EntryModel>> {
    match o {
        Some(v) => Some(turns(v@)),
        None => None,
    }
}

impl View for PluginInput {
    type V = InputModel;

    open spec fn view(&self) -> InputModel {
        InputModel {
            kind: self.kind@,
            hook: text::opt_text(self.hook),
            event: opt_json(self.event),
            context: opt_turns(self.context),
            args: self.args@,
        }
    }
}

/// The members of a turn as a JSON object.
pub open spec fn turn_members(e: EntryModel) -> Seq<(Text, Text)> {
    seq![("role"@, json::quoted(e.role)), ("content"@, json::quoted(e.content))]
}

/// The turns as JSON objects.
pub open spec fn turn_objects(s: Seq<EntryModel>) -> Seq<Text> {
    Seq::new(s.len(), |i: int| json::object_text(turn_members(s[i])))
}

/// A member of an object that may be left out.
pub open spec fn optional_member(key: Text, value: Option<Text>) -> Seq<(Text, Text)> {
    match value {
        Some(v) => seq![(key, v)],
        None => seq![],
    }
}

/// The members of the object that goes to the plugin. What is not there is
/// left out, and so are null arguments.
pub open spec fn input_members(m: InputModel) -> Seq<(Text, Text)> {
    let hook = match m.hook {
        Some(h) => Some(json::quoted(h)),
        None => None,
    };
    let context = match m.context {
        Some(c) => Some(json::array_text(turn_objects(c))),
        None => None,
    };
    let args = if m.args == "null"@ {
        None
    } else {
        Some(m.args)
    };
    seq![("kind"@, json::quoted(m.kind))] + optional_member("hook"@, hook) + optional_member(
        "event"@,
        m.event,
    ) + optional_member("context"@, context) + optional_member("args"@, args)
}

/// The document that goes to the plugin.
pub open spec fn input_json(m: InputModel) -> Text {
    json::object_text(input_members(m))
}

impl PluginInput {
    /// The document that goes to the plugin.
    pub fn to_json(&self) -> (r: Json)
        ensures
            r@ == input_json(self@),
    {
        let mut w = ObjectWriter::new().string("kind", self.kind.as_str());
        let ghost first = seq![("kind"@, json::quoted(self.kind@))];
        assert(w@ =~= first);
        if let Some(h) = &self.hook {
            w = w.string("hook", h.as_str());
        }
        let ghost hook = optional_member(
            "hook"@,
            match self@.hook {
                Some(h) => Some(json::quoted(h)),
                None => None,
            },
        );
        assert(w@ =~= first + hook);
        if let Some(e) = &self.event {
            w = w.raw("event", e.text.as_str());
        }
        let ghost event = optional_member("event"@, self@.event);
        assert(w@ =~= first + hook + event);
        if let Some(c) = &self.context {
            let mut items: Vec<String> = Vec::new();
            let mut i: usize = 0;
            while i < c.len()
                invariant
                    i <= c@.len(),
                    items@.len() == i,
                    forall|j: int|
                        0 <= j < i ==> (#[trigger] items@[j])@ == json::object_text(
                            turn_members(c@[j]@),
                        ),
                decreases c.len() - i,
            {
                let turn = ObjectWriter::new().string("role", c[i].role.as_str()).string(
                    "content",
                    c[i].content.as_str(),
                );
                assert(turn@ =~= turn_members(c@[i as int]@));
                items.push(turn.close().text);
                i += 1;
            }
            assert(text::texts(items@) =~= turn_objects(turns(c@)));
            let list = json::array(items.as_slice());
            w = w.raw("context", list.text.as_str());
        }
        let ghost ctx = optional_member(
            "context"@,
            match self@.context {
                Some(c) => Some(json::array_text(turn_objects(c))),
                None => None,
            },
        );
        assert(w@ =~= first + hook + event + ctx);
        if !self.args.is_null() {
            w = w.raw("args", self.args.text.as_str());
        }
        assert(w@ =~= input_members(self@));
        w.close()
    }
}

/// The only shape a plugin may answer with. Strict on purpose: an edge
/// kernel would rather drop output than guess at it.
#[derive(Debug)]
pub struct PluginOutput {
    pub ok: bool,
    /// Free-form result payload (tool results, hook data).
    pub result: Json,
    /// Strategy plugins only: "rule" (handled deterministically, use `reply`)
    /// or "model" (kernel should run the inference path).
    pub decision: Option<String>,
    /// Direct user-facing reply, when the plugin produced one.
    pub reply: Option<String>,
    pub error: Option<String>,
}

/// An output as the contracts see it.
pub struct OutputModel {
    pub ok: bool,
    pub result: Text,
    pub decision: Option<Text>,
    pub reply: Option<Text>,
    pub error: Option<Text>,
}

impl View for PluginOutput {
    type V = OutputModel;

    open spec fn view(&self) -> OutputModel {
        OutputModel {
            ok: self.ok,
            result: self.result@,
            decision: text::opt_text(self.decision),
            reply: text::opt_text(self.reply),
            error: text::opt_text(self.error),
        }
    }
}

/// The fields of an output, in the order of its positional form.
pub open spec fn output_names() -> Seq<Text> {
    seq!["ok"@, "result"@, "decision"@, "reply"@, "error"@]
}

/// A truth value as a JSON document.
pub open spec fn bool_text(b: bool) -> Text {
    if b {
        "true"@
    } else {
        "false"@
    }
}

/// The truth value that a field gives; `None` where it gives none.
pub open spec fn bool_field(field: Option<Text>) -> Option<bool> {
    if field == Some("true"@) {
        Some(true)
    } else if field == Some("false"@) {
        Some(false)
    } else {
        None
    }
}

/// The output that `document` is. `None` where it is no output: a required
/// field is missing, a field has the wrong type, occurs twice or is unknown.
pub open spec fn output_of(document: Text) -> Option<OutputModel> {
    match record::record(document, output_names()) {
        Some(f) => match (
            bool_field(f[0]),
            record::string_field(f[2]),
            record::string_field(f[3]),
            record::string_field(f[4]),
        ) {
            (Some(ok), Some(decision), Some(reply), Some(error)) => Some(
                OutputModel { ok, result: record::value_field(f[1]), decision, reply, error },
            ),
            _ => None,
        },
        None => None,
    }
}

/// The truth value that a field gives; `None` where it gives none.
pub fn read_bool_field(field: &Option<String>) -> (r: Option<bool>)
    ensures
        r == bool_field(text::opt_text(*field)),
{
    proof {
        reveal_strlit("true");
        reveal_strlit("false");
    }
    match field {
        Some(t) => {
            if text::same_text(t.as_str(), "true") {
                Some(true)
            } else if text::same_text(t.as_str(), "false") {
                Some(false)
            } else {
                None
            }
        },
        None => None,
    }
}

/// Constructors for native (in-process) plugins, which build the envelope
/// directly instead of serializing it across a sandbox boundary.
impl PluginOutput {
    pub fn reply(text: &str) -> (r: Self)
        ensures
            r@ == (OutputModel {
                ok: true,
                result: "null"@,
                decision: None,
                reply: Some(text@),
                error: None,
            }),
    {
        PluginOutput {
            ok: true,
            result: Json::null(),
            decision: None,
            reply: Some(text.to_string()),
            error: None,
        }
    }

    pub fn result(value: Json) -> (r: Self)
        ensures
            r@ == (OutputModel {
                ok: true,
                result: value@,
                decision: None,
                reply: None,
                error: None,
            }),
    {
        PluginOutput { ok: true, result: value, decision: None, reply: None, error: None }
    }

    pub fn fail(msg: &str) -> (r: Self)
        ensures
            r@ == (OutputModel {
                ok: false,
                result: "null"@,
                decision: None,
                reply: None,
                error: Some(msg@),
            }),
    {
        PluginOutput {
            ok: false,
            result: Json::null(),
            decision: None,
            reply: None,
            error: Some(msg.to_string()),
        }
    }

    /// Strategy: handled deterministically, `reply` is the answer.
    pub fn rule(reply: &str) -> (r: Self)
        ensures
            r@ == (OutputModel {
                ok: true,
                result: "null"@,
                decision: Some("rule"@),
                reply: Some(reply@),
                error: None,
            }),
    {
        PluginOutput {
            ok: true,
            result: Json::null(),
            decision: Some("rule".to_string()),
            reply: Some(reply.to_string()),
            error: None,
        }
    }

    /// Strategy: defer to the model path.
    pub fn model() -> (r: Self)
        ensures
            r@ == (OutputModel {
                ok: true,
                result: "null"@,
                decision: Some("model"@),
                reply: None,
                error: None,
            }),
    {
        PluginOutput {
            ok: true,
            result: Json::null(),
            decision: Some("model".to_string()),
            reply: None,
            error: None,
        }
    }

    /// Reads the answer of a plugin. `None` where it violates the envelope.
    pub fn from_json(document: &str) -> (r: Option<Self>)
        ensures
            r is Some <==> output_of(document@) is Some,
            r matches Some(out) ==> Some(out@) == output_of(document@),
    {
        let names = ["ok", "result", "decision", "reply", "error"];
        assert(record::names_of(names@) =~= output_names());
        let fields = match record::read_record(document, names.as_slice()) {
            Some(f) => f,
            None => {
                return None;
            },
        };
        let ghost f = record::opt_texts(fields@);
        assert(f.len() == 5);
        assert(fields@.len() == 5);
        let ok = match read_bool_field(&fields[0]) {
            Some(b) => b,
            None => {
                return None;
            },
        };
        let decision = match record::read_string_field(&fields[2]) {
            Some(d) => d,
            None => {
                return None;
            },
        };
        let reply = match record::read_string_field(&fields[3]) {
            Some(t) => t,
            None => {
                return None;
            },
        };
        let error = match record::read_string_field(&fields[4]) {
            Some(t) => t,
            None => {
                return None;
            },
        };
        let result = record::read_value_field(&fields[1]);
        Some(PluginOutput { ok, result, decision, reply, error })
    }
}

/// A single field that the envelope does not know, or one that occurs twice,
/// has the whole answer refused.
pub proof fn law_envelope_is_strict(document: Text, members: Seq<(Text, Text)>, i: int)
    requires
        json::json_members(document) == Some(members),
        0 <= i < members.len(),
        !output_names().contains(members[i].0) || record::outer_commas(document) + 1
            != members.len(),
    ensures
        output_of(document) is None,
{
}

/// Payload of a `host_call` from the sandbox: `{"cap": "...", "op": ..., "args": ...}`.
/// `cap` must appear verbatim in the manifest's `permissions.capabilities`.
#[derive(Debug)]
pub struct HostCallRequest {
    pub cap: String,
    pub op: Option<String>,
    pub args: Json,
}

/// A request as the contracts see it.
pub struct RequestModel {
    pub cap: Text,
    pub op: Option<Text>,
    pub args: Text,
}

impl View for HostCallRequest {
    type V = RequestModel;

    open spec fn view(&self) -> RequestModel {
        RequestModel { cap: self.cap@, op: text::opt_text(self.op), args: self.args@ }
    }
}

/// The fields of a request, in the order of its positional form.
pub open spec fn request_names() -> Seq<Text> {
    seq!["cap"@, "op"@, "args"@]
}

/// The request that `document` is, if it is one.
pub open spec fn request_of(document: Text) -> Option<RequestModel> {
    match record::record(document, request_names()) {
        Some(f) => match (record::string_field(f[0]), record::string_field(f[1])) {
            (Some(Some(cap)), Some(op)) => Some(
                RequestModel { cap, op, args: record::value_field(f[2]) },
            ),
            _ => None,
        },
        None => None,
    }
}

impl HostCallRequest {
    /// Reads a request. `None` where it violates the envelope.
    pub fn from_json(document: &str) -> (r: Option<Self>)
        ensures
            r is Some <==> request_of(document@) is Some,
            r matches Some(req) ==> Some(req@) == request_of(document@),
    {
        let names = ["cap", "op", "args"];
        assert(record::names_of(names@) =~= request_names());
        let fields = match record::read_record(document, names.as_slice()) {
            Some(f) => f,
            None => {
                return None;
            },
        };
        let ghost f = record::opt_texts(fields@);
        assert(f.len() == 3);
        assert(fields@.len() == 3);
        let cap = match record::read_string_field(&fields[0]) {
            Some(Some(c)) => c,
            _ => {
                return None;
            },
        };
        let op = match record::read_string_field(&fields[1]) {
            Some(o) => o,
            None => {
                return None;
            },
        };
        let args = record::read_value_field(&fields[2]);
        Some(HostCallRequest { cap, op, args })
    }
}

/// The number that stands for a buffer at `ptr` of `len` bytes: the pointer in
/// the upper half, the length in the lower, as a signed number.
pub open spec fn packed(ptr: u32, len: u32) -> int {
    let n = ptr * 0x1_0000_0000 + len;
    if ptr < 0x8000_0000 {
        n
    } else {
        n - 0x1_0000_0000_0000_0000
    }
}

pub fn pack_ptr_len(ptr: u32, len: u32) -> (r: i64)
    ensures
        r == packed(ptr, len),
{
    let wide: u64 = ((ptr as u64) << 32) | len as u64;
    proof {
        assert(((ptr as u64) << 32) | len as u64 == ptr * 0x1_0000_0000 + len) by (bit_vector);
        assert(wide < 0x8000_0000_0000_0000 ==> wide as i64 == wide) by (bit_vector);
        assert(wide >= 0x8000_0000_0000_0000 ==> wide as i64 == wide - 0x1_0000_0000_0000_0000)
            by (bit_vector);
    }
    wide as i64
}

/// The buffer that `v` stands for; zero stands for none.
pub fn unpack_ptr_len(v: i64) -> (r: Option<(u32, u32)>)
    ensures
        v == 0 ==> r is None,
        v != 0 ==> (r matches Some((ptr, len)) && packed(ptr, len) == v),
{
    if v == 0 {
        return None;
    }
    let wide: u64 = v as u64;
    let ptr: u32 = (wide >> 32) as u32;
    let len: u32 = (wide & 0xffff_ffff) as u32;
    proof {
        assert(v >= 0 ==> v as u64 == v) by (bit_vector);
        assert(v < 0 ==> v as u64 == v + 0x1_0000_0000_0000_0000) by (bit_vector);
        assert(((wide >> 32) as u32) * 0x1_0000_0000 + ((wide & 0xffff_ffff) as u32) == wide)
            by (bit_vector);
    }
    Some((ptr, len))
}

/// Different buffers have different numbers, and only the empty buffer at
/// address zero has the number that stands for none: a buffer that is packed
/// and unpacked is the same buffer.
pub proof fn law_pack_unpack_round_trip(ptr: u32, len: u32, p: u32, l: u32)
    ensures
        packed(ptr, len) == packed(p, l) ==> ptr == p && len == l,
        packed(ptr, len) == 0 <==> ptr == 0 && len == 0,
{
}

proof fn lemma_input_keys()
    ensures
        "kind"@ != "hook"@ && "kind"@ != "event"@ && "kind"@ != "context"@ && "kind"@ != "args"@,
        "hook"@ != "event"@ && "hook"@ != "context"@ && "hook"@ != "args"@,
        "event"@ != "context"@ && "event"@ != "args"@ && "context"@ != "args"@,
{
    reveal_strlit("kind");
    reveal_strlit("hook");
    reveal_strlit("event");
    reveal_strlit("context");
    reveal_strlit("args");
    assert("event"@.len() == 5 && "context"@.len() == 7);
    assert("kind"@[0] == 'k' && "hook"@[0] == 'h' && "args"@[0] == 'a');
}

/// Whatever stands between, a member is found behind a member with another key, or
/// behind none.
proof fn lemma_lookup_joined(a: Seq<(Text, Text)>, b: Seq<(Text, Text)>, key: Text)
    ensures
        record::lookup(a + b, key) == (match record::lookup(a, key) {
            Some(v) => Some(v),
            None => record::lookup(b, key),
        }),
    decreases a.len(),
{
    if a.len() == 0 {
        assert(a + b =~= b);
    } else {
        assert((a + b).drop_first() =~= a.drop_first() + b);
        lemma_lookup_joined(a.drop_first(), b, key);
    }
}

proof fn lemma_optional(name: Text, value: Option<Text>, key: Text)
    ensures
        record::lookup(optional_member(name, value), key) == (if key == name {
            value
        } else {
            None
        }),
{
    reveal_with_fuel(record::lookup, 2);
}

/// A plugin is told all that there is: its kind of call, and the hook, the event, the
/// conversation and the arguments where there are any. Null arguments are left out.
pub proof fn law_inputs_are_told_whole(m: InputModel)
    ensures
        input_json(m) == json::object_text(input_members(m)),
        record::lookup(input_members(m), "kind"@) == Some(json::quoted(m.kind)),
        record::lookup(input_members(m), "hook"@) == (match m.hook {
            Some(h) => Some(json::quoted(h)),
            None => None,
        }),
        record::lookup(input_members(m), "event"@) == m.event,
        record::lookup(input_members(m), "context"@) is Some <==> m.context is Some,
        record::lookup(input_members(m), "args"@) == (if m.args == "null"@ {
            None
        } else {
            Some(m.args)
        }),
        m.context matches Some(c) ==> exists|turns: Seq<Text>| #[trigger]
            tells_turns(turns, c) && record::lookup(input_members(m), "context"@) == Some(
                json::array_text(turns),
            ),
{
    lemma_input_keys();
    let hook = match m.hook {
        Some(h) => Some(json::quoted(h)),
        None => None,
    };
    let context = match m.context {
        Some(c) => Some(json::array_text(turn_objects(c))),
        None => None,
    };
    let args = if m.args == "null"@ {
        None
    } else {
        Some(m.args)
    };
    let one = seq![("kind"@, json::quoted(m.kind))];
    let two = one + optional_member("hook"@, hook);
    let three = two + optional_member("event"@, m.event);
    let four = three + optional_member("context"@, context);
    reveal_with_fuel(record::lookup, 2);
    assert forall|key: Text| #[trigger] record::lookup(input_members(m), key) == (
    if key == "kind"@ {
        Some(json::quoted(m.kind))
    } else if key == "hook"@ {
        hook
    } else if key == "event"@ {
        m.event
    } else if key == "context"@ {
        context
    } else if key == "args"@ {
        args
    } else {
        None
    }) by {
        lemma_lookup_joined(one, optional_member("hook"@, hook), key);
        lemma_lookup_joined(two, optional_member("event"@, m.event), key);
        lemma_lookup_joined(three, optional_member("context"@, context), key);
        lemma_lookup_joined(four, optional_member("args"@, args), key);
        lemma_optional("hook"@, hook, key);
        lemma_optional("event"@, m.event, key);
        lemma_optional("context"@, context, key);
        lemma_optional("args"@, args, key);
    }
    if m.context is Some {
        let c = m.context->0;
        assert forall|i: int| 0 <= i < c.len() implies record::text_member(
            #[trigger] turn_objects(c)[i],
            "role"@,
        ) == Some(c[i].role) && record::text_member(turn_objects(c)[i], "content"@) == Some(
            c[i].content,
        ) by {
            reveal_strlit("role");
            reveal_strlit("content");
            assert("role"@.len() != "content"@.len());
            record::lemma_two_texts("role"@, c[i].role, "content"@, c[i].content);
        }
        assert(tells_turns(turn_objects(c), c));
    }
}

/// The documents are the turns of a conversation, in their order, each with its role and
/// with what was said.
pub open spec fn tells_turns(turns: Seq<Text>, c: Seq<EntryModel>) -> bool {
    &&& turns.len() == c.len()
    &&& forall|i: int|
        0 <= i < c.len() ==> record::text_member(#[trigger] turns[i], "role"@) == Some(c[i].role)
            && record::text_member(turns[i], "content"@) == Some(c[i].content)
}

/// A field is a text, null, or not there.
pub open spec fn says(members: Seq<(Text, Text)>, key: Text, t: Option<Text>) -> bool {
    match t {
        Some(x) => record::lookup(members, key) == Some(json::quoted(x)),
        None => record::lookup(members, key) is None || record::lookup(members, key) == Some(
            "null"@,
        ),
    }
}

/// Such a field is read as what it says.
pub proof fn lemma_says(members: Seq<(Text, Text)>, key: Text, t: Option<Text>)
    requires
        says(members, key, t),
    ensures
        record::string_field(record::lookup(members, key)) == Some(t),
{
    reveal_strlit("null");
    if t is Some {
        json::law_strings_read_back(t->0);
        assert(json::quoted(t->0)[0] == '"');
        assert("null"@[0] == 'n');
    }
}

/// An answer is what its fields say: an object with the fields of the envelope, each once,
/// and with `ok` among them as a truth value, is the output of just these fields. Without
/// a truth value there it is none.
pub proof fn law_an_answer_is_what_its_fields_say(
    document: Text,
    members: Seq<(Text, Text)>,
    out: OutputModel,
)
    requires
        json::json_members(document) == Some(members),
        record::no_repeats(document, members),
        record::only_names(
            members,
            seq!["ok"@, "result"@, "decision"@, "reply"@, "error"@],
        ),
        record::lookup(members, "result"@) == Some(out.result) || record::lookup(
            members,
            "result"@,
        ) is None && out.result == "null"@,
        says(members, "decision"@, out.decision),
        says(members, "reply"@, out.reply),
        says(members, "error"@, out.error),
    ensures
        record::lookup(members, "ok"@) == Some(if out.ok {
            "true"@
        } else {
            "false"@
        }) ==> output_of(document) == Some(out),
        record::lookup(members, "ok"@) != Some("true"@) && record::lookup(members, "ok"@) != Some(
            "false"@,
        ) ==> output_of(document) is None,
{
    lemma_says(members, "decision"@, out.decision);
    lemma_says(members, "reply"@, out.reply);
    lemma_says(members, "error"@, out.error);
    assert(output_names() =~= seq!["ok"@, "result"@, "decision"@, "reply"@, "error"@]);
    let f = record::record(document, output_names())->0;
    assert(f[0] == record::lookup(members, "ok"@));
    assert(f[1] == record::lookup(members, "result"@));
    assert(f[2] == record::lookup(members, "decision"@));
    assert(f[3] == record::lookup(members, "reply"@));
    assert(f[4] == record::lookup(members, "error"@));
    reveal_strlit("true");
    reveal_strlit("false");
    assert("true"@.len() != "false"@.len());
}

/// A request is what its fields say: an object with a capability, and with an operation
/// and arguments where there are any, is the request for just these. Without a capability
/// it is none.
pub proof fn law_a_request_is_what_its_fields_say(
    document: Text,
    members: Seq<(Text, Text)>,
    req: RequestModel,
)
    requires
        json::json_members(document) == Some(members),
        record::no_repeats(document, members),
        record::only_names(members, seq!["cap"@, "op"@, "args"@]),
        says(members, "op"@, req.op),
        record::lookup(members, "args"@) == Some(req.args) || record::lookup(members, "args"@)
            is None && req.args == "null"@,
    ensures
        says(members, "cap"@, Some(req.cap)) ==> request_of(document) == Some(req),
        says(members, "cap"@, None) ==> request_of(document) is None,
{
    lemma_says(members, "op"@, req.op);
    if says(members, "cap"@, Some(req.cap)) {
        lemma_says(members, "cap"@, Some(req.cap));
    }
    if says(members, "cap"@, None) {
        lemma_says(members, "cap"@, None);
    }
    assert(request_names() =~= seq!["cap"@, "op"@, "args"@]);
    let f = record::record(document, request_names())->0;
    assert(f[0] == record::lookup(members, "cap"@));
    assert(f[1] == record::lookup(members, "op"@));
    assert(f[2] == record::lookup(members, "args"@));
}

} // verus!
