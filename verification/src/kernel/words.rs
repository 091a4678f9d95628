//! What the kernel says: the prompt for the model, and the data that plugins
//! get at each point.

use crate::json;
use crate::json::{Json, ObjectWriter};
use crate::kernel::command::{CommandError, ModelCommand};
use crate::kernel::model;
use crate::kernel::state::TaskOutcome;
use crate::text;
use crate::text::Text;
use vstd::prelude::*;

verus! {

/// `list` with commas between.
fn join_commas(list: &[String]) -> (r: String)
    ensures
        r@ == model::comma_list(text::texts(list@)),
{
    let mut out = String::new();
    let ghost all = text::texts(list@);
    let mut i: usize = 0;
    assert(out@ =~= model::comma_list(all.take(0)));
    while i < list.len()
        invariant
            i <= list@.len(),
            all == text::texts(list@),
            out@ == model::comma_list(all.take(i as int)),
        decreases list.len() - i,
    {
        if i > 0 {
            out.append(", ");
        }
        out.append(list[i].as_str());
        proof {
            let next = all.take(i + 1);
            assert(next.drop_last() =~= all.take(i as int));
            assert(next.last() == all[i as int]);
            assert(out@ =~= model::comma_list(next));
        }
        i += 1;
    }
    assert(all.take(i as int) =~= all);
    out
}

/// What the model is told of its task.
pub fn system_prompt(tools: &[String]) -> (r: String)
    ensures
        r@ == model::prompt_for(text::texts(tools@)),
{
    let mut out =
        "You are an edge device agent. Reply with ONE JSON object and nothing else.\nEither {\"reply\": \"<text>\"} to answer the user,\nor {\"tool\": \"<name>\", \"args\": {...}} to act.\nAvailable tools: [".to_string();
    let list = join_commas(tools);
    out.append(list.as_str());
    out.append("]. If no tool fits, use reply.");
    out
}

pub fn no_data() -> (r: Json)
    ensures
        r@ == json::object_text(seq![]),
{
    Json::empty_object()
}

pub fn attempt(n: u32) -> (r: Json)
    ensures
        r@ == json::object_text(model::attempt_data(n as nat)),
{
    let number = text::decimal(n as u64);
    let w = ObjectWriter::new().raw("attempt", number.as_str());
    assert(w@ =~= model::attempt_data(n as nat));
    w.close()
}

pub fn raw_output(n: u32, raw: &str) -> (r: Json)
    ensures
        r@ == json::object_text(model::raw_data(n as nat, raw@)),
{
    let number = text::decimal(n as u64);
    let w = ObjectWriter::new().raw("attempt", number.as_str()).string("raw", raw);
    assert(w@ =~= model::raw_data(n as nat, raw@));
    w.close()
}

pub fn decision(d: &str) -> (r: Json)
    ensures
        r@ == json::object_text(model::decision_data(d@)),
{
    let w = ObjectWriter::new().string("decision", d);
    assert(w@ =~= model::decision_data(d@));
    w.close()
}

pub fn plan(cmd: &ModelCommand) -> (r: Json)
    ensures
        r@ == json::object_text(model::plan_data(cmd@)),
{
    let w = ObjectWriter::new().raw("args", cmd.args.text.as_str()).opt_string(
        "reply",
        &cmd.reply,
    ).opt_string("tool", &cmd.tool);
    assert(w@ =~= model::plan_members(cmd@));
    let inner = w.close();
    let w = ObjectWriter::new().raw("plan", inner.text.as_str());
    assert(w@ =~= model::plan_data(cmd@));
    w.close()
}

pub fn tool_call(tool: &str, args: &Json) -> (r: Json)
    ensures
        r@ == json::object_text(model::tool_data(tool@, args@)),
{
    let w = ObjectWriter::new().raw("args", args.text.as_str()).string("tool", tool);
    assert(w@ =~= model::tool_data(tool@, args@));
    w.close()
}

/// What a tool came to, without its answer.
pub open spec fn error_of(result: Result<String, String>) -> Option<Text> {
    match result {
        Ok(_) => None,
        Err(e) => Some(e@),
    }
}

pub fn tool_done(tool: &str, result: &Result<String, String>) -> (r: Json)
    ensures
        r@ == json::object_text(model::tool_done_data(tool@, error_of(*result))),
{
    let w = match result {
        Ok(_) => ObjectWriter::new().raw("ok", "true").string("tool", tool),
        Err(e) => ObjectWriter::new().string("error", e.as_str()).raw("ok", "false").string(
            "tool",
            tool,
        ),
    };
    assert(w@ =~= model::tool_done_data(tool@, error_of(*result)));
    w.close()
}

pub fn reason(why: &str) -> (r: Json)
    ensures
        r@ == json::object_text(model::reason_data(why@)),
{
    let w = ObjectWriter::new().string("reason", why);
    assert(w@ =~= model::reason_data(why@));
    w.close()
}

pub fn outcome(o: &TaskOutcome) -> (r: Json)
    ensures
        r@ == json::object_text(model::outcome_data(o@)),
{
    let w = ObjectWriter::new().string("reply", o.reply.as_str()).string(
        "status",
        o.status.as_str(),
    ).string("via", o.via.as_str());
    assert(w@ =~= model::outcome_members(o@));
    let inner = w.close();
    let w = ObjectWriter::new().raw("outcome", inner.text.as_str());
    assert(w@ =~= model::outcome_data(o@));
    w.close()
}

pub fn rollback(plugin: &str) -> (r: Json)
    ensures
        r@ == json::object_text(model::rollback_data(plugin@)),
{
    let w = ObjectWriter::new().string("plugin", plugin);
    assert(w@ =~= model::rollback_data(plugin@));
    w.close()
}

pub fn start(plugins: &[String]) -> (r: Json)
    ensures
        r@ == json::object_text(model::start_data(text::texts(plugins@))),
{
    let list = json::string_array(plugins);
    let w = ObjectWriter::new().raw("plugins", list.text.as_str());
    assert(w@ =~= model::start_data(text::texts(plugins@)));
    w.close()
}

pub fn phase(p: &str) -> (r: Json)
    ensures
        r@ == json::object_text(model::phase_data(p@)),
{
    let w = ObjectWriter::new().string("phase", p);
    assert(w@ =~= model::phase_data(p@));
    w.close()
}

pub fn infer(system: &str, t: &str) -> (r: Json)
    ensures
        r@ == json::object_text(model::infer_data(system@, t@)),
{
    let w = ObjectWriter::new().string("input", t).string("system", system);
    assert(w@ =~= model::infer_data(system@, t@));
    w.close()
}

pub fn repair(raw: &str, error: CommandError) -> (r: Json)
    ensures
        r@ == json::object_text(model::repair_data(raw@, error)),
{
    let w = ObjectWriter::new().string("error", error.message()).string("raw", raw);
    assert(w@ =~= model::repair_data(raw@, error));
    w.close()
}

/// `a`, `x` and `b` in a row.
pub fn sentence(a: &str, x: &str, b: &str) -> (r: String)
    ensures
        r@ == a@ + x@ + b@,
{
    let mut out = a.to_string();
    out.append(x);
    out.append(b);
    out
}

} // verus!
