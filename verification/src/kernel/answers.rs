//! What the kernel makes of plugins' answers.

use crate::kernel::command;
use crate::kernel::command::ModelCommand;
use crate::kernel::model;
use crate::kernel::state;
use crate::kernel::state::TaskOutcome;
use crate::kernel::words;
use crate::plugin::abi::PluginOutput;
use crate::plugin::runtime;
use crate::text;
use vstd::prelude::*;

verus! {

/// The answer for the user in an output: its reply, or else its result.
pub fn answer_text(out: PluginOutput) -> (r: String)
    ensures
        r@ == model::answer_text(out@),
{
    match out.reply {
        Some(t) => t,
        None => out.result.text,
    }
}

/// What the strategy decided.
pub fn decision(out: &Option<PluginOutput>) -> (r: String)
    ensures
        r@ == model::decision_of(state::opt_output(*out)),
{
    match out {
        Some(o) => {
            if o.ok {
                match &o.decision {
                    Some(d) => d.clone(),
                    None => "model".to_string(),
                }
            } else {
                "model".to_string()
            }
        },
        None => "none".to_string(),
    }
}

/// The text that an output gives: its reply, or else a result that is a string.
pub fn text_in(out: &PluginOutput) -> (r: Option<String>)
    ensures
        text::opt_text(r) == model::text_in(out@),
{
    match &out.reply {
        Some(t) => Some(t.clone()),
        None => out.result.as_str(),
    }
}

/// What an inference plugin said.
pub fn inferred(result: Result<PluginOutput, String>) -> (r: Result<String, String>)
    ensures
        text::text_result(r) == model::inferred(runtime::output_texts(result)),
{
    match result {
        Err(e) => Err(e),
        Ok(out) => {
            if !out.ok {
                let mut message = "inference plugin failed: ".to_string();
                match &out.error {
                    Some(e) => {
                        message.append(e.as_str());
                    },
                    None => {},
                }
                assert(message@ =~= "inference plugin failed: "@ + (match out@.error {
                    Some(e) => e,
                    None => seq![],
                }));
                Err(message)
            } else {
                match text_in(&out) {
                    Some(t) => Ok(t),
                    None => Err("inference plugin returned no text".to_string()),
                }
            }
        },
    }
}

/// The command that a repair plugin made of an invalid one. Whatever the plugin
/// returns has to pass the same strict check.
pub fn repaired(result: Result<PluginOutput, String>) -> (r: Option<ModelCommand>)
    ensures
        r is Some <==> model::repaired(runtime::output_texts(result)) is Some,
        r matches Some(cmd) ==> Some(cmd@) == model::repaired(runtime::output_texts(result)),
{
    match result {
        Err(_) => None,
        Ok(out) => {
            if !out.ok {
                None
            } else {
                match text_in(&out) {
                    Some(t) => match command::parse_model_command(t.as_str()) {
                        Ok(cmd) => Some(cmd),
                        Err(_) => None,
                    },
                    None => None,
                }
            }
        },
    }
}

/// What a tool came to: its answer, or why it failed.
pub fn tool_result(tool: &str, result: Result<PluginOutput, String>) -> (r: Result<String, String>)
    ensures
        text::text_result(r) == model::tool_result(tool@, runtime::output_texts(result)),
{
    match result {
        Ok(out) => {
            if out.ok {
                Ok(answer_text(out))
            } else {
                match out.error {
                    Some(e) => Err(e),
                    None => Err("tool reported failure".to_string()),
                }
            }
        },
        Err(e) => {
            let mut message = words::sentence("tool '", tool, "' crashed: ");
            message.append(e.as_str());
            Err(message)
        },
    }
}

/// The outcome when the happy path was left.
pub fn fallback_outcome(out: Option<PluginOutput>, reason: &str) -> (r: TaskOutcome)
    ensures
        r@ == model::fallback_outcome(state::opt_output(out), reason@),
{
    if let Some(o) = out {
        let ruled = match &o.decision {
            Some(d) => text::same_text(d.as_str(), "rule"),
            None => false,
        };
        if o.ok && ruled {
            return TaskOutcome::new("ok", "fallback", answer_text(o));
        }
    }
    TaskOutcome::new(
        "rejected",
        "fallback",
        words::sentence("request safely rejected (", reason, ")"),
    )
}

pub fn answered(result: Result<PluginOutput, String>) -> (r: Option<PluginOutput>)
    ensures
        state::opt_output(r) == model::answered(runtime::output_texts(result)),
{
    match result {
        Ok(out) => Some(out),
        Err(_) => None,
    }
}

} // verus!
