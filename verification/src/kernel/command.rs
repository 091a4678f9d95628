//! What the model may answer with: one JSON object that either replies or
//! calls a tool. Tolerant extraction (models love markdown fences), strict
//! validation.

use crate::json;
use crate::json::Json;
use crate::plugin::abi;
use crate::record;
use crate::text;
use crate::text::Text;
use std::collections::hash_map::DefaultHasher;
use std::hash::Hasher;
use vstd::prelude::*;
use vstd::std_specs::hash::DefaultHasherAdditionalSpecFns;
use vstd::utf8;

verus! {

/// The only two shapes the model may answer with. Anything else is rejected
/// and retried.
#[derive(Debug)]
pub struct ModelCommand {
    pub reply: Option<String>,
    pub tool: Option<String>,
    pub args: Json,
}

/// A command as the contracts see it.
pub struct CommandModel {
    pub reply: Option<Text>,
    pub tool: Option<Text>,
    pub args: Text,
}

impl View for ModelCommand {
    type V = CommandModel;

    open spec fn view(&self) -> CommandModel {
        CommandModel {
            reply: text::opt_text(self.reply),
            tool: text::opt_text(self.tool),
            args: self.args@,
        }
    }
}

/// Why an answer of the model is no command.
#[derive(Debug, Clone, Copy, PartialEq, Eq, Structural)]
pub enum CommandError {
    /// There is no object in it.
    NoObject,
    /// The last closing brace comes before the first opening one.
    Bounds,
    /// What stands between the braces is not an object of reply, tool and args.
    Shape,
    /// The object has both reply and tool, or neither.
    Choice,
}

pub open spec fn command_message(e: CommandError) -> Text {
    match e {
        CommandError::NoObject => "no JSON object in output"@,
        CommandError::Bounds => "malformed JSON bounds"@,
        CommandError::Shape => "output is not an object of reply, tool and args"@,
        CommandError::Choice => "command must set exactly one of reply/tool"@,
    }
}

impl CommandError {
    pub fn message(self) -> (r: &'static str)
        ensures
            r@ == command_message(self),
    {
        match self {
            CommandError::NoObject => "no JSON object in output",
            CommandError::Bounds => "malformed JSON bounds",
            CommandError::Shape => "output is not an object of reply, tool and args",
            CommandError::Choice => "command must set exactly one of reply/tool",
        }
    }
}

/// The fields of a command, in the order of its positional form.
pub open spec fn command_names() -> Seq<Text> {
    seq!["reply"@, "tool"@, "args"@]
}

/// The part of an answer from the first opening brace to the last closing one.
pub open spec fn braced(raw: Text) -> Result<Text, CommandError> {
    match (raw.index_of_first('{'), raw.index_of_last('}')) {
        (Some(start), Some(end)) => if end <= start {
            Err(CommandError::Bounds)
        } else {
            Ok(raw.subrange(start, end + 1))
        },
        _ => Err(CommandError::NoObject),
    }
}

/// The command that the object `document` is.
pub open spec fn command_in(document: Text) -> Result<CommandModel, CommandError> {
    match record::record(document, command_names()) {
        None => Err(CommandError::Shape),
        Some(f) => match (record::string_field(f[0]), record::string_field(f[1])) {
            (Some(reply), Some(tool)) => if reply is Some == tool is Some {
                Err(CommandError::Choice)
            } else {
                Ok(CommandModel { reply, tool, args: record::value_field(f[2]) })
            },
            _ => Err(CommandError::Shape),
        },
    }
}

/// The command that an answer of the model gives.
pub open spec fn command_of(raw: Text) -> Result<CommandModel, CommandError> {
    match braced(raw) {
        Err(e) => Err(e),
        Ok(document) => command_in(document),
    }
}

fn find_braced(raw: &str) -> (r: Result<String, CommandError>)
    ensures
        match braced(raw@) {
            Ok(t) => r is Ok && r->Ok_0@ == t,
            Err(e) => r is Err && r->Err_0 == e,
        },
{
    proof {
        raw@.index_of_first_ensures('{');
        raw@.index_of_last_ensures('}');
    }
    match text::split_first(raw, '{', 0x7b) {
        None => Err(CommandError::NoObject),
        Some((front, back)) => {
            let ghost start = front@.len() as int;
            proof {
                assert(raw@[start] == back@[0]);
                let i = raw@.index_of_first('{')->0;
                if i < start {
                    assert(front@[i] == raw@[i]);
                    assert(front@.contains('{'));
                }
                assert(i == start);
            }
            match text::split_last(back, '}', 0x7d) {
                None => {
                    proof {
                        if raw@.index_of_last('}') is Some {
                            let j = raw@.index_of_last('}')->0;
                            if j >= start {
                                assert(back@[j - start] == raw@[j]);
                                assert(back@.contains('}'));
                            }
                        }
                    }
                    match text::split_last(front, '}', 0x7d) {
                        None => {
                            proof {
                                if raw@.index_of_last('}') is Some {
                                    let j = raw@.index_of_last('}')->0;
                                    assert(front@[j] == raw@[j]);
                                    assert(front@.contains('}'));
                                }
                            }
                            Err(CommandError::NoObject)
                        },
                        Some((head, tail)) => {
                            proof {
                                let k = head@.len() as int;
                                assert(front@[k] == tail@[0]);
                                assert(raw@[k] == '}');
                                assert(raw@.contains('}'));
                            }
                            Err(CommandError::Bounds)
                        },
                    }
                },
                Some((inner, rest)) => {
                    let mut document = inner.to_string();
                    document.push('}');
                    proof {
                        let end = start + inner@.len();
                        assert(back@[inner@.len() as int] == rest@[0]);
                        assert(raw@[end] == '}');
                        assert(raw@.contains('}'));
                        let j = raw@.index_of_last('}')->0;
                        if j > end {
                            assert(back@[j - start] == raw@[j]);
                            assert(rest@[j - end] == raw@[j]);
                            assert(rest@.drop_first()[j - end - 1] == '}');
                        }
                        assert(j == end);
                        if inner@.len() == 0 {
                            assert(back@[0] == rest@[0]);
                        }
                        assert(document@ =~= raw@.subrange(start, end + 1));
                    }
                    Ok(document)
                },
            }
        },
    }
}

/// Reads an answer of the model.
pub fn parse_model_command(raw: &str) -> (r: Result<ModelCommand, CommandError>)
    ensures
        match command_of(raw@) {
            Ok(c) => r is Ok && r->Ok_0@ == c,
            Err(e) => r is Err && r->Err_0 == e,
        },
{
    let document = match find_braced(raw) {
        Ok(d) => d,
        Err(e) => {
            return Err(e);
        },
    };
    let names = ["reply", "tool", "args"];
    assert(record::names_of(names@) =~= command_names());
    let fields = match record::read_record(document.as_str(), names.as_slice()) {
        Some(f) => f,
        None => {
            return Err(CommandError::Shape);
        },
    };
    let ghost f = record::opt_texts(fields@);
    assert(f.len() == 3);
    assert(fields@.len() == 3);
    let reply = match record::read_string_field(&fields[0]) {
        Some(t) => t,
        None => {
            return Err(CommandError::Shape);
        },
    };
    let tool = match record::read_string_field(&fields[1]) {
        Some(t) => t,
        None => {
            return Err(CommandError::Shape);
        },
    };
    if reply.is_some() == tool.is_some() {
        return Err(CommandError::Choice);
    }
    let args = record::read_value_field(&fields[2]);
    Ok(ModelCommand { reply, tool, args })
}

/// What is written to the hasher for an optional text: whether it is there, and
/// its bytes with an end mark.
pub open spec fn hashed_text(t: Option<Text>) -> Seq<Seq<u8>> {
    match t {
        Some(s) => seq![seq![1u8], utf8::encode_utf8(s), seq![0xffu8]],
        None => seq![seq![0u8]],
    }
}

/// The number by which a planned action is recognized.
pub open spec fn fingerprint_of(c: CommandModel) -> u64 {
    DefaultHasher::spec_finish(
        hashed_text(c.reply) + hashed_text(c.tool) + hashed_text(Some(c.args)),
    )
}

fn hash_text(h: &mut DefaultHasher, t: Option<&str>)
    ensures
        final(h)@ == old(h)@ + hashed_text(
            match t {
                Some(s) => Some(s@),
                None => None,
            },
        ),
{
    let ghost before = h@;
    match t {
        Some(s) => {
            let yes: [u8; 1] = [1];
            let end: [u8; 1] = [0xff];
            h.write(yes.as_slice());
            h.write(s.as_bytes());
            h.write(end.as_slice());
            proof {
                assert(yes@ =~= seq![1u8]);
                assert(end@ =~= seq![0xffu8]);
                assert(h@ =~= before + hashed_text(Some(s@)));
            }
        },
        None => {
            let no: [u8; 1] = [0];
            h.write(no.as_slice());
            proof {
                assert(no@ =~= seq![0u8]);
                assert(h@ =~= before + hashed_text(None));
            }
        },
    }
}

impl ModelCommand {
    /// The number by which the action is recognized: the same action has the
    /// same number.
    pub fn fingerprint(&self) -> (r: u64)
        ensures
            r == fingerprint_of(self@),
    {
        let reply = match &self.reply {
            Some(t) => Some(t.as_str()),
            None => None,
        };
        let tool = match &self.tool {
            Some(t) => Some(t.as_str()),
            None => None,
        };
        let mut h = DefaultHasher::new();
        hash_text(&mut h, reply);
        hash_text(&mut h, tool);
        hash_text(&mut h, Some(self.args.text.as_str()));
        assert(h@ =~= hashed_text(self@.reply) + hashed_text(self@.tool) + hashed_text(
            Some(self@.args),
        ));
        h.finish()
    }
}

/// A command always does exactly one thing.
pub proof fn law_commands_reply_or_act(raw: Text)
    ensures
        command_of(raw) matches Ok(c) ==> (c.reply is Some) != (c.tool is Some),
{
}

/// An object is found whole where it is all that was said.
proof fn lemma_object_is_braced(members: Seq<(Text, Text)>)
    ensures
        braced(json::object_text(members)) == Ok::<Text, CommandError>(json::object_text(members)),
{
    let t = json::object_text(members);
    let n = t.len() - 1;
    assert(t[0] == '{');
    assert(t[n] == '}');
    assert(t.contains('{'));
    assert(t.contains('}'));
    t.index_of_first_ensures('{');
    t.index_of_last_ensures('}');
    assert(t.subrange(0, n + 1) =~= t);
}

/// An object that only says what to reply is the command to reply just that.
pub proof fn law_replies_are_commands(reply: Text)
    ensures
        command_of(json::object_text(seq![("reply"@, json::quoted(reply))])) == Ok::<_, CommandError>(
            CommandModel { reply: Some(reply), tool: None, args: "null"@ },
        ),
{
    let members = seq![("reply"@, json::quoted(reply))];
    let names = command_names();
    lemma_object_is_braced(members);
    json::law_strings_read_back(reply);
    assert(members.drop_last() =~= Seq::<(Text, Text)>::empty());
    reveal_with_fuel(json::keyed, 2);
    assert(json::keyed(members) =~= members);
    assert(json::plain_value(members[0].1));
    assert(names[0] == "reply"@);
    record::law_records_read_back(members, names);
    reveal_strlit("reply");
    reveal_strlit("tool");
    reveal_strlit("args");
    reveal_strlit("null");
    assert("reply"@.len() != "tool"@.len() && "reply"@.len() != "args"@.len());
    assert(members.drop_first() =~= Seq::<(Text, Text)>::empty());
    reveal_with_fuel(record::lookup, 2);
    let f = record::record(json::object_text(members), names)->0;
    assert(f[0] == Some(json::quoted(reply)));
    assert(f[1] is None);
    assert(f[2] is None);
    assert(json::quoted(reply)[0] == '"');
    assert("null"@[0] == 'n');
}

/// A command is what its fields say: an object with a reply or with a tool, and with
/// arguments where there are any, is the command to do just that. One with both, or with
/// neither, is refused for that reason.
pub proof fn law_a_command_is_what_its_fields_say(
    document: Text,
    members: Seq<(Text, Text)>,
    reply: Option<Text>,
    tool: Option<Text>,
    args: Text,
)
    requires
        json::json_members(document) == Some(members),
        record::no_repeats(document, members),
        record::only_names(members, seq!["reply"@, "tool"@, "args"@]),
        abi::says(members, "reply"@, reply),
        abi::says(members, "tool"@, tool),
        record::lookup(members, "args"@) == Some(args) || record::lookup(members, "args"@) is None
            && args == "null"@,
        document.len() >= 2,
        document[0] == '{',
        document.last() == '}',
    ensures
        reply is Some && tool is None || reply is None && tool is Some ==> command_of(document)
            == Ok::<CommandModel, CommandError>(CommandModel { reply, tool, args }),
        reply is Some && tool is Some || reply is None && tool is None ==> command_of(document)
            == Err::<CommandModel, CommandError>(CommandError::Choice),
{
    let nothing = Seq::<char>::empty();
    law_prose_around_is_ignored(nothing, document, nothing);
    assert(nothing + document + nothing =~= document);
    abi::lemma_says(members, "reply"@, reply);
    abi::lemma_says(members, "tool"@, tool);
    assert(command_names() =~= seq!["reply"@, "tool"@, "args"@]);
    let f = record::record(document, command_names())->0;
    assert(f[0] == record::lookup(members, "reply"@));
    assert(f[1] == record::lookup(members, "tool"@));
    assert(f[2] == record::lookup(members, "args"@));
}

/// What stands around the object does not matter, be it prose or a markdown fence: the
/// command is the one that the object is. Where there is no brace, there is no object.
pub proof fn law_prose_around_is_ignored(before: Text, document: Text, after: Text)
    requires
        !before.contains('{'),
        !after.contains('}'),
    ensures
        document.len() >= 2 && document[0] == '{' && document.last() == '}' ==> command_of(
            before + document + after,
        ) == command_in(document),
        document.len() == 0 && !after.contains('{') ==> command_of(before + document + after)
            == Err::<CommandModel, CommandError>(CommandError::NoObject),
{
    let raw = before + document + after;
    if document.len() >= 2 && document[0] == '{' && document.last() == '}' {
        let a = before.len() as int;
        let b = before.len() + document.len() - 1;
        assert(raw[a] == '{');
        assert(raw[b] == '}');
        assert(raw.contains('{'));
        assert(raw.contains('}'));
        raw.index_of_first_ensures('{');
        raw.index_of_last_ensures('}');
        let start = raw.index_of_first('{')->0;
        let end = raw.index_of_last('}')->0;
        if start < a {
            assert(before[start] == '{');
        }
        if end > b {
            assert(after[end - b - 1] == '}');
        }
        assert(start == a && end == b);
        assert(raw.subrange(a, b + 1) =~= document);
    }
    if document.len() == 0 && !after.contains('{') {
        raw.index_of_first_ensures('{');
        if raw.contains('{') {
            let i = choose|i: int| 0 <= i < raw.len() && raw[i] == '{';
            if i < before.len() {
                assert(before[i] == '{');
            } else {
                assert(after[i - before.len()] == '{');
            }
        }
    }
}

/// What is hashed of a command tells it apart from every other: the reply, the tool and
/// the arguments all go in, so two commands of which the same is hashed are the same.
pub proof fn law_all_of_a_command_is_hashed(a: CommandModel, b: CommandModel)
    ensures
        fingerprint_of(a) == DefaultHasher::spec_finish(hashed_in(a)),
        hashed_in(a) == hashed_in(b) ==> a == b,
{
    if hashed_in(a) == hashed_in(b) {
        let x = hashed_in(a);
        let n: int = if a.reply is Some {
            3
        } else {
            1
        };
        assert(x[0] == (if a.reply is Some {
            seq![1u8]
        } else {
            seq![0u8]
        }));
        assert(hashed_in(b)[0] == (if b.reply is Some {
            seq![1u8]
        } else {
            seq![0u8]
        }));
        assert(seq![1u8][0] != seq![0u8][0]);
        assert(a.reply is Some == b.reply is Some);
        if a.reply is Some {
            assert(x[1] == utf8::encode_utf8(a.reply->0));
            assert(hashed_in(b)[1] == utf8::encode_utf8(b.reply->0));
            text::lemma_same_bytes(a.reply->0, b.reply->0);
        }
        assert(x[n] == (if a.tool is Some {
            seq![1u8]
        } else {
            seq![0u8]
        }));
        assert(hashed_in(b)[n] == (if b.tool is Some {
            seq![1u8]
        } else {
            seq![0u8]
        }));
        assert(a.tool is Some == b.tool is Some);
        let m: int = if a.tool is Some {
            n + 3
        } else {
            n + 1
        };
        if a.tool is Some {
            assert(x[n + 1] == utf8::encode_utf8(a.tool->0));
            assert(hashed_in(b)[n + 1] == utf8::encode_utf8(b.tool->0));
            text::lemma_same_bytes(a.tool->0, b.tool->0);
        }
        assert(x[m + 1] == utf8::encode_utf8(a.args));
        assert(hashed_in(b)[m + 1] == utf8::encode_utf8(b.args));
        text::lemma_same_bytes(a.args, b.args);
    }
}

/// All that is hashed of a command.
pub open spec fn hashed_in(c: CommandModel) -> Seq<Seq<u8>> {
    hashed_text(c.reply) + hashed_text(c.tool) + hashed_text(Some(c.args))
}

/// What is said of an answer that is no command tells what is wrong with it.
pub proof fn law_complaints_tell_what_is_wrong(e: CommandError)
    ensures
        command_message(e) == (match e {
            CommandError::NoObject => "no JSON object in output"@,
            CommandError::Bounds => "malformed JSON bounds"@,
            CommandError::Shape => "output is not an object of reply, tool and args"@,
            CommandError::Choice => "command must set exactly one of reply/tool"@,
        }),
{
}

/// Where the last closing brace comes before the first opening one, there is no object to
/// speak of.
pub proof fn law_braces_have_to_open_first(x: Text, y: Text)
    requires
        x.contains('}') && !x.contains('{'),
        y.contains('{') && !y.contains('}'),
    ensures
        command_of(x + y) == Err::<CommandModel, CommandError>(CommandError::Bounds),
{
    let raw = x + y;
    let i = x.index_of('}');
    let j = y.index_of('{');
    assert(raw[i] == '}');
    assert(raw[x.len() + j] == '{');
    assert(raw.contains('{') && raw.contains('}'));
    raw.index_of_first_ensures('{');
    raw.index_of_last_ensures('}');
    let start = raw.index_of_first('{')->0;
    let end = raw.index_of_last('}')->0;
    if start < x.len() {
        assert(x[start] == '{');
    }
    if end >= x.len() {
        assert(y[end - x.len()] == '}');
    }
}

/// The model may say nothing but a reply, a tool and arguments: an object with any other
/// member, or with a reply or a tool that is no text, is no command.
pub proof fn law_commands_are_strict(document: Text, members: Seq<(Text, Text)>, i: int)
    requires
        json::json_members(document) == Some(members),
        0 <= i < members.len(),
        members[i].0 != "reply"@ && members[i].0 != "tool"@ && members[i].0 != "args"@
            || members[i].0 == "reply"@ && record::lookup(members, "reply"@) == Some(
            members[i].1,
        ) && members[i].1 != "null"@ && json::json_string(members[i].1) is None || members[i].0
            == "tool"@ && record::lookup(members, "tool"@) == Some(members[i].1) && members[i].1
            != "null"@ && json::json_string(members[i].1) is None,
    ensures
        command_in(document) == Err::<CommandModel, CommandError>(CommandError::Shape),
{
    assert(command_names() =~= seq!["reply"@, "tool"@, "args"@]);
    if record::record(document, command_names()) is Some {
        let f = record::record(document, command_names())->0;
        assert(f[0] == record::lookup(members, "reply"@));
        assert(f[1] == record::lookup(members, "tool"@));
        assert(command_names().contains(members[i].0));
    }
}

} // verus!
