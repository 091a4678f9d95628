//! Inference backend abstraction. The model is a replaceable runtime part:
//! two real backends ship with the kernel -- any OpenAI-compatible chat
//! service and Google AI Edge's LiteRT-LM runtime -- and business code can
//! implement `InferenceBackend` itself (C-ABI wrappers over llama.cpp /
//! vendor NPU runtimes belong there) and inject it via `Kernel::builder`.
//!
//! The input is multimodal: text plus optional images. Backends that cannot
//! carry images must say so loudly instead of silently dropping them.
//!
//! What goes to a service and what is made of its answer is decided here;
//! carrying it there and back is the caller's part.

use crate::context;
use crate::context::{ContextEntry, EntryModel};
use crate::json;
use crate::json::{Json, ObjectWriter};
use crate::record;
use crate::text;
use crate::text::Text;
use base64::Engine;
use vstd::prelude::*;

verus! {

/// One image attached to a user turn: raw bytes + mime type. How it reaches
/// the model is the backend's business (data URL, temp file, tensor...).
#[derive(Debug)]
pub struct ImagePart {
    /// e.g. "image/jpeg", "image/png".
    pub mime: String,
    pub data: Vec<u8>,
}

/// An image as the contracts see it.
pub struct ImageModel {
    pub mime: Text,
    pub data: Seq<u8>,
}

impl View for ImagePart {
    type V = ImageModel;

    open spec fn view(&self) -> ImageModel {
        ImageModel { mime: self.mime@, data: self.data@ }
    }
}

/// A user turn: text plus optional images.
#[derive(Debug)]
pub struct UserInput {
    pub text: String,
    pub images: Vec<ImagePart>,
}

/// A user turn as the contracts see it.
pub struct TurnModel {
    pub text: Text,
    pub images: Seq<ImageModel>,
}

/// The images of a vector, in order.
pub open spec fn images(v: Seq<ImagePart>) -> Seq<ImageModel> {
    Seq::new(v.len(), |i: int| v[i]@)
}

impl View for UserInput {
    type V = TurnModel;

    open spec fn view(&self) -> TurnModel {
        TurnModel { text: self.text@, images: images(self.images@) }
    }
}

impl Clone for ImagePart {
    fn clone(&self) -> (r: Self)
        ensures
            r@ == self@,
    {
        let mut data: Vec<u8> = Vec::new();
        let mut i: usize = 0;
        while i < self.data.len()
            invariant
                i <= self.data@.len(),
                data@ == self.data@.take(i as int),
            decreases self.data.len() - i,
        {
            data.push(self.data[i]);
            assert(self.data@.take(i + 1) =~= self.data@.take(i as int).push(
                self.data@[i as int],
            ));
            i += 1;
        }
        assert(self.data@.take(i as int) =~= self.data@);
        ImagePart { mime: self.mime.clone(), data }
    }
}

impl Clone for UserInput {
    fn clone(&self) -> (r: Self)
        ensures
            r@ == self@,
    {
        let mut list: Vec<ImagePart> = Vec::new();
        let mut i: usize = 0;
        while i < self.images.len()
            invariant
                i <= self.images@.len(),
                list@.len() == i,
                forall|j: int| 0 <= j < i ==> (#[trigger] list@[j])@ == self.images@[j]@,
            decreases self.images.len() - i,
        {
            list.push(self.images[i].clone());
            i += 1;
        }
        assert(images(list@) =~= images(self.images@));
        UserInput { text: self.text.clone(), images: list }
    }
}

impl Default for UserInput {
    fn default() -> (r: Self)
        ensures
            r@ == (TurnModel { text: seq![], images: seq![] }),
    {
        let none: Vec<ImagePart> = Vec::new();
        assert(images(none@) =~= Seq::<ImageModel>::empty());
        let text = String::new();
        assert(text@ =~= Seq::<char>::empty());
        UserInput { text, images: none }
    }
}

impl UserInput {
    /// A turn of text alone.
    pub fn text(t: &str) -> (r: Self)
        ensures
            r@ == (TurnModel { text: t@, images: seq![] }),
    {
        let none: Vec<ImagePart> = Vec::new();
        assert(images(none@) =~= Seq::<ImageModel>::empty());
        UserInput { text: t.to_string(), images: none }
    }
}

pub trait InferenceBackend: Send {
    /// What the model may ever say to a turn. Anything, unless the backend says
    /// otherwise.
    open spec fn answers(
        &self,
        system: Text,
        context: Seq<EntryModel>,
        input: TurnModel,
        result: Result<Text, Text>,
    ) -> bool {
        true
    }

    fn generate(&mut self, system: &str, context: &[ContextEntry], input: &UserInput) -> (r: Result<
        String,
        String,
    >)
        ensures
            old(self).answers(system@, context::entries(context@), input@, text::text_result(r)),
            forall|s: Text, c: Seq<EntryModel>, i: TurnModel, o: Result<Text, Text>| #[trigger]
                final(self).answers(s, c, i, o) == old(self).answers(s, c, i, o),
    ;
}

/// What a model may say to a turn, behind a system prompt and a context.
pub type Says = spec_fn(Text, Seq<EntryModel>, TurnModel, Result<Text, Text>) -> bool;

/// What a backend may say.
pub open spec fn says_of<B: InferenceBackend>(backend: B) -> Says {
    |s: Text, c: Seq<EntryModel>, i: TurnModel, r: Result<Text, Text>| backend.answers(s, c, i, r)
}

/// A backend as the kernel boxes it.
struct Held<B: InferenceBackend> {
    backend: B,
}

impl<B: InferenceBackend> InferenceBackend for Held<B> {
    closed spec fn answers(
        &self,
        system: Text,
        context: Seq<EntryModel>,
        input: TurnModel,
        result: Result<Text, Text>,
    ) -> bool {
        self.backend.answers(system, context, input, result)
    }

    fn generate(&mut self, system: &str, context: &[ContextEntry], input: &UserInput) -> (r: Result<
        String,
        String,
    >) {
        self.backend.generate(system, context, input)
    }
}

/// A backend of any kind.
pub(crate) struct OwnBackend {
    backend: Box<dyn InferenceBackend>,
}

impl OwnBackend {
    /// What the backend may say.
    pub(crate) closed spec fn says(&self) -> Says {
        |s: Text, c: Seq<EntryModel>, i: TurnModel, r: Result<Text, Text>|
            self.backend.answers(s, c, i, r)
    }

    pub(crate) fn new<B: InferenceBackend + 'static>(backend: B) -> (r: Self)
        ensures
            r.says() == says_of(backend),
    {
        let r = OwnBackend { backend: Box::new(Held { backend }) };
        assert(r.says() =~= says_of(backend));
        r
    }

    pub(crate) fn generate(
        &mut self,
        system: &str,
        context: &[ContextEntry],
        input: &UserInput,
    ) -> (r: Result<String, String>)
        ensures
            (old(self).says())(
                system@,
                context::entries(context@),
                input@,
                text::text_result(r),
            ),
            final(self).says() == old(self).says(),
    {
        let r = self.backend.generate(system, context, input);
        assert(self.says() =~= old(self).says());
        r
    }
}

/// Deterministic backend for running the kernel with no model installed:
/// always answers with a plain reply command. Keeps the loop testable.
pub struct MockBackend;

/// What the mock says to a turn.
pub open spec fn mock_text(turn: TurnModel) -> Text {
    if turn.images.len() == 0 {
        "[mock] "@ + turn.text
    } else {
        "[mock] "@ + turn.text + " [+"@ + text::decimal_text(turn.images.len()) + " image(s)]"@
    }
}

/// The command that the mock answers with.
pub open spec fn mock_command(turn: TurnModel) -> Text {
    json::object_text(seq![("reply"@, json::quoted(mock_text(turn)))])
}

/// What the mock may say: its command, whatever it is told.
pub open spec fn mock_answers() -> Says {
    |system: Text, context: Seq<EntryModel>, input: TurnModel, result: Result<Text, Text>|
        result == Ok::<Text, Text>(mock_command(input))
}

impl InferenceBackend for MockBackend {
    open spec fn answers(
        &self,
        system: Text,
        context: Seq<EntryModel>,
        input: TurnModel,
        result: Result<Text, Text>,
    ) -> bool {
        result == Ok::<Text, Text>(mock_command(input))
    }

    fn generate(&mut self, system: &str, context: &[ContextEntry], input: &UserInput) -> (r: Result<
        String,
        String,
    >) {
        let mut reply = "[mock] ".to_string();
        reply.append(input.text.as_str());
        if input.images.len() > 0 {
            reply.append(" [+");
            let count = text::decimal(input.images.len() as u64);
            reply.append(count.as_str());
            reply.append(" image(s)]");
        }
        let w = ObjectWriter::new().string("reply", reply.as_str());
        assert(w@ =~= seq![("reply"@, json::quoted(mock_text(input@)))]);
        Ok(w.close().text)
    }
}

/// The base64 form of bytes, in the standard alphabet and padded.
pub uninterp spec fn base64_text(bytes: Seq<u8>) -> Seq<char>;

/// The bytes that base64 text stands for; `None` where it is none.
pub uninterp spec fn base64_bytes(t: Seq<char>) -> Option<Seq<u8>>;

/// Calls `encode` of `base64`'s `STANDARD` engine: a function of the bytes, and
/// decoding it gives the bytes back.
#[verifier::external_body]
fn base64_encode(bytes: &[u8]) -> (r: String)
    ensures
        r@ == base64_text(bytes@),
        base64_bytes(r@) == Some(bytes@),
{
    base64::engine::general_purpose::STANDARD.encode(bytes)
}

/// Calls `decode` of `base64`'s `STANDARD` engine: a function of the text.
#[verifier::external_body]
pub(crate) fn base64_decode(t: &str) -> (r: Option<Vec<u8>>)
    ensures
        r is Some <==> base64_bytes(t@) is Some,
        r matches Some(v) ==> Some(v@) == base64_bytes(t@),
{
    base64::engine::general_purpose::STANDARD.decode(t).ok()
}

/// Any local/LAN service speaking the OpenAI chat-completions protocol
/// (llama.cpp server, ollama, vllm, vendor runtimes...). Images travel as
/// standard `image_url` content parts with base64 data URLs.
#[derive(Debug)]
pub struct OpenAiBackend {
    pub url: String,
    pub model: String,
    pub api_key: Option<String>,
}

/// A message, whose content is given in compact form.
pub open spec fn message_text(role: Text, content: Text) -> Text {
    json::object_text(seq![("content"@, content), ("role"@, json::quoted(role))])
}

/// An image as a data URL.
pub open spec fn data_url(image: ImageModel) -> Text {
    "data:"@ + image.mime + ";base64,"@ + base64_text(image.data)
}

/// The part of a message that is an image.
pub open spec fn image_part(image: ImageModel) -> Text {
    json::object_text(
        seq![
            ("image_url"@, json::object_text(seq![("url"@, json::quoted(data_url(image)))])),
            ("type"@, json::quoted("image_url"@)),
        ],
    )
}

/// The part of a message that is text.
pub open spec fn text_part(t: Text) -> Text {
    json::object_text(seq![("text"@, json::quoted(t)), ("type"@, json::quoted("text"@))])
}

/// The content of the user's message: a plain string without images, and an
/// array of parts with them.
pub open spec fn turn_content(turn: TurnModel) -> Text {
    if turn.images.len() == 0 {
        json::quoted(turn.text)
    } else {
        json::array_text(
            seq![text_part(turn.text)] + Seq::new(
                turn.images.len(),
                |i: int| image_part(turn.images[i]),
            ),
        )
    }
}

/// The messages of a request: the system prompt, the conversation, the turn.
pub open spec fn openai_messages(system: Text, ctx: Seq<EntryModel>, turn: TurnModel) -> Seq<Text> {
    seq![message_text("system"@, json::quoted(system))] + Seq::new(
        ctx.len(),
        |i: int| message_text(ctx[i].role, json::quoted(ctx[i].content)),
    ) + seq![message_text("user"@, turn_content(turn))]
}

/// The texts of a vector of JSON values.
pub open spec fn json_texts(v: Seq<Json>) -> Seq<Text> {
    Seq::new(v.len(), |i: int| v[i]@)
}

fn build_message(role: &str, content: &str) -> (r: Json)
    ensures
        r@ == message_text(role@, content@),
{
    let w = ObjectWriter::new().raw("content", content).string("role", role);
    assert(w@ =~= seq![("content"@, content@), ("role"@, json::quoted(role@))]);
    w.close()
}

fn build_image_part(image: &ImagePart) -> (r: Json)
    ensures
        r@ == image_part(image@),
{
    let mut url = "data:".to_string();
    url.append(image.mime.as_str());
    url.append(";base64,");
    let b64 = base64_encode(image.data.as_slice());
    url.append(b64.as_str());
    let inner = ObjectWriter::new().string("url", url.as_str());
    assert(inner@ =~= seq![("url"@, json::quoted(data_url(image@)))]);
    let inner = inner.close();
    let w = ObjectWriter::new().raw("image_url", inner.text.as_str()).string("type", "image_url");
    assert(w@ =~= seq![
        ("image_url"@, json::object_text(seq![("url"@, json::quoted(data_url(image@)))])),
        ("type"@, json::quoted("image_url"@)),
    ]);
    w.close()
}

fn build_content(input: &UserInput) -> (r: Json)
    ensures
        r@ == turn_content(input@),
{
    if input.images.len() == 0 {
        return Json::string(input.text.as_str());
    }
    let w = ObjectWriter::new().string("text", input.text.as_str()).string("type", "text");
    assert(w@ =~= seq![("text"@, json::quoted(input.text@)), ("type"@, json::quoted("text"@))]);
    let mut parts: Vec<String> = Vec::new();
    parts.push(w.close().text);
    let ghost all = images(input.images@);
    let mut i: usize = 0;
    while i < input.images.len()
        invariant
            i <= input.images@.len(),
            all == images(input.images@),
            parts@.len() == i + 1,
            parts@[0]@ == text_part(input.text@),
            forall|j: int| 1 <= j <= i ==> (#[trigger] parts@[j])@ == image_part(all[j - 1]),
        decreases input.images.len() - i,
    {
        parts.push(build_image_part(&input.images[i]).text);
        i += 1;
    }
    assert(text::texts(parts@) =~= seq![text_part(input.text@)] + Seq::new(
        all.len(),
        |i: int| image_part(all[i]),
    ));
    json::array(parts.as_slice())
}

/// Message building is separated from transport so the multimodal shape is
/// unit-testable without a live server.
pub fn build_openai_messages(system: &str, context: &[ContextEntry], input: &UserInput) -> (r: Vec<
    Json,
>)
    ensures
        json_texts(r@) == openai_messages(system@, context::entries(context@), input@),
{
    let mut messages: Vec<Json> = Vec::new();
    let prompt = Json::string(system);
    messages.push(build_message("system", prompt.text.as_str()));
    let ghost ctx = context::entries(context@);
    let mut i: usize = 0;
    while i < context.len()
        invariant
            i <= context@.len(),
            ctx == context::entries(context@),
            messages@.len() == i + 1,
            messages@[0]@ == message_text("system"@, json::quoted(system@)),
            forall|j: int|
                1 <= j <= i ==> (#[trigger] messages@[j])@ == message_text(
                    ctx[j - 1].role,
                    json::quoted(ctx[j - 1].content),
                ),
        decreases context.len() - i,
    {
        let content = Json::string(context[i].content.as_str());
        messages.push(build_message(context[i].role.as_str(), content.text.as_str()));
        i += 1;
    }
    let content = build_content(input);
    messages.push(build_message("user", content.text.as_str()));
    assert(json_texts(messages@) =~= openai_messages(system@, ctx, input@));
    messages
}

/// The members of a request.
pub open spec fn openai_request(
    model: Text,
    system: Text,
    ctx: Seq<EntryModel>,
    turn: TurnModel,
) -> Seq<(Text, Text)> {
    seq![
        ("messages"@, json::array_text(openai_messages(system, ctx, turn))),
        ("model"@, json::quoted(model)),
        ("temperature"@, "0.2"@),
    ]
}

/// What a service answered: the text at `choices[0].message.content`.
pub open spec fn openai_answer(body: Text) -> Result<Text, Text> {
    let missing = Err("inference response missing choices[0].message.content"@);
    if json::json_compact(body) is None {
        Err("inference response is not JSON: Failed to read JSON: "@ + json::json_problem(body))
    } else {
        match record::member(body, "choices"@) {
            None => missing,
            Some(choices) => match json::json_elements(choices) {
                None => missing,
                Some(list) => if list.len() == 0 {
                    missing
                } else {
                    match record::member(list[0], "message"@) {
                        None => missing,
                        Some(message) => match record::member(message, "content"@) {
                            None => missing,
                            Some(content) => match json::json_string(content) {
                                None => missing,
                                Some(t) => Ok(t),
                            },
                        },
                    }
                },
            },
        }
    }
}

impl OpenAiBackend {
    /// The body of a request.
    pub fn request(&self, system: &str, context: &[ContextEntry], input: &UserInput) -> (r: Json)
        ensures
            r@ == json::object_text(
                openai_request(self.model@, system@, context::entries(context@), input@),
            ),
    {
        let messages = build_openai_messages(system, context, input);
        let mut items: Vec<String> = Vec::new();
        let mut i: usize = 0;
        while i < messages.len()
            invariant
                i <= messages@.len(),
                items@.len() == i,
                forall|j: int| 0 <= j < i ==> (#[trigger] items@[j])@ == messages@[j]@,
            decreases messages.len() - i,
        {
            items.push(messages[i].text.clone());
            i += 1;
        }
        assert(text::texts(items@) =~= json_texts(messages@));
        let list = json::array(items.as_slice());
        let w = ObjectWriter::new().raw("messages", list.text.as_str()).string(
            "model",
            self.model.as_str(),
        ).raw("temperature", "0.2");
        assert(w@ =~= openai_request(
            self.model@,
            system@,
            context::entries(context@),
            input@,
        ));
        w.close()
    }

    /// The value of the `Authorization` header, where there is a key.
    pub fn authorization(&self) -> (r: Option<String>)
        ensures
            text::opt_text(r) == (match self.api_key {
                Some(key) => Some("Bearer "@ + key@),
                None => None,
            }),
    {
        match &self.api_key {
            Some(key) => {
                let mut value = "Bearer ".to_string();
                value.append(key.as_str());
                Some(value)
            },
            None => None,
        }
    }

    /// What the service answered.
    pub fn answer(&self, body: &str) -> (r: Result<String, String>)
        ensures
            match openai_answer(body@) {
                Ok(t) => r is Ok && r->Ok_0@ == t,
                Err(e) => r is Err && r->Err_0@ == e,
            },
    {
        if let Err(e) = json::check_document(body) {
            let mut why = "inference response is not JSON: Failed to read JSON: ".to_string();
            why.append(e.as_str());
            return Err(why);
        }
        let document = Json { text: body.to_string() };
        if let Some(choices) = document.get("choices") {
            if let Some(list) = choices.elements() {
                if list.len() > 0 {
                    let first = Json { text: list[0].clone() };
                    assert(first@ == text::texts(list@)[0]);
                    if let Some(message) = first.get("message") {
                        if let Some(content) = message.get("content") {
                            if let Some(t) = content.as_str() {
                                return Ok(t);
                            }
                        }
                    }
                }
            }
        }
        Err("inference response missing choices[0].message.content".to_string())
    }
}

/// On-device inference through Google AI Edge's LiteRT-LM runtime, driven as
/// a subprocess of the `litert_lm_main` CLI (or any flag-compatible wrapper).
/// One-shot per request: system + bounded context + input are flattened into
/// a single prompt. A tighter in-process FFI binding can replace this behind
/// the same `InferenceBackend` trait without touching the kernel.
#[derive(Debug)]
pub struct LitertLmBackend {
    /// Path to the litert_lm_main executable.
    pub binary: String,
    /// Path to the .litertlm / .task model bundle.
    pub model_path: String,
    /// Maps to litert_lm_main's `--backend` flag: "cpu" | "gpu" | "npu".
    pub accelerator: Option<String>,
    /// Flag used to pass image files (e.g. "--image_path"). Images are
    /// rejected with a clear error when this is unset, never dropped.
    pub image_arg: Option<String>,
    /// Extra flags appended verbatim.
    pub extra_args: Vec<String>,
}

/// The ending of a file that holds an image of a mime type.
pub open spec fn extension_of(mime: Text) -> Text {
    if mime == "image/jpeg"@ || mime == "image/jpg"@ {
        "jpg"@
    } else if mime == "image/png"@ {
        "png"@
    } else if mime == "image/webp"@ {
        "webp"@
    } else if mime == "image/bmp"@ {
        "bmp"@
    } else {
        "bin"@
    }
}

/// The ending of a file that holds an image of a mime type.
pub fn mime_extension(mime: &str) -> (r: &'static str)
    ensures
        r@ == extension_of(mime@),
{
    if text::same_text(mime, "image/jpeg") || text::same_text(mime, "image/jpg") {
        "jpg"
    } else if text::same_text(mime, "image/png") {
        "png"
    } else if text::same_text(mime, "image/webp") {
        "webp"
    } else if text::same_text(mime, "image/bmp") {
        "bmp"
    } else {
        "bin"
    }
}

/// The conversation as lines of a prompt.
pub open spec fn context_lines(ctx: Seq<EntryModel>) -> Text
    decreases ctx.len(),
{
    if ctx.len() == 0 {
        seq![]
    } else {
        context_lines(ctx.drop_last()) + (ctx.last().role + ": "@ + ctx.last().content + "\n"@)
    }
}

/// The one prompt that system prompt, conversation and turn are flattened into.
pub open spec fn litert_prompt(system: Text, ctx: Seq<EntryModel>, t: Text) -> Text {
    let head = if system.len() == 0 {
        seq![]
    } else {
        system + "\n\n"@
    };
    head + context_lines(ctx) + t
}

/// Why a turn cannot be given to the command line, if it cannot.
pub open spec fn litert_refusal(image_arg: Option<Text>, n: nat) -> Option<Text> {
    if n > 0 && image_arg is None {
        Some(
            "litert_lm backend received "@ + text::decimal_text(n)
                + " image(s) but no image_arg is configured; set backend.image_arg (e.g. \"--image_path\") to a flag your litert_lm build supports"@,
        )
    } else {
        None
    }
}

/// A flag with its value.
pub open spec fn flagged(flag: Text, value: Text) -> Text {
    flag + "="@ + value
}

/// The command line for a turn whose images lie in files at `paths`.
pub open spec fn litert_arguments(
    model_path: Text,
    accelerator: Option<Text>,
    extra: Seq<Text>,
    flag: Option<Text>,
    paths: Seq<Text>,
    prompt: Text,
) -> Seq<Text> {
    let backend = match accelerator {
        Some(a) => seq![flagged("--backend"@, a)],
        None => seq![],
    };
    let pictures = match flag {
        Some(f) => Seq::new(paths.len(), |i: int| flagged(f, paths[i])),
        None => seq![],
    };
    seq![flagged("--model_path"@, model_path)] + backend + extra + pictures + seq![
        flagged("--input_prompt"@, prompt),
    ]
}

fn flag_with(flag: &str, value: &str) -> (r: String)
    ensures
        r@ == flagged(flag@, value@),
{
    let mut out = flag.to_string();
    out.append("=");
    out.append(value);
    out
}

/// What the command line program came to.
pub open spec fn litert_answer(
    success: bool,
    status: Text,
    stdout: Seq<u8>,
    stderr: Seq<u8>,
) -> Result<Text, Text> {
    if success {
        Ok(text::trimmed(text::utf8_lossy(stdout)))
    } else {
        Err("litert_lm exited with "@ + status + ": "@ + text::trimmed(text::utf8_lossy(stderr)))
    }
}

impl LitertLmBackend {
    /// The prompt for a turn.
    fn prompt(&self, system: &str, context: &[ContextEntry], t: &str) -> (r: String)
        ensures
            r@ == litert_prompt(system@, context::entries(context@), t@),
    {
        let mut prompt = String::new();
        if !system.is_empty() {
            prompt.append(system);
            prompt.append("\n\n");
        }
        let ghost head = prompt@;
        let ghost ctx = context::entries(context@);
        let mut i: usize = 0;
        assert(prompt@ =~= head + context_lines(ctx.take(0)));
        while i < context.len()
            invariant
                i <= context@.len(),
                ctx == context::entries(context@),
                prompt@ == head + context_lines(ctx.take(i as int)),
            decreases context.len() - i,
        {
            prompt.append(context[i].role.as_str());
            prompt.append(": ");
            prompt.append(context[i].content.as_str());
            prompt.append("\n");
            proof {
                let next = ctx.take(i + 1);
                assert(next.drop_last() =~= ctx.take(i as int));
                assert(next.last() == ctx[i as int]);
                assert(prompt@ =~= head + context_lines(next));
            }
            i += 1;
        }
        assert(ctx.take(i as int) =~= ctx);
        prompt.append(t);
        assert(prompt@ =~= litert_prompt(system@, ctx, t@));
        prompt
    }

    /// Whether a turn can be given to the command line: images need a flag to
    /// pass them by.
    pub fn accepts(&self, input: &UserInput) -> (r: Result<(), String>)
        ensures
            match litert_refusal(text::opt_text(self.image_arg), input@.images.len()) {
                Some(e) => r is Err && r->Err_0@ == e,
                None => r is Ok,
            },
    {
        if input.images.len() > 0 && self.image_arg.is_none() {
            let mut message = "litert_lm backend received ".to_string();
            let count = text::decimal(input.images.len() as u64);
            message.append(count.as_str());
            message.append(
                " image(s) but no image_arg is configured; set backend.image_arg (e.g. \"--image_path\") to a flag your litert_lm build supports",
            );
            Err(message)
        } else {
            Ok(())
        }
    }

    /// The command line for a turn whose images lie in files at `paths`.
    pub fn arguments(
        &self,
        system: &str,
        context: &[ContextEntry],
        input: &UserInput,
        paths: &[String],
    ) -> (r: Vec<String>)
        ensures
            text::texts(r@) == litert_arguments(
                self.model_path@,
                text::opt_text(self.accelerator),
                text::texts(self.extra_args@),
                text::opt_text(self.image_arg),
                text::texts(paths@),
                litert_prompt(system@, context::entries(context@), input.text@),
            ),
    {
        let mut out: Vec<String> = Vec::new();
        out.push(flag_with("--model_path", self.model_path.as_str()));
        let ghost first = seq![flagged("--model_path"@, self.model_path@)];
        assert(text::texts(out@) =~= first);
        if let Some(a) = &self.accelerator {
            out.push(flag_with("--backend", a.as_str()));
        }
        let ghost backend = match text::opt_text(self.accelerator) {
            Some(a) => seq![flagged("--backend"@, a)],
            None => seq![],
        };
        assert(text::texts(out@) =~= first + backend);
        let ghost extra = text::texts(self.extra_args@);
        let mut i: usize = 0;
        assert(extra.take(0) =~= Seq::<Text>::empty());
        while i < self.extra_args.len()
            invariant
                i <= self.extra_args@.len(),
                extra == text::texts(self.extra_args@),
                text::texts(out@) =~= first + backend + extra.take(i as int),
            decreases self.extra_args.len() - i,
        {
            let ghost here = text::texts(out@);
            out.push(self.extra_args[i].clone());
            assert(text::texts(out@) =~= here.push(extra[i as int]));
            assert(extra.take(i + 1) =~= extra.take(i as int).push(extra[i as int]));
            i += 1;
        }
        assert(extra.take(i as int) =~= extra);
        let ghost files = text::texts(paths@);
        let ghost before = text::texts(out@);
        if let Some(flag) = &self.image_arg {
            let ghost pictures = Seq::new(files.len(), |i: int| flagged(flag@, files[i]));
            let mut k: usize = 0;
            assert(pictures.take(0) =~= Seq::<Text>::empty());
            while k < paths.len()
                invariant
                    k <= paths@.len(),
                    files == text::texts(paths@),
                    pictures == Seq::new(files.len(), |i: int| flagged(flag@, files[i])),
                    text::texts(out@) =~= before + pictures.take(k as int),
                decreases paths.len() - k,
            {
                let ghost here = text::texts(out@);
                out.push(flag_with(flag.as_str(), paths[k].as_str()));
                assert(text::texts(out@) =~= here.push(pictures[k as int]));
                assert(pictures.take(k + 1) =~= pictures.take(k as int).push(pictures[k as int]));
                k += 1;
            }
            assert(pictures.take(k as int) =~= pictures);
        }
        let prompt = self.prompt(system, context, input.text.as_str());
        out.push(flag_with("--input_prompt", prompt.as_str()));
        assert(text::texts(out@) =~= litert_arguments(
            self.model_path@,
            text::opt_text(self.accelerator),
            extra,
            text::opt_text(self.image_arg),
            files,
            prompt@,
        ));
        out
    }

    /// What the program came to.
    pub fn answer(&self, success: bool, status: &str, stdout: &[u8], stderr: &[u8]) -> (r: Result<
        String,
        String,
    >)
        ensures
            match litert_answer(success, status@, stdout@, stderr@) {
                Ok(t) => r is Ok && r->Ok_0@ == t,
                Err(e) => r is Err && r->Err_0@ == e,
            },
    {
        if success {
            let out = text::lossy_text(stdout);
            Ok(text::trim(out.as_str()).to_string())
        } else {
            let err = text::lossy_text(stderr);
            let mut message = "litert_lm exited with ".to_string();
            message.append(status);
            message.append(": ");
            message.append(text::trim(err.as_str()));
            Err(message)
        }
    }
}

/// The name of the file that carries image `i` of a request to the program.
pub fn image_file_name(pid: u32, nonce: &str, i: usize, mime: &str) -> (r: String)
    ensures
        r@ == "ea-litert-"@ + text::decimal_text(pid as nat) + "-"@ + nonce@ + "-"@
            + text::decimal_text(i as nat) + "."@ + extension_of(mime@),
{
    let mut name = "ea-litert-".to_string();
    let p = text::decimal(pid as u64);
    name.append(p.as_str());
    name.append("-");
    name.append(nonce);
    name.append("-");
    let n = text::decimal(i as u64);
    name.append(n.as_str());
    name.append(".");
    name.append(mime_extension(mime));
    name
}

// What is asked, and what is made of the answer.

/// The parts of a turn with images: the text first, then the images in their order,
/// each with its mime type and its bytes in base64.
pub open spec fn tells_turn(parts: Seq<Text>, turn: TurnModel) -> bool {
    &&& parts.len() == turn.images.len() + 1
    &&& record::text_member(parts[0], "type"@) == Some("text"@)
    &&& record::text_member(parts[0], "text"@) == Some(turn.text)
    &&& forall|i: int|
        0 <= i < turn.images.len() ==> tells_image(#[trigger] parts[i + 1], turn.images[i])
}

/// The part is the image: an object with a type and with an inner object, which holds
/// the image as a data URL.
pub open spec fn tells_image(part: Text, image: ImageModel) -> bool {
    exists|inner: Text|
        part == json::object_text(
            seq![("image_url"@, inner), ("type"@, json::quoted("image_url"@))],
        ) && #[trigger] record::text_member(inner, "url"@) == Some(
            "data:"@ + image.mime + ";base64,"@ + base64_text(image.data),
        )
}

/// The messages of a request, read back: the system prompt first, then every entry of
/// the conversation in its order, with the role it was said in and with what was said,
/// and the user's turn last. A turn without images is a plain string; with images it is
/// an array of its text and all its images.
pub proof fn law_messages_read_back(system: Text, ctx: Seq<EntryModel>, turn: TurnModel)
    ensures
        ({
            let messages = openai_messages(system, ctx, turn);
            &&& messages.len() == ctx.len() + 2
            &&& record::text_member(messages[0], "role"@) == Some("system"@)
            &&& record::text_member(messages[0], "content"@) == Some(system)
            &&& forall|i: int|
                0 <= i < ctx.len() ==> record::text_member(#[trigger] messages[i + 1], "role"@)
                    == Some(ctx[i].role) && record::text_member(messages[i + 1], "content"@)
                    == Some(ctx[i].content)
            &&& turn.images.len() == 0 ==> record::text_member(messages.last(), "role"@) == Some(
                "user"@,
            ) && record::text_member(messages.last(), "content"@) == Some(turn.text)
            &&& turn.images.len() > 0 ==> exists|parts: Seq<Text>| #[trigger]
                tells_turn(parts, turn) && messages.last() == json::object_text(
                    seq![
                        ("content"@, json::array_text(parts)),
                        ("role"@, json::quoted("user"@)),
                    ],
                )
        }),
{
    let messages = openai_messages(system, ctx, turn);
    reveal_strlit("content");
    reveal_strlit("role");
    assert("content"@.len() != "role"@.len());
    record::lemma_two_texts("content"@, system, "role"@, "system"@);
    record::lemma_two_texts("content"@, turn.text, "role"@, "user"@);
    assert forall|i: int| 0 <= i < ctx.len() implies record::text_member(
        #[trigger] messages[i + 1],
        "role"@,
    ) == Some(ctx[i].role) && record::text_member(messages[i + 1], "content"@) == Some(
        ctx[i].content,
    ) by {
        record::lemma_two_texts("content"@, ctx[i].content, "role"@, ctx[i].role);
    }
    if turn.images.len() > 0 {
        let parts = seq![text_part(turn.text)] + Seq::new(
            turn.images.len(),
            |i: int| image_part(turn.images[i]),
        );
        reveal_strlit("text");
        reveal_strlit("type");
        assert("text"@[1] == 'e' && "type"@[1] == 'y');
        record::lemma_two_texts("text"@, turn.text, "type"@, "text"@);
        assert forall|i: int| 0 <= i < turn.images.len() implies tells_image(
            #[trigger] parts[i + 1],
            turn.images[i],
        ) by {
            let image = turn.images[i];
            let inner = json::object_text(seq![("url"@, json::quoted(data_url(image)))]);
            record::lemma_one_text("url"@, data_url(image));
            assert(parts[i + 1] == json::object_text(
                seq![("image_url"@, inner), ("type"@, json::quoted("image_url"@))],
            ));
        }
        assert(tells_turn(parts, turn));
    }
}

/// The body of a request holds the model and just these messages, in their order.
pub proof fn law_the_request_holds_the_messages(
    model: Text,
    system: Text,
    ctx: Seq<EntryModel>,
    turn: TurnModel,
)
    ensures
        record::distinct_keys(openai_request(model, system, ctx, turn)),
        openai_request(model, system, ctx, turn).len() == 3,
        record::lookup(openai_request(model, system, ctx, turn), "model"@) == Some(
            json::quoted(model),
        ),
        record::lookup(openai_request(model, system, ctx, turn), "messages"@) == Some(
            json::array_text(openai_messages(system, ctx, turn)),
        ),
        record::lookup(openai_request(model, system, ctx, turn), "temperature"@) == Some("0.2"@),
{
    let members = openai_request(model, system, ctx, turn);
    reveal_strlit("messages");
    reveal_strlit("model");
    reveal_strlit("temperature");
    assert("messages"@.len() == 8 && "model"@.len() == 5 && "temperature"@.len() == 11);
    assert(members[0].0 == "messages"@ && members[1].0 == "model"@ && members[2].0
        == "temperature"@);
    record::lemma_lookup_at(members, 0);
    record::lemma_lookup_at(members, 1);
    record::lemma_lookup_at(members, 2);
}

/// A service's answer is what its first choice says, whatever other choices there are
/// and whatever else it sends: a body that is a document and whose first choice has a
/// message with a text for its content is answered with that text.
pub proof fn law_the_first_choice_is_the_answer(
    body: Text,
    choices: Text,
    list: Seq<Text>,
    message: Text,
    t: Text,
)
    requires
        json::json_compact(body) is Some,
        record::member(body, "choices"@) == Some(choices),
        json::json_elements(choices) == Some(list),
        list.len() > 0,
        record::member(list[0], "message"@) == Some(message),
        record::text_member(message, "content"@) == Some(t),
    ensures
        openai_answer(body) == Ok::<Text, Text>(t),
{
}

/// A prompt tells the conversation in its order: the lines of two conversations in a row
/// are the lines of the first and then those of the second, and one entry is one line
/// with its role and with what was said.
pub proof fn law_conversations_are_told_in_order(a: Seq<EntryModel>, b: Seq<EntryModel>)
    ensures
        context_lines(a + b) == context_lines(a) + context_lines(b),
        a.len() == 1 ==> context_lines(a) == a[0].role + ": "@ + a[0].content + "\n"@,
        a.len() == 0 ==> context_lines(a).len() == 0,
    decreases b.len(),
{
    if a.len() == 1 {
        assert(a.drop_last() =~= Seq::<EntryModel>::empty());
        reveal_with_fuel(context_lines, 2);
        assert(context_lines(a) =~= a[0].role + ": "@ + a[0].content + "\n"@);
    }
    if b.len() == 0 {
        assert(a + b =~= a);
        assert(context_lines(a) + context_lines(b) =~= context_lines(a));
    } else {
        law_conversations_are_told_in_order(a, b.drop_last());
        assert((a + b).drop_last() =~= a + b.drop_last());
        assert((a + b).last() == b.last());
        assert(context_lines(a + b) =~= context_lines(a) + context_lines(b));
    }
}

/// The prompt for the command line: the system prompt and an empty line where there is
/// one, then the conversation, oldest first, and the turn directly behind the newest
/// entry.
pub proof fn law_the_prompt_ends_with_the_turn(
    system: Text,
    older: Seq<EntryModel>,
    newest: EntryModel,
    t: Text,
)
    ensures
        litert_prompt(system, older.push(newest), t) == litert_prompt(system, older, seq![]) + (
        newest.role + ": "@ + newest.content + "\n"@) + t,
        litert_prompt(system, seq![], t) == (if system.len() == 0 {
            t
        } else {
            system + "\n\n"@ + t
        }),
{
    law_conversations_are_told_in_order(older, seq![newest]);
    law_conversations_are_told_in_order(seq![newest], seq![]);
    assert(older.push(newest) =~= older + seq![newest]);
    let line = newest.role + ": "@ + newest.content + "\n"@;
    assert(litert_prompt(system, older.push(newest), t) =~= litert_prompt(system, older, seq![])
        + line + t);
    assert(context_lines(Seq::<EntryModel>::empty()).len() == 0);
    assert(litert_prompt(system, seq![], t) =~= if system.len() == 0 {
        t
    } else {
        system + "\n\n"@ + t
    });
}

/// The command line: the model first and the prompt last, and between them the
/// accelerator where there is one, every extra flag verbatim, and a flag for every image
/// file, each in its order.
pub proof fn law_the_command_line_leaves_nothing_out(
    model_path: Text,
    accelerator: Option<Text>,
    extra: Seq<Text>,
    flag: Text,
    paths: Seq<Text>,
    prompt: Text,
)
    ensures
        ({
            let line = litert_arguments(
                model_path,
                accelerator,
                extra,
                Some(flag),
                paths,
                prompt,
            );
            let n: int = if accelerator is Some {
                2
            } else {
                1
            };
            &&& line.len() == n + extra.len() + paths.len() + 1
            &&& line[0] == "--model_path="@ + model_path
            &&& accelerator matches Some(a) ==> line[1] == "--backend="@ + a
            &&& forall|i: int| 0 <= i < extra.len() ==> #[trigger] line[n + i] == extra[i]
            &&& forall|i: int|
                0 <= i < paths.len() ==> #[trigger] line[n + extra.len() + i] == flag + "="@
                    + paths[i]
            &&& line.last() == "--input_prompt="@ + prompt
            &&& litert_arguments(model_path, accelerator, extra, None, paths, prompt).len() == n
                + extra.len() + 1
        }),
{
    reveal_strlit("--model_path");
    reveal_strlit("--model_path=");
    reveal_strlit("--backend");
    reveal_strlit("--backend=");
    reveal_strlit("--input_prompt");
    reveal_strlit("--input_prompt=");
    reveal_strlit("=");
    assert("--model_path"@ + "="@ =~= "--model_path="@);
    assert("--backend"@ + "="@ =~= "--backend="@);
    assert("--input_prompt"@ + "="@ =~= "--input_prompt="@);
    let line = litert_arguments(model_path, accelerator, extra, Some(flag), paths, prompt);
    assert(line[0] =~= "--model_path="@ + model_path);
    assert(line.last() =~= "--input_prompt="@ + prompt);
    if accelerator is Some {
        assert(line[1] =~= "--backend="@ + accelerator->0);
    }
}

/// Images are never dropped: a turn with images is refused exactly where there is no
/// flag to pass them by, and the refusal says how many there were.
pub proof fn law_images_are_never_dropped(image_arg: Option<Text>, n: nat)
    ensures
        litert_refusal(image_arg, n) is Some <==> n > 0 && image_arg is None,
        litert_refusal(image_arg, n) matches Some(e) ==> ("litert_lm backend received "@
            + text::decimal_text(n) + " image(s)"@).is_prefix_of(e),
{
    if n > 0 && image_arg is None {
        let e = litert_refusal(image_arg, n)->0;
        let head = "litert_lm backend received "@ + text::decimal_text(n) + " image(s)"@;
        reveal_strlit(" image(s)");
        reveal_strlit(
            " image(s) but no image_arg is configured; set backend.image_arg (e.g. \"--image_path\") to a flag your litert_lm build supports",
        );
        assert(head =~= e.take(head.len() as int));
    }
}

/// What the program printed is the answer where it succeeded, and else the reason, in
/// both cases without the white space around it; a failed program is never an answer.
pub proof fn law_only_success_is_an_answer(
    success: bool,
    status: Text,
    stdout: Seq<u8>,
    stderr: Seq<u8>,
)
    ensures
        litert_answer(success, status, stdout, stderr) is Ok <==> success,
        litert_answer(success, status, stdout, stderr) matches Ok(t) ==> exists|a: int, b: int|
            #[trigger]
            text::trims(text::utf8_lossy(stdout), a, b) && t == text::utf8_lossy(stdout).subrange(
                a,
                b,
            ),
        litert_answer(success, status, stdout, stderr) matches Err(e) ==> exists|a: int, b: int|
            #[trigger]
            text::trims(text::utf8_lossy(stderr), a, b) && e == "litert_lm exited with "@ + status
                + ": "@ + text::utf8_lossy(stderr).subrange(a, b),
{
    text::law_trimming_takes_only_white_space(text::utf8_lossy(stdout));
    text::law_trimming_takes_only_white_space(text::utf8_lossy(stderr));
}

/// The mock repeats the text behind a mark, and says how many images came with it.
pub proof fn law_the_mock_repeats_the_turn(turn: TurnModel)
    ensures
        ("[mock] "@ + turn.text).is_prefix_of(mock_text(turn)),
        turn.images.len() == 0 ==> mock_text(turn) == "[mock] "@ + turn.text,
        turn.images.len() > 0 ==> mock_text(turn) == "[mock] "@ + turn.text + " [+"@
            + text::decimal_text(turn.images.len()) + " image(s)]"@,
        record::text_member(mock_command(turn), "reply"@) == Some(mock_text(turn)),
{
    let head = "[mock] "@ + turn.text;
    assert(head =~= mock_text(turn).take(head.len() as int));
    record::lemma_one_text("reply"@, mock_text(turn));
}

/// An answer of a service that has no text where one belongs is refused, and never
/// guessed at: there is no list of choices, it is empty, or the first choice has no
/// message with a text.
pub proof fn law_answers_are_never_guessed(body: Text)
    ensures
        openai_answer(body) is Ok ==> json::json_compact(body) is Some && record::member(
            body,
            "choices"@,
        ) is Some,
        json::json_compact(body) is Some && record::member(body, "choices"@) is None
            ==> openai_answer(body) == Err::<Text, Text>(
            "inference response missing choices[0].message.content"@,
        ),
        json::json_compact(body) is Some ==> (record::member(
            body,
            "choices"@,
        ) matches Some(choices) ==> (json::json_elements(choices) is None || json::json_elements(
            choices,
        )->0.len() == 0 ==> openai_answer(body) == Err::<Text, Text>(
            "inference response missing choices[0].message.content"@,
        ))),
        json::json_compact(body) is None ==> openai_answer(body) is Err,
{
}

/// The ending of an image file goes by its type.
pub proof fn law_types_tell_the_ending(mime: Text)
    ensures
        extension_of("image/jpeg"@) == "jpg"@,
        extension_of("image/jpg"@) == "jpg"@,
        extension_of("image/png"@) == "png"@,
        extension_of("image/webp"@) == "webp"@,
        extension_of("image/bmp"@) == "bmp"@,
        mime != "image/jpeg"@ && mime != "image/jpg"@ && mime != "image/png"@ && mime
            != "image/webp"@ && mime != "image/bmp"@ ==> extension_of(mime) == "bin"@,
{
    reveal_strlit("image/jpeg");
    reveal_strlit("image/jpg");
    reveal_strlit("image/png");
    reveal_strlit("image/webp");
    reveal_strlit("image/bmp");
    assert("image/jpeg"@.len() == 10 && "image/webp"@.len() == 10 && "image/png"@.len() == 9
        && "image/bmp"@.len() == 9 && "image/jpg"@.len() == 9);
    assert("image/jpeg"@[6] == 'j' && "image/webp"@[6] == 'w' && "image/png"@[6] == 'p'
        && "image/bmp"@[6] == 'b' && "image/jpg"@[6] == 'j');
}

/// The mock has one answer to a turn, whatever it is told otherwise: the command to reply
/// with what it repeats.
pub proof fn law_the_mock_has_one_answer(
    system: Text,
    ctx: Seq<EntryModel>,
    turn: TurnModel,
    r: Result<Text, Text>,
)
    ensures
        (mock_answers())(system, ctx, turn, r) <==> r == Ok::<Text, Text>(
            json::object_text(seq![("reply"@, json::quoted(mock_text(turn)))]),
        ),
{
}

} // verus!
