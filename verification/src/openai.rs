//! The OpenAI-compatible API: what a request asks for, and what is answered.

use vstd::prelude::*;

use crate::chat_template;
use crate::chat_template::ChatMessage;
use crate::engine::{GenerationResult, ResultView};
use crate::error::Error;
use crate::extract;
use crate::float_bits::F32;
use crate::json;
use crate::json::JsonModel;
use crate::sampler;
use crate::sampler::SamplingParams;
use crate::structured;
use crate::structured::inject_response_format;
use crate::text::concat2;

verus! {

/// A request for a chat completion.
#[derive(Debug)]
pub struct ChatRequest {
    pub model: String,
    pub messages: Vec<ChatMessage>,
    pub stream: bool,
    pub max_tokens: Option<u32>,
    pub temperature: Option<F32>,
    pub top_p: Option<F32>,
    pub seed: Option<u64>,
    pub tools: Option<Vec<serde_json::Value>>,
    pub tool_choice: Option<serde_json::Value>,
    pub response_format: Option<serde_json::Value>,
}

/// What a request may ask for in its URL: `?spec=<draft_id>` for speculative
/// decoding.
#[derive(Debug)]
pub struct ChatQuery {
    pub spec: Option<String>,
}

impl Default for ChatQuery {
    fn default() -> (r: Self)
        ensures
            r.spec is None,
    {
        ChatQuery { spec: None }
    }
}

/// How a reply is generated.
#[derive(Debug)]
pub struct GenerationOptions {
    pub tools: Option<Vec<serde_json::Value>>,
    pub params: SamplingParams,
    pub max_tokens: u32,
    pub spec: Option<String>,
}

impl GenerationOptions {
    /// Whether the request offers tools: an empty list is no offer.
    pub open spec fn with_tools(self) -> bool {
        self.tools matches Some(t) && t@.len() > 0
    }

    /// Whether the request offers tools.
    pub fn offers_tools(&self) -> (r: bool)
        ensures
            r == self.with_tools(),
    {
        match &self.tools {
            Some(t) => t.len() > 0,
            None => false,
        }
    }
}

/// What is said of an error.
#[derive(Debug)]
pub struct ErrorPayload {
    pub message: String,
    pub kind: &'static str,
}

/// The body of an answer that is an error.
#[derive(Debug)]
pub struct ErrorBody {
    pub error: ErrorPayload,
}

/// An answer that is an error: the HTTP status and the body.
#[derive(Debug)]
pub struct Refusal {
    pub status: u16,
    pub body: ErrorBody,
}

impl Refusal {
    /// Whether the answer has this status, message and kind.
    pub open spec fn says(self, status: u16, message: Seq<char>, kind: Seq<char>) -> bool {
        &&& self.status == status
        &&& self.body.error.message@ == message
        &&& self.body.error.kind@ == kind
    }
}

/// An answer that is an error.
pub fn refusal(status: u16, message: &str, kind: &'static str) -> (r: Refusal)
    ensures
        r.says(status, message@, kind@),
{
    let error = ErrorPayload { message: message.to_owned(), kind };
    Refusal { status, body: ErrorBody { error } }
}

/// The JSON of an error.
pub open spec fn error_model(message: Seq<char>, kind: Seq<char>) -> JsonModel {
    JsonModel::Object(
        json::no_members().insert(
            "error"@,
            JsonModel::Object(
                json::no_members().insert("message"@, JsonModel::Str(message)).insert(
                    "type"@,
                    JsonModel::Str(kind),
                ),
            ),
        ),
    )
}

/// The JSON of an error.
pub fn error_value(body: &ErrorBody) -> (r: serde_json::Value)
    ensures
        json::json_model(r) == error_model(body.error.message@, body.error.kind@),
{
    let mut payload = json::map_new();
    json::put_text(&mut payload, "message", body.error.message.as_str());
    json::put_text(&mut payload, "type", body.error.kind);
    let mut whole = json::map_new();
    json::put(&mut whole, "error", json::value_object(payload));
    json::value_object(whole)
}

/// What is generated for a chat request.
#[derive(Debug)]
pub struct ChatPlan {
    pub model: String,
    pub messages: Vec<ChatMessage>,
    pub options: GenerationOptions,
    pub stream: bool,
    pub response_format: Option<serde_json::Value>,
}

/// The number given, or else the one with these bits.
pub open spec fn given_or_bits(x: Option<F32>, bits: u32) -> F32 {
    match x {
        Some(f) => f,
        None => F32 { bits },
    }
}

fn or_bits(x: Option<F32>, bits: u32) -> (r: F32)
    ensures
        r == given_or_bits(x, bits),
{
    match x {
        Some(f) => f,
        None => F32 { bits },
    }
}

/// Plans the answer to a chat request. One without messages is refused.
pub fn plan_chat(req: ChatRequest, query: ChatQuery) -> (r: Result<ChatPlan, Refusal>)
    ensures
        match r {
            Err(e) => req.messages@.len() == 0 && e.says(
                400,
                "messages is required and non-empty"@,
                "invalid_request"@,
            ),
            Ok(p) => {
                &&& req.messages@.len() > 0
                &&& p.model == req.model
                &&& chat_template::message_views(p.messages@) == structured::formatted(
                    chat_template::message_views(req.messages@),
                    json::json_opt_model(req.response_format),
                )
                &&& p.options.tools == req.tools
                &&& p.options.params.temperature == given_or_bits(
                    req.temperature,
                    sampler::DEFAULT_TEMPERATURE_BITS,
                )
                &&& p.options.params.top_p == given_or_bits(
                    req.top_p,
                    sampler::DEFAULT_TOP_P_BITS,
                )
                &&& p.options.params.top_k == 64
                &&& p.options.params.repetition_penalty.bits == sampler::ONE_BITS
                &&& p.options.params.seed == req.seed
                &&& p.options.params.grammar is None
                &&& p.options.max_tokens == match req.max_tokens {
                    Some(n) => n,
                    None => 512u32,
                }
                &&& p.options.spec == query.spec
                &&& p.stream == req.stream
                &&& p.response_format == req.response_format
            },
        },
{
    if req.messages.len() == 0 {
        return Err(refusal(400, "messages is required and non-empty", "invalid_request"));
    }
    let params = SamplingParams {
        temperature: or_bits(req.temperature, sampler::DEFAULT_TEMPERATURE_BITS),
        top_p: or_bits(req.top_p, sampler::DEFAULT_TOP_P_BITS),
        top_k: 64,
        repetition_penalty: F32 { bits: sampler::ONE_BITS },
        seed: req.seed,
        grammar: None,
    };
    let max_tokens = match req.max_tokens {
        Some(n) => n,
        None => 512,
    };
    let messages = inject_response_format(req.messages, req.response_format.as_ref());
    Ok(
        ChatPlan {
            model: req.model,
            messages,
            options: GenerationOptions { tools: req.tools, params, max_tokens, spec: query.spec },
            stream: req.stream,
            response_format: req.response_format,
        },
    )
}

/// The id of a completion.
pub fn completion_id(unique: &str) -> (r: String)
    ensures
        r@ == "chatcmpl-"@ + unique@,
{
    concat2("chatcmpl-", unique)
}

/// The JSON of the token counts.
pub open spec fn usage_model(g: ResultView) -> JsonModel {
    JsonModel::Object(
        json::no_members().insert("prompt_tokens"@, JsonModel::Int(g.prompt_tokens as int)).insert(
            "completion_tokens"@,
            JsonModel::Int(g.completion_tokens as int),
        ).insert("total_tokens"@, JsonModel::Int(g.prompt_tokens + g.completion_tokens)),
    )
}

fn usage_value(prompt_tokens: u32, completion_tokens: u32) -> (r: serde_json::Value)
    ensures
        forall|g: ResultView|
            g.prompt_tokens == prompt_tokens && g.completion_tokens == completion_tokens
                ==> json::json_model(r) == #[trigger] usage_model(g),
{
    let mut usage = json::map_new();
    json::put(&mut usage, "prompt_tokens", json::value_number(prompt_tokens as u64));
    json::put(&mut usage, "completion_tokens", json::value_number(completion_tokens as u64));
    json::put(
        &mut usage,
        "total_tokens",
        json::value_number(prompt_tokens as u64 + completion_tokens as u64),
    );
    json::value_object(usage)
}

/// The JSON of the reply's message. With tool calls its content is null.
pub open spec fn message_model(text: Seq<char>, tool_calls: Seq<JsonModel>) -> JsonModel {
    let role = json::no_members().insert("role"@, JsonModel::Str("assistant"@));
    JsonModel::Object(
        if tool_calls.len() > 0 {
            role.insert("content"@, JsonModel::Null).insert(
                "tool_calls"@,
                JsonModel::Array(tool_calls),
            )
        } else {
            role.insert("content"@, JsonModel::Str(text))
        },
    )
}

fn message_value(text: String, tool_calls: Vec<serde_json::Value>) -> (r: serde_json::Value)
    ensures
        json::json_model(r) == message_model(text@, json::json_models(tool_calls@)),
{
    let mut message = json::map_new();
    json::put_text(&mut message, "role", "assistant");
    if tool_calls.len() > 0 {
        json::put(&mut message, "content", json::value_null());
        json::put(&mut message, "tool_calls", json::value_array(tool_calls));
    } else {
        json::put(&mut message, "content", json::value_string(text));
    }
    json::value_object(message)
}

/// The JSON of a whole completion.
pub open spec fn completion_model(
    id: Seq<char>,
    created: u64,
    model: Seq<char>,
    g: ResultView,
    format: Option<JsonModel>,
) -> JsonModel {
    let text = extract::cleaned(extract::validity(format, g.text), g.text);
    let choice = json::no_members().insert("index"@, JsonModel::Int(0)).insert(
        "message"@,
        message_model(text, g.tool_calls),
    ).insert("finish_reason"@, JsonModel::Str(g.finish_reason));
    JsonModel::Object(
        json::no_members().insert("id"@, JsonModel::Str(id)).insert(
            "object"@,
            JsonModel::Str("chat.completion"@),
        ).insert("created"@, JsonModel::Int(created as int)).insert(
            "model"@,
            JsonModel::Str(model),
        ).insert("choices"@, JsonModel::Array(seq![JsonModel::Object(choice)])).insert(
            "usage"@,
            usage_model(g),
        ),
    )
}

/// A list of one value.
fn one_value(v: serde_json::Value) -> (r: serde_json::Value)
    ensures
        json::json_model(r) == JsonModel::Array(seq![json::json_model(v)]),
{
    let list = vec![v];
    assert(json::json_models(list@) =~= seq![json::json_model(v)]);
    json::value_array(list)
}

/// The answer to a chat request that is not streamed. A reply that should be
/// JSON and is not is cut down to the first object in it, if there is one.
pub fn completion(
    id: &str,
    created: u64,
    model: &str,
    gen: GenerationResult,
    response_format: Option<&serde_json::Value>,
) -> (r: serde_json::Value)
    ensures
        json::json_model(r) == completion_model(
            id@,
            created,
            model@,
            gen@,
            json::json_ref_model(response_format),
        ),
{
    reply(id, created, model, gen, response_format).body
}

/// The answer to a chat request that is not streamed.
#[derive(Debug)]
pub struct Reply {
    pub body: serde_json::Value,
    /// Whether what was generated should have been JSON and is not, also where an
    /// object was found in it. The answer then carries a header that says so.
    pub invalid_json: bool,
}

/// The header of an answer whose text should have been JSON and is not.
pub const INVALID_JSON_HEADER: &'static str = "x-base-mlx-invalid-json";

fn reply(
    id: &str,
    created: u64,
    model: &str,
    gen: GenerationResult,
    response_format: Option<&serde_json::Value>,
) -> (r: Reply)
    ensures
        json::json_model(r.body) == completion_model(
            id@,
            created,
            model@,
            gen@,
            json::json_ref_model(response_format),
        ),
        r.invalid_json == (extract::validity(json::json_ref_model(response_format), gen.text@)
            == Some(false)),
{
    let ghost g = gen@;
    let GenerationResult { text, prompt_tokens, completion_tokens, finish_reason, tool_calls } =
        gen;
    let valid = extract::json_valid(response_format, text.as_str());
    let invalid_json = match valid {
        Some(v) => !v,
        None => false,
    };
    let text = extract::clean_reply(valid, text);
    let mut choice = json::map_new();
    json::put(&mut choice, "index", json::value_number(0));
    json::put(&mut choice, "message", message_value(text, tool_calls));
    json::put(&mut choice, "finish_reason", json::value_string(finish_reason));
    let mut whole = json::map_new();
    json::put_text(&mut whole, "id", id);
    json::put_text(&mut whole, "object", "chat.completion");
    json::put(&mut whole, "created", json::value_number(created));
    json::put_text(&mut whole, "model", model);
    json::put(&mut whole, "choices", one_value(json::value_object(choice)));
    let usage = usage_value(prompt_tokens, completion_tokens);
    assert(json::json_model(usage) == usage_model(g));
    json::put(&mut whole, "usage", usage);
    Reply { body: json::value_object(whole), invalid_json }
}

/// How a generation that is not streamed ended.
#[derive(Debug)]
pub enum Outcome {
    Generated(GenerationResult),
    /// Loading or generating failed.
    Failed(Error),
    /// The task that generated did not come back, with this message.
    Lost(String),
}

/// The answer to a chat request that is not streamed. It says whether its text
/// should have been JSON and is not.
pub fn oneshot_reply(
    outcome: Outcome,
    id: &str,
    created: u64,
    model: &str,
    response_format: Option<&serde_json::Value>,
) -> (r: Result<Reply, Refusal>)
    ensures
        match outcome {
            Outcome::Generated(gen) => r matches Ok(v) && json::json_model(v.body)
                == completion_model(
                id@,
                created,
                model@,
                gen@,
                json::json_ref_model(response_format),
            ) && v.invalid_json == (extract::validity(
                json::json_ref_model(response_format),
                gen.text@,
            ) == Some(false)),
            Outcome::Failed(e) => r matches Err(x) && x.says(
                500,
                e@.shown(),
                "generation_failed"@,
            ),
            Outcome::Lost(m) => r matches Err(x) && x.says(500, m@, "join_error"@),
        },
{
    match outcome {
        Outcome::Generated(gen) => Ok(reply(id, created, model, gen, response_format)),
        Outcome::Failed(e) => Err(refusal(500, e.message().as_str(), "generation_failed")),
        Outcome::Lost(m) => Err(refusal(500, m.as_str(), "join_error")),
    }
}

/// A stream of chunks: what all of them have in common.
#[derive(Debug)]
pub struct Stream {
    pub id: String,
    pub created: u64,
    pub model: String,
    /// Whether the request offered tools. Then nothing is streamed before the
    /// whole reply is there.
    pub has_tools: bool,
}

/// The members that all chunks begin with, and the choice.
pub open spec fn chunk_members(s: Stream, delta: JsonModel, finish: JsonModel) -> Map<
    Seq<char>,
    JsonModel,
> {
    let choice = json::no_members().insert("index"@, JsonModel::Int(0)).insert(
        "delta"@,
        delta,
    ).insert("finish_reason"@, finish);
    json::no_members().insert("id"@, JsonModel::Str(s.id@)).insert(
        "object"@,
        JsonModel::Str("chat.completion.chunk"@),
    ).insert("created"@, JsonModel::Int(s.created as int)).insert(
        "model"@,
        JsonModel::Str(s.model@),
    ).insert("choices"@, JsonModel::Array(seq![JsonModel::Object(choice)]))
}

/// The JSON of the first chunk.
pub open spec fn preamble_model(s: Stream) -> JsonModel {
    JsonModel::Object(
        chunk_members(
            s,
            JsonModel::Object(
                json::no_members().insert("role"@, JsonModel::Str("assistant"@)),
            ),
            JsonModel::Null,
        ),
    )
}

/// The JSON of a chunk with a piece of the reply.
pub open spec fn piece_model(s: Stream, piece: Seq<char>) -> JsonModel {
    JsonModel::Object(
        chunk_members(
            s,
            JsonModel::Object(json::no_members().insert("content"@, JsonModel::Str(piece))),
            JsonModel::Null,
        ),
    )
}

/// What the last chunk adds to the reply: the tool calls, or the reply itself
/// where it was held back, or nothing.
pub open spec fn final_delta(s: Stream, g: ResultView) -> JsonModel {
    JsonModel::Object(
        if g.tool_calls.len() > 0 {
            json::no_members().insert("tool_calls"@, JsonModel::Array(g.tool_calls))
        } else if s.has_tools {
            json::no_members().insert("content"@, JsonModel::Str(g.text))
        } else {
            json::no_members()
        },
    )
}

/// The JSON of the last chunk.
pub open spec fn final_model(s: Stream, g: ResultView) -> JsonModel {
    JsonModel::Object(
        chunk_members(s, final_delta(s, g), JsonModel::Str(g.finish_reason)).insert(
            "usage"@,
            usage_model(g),
        ),
    )
}

/// The JSON of an error in a stream.
pub open spec fn stream_error_model(message: Seq<char>) -> JsonModel {
    JsonModel::Object(
        json::no_members().insert(
            "error"@,
            JsonModel::Object(json::no_members().insert("message"@, JsonModel::Str(message))),
        ),
    )
}

/// How a streamed generation ended.
#[derive(Debug)]
pub enum StreamEnd {
    Generated(GenerationResult),
    /// Loading, encoding the prompt or generating failed.
    Failed(Error),
}

/// The data of the events that end a stream.
pub open spec fn closing(s: Stream, end: StreamEnd) -> Seq<Seq<char>> {
    match end {
        StreamEnd::Generated(gen) => seq![json::json_text(final_model(s, gen@)), "[DONE]"@],
        StreamEnd::Failed(e) => seq![json::json_text(stream_error_model(e@.shown()))],
    }
}

impl Stream {
    fn chunk(&self, delta: serde_json::Value, finish: serde_json::Value) -> (r: serde_json::Map<
        String,
        serde_json::Value,
    >)
        ensures
            json::json_members(r) == chunk_members(
                *self,
                json::json_model(delta),
                json::json_model(finish),
            ),
    {
        let mut choice = json::map_new();
        json::put(&mut choice, "index", json::value_number(0));
        json::put(&mut choice, "delta", delta);
        json::put(&mut choice, "finish_reason", finish);
        let mut whole = json::map_new();
        json::put_text(&mut whole, "id", self.id.as_str());
        json::put_text(&mut whole, "object", "chat.completion.chunk");
        json::put(&mut whole, "created", json::value_number(self.created));
        json::put_text(&mut whole, "model", self.model.as_str());
        json::put(&mut whole, "choices", one_value(json::value_object(choice)));
        whole
    }

    /// The data of the event that begins the stream.
    pub fn preamble(&self) -> (r: String)
        ensures
            r@ == json::json_text(preamble_model(*self)),
    {
        let mut delta = json::map_new();
        json::put_text(&mut delta, "role", "assistant");
        let chunk = self.chunk(json::value_object(delta), json::value_null());
        json::value_text(&json::value_object(chunk))
    }

    /// The data of the event for a piece of the reply. There is none where the
    /// request offered tools.
    pub fn piece(&self, piece: &str) -> (r: Option<String>)
        ensures
            match r {
                Some(d) => !self.has_tools && d@ == json::json_text(piece_model(*self, piece@)),
                None => self.has_tools,
            },
    {
        if self.has_tools {
            return None;
        }
        let mut delta = json::map_new();
        json::put_text(&mut delta, "content", piece);
        let chunk = self.chunk(json::value_object(delta), json::value_null());
        Some(json::value_text(&json::value_object(chunk)))
    }

    fn last(&self, gen: GenerationResult) -> (r: String)
        ensures
            r@ == json::json_text(final_model(*self, gen@)),
    {
        let ghost g = gen@;
        let GenerationResult { text, prompt_tokens, completion_tokens, finish_reason, tool_calls } =
            gen;
        let mut delta = json::map_new();
        if tool_calls.len() > 0 {
            json::put(&mut delta, "tool_calls", json::value_array(tool_calls));
        } else if self.has_tools {
            json::put(&mut delta, "content", json::value_string(text));
        }
        let mut chunk = self.chunk(json::value_object(delta), json::value_string(finish_reason));
        let usage = usage_value(prompt_tokens, completion_tokens);
        assert(json::json_model(usage) == usage_model(g));
        json::put(&mut chunk, "usage", usage);
        json::value_text(&json::value_object(chunk))
    }

    /// The data of the events that end the stream.
    pub fn close(&self, end: StreamEnd) -> (r: Vec<String>)
        ensures
            crate::text::views(r@) == closing(*self, end),
    {
        let ghost wanted = closing(*self, end);
        let r = match end {
            StreamEnd::Generated(gen) => vec![self.last(gen), "[DONE]".to_owned()],
            StreamEnd::Failed(e) => vec![stream_error(&e)],
        };
        assert(crate::text::views(r@) =~= wanted);
        r
    }
}

/// The data of the event for an error in a stream.
pub fn stream_error(e: &Error) -> (r: String)
    ensures
        r@ == json::json_text(stream_error_model(e@.shown())),
{
    let mut payload = json::map_new();
    json::put_text(&mut payload, "message", e.message().as_str());
    let mut whole = json::map_new();
    json::put(&mut whole, "error", json::value_object(payload));
    json::value_text(&json::value_object(whole))
}

/// The data of the events for the pieces of a reply.
pub open spec fn piece_events(s: Stream, pieces: Seq<Seq<char>>) -> Seq<Seq<char>> {
    if s.has_tools {
        Seq::empty()
    } else {
        pieces.map_values(|p: Seq<char>| json::json_text(piece_model(s, p)))
    }
}

/// The data of all events of a stream, in order: the one that begins it, those for
/// the pieces of the reply, and those that end it.
pub open spec fn all_events(s: Stream, pieces: Seq<Seq<char>>, end: StreamEnd) -> Seq<Seq<char>> {
    seq![json::json_text(preamble_model(s))] + piece_events(s, pieces) + closing(s, end)
}

/// A stream that has begun and not ended: what it streams, and the pieces of the
/// reply that have come so far.
pub struct Streaming {
    stream: Stream,
    pieces: Ghost<Seq<Seq<char>>>,
}

impl Streaming {
    /// What is streamed.
    pub closed spec fn stream(self) -> Stream {
        self.stream
    }

    /// The pieces of the reply so far.
    pub closed spec fn pieces(self) -> Seq<Seq<char>> {
        self.pieces@
    }

    /// The data of the events so far, in order.
    pub open spec fn sent(self) -> Seq<Seq<char>> {
        seq![json::json_text(preamble_model(self.stream()))] + piece_events(
            self.stream(),
            self.pieces(),
        )
    }

    /// Begins a stream. The result holds the data of its first event.
    pub fn begin(stream: Stream) -> (r: (Streaming, String))
        ensures
            r.0.stream() == stream,
            r.0.pieces() == Seq::<Seq<char>>::empty(),
            r.0.sent() == seq![r.1@],
    {
        let first = stream.preamble();
        let r = (Streaming { stream, pieces: Ghost(Seq::empty()) }, first);
        assert(r.0.sent() =~= seq![first@]);
        r
    }

    /// Goes on with a piece of the reply. The result is the data of the next event,
    /// where there is one.
    pub fn piece(&mut self, piece: &str) -> (r: Option<String>)
        ensures
            final(self).stream() == old(self).stream(),
            final(self).pieces() == old(self).pieces().push(piece@),
            match r {
                Some(d) => final(self).sent() == old(self).sent().push(d@),
                None => final(self).sent() == old(self).sent(),
            },
            r is None == old(self).stream().has_tools,
    {
        let ghost before = *self;
        self.pieces = Ghost(self.pieces@.push(piece@));
        let r = self.stream.piece(piece);
        proof {
            if !before.stream.has_tools {
                assert(self.sent() =~= before.sent().push(r.unwrap()@));
            }
        }
        r
    }

    /// Ends the stream. The result is the data of the last events.
    pub fn end(self, end: StreamEnd) -> (r: Vec<String>)
        ensures
            crate::text::views(r@) == closing(self.stream(), end),
            self.sent() + crate::text::views(r@) == all_events(self.stream(), self.pieces(), end),
    {
        self.stream.close(end)
    }
}

/// A stream begins with the event that opens it, and ends with one that says so: the
/// mark of its end, or an error. Between them stand as many events as pieces were
/// streamed, and the last chunk where there was no error.
pub proof fn law_a_stream_is_opened_and_closed(
    s: Stream,
    pieces: Seq<Seq<char>>,
    end: StreamEnd,
)
    ensures
        ({
            let all = all_events(s, pieces, end);
            &&& all[0] == json::json_text(preamble_model(s))
            &&& match end {
                StreamEnd::Generated(gen) => all.last() == "[DONE]"@ && all[all.len() - 2]
                    == json::json_text(final_model(s, gen@)) && all.len() == 3 + piece_events(
                    s,
                    pieces,
                ).len(),
                StreamEnd::Failed(e) => all.last() == json::json_text(
                    stream_error_model(e@.shown()),
                ) && all.len() == 2 + piece_events(s, pieces).len(),
            }
            &&& forall|i: int|
                0 <= i < piece_events(s, pieces).len() ==> all[i + 1] == #[trigger] piece_events(
                    s,
                    pieces,
                )[i]
        }),
{
}

/// The text of the pieces that are streamed.
pub open spec fn streamed_text(s: Stream, pieces: Seq<Seq<char>>) -> Seq<char> {
    if s.has_tools {
        Seq::empty()
    } else {
        crate::text::joined(pieces)
    }
}

/// The text that the last chunk adds.
pub open spec fn final_text(s: Stream, g: ResultView) -> Seq<char> {
    match final_delta(s, g).member_text("content"@) {
        Some(t) => t,
        None => Seq::empty(),
    }
}

/// A reply without tool calls arrives whole and once: in its pieces, or in the
/// last chunk where tools were offered.
pub proof fn law_the_reply_arrives_once(s: Stream, g: ResultView, pieces: Seq<Seq<char>>)
    requires
        g.tool_calls.len() == 0,
        crate::text::joined(pieces) == g.text,
    ensures
        streamed_text(s, pieces) + final_text(s, g) == g.text,
{
    assert(streamed_text(s, pieces) + final_text(s, g) =~= g.text);
}

/// Tool calls arrive in the last chunk, whole.
pub proof fn law_tool_calls_arrive_whole(s: Stream, g: ResultView)
    requires
        g.tool_calls.len() > 0,
    ensures
        final_delta(s, g).member("tool_calls"@) == Some(JsonModel::Array(g.tool_calls)),
        final_text(s, g).len() == 0,
{
    reveal_strlit("tool_calls");
    reveal_strlit("content");
    assert("tool_calls"@.len() == 10 && "content"@.len() == 7);
}

/// A request for embeddings.
#[derive(Debug)]
pub struct EmbeddingsRequest {
    pub model: String,
    pub input: serde_json::Value,
}

/// The answer to every request for embeddings: there are none yet.
pub fn embeddings(_req: EmbeddingsRequest) -> (r: Refusal)
    ensures
        r.says(501, "embeddings not wired in v1 — chat first"@, "not_implemented"@),
{
    refusal(501, "embeddings not wired in v1 — chat first", "not_implemented")
}

/// The JSON that the server says of itself.
pub open spec fn root_model(version: Seq<char>) -> JsonModel {
    JsonModel::Object(
        json::no_members().insert("name"@, JsonModel::Str("base-mlx"@)).insert(
            "version"@,
            JsonModel::Str(version),
        ).insert(
            "endpoints"@,
            JsonModel::Array(
                seq![
                    JsonModel::Str("/v1/models"@),
                    JsonModel::Str("/v1/chat/completions"@),
                    JsonModel::Str("/v1/embeddings"@),
                ],
            ),
        ),
    )
}

/// What the server says of itself.
pub fn root(version: &str) -> (r: serde_json::Value)
    ensures
        json::json_model(r) == root_model(version@),
{
    let endpoints = vec![
        json::value_string("/v1/models".to_owned()),
        json::value_string("/v1/chat/completions".to_owned()),
        json::value_string("/v1/embeddings".to_owned()),
    ];
    assert(json::json_models(endpoints@) =~= seq![
        JsonModel::Str("/v1/models"@),
        JsonModel::Str("/v1/chat/completions"@),
        JsonModel::Str("/v1/embeddings"@),
    ]);
    let mut whole = json::map_new();
    json::put_text(&mut whole, "name", "base-mlx");
    json::put_text(&mut whole, "version", version);
    json::put(&mut whole, "endpoints", json::value_array(endpoints));
    json::value_object(whole)
}

/// The names of the members of an answer differ.
proof fn lemma_member_names()
    ensures
        "id"@ != "object"@ && "id"@ != "created"@ && "id"@ != "model"@ && "id"@ != "choices"@
            && "id"@ != "usage"@,
        "object"@ != "created"@ && "object"@ != "model"@ && "object"@ != "choices"@ && "object"@
            != "usage"@,
        "created"@ != "model"@ && "created"@ != "choices"@ && "created"@ != "usage"@,
        "model"@ != "choices"@ && "model"@ != "usage"@ && "choices"@ != "usage"@,
        "index"@ != "message"@ && "index"@ != "delta"@ && "index"@ != "finish_reason"@,
        "message"@ != "finish_reason"@ && "delta"@ != "finish_reason"@ && "message"@ != "type"@,
        "role"@ != "content"@ && "role"@ != "tool_calls"@ && "content"@ != "tool_calls"@,
        "prompt_tokens"@ != "completion_tokens"@ && "prompt_tokens"@ != "total_tokens"@
            && "completion_tokens"@ != "total_tokens"@,
        "name"@ != "version"@ && "name"@ != "endpoints"@ && "version"@ != "endpoints"@,
{
    reveal_strlit("id");
    reveal_strlit("object");
    reveal_strlit("created");
    reveal_strlit("model");
    reveal_strlit("choices");
    reveal_strlit("usage");
    reveal_strlit("index");
    reveal_strlit("message");
    reveal_strlit("delta");
    reveal_strlit("finish_reason");
    reveal_strlit("type");
    reveal_strlit("role");
    reveal_strlit("content");
    reveal_strlit("tool_calls");
    reveal_strlit("prompt_tokens");
    reveal_strlit("completion_tokens");
    reveal_strlit("total_tokens");
    reveal_strlit("name");
    reveal_strlit("version");
    reveal_strlit("endpoints");
    assert("created"@[1] == 'r' && "choices"@[1] == 'h');
    assert("model"@[0] == 'm' && "usage"@[0] == 'u');
    assert("index"@[0] == 'i' && "delta"@[0] == 'd');
    assert("id"@.len() == 2 && "object"@.len() == 6 && "created"@.len() == 7 && "model"@.len() == 5
        && "choices"@.len() == 7 && "usage"@.len() == 5);
    assert("index"@.len() == 5 && "message"@.len() == 7 && "finish_reason"@.len() == 13
        && "type"@.len() == 4);
    assert("role"@.len() == 4 && "content"@.len() == 7 && "tool_calls"@.len() == 10);
    assert("prompt_tokens"@.len() == 13 && "completion_tokens"@.len() == 17 && "total_tokens"@.len()
        == 12);
    assert("name"@.len() == 4 && "version"@.len() == 7 && "endpoints"@.len() == 9);
}

/// What a client reads of the token counts: those of the prompt and of the reply, and
/// their sum.
pub proof fn law_what_is_read_of_the_counts(g: ResultView)
    ensures
        usage_model(g).member("prompt_tokens"@) == Some(JsonModel::Int(g.prompt_tokens as int)),
        usage_model(g).member("completion_tokens"@) == Some(
            JsonModel::Int(g.completion_tokens as int),
        ),
        usage_model(g).member("total_tokens"@) == Some(
            JsonModel::Int(g.prompt_tokens + g.completion_tokens),
        ),
{
    lemma_member_names();
}

/// What a client reads of a completion: its id, when it was made, by which model, the one
/// reply with the reason for its end, and the token counts. The reply is the assistant's:
/// the tool calls, where there are any, and no text beside them; or else the text that was
/// generated, as it is unless it should have been JSON and is not.
pub proof fn law_what_is_read_of_a_completion(
    id: Seq<char>,
    created: u64,
    model: Seq<char>,
    g: ResultView,
    format: Option<JsonModel>,
)
    ensures
        ({
            let all = completion_model(id, created, model, g, format);
            &&& all.member("id"@) == Some(JsonModel::Str(id))
            &&& all.member("object"@) == Some(JsonModel::Str("chat.completion"@))
            &&& all.member("created"@) == Some(JsonModel::Int(created as int))
            &&& all.member("model"@) == Some(JsonModel::Str(model))
            &&& all.member("usage"@) == Some(usage_model(g))
            &&& all.member("choices"@) matches Some(JsonModel::Array(choices)) && {
                &&& choices.len() == 1
                &&& choices[0].member("index"@) == Some(JsonModel::Int(0))
                &&& choices[0].member("finish_reason"@) == Some(JsonModel::Str(g.finish_reason))
                &&& choices[0].member("message"@) matches Some(m) && {
                    &&& m.member("role"@) == Some(JsonModel::Str("assistant"@))
                    &&& g.tool_calls.len() > 0 ==> m.member("content"@) == Some(JsonModel::Null)
                        && m.member("tool_calls"@) == Some(JsonModel::Array(g.tool_calls))
                    &&& g.tool_calls.len() == 0 ==> m.member("tool_calls"@) is None
                    &&& g.tool_calls.len() == 0 && extract::validity(format, g.text) != Some(false)
                        ==> m.member("content"@) == Some(JsonModel::Str(g.text))
                }
            }
        }),
{
    lemma_member_names();
}

/// What a client reads of the chunks of a stream: each has the id, the time and the model
/// of the stream, and one choice. The first names the assistant; those for the pieces hold
/// the piece, and no reason for an end; the last holds that reason and the token counts.
pub proof fn law_what_is_read_of_the_chunks(s: Stream, piece: Seq<char>, g: ResultView)
    ensures
        forall|delta: JsonModel, finish: JsonModel|
            {
                let all = #[trigger] chunk_members(s, delta, finish);
                &&& all.contains_key("id"@) && all["id"@] == JsonModel::Str(s.id@)
                &&& all.contains_key("object"@) && all["object"@] == JsonModel::Str(
                    "chat.completion.chunk"@,
                )
                &&& all.contains_key("created"@) && all["created"@] == JsonModel::Int(
                    s.created as int,
                )
                &&& all.contains_key("model"@) && all["model"@] == JsonModel::Str(s.model@)
                &&& all.contains_key("choices"@)
                &&& all["choices"@] matches JsonModel::Array(choices) && {
                    &&& choices.len() == 1
                    &&& choices[0].member("index"@) == Some(JsonModel::Int(0))
                    &&& choices[0].member("delta"@) == Some(delta)
                    &&& choices[0].member("finish_reason"@) == Some(finish)
                }
            },
        exists|delta: JsonModel|
            preamble_model(s) == JsonModel::Object(
                #[trigger] chunk_members(s, delta, JsonModel::Null),
            ) && delta.member("role"@) == Some(JsonModel::Str("assistant"@))
                && delta.member("content"@) is None,
        exists|delta: JsonModel|
            piece_model(s, piece) == JsonModel::Object(
                #[trigger] chunk_members(s, delta, JsonModel::Null),
            ) && delta.member("content"@) == Some(JsonModel::Str(piece)),
        final_model(s, g).member("usage"@) == Some(usage_model(g)),
        final_model(s, g).member("choices"@) == Some(
            chunk_members(s, final_delta(s, g), JsonModel::Str(g.finish_reason))["choices"@],
        ),
{
    lemma_member_names();
    let role = JsonModel::Object(
        json::no_members().insert("role"@, JsonModel::Str("assistant"@)),
    );
    assert(preamble_model(s) == JsonModel::Object(chunk_members(s, role, JsonModel::Null)));
    let content = JsonModel::Object(json::no_members().insert("content"@, JsonModel::Str(piece)));
    assert(piece_model(s, piece) == JsonModel::Object(
        chunk_members(s, content, JsonModel::Null),
    ));
}

/// What a client reads of an error.
pub proof fn law_what_is_read_of_an_error(message: Seq<char>, kind: Seq<char>)
    ensures
        error_model(message, kind).member("error"@) matches Some(e) && e.member("message"@)
            == Some(JsonModel::Str(message)) && e.member("type"@) == Some(JsonModel::Str(kind)),
        stream_error_model(message).member("error"@) matches Some(e) && e.member("message"@)
            == Some(JsonModel::Str(message)),
{
    lemma_member_names();
}

} // verus!
