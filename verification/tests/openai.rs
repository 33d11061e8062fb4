use base_mlx::chat_template::ChatMessage;
use base_mlx::engine::GenerationResult;
use base_mlx::error::Error;
use base_mlx::float_bits::F32;
use base_mlx::openai::{
    completion, completion_id, embeddings, error_value, oneshot_reply, plan_chat, refusal, root,
    stream_error, ChatQuery, ChatRequest, EmbeddingsRequest, Outcome, Stream, StreamEnd, Streaming,
    INVALID_JSON_HEADER,
};
use serde_json::Value;

fn value(text: &str) -> Value {
    serde_json::from_str(text).unwrap()
}

fn message(role: &str, content: &str) -> ChatMessage {
    ChatMessage { role: role.to_string(), content: content.to_string() }
}

fn request(messages: Vec<ChatMessage>) -> ChatRequest {
    ChatRequest {
        model: "m".to_string(),
        messages,
        stream: false,
        max_tokens: None,
        temperature: None,
        top_p: None,
        seed: None,
        tools: None,
        tool_choice: None,
        response_format: None,
    }
}

fn generated(text: &str, tool_calls: Vec<Value>) -> GenerationResult {
    GenerationResult {
        text: text.to_string(),
        prompt_tokens: 3,
        completion_tokens: 2,
        finish_reason: if tool_calls.is_empty() { "stop" } else { "tool_calls" }.to_string(),
        tool_calls,
    }
}

fn stream(has_tools: bool) -> Stream {
    Stream {
        id: "chatcmpl-1".to_string(),
        created: 17,
        model: "m".to_string(),
        has_tools,
    }
}

#[test]
fn a_request_without_messages_is_refused() {
    let e = plan_chat(request(Vec::new()), ChatQuery::default()).unwrap_err();
    assert_eq!(e.status, 400);
    assert_eq!(e.body.error.message, "messages is required and non-empty");
    assert_eq!(e.body.error.kind, "invalid_request");
    assert_eq!(
        error_value(&e.body),
        value(
            r#"{"error":{"message":"messages is required and non-empty",
                "type":"invalid_request"}}"#
        )
    );
}

#[test]
fn a_request_is_filled_up_with_defaults() {
    let p = plan_chat(request(vec![message("user", "hi")]), ChatQuery::default()).unwrap();
    assert_eq!(p.model, "m");
    assert_eq!(p.options.params.temperature.bits, 0.7f32.to_bits());
    assert_eq!(p.options.params.top_p.bits, 0.95f32.to_bits());
    assert_eq!(p.options.params.top_k, 64);
    assert_eq!(p.options.params.repetition_penalty.bits, 1.0f32.to_bits());
    assert_eq!(p.options.params.seed, None);
    assert!(p.options.params.grammar.is_none());
    assert_eq!(p.options.max_tokens, 512);
    assert_eq!(p.options.spec, None);
    assert!(p.options.tools.is_none());
    assert!(!p.stream);
    assert_eq!(p.messages.len(), 1);
    assert_eq!(p.messages[0].content, "hi");
}

#[test]
fn what_a_request_gives_is_kept() {
    let mut r = request(vec![message("user", "hi")]);
    r.stream = true;
    r.max_tokens = Some(9);
    r.temperature = Some(F32 { bits: 0 });
    r.top_p = Some(F32 { bits: 1.0f32.to_bits() });
    r.seed = Some(5);
    r.tools = Some(vec![Value::Null]);
    r.response_format = Some(value(r#"{"type":"json_object"}"#));
    let p = plan_chat(r, ChatQuery { spec: Some("draft".to_string()) }).unwrap();
    assert!(p.stream);
    assert_eq!(p.options.max_tokens, 9);
    assert_eq!(p.options.params.temperature.bits, 0);
    assert_eq!(p.options.params.top_p.bits, 1.0f32.to_bits());
    assert_eq!(p.options.params.seed, Some(5));
    assert_eq!(p.options.spec.as_deref(), Some("draft"));
    assert_eq!(p.options.tools, Some(vec![Value::Null]));
    assert_eq!(p.response_format, Some(value(r#"{"type":"json_object"}"#)));
    assert_eq!(p.messages.len(), 2);
    assert_eq!(p.messages[0].role, "system");
    assert_eq!(p.messages[1].content, "hi");
}

#[test]
fn an_empty_list_of_tools_offers_none() {
    for (tools, offered) in
        [(None, false), (Some(Vec::new()), false), (Some(vec![Value::Null]), true)]
    {
        let mut r = request(vec![message("user", "hi")]);
        r.tools = tools;
        let p = plan_chat(r, ChatQuery::default()).unwrap();
        assert_eq!(p.options.offers_tools(), offered);
    }
}

#[test]
fn the_id_of_a_completion() {
    assert_eq!(completion_id("abc"), "chatcmpl-abc");
}

#[test]
fn a_completion_in_json() {
    let v = completion("id", 17, "m", generated("hello", Vec::new()), None);
    assert_eq!(
        v,
        value(
            r#"{"id":"id","object":"chat.completion","created":17,"model":"m",
                "choices":[{"index":0,"message":{"role":"assistant","content":"hello"},
                    "finish_reason":"stop"}],
                "usage":{"prompt_tokens":3,"completion_tokens":2,"total_tokens":5}}"#
        )
    );
}

#[test]
fn a_completion_with_tool_calls_has_no_content() {
    let calls = vec![value(r#"{"id":"c1"}"#)];
    let v = completion("id", 17, "m", generated("hello", calls), None);
    let choice = &v["choices"][0];
    assert_eq!(choice["message"]["content"], Value::Null);
    assert_eq!(choice["message"]["tool_calls"], value(r#"[{"id":"c1"}]"#));
    assert_eq!(choice["finish_reason"], "tool_calls");
}

#[test]
fn a_reply_that_should_be_json_is_cut_down_to_it() {
    let format = value(r#"{"type":"json_object"}"#);
    let text = "Here you are: {\"a\": {\"b\": 1}} - enjoy!";
    let v = completion("id", 17, "m", generated(text, Vec::new()), Some(&format));
    assert_eq!(v["choices"][0]["message"]["content"], "{\"a\": {\"b\": 1}}");
    let text = " [1, 2] ";
    let v = completion("id", 17, "m", generated(text, Vec::new()), Some(&format));
    assert_eq!(v["choices"][0]["message"]["content"], text);
    let text = "no object";
    let v = completion("id", 17, "m", generated(text, Vec::new()), Some(&format));
    assert_eq!(v["choices"][0]["message"]["content"], text);
}

#[test]
fn the_outcomes_of_a_completion() {
    let ok = oneshot_reply(Outcome::Generated(generated("x", Vec::new())), "id", 1, "m", None);
    assert_eq!(ok.unwrap().body["id"], "id");
    let failed = Outcome::Failed(Error::ModelLoad("no".to_string()));
    let e = oneshot_reply(failed, "id", 1, "m", None).unwrap_err();
    assert_eq!((e.status, e.body.error.kind), (500, "generation_failed"));
    assert_eq!(e.body.error.message, "model load: no");
    let e = oneshot_reply(Outcome::Lost("gone".to_string()), "id", 1, "m", None).unwrap_err();
    assert_eq!((e.status, e.body.error.kind), (500, "join_error"));
    assert_eq!(e.body.error.message, "gone");
}

#[test]
fn a_reply_that_is_no_json_is_flagged() {
    let format = value(r#"{"type":"json_object"}"#);
    let flagged = |text: &str, format: Option<&serde_json::Value>| {
        let outcome = Outcome::Generated(generated(text, Vec::new()));
        oneshot_reply(outcome, "id", 1, "m", format).unwrap().invalid_json
    };
    assert!(flagged("no object", Some(&format)));
    assert!(flagged("here: {}", Some(&format)));
    assert!(!flagged(" {\"a\": 1} ", Some(&format)));
    assert!(!flagged("no object", None));
    assert!(!flagged("no object", Some(&value(r#"{"type":"text"}"#))));
    assert!(INVALID_JSON_HEADER.bytes().all(|b| b.is_ascii_lowercase() || b == b'-'));
}

#[test]
fn a_stream_is_opened_goes_on_and_is_closed() {
    let s = stream(false);
    let wanted: Vec<String> = [s.preamble()]
        .into_iter()
        .chain(["he", "llo"].iter().filter_map(|p| s.piece(p)))
        .chain(s.close(StreamEnd::Generated(generated("hello", Vec::new()))))
        .collect();
    let (mut streaming, first) = Streaming::begin(stream(false));
    let mut events = vec![first];
    events.extend(["he", "llo"].iter().filter_map(|p| streaming.piece(p)));
    events.extend(streaming.end(StreamEnd::Generated(generated("hello", Vec::new()))));
    assert_eq!(events, wanted);
    assert_eq!(events.len(), 5);
    assert_eq!(events[4], "[DONE]");

    let (mut streaming, _) = Streaming::begin(stream(true));
    assert_eq!(streaming.piece("x"), None);
    let end = streaming.end(StreamEnd::Failed(Error::Tokenizer("no".to_string())));
    assert_eq!(end.len(), 1);
    assert_eq!(value(&end[0]), value(r#"{"error":{"message":"tokenizer: no"}}"#));
}

#[test]
fn a_stream_begins_with_the_role() {
    assert_eq!(
        value(&stream(false).preamble()),
        value(
            r#"{"id":"chatcmpl-1","object":"chat.completion.chunk","created":17,"model":"m",
                "choices":[{"index":0,"delta":{"role":"assistant"},"finish_reason":null}]}"#
        )
    );
}

#[test]
fn a_stream_shows_pieces_unless_tools_are_offered() {
    assert_eq!(
        value(&stream(false).piece("ab\"c").unwrap()),
        value(
            r#"{"id":"chatcmpl-1","object":"chat.completion.chunk","created":17,"model":"m",
                "choices":[{"index":0,"delta":{"content":"ab\"c"},"finish_reason":null}]}"#
        )
    );
    assert_eq!(stream(true).piece("x"), None);
}

#[test]
fn a_stream_ends_with_the_reason_and_the_counts() {
    let end = stream(false).close(StreamEnd::Generated(generated("hello", Vec::new())));
    assert_eq!(end.len(), 2);
    assert_eq!(
        value(&end[0]),
        value(
            r#"{"id":"chatcmpl-1","object":"chat.completion.chunk","created":17,"model":"m",
                "choices":[{"index":0,"delta":{},"finish_reason":"stop"}],
                "usage":{"prompt_tokens":3,"completion_tokens":2,"total_tokens":5}}"#
        )
    );
    assert_eq!(end[1], "[DONE]");
}

#[test]
fn a_reply_that_was_held_back_comes_at_the_end() {
    let end = stream(true).close(StreamEnd::Generated(generated("hello", Vec::new())));
    assert_eq!(value(&end[0])["choices"][0]["delta"], value(r#"{"content":"hello"}"#));
}

#[test]
fn tool_calls_come_at_the_end() {
    for has_tools in [false, true] {
        let calls = vec![value(r#"{"id":"c1"}"#), value(r#"{"id":"c2"}"#)];
        let end = stream(has_tools).close(StreamEnd::Generated(generated("x", calls)));
        assert_eq!(
            value(&end[0])["choices"][0]["delta"],
            value(r#"{"tool_calls":[{"id":"c1"},{"id":"c2"}]}"#)
        );
        assert_eq!(value(&end[0])["choices"][0]["finish_reason"], "tool_calls");
    }
}

#[test]
fn a_reply_arrives_once() {
    for has_tools in [false, true] {
        let s = stream(has_tools);
        let mut seen = String::new();
        let mut events: Vec<String> = ["he", "ll", "o"].iter().filter_map(|p| s.piece(p)).collect();
        events.extend(s.close(StreamEnd::Generated(generated("hello", Vec::new()))));
        for e in &events {
            if e != "[DONE]" {
                if let Some(t) = value(e)["choices"][0]["delta"]["content"].as_str() {
                    seen.push_str(t);
                }
            }
        }
        assert_eq!(seen, "hello");
    }
}

#[test]
fn a_stream_that_fails_says_so() {
    let e = Error::Inference("KV cache exhausted".to_string());
    let expected = value(r#"{"error":{"message":"inference: KV cache exhausted"}}"#);
    assert_eq!(value(&stream_error(&e)), expected);
    let end = stream(false).close(StreamEnd::Failed(e));
    assert_eq!(end.len(), 1);
    assert_eq!(value(&end[0]), expected);
}

#[test]
fn embeddings_are_not_there_yet() {
    let e = embeddings(EmbeddingsRequest { model: "m".to_string(), input: Value::Null });
    assert_eq!(e.status, 501);
    assert_eq!(e.body.error.message, "embeddings not wired in v1 \u{2014} chat first");
    assert_eq!(e.body.error.kind, "not_implemented");
}

#[test]
fn the_server_names_its_endpoints() {
    assert_eq!(
        root("0.1.0"),
        value(
            r#"{"name":"base-mlx","version":"0.1.0",
                "endpoints":["/v1/models","/v1/chat/completions","/v1/embeddings"]}"#
        )
    );
}

#[test]
fn a_refusal_carries_what_it_is_given() {
    let r = refusal(418, "short and stout", "teapot");
    assert_eq!((r.status, r.body.error.kind), (418, "teapot"));
    assert_eq!(r.body.error.message, "short and stout");
}
