use base_mlx::chat_template::{qwen3_chat, ChatMessage};
use base_mlx::extract::{clean_reply, extract_first_json, json_valid, trim};
use base_mlx::structured::{format_nudge, inject_response_format};
use serde_json::Value;

fn value(text: &str) -> Value {
    serde_json::from_str(text).unwrap()
}

fn message(role: &str, content: &str) -> ChatMessage {
    ChatMessage { role: role.to_string(), content: content.to_string() }
}

const OBJECT: &str =
    "\n\nIMPORTANT: respond with a single valid JSON object. No prose, no markdown fences.";
const SCHEMA: &str = "\n\nIMPORTANT: respond with a single JSON value that conforms to this JSON \
                      Schema. No prose, no markdown fences.\nSchema:\n";

#[test]
fn the_nudge_for_each_format() {
    assert_eq!(format_nudge(&value(r#"{"type":"json_object"}"#)).as_deref(), Some(OBJECT));
    let schema = value(r#"{"type":"json_schema","json_schema":{"schema":{"b":1,"a":[true]}}}"#);
    assert_eq!(
        format_nudge(&schema),
        Some(format!("{SCHEMA}{}", schema["json_schema"]["schema"]))
    );
    for without in [r#"{"type":"json_schema"}"#, r#"{"type":"json_schema","json_schema":{}}"#] {
        assert_eq!(format_nudge(&value(without)), Some(format!("{SCHEMA}null")));
    }
    for none in [r#"{"type":"text"}"#, "{}", r#"{"type":3}"#, "null"] {
        assert_eq!(format_nudge(&value(none)), None);
    }
}

#[test]
fn the_nudge_goes_to_the_first_system_message() {
    let format = value(r#"{"type":"json_object"}"#);
    let out = inject_response_format(
        vec![message("user", "u"), message("system", "s"), message("system", "t")],
        Some(&format),
    );
    assert_eq!(out.len(), 3);
    assert_eq!(out[0].content, "u");
    assert_eq!(out[1].content, format!("s{OBJECT}"));
    assert_eq!(out[2].content, "t");
}

#[test]
fn the_nudge_makes_a_system_message_where_there_is_none() {
    let format = value(r#"{"type":"json_object"}"#);
    let out = inject_response_format(vec![message("user", "u")], Some(&format));
    assert_eq!(out.len(), 2);
    assert_eq!(out[0].role, "system");
    assert_eq!(out[0].content, format!("You are a helpful assistant.{OBJECT}"));
    assert_eq!(out[1].content, "u");
    assert!(qwen3_chat(&out).ends_with("<|im_start|>user\nu<|im_end|>\n<|im_start|>assistant\n"));
}

#[test]
fn without_a_format_nothing_is_said() {
    let text = value(r#"{"type":"text"}"#);
    for format in [None, Some(&text)] {
        let out = inject_response_format(vec![message("user", "u")], format);
        assert_eq!(out.len(), 1);
        assert_eq!(out[0].content, "u");
    }
}

#[test]
fn the_first_object_is_found() {
    let found = |t: &str| extract_first_json(t);
    assert_eq!(found("```json\n{\"a\":1}\n```").as_deref(), Some("{\"a\":1}"));
    assert_eq!(found("{\"a\":{\"b\":{}}} {}").as_deref(), Some("{\"a\":{\"b\":{}}}"));
    assert_eq!(found("{\"a\":\"}\"}").as_deref(), Some("{\"a\":\"}\"}"));
    assert_eq!(found("{\"a\":\"\\\"}\"} x").as_deref(), Some("{\"a\":\"\\\"}\"}"));
    assert_eq!(found("\u{1f419} {\"\u{e9}\":1}").as_deref(), Some("{\"\u{e9}\":1}"));
    assert_eq!(found("{}").as_deref(), Some("{}"));
}

#[test]
fn an_object_that_never_closes_is_not_found() {
    assert_eq!(extract_first_json("{\"a\":{}"), None);
    assert_eq!(extract_first_json("nothing"), None);
    assert_eq!(extract_first_json(""), None);
    assert_eq!(extract_first_json("\"{}\""), None);
    assert_eq!(extract_first_json("{\"a}"), None);
}

#[test]
fn a_brace_that_closes_nothing_does_not_hide_an_object() {
    assert_eq!(extract_first_json("} {\"a\":1}").as_deref(), Some("{\"a\":1}"));
    assert_eq!(extract_first_json("}"), None);
}

#[test]
fn finding_an_object_again_finds_the_same() {
    for t in ["x {\"a\":{\"b\":\"{\"}} y", "{}{}", "} {\"a\":1}"] {
        let once = extract_first_json(t).unwrap();
        assert_eq!(extract_first_json(&once), Some(once.clone()));
    }
}

#[test]
fn white_space_is_trimmed() {
    let texts = ["", " ", "a", " a b ", "\t\n\u{a0}x\u{3000}\u{2003}", "\u{200b}x", "\u{85}y\u{1680}"];
    for t in texts {
        assert_eq!(trim(t), t.trim(), "{t:?}");
    }
    for n in 0..0x3100u32 {
        if let Some(c) = char::from_u32(n) {
            let t = format!("{c}x{c}");
            assert_eq!(trim(&t), t.trim(), "{n:x}");
        }
    }
}

#[test]
fn a_reply_is_checked_where_json_was_asked_for() {
    let object = value(r#"{"type":"json_object"}"#);
    let schema = value(r#"{"type":"json_schema"}"#);
    let text = value(r#"{"type":"text"}"#);
    assert_eq!(json_valid(Some(&object), " {\"a\":1}\n"), Some(true));
    assert_eq!(json_valid(Some(&schema), "[1"), Some(false));
    assert_eq!(json_valid(Some(&schema), "3"), Some(true));
    assert_eq!(json_valid(Some(&object), ""), Some(false));
    assert_eq!(json_valid(Some(&text), "[1"), None);
    assert_eq!(json_valid(Some(&Value::Null), "[1"), None);
    assert_eq!(json_valid(None, "[1"), None);
}

#[test]
fn only_a_broken_reply_is_cleaned() {
    let reply = || "so: {}".to_string();
    assert_eq!(clean_reply(Some(false), reply()), "{}");
    assert_eq!(clean_reply(Some(true), reply()), "so: {}");
    assert_eq!(clean_reply(None, reply()), "so: {}");
    assert_eq!(clean_reply(Some(false), "none".to_string()), "none");
}
