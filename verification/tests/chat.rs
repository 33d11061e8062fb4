use base_mlx::chat_template::{qwen3_chat, ChatMessage};

fn message(role: &str, content: &str) -> ChatMessage {
    ChatMessage { role: role.to_string(), content: content.to_string() }
}

#[test]
fn a_chat_without_a_system_message_gets_the_default_one() {
    let prompt = qwen3_chat(&[message("user", "hi")]);
    assert_eq!(
        prompt,
        "<|im_start|>system\nYou are a helpful assistant.<|im_end|>\n\
         <|im_start|>user\nhi<|im_end|>\n\
         <|im_start|>assistant\n"
    );
}

#[test]
fn an_empty_chat_still_opens_a_reply() {
    assert_eq!(
        qwen3_chat(&[]),
        "<|im_start|>system\nYou are a helpful assistant.<|im_end|>\n<|im_start|>assistant\n"
    );
}

#[test]
fn system_messages_come_first_in_their_order() {
    let prompt = qwen3_chat(&[
        message("user", "a"),
        message("system", "one"),
        message("assistant", "b"),
        message("system", "two"),
        message("user", "c"),
    ]);
    assert_eq!(
        prompt,
        "<|im_start|>system\none<|im_end|>\n\
         <|im_start|>system\ntwo<|im_end|>\n\
         <|im_start|>user\na<|im_end|>\n\
         <|im_start|>assistant\nb<|im_end|>\n\
         <|im_start|>user\nc<|im_end|>\n\
         <|im_start|>assistant\n"
    );
}

#[test]
fn an_unknown_role_becomes_a_tagged_user_turn() {
    let prompt = qwen3_chat(&[message("system", ""), message("tool", "42")]);
    assert_eq!(
        prompt,
        "<|im_start|>system\n<|im_end|>\n\
         <|im_start|>user\n[tool] 42<|im_end|>\n\
         <|im_start|>assistant\n"
    );
}
