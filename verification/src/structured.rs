//! Structured output: asking a model for JSON, and finding it in the reply.

use vstd::prelude::*;

use crate::chat_template;
use crate::chat_template::{ChatMessage, MessageView};
use crate::json;
use crate::json::JsonModel;
use crate::text::{concat2, same};

verus! {

/// The kind of output that a `response_format` asks for.
pub open spec fn format_kind(format: JsonModel) -> Seq<char> {
    match format.member_text("type"@) {
        Some(t) => t,
        None => ""@,
    }
}

/// The schema that a `response_format` gives, or null.
pub open spec fn format_schema(format: JsonModel) -> JsonModel {
    match format.member("json_schema"@) {
        Some(j) => match j.member("schema"@) {
            Some(s) => s,
            None => JsonModel::Null,
        },
        None => JsonModel::Null,
    }
}

/// What a model is told so that it answers in the format that is asked for.
pub open spec fn nudge_for(format: JsonModel) -> Option<Seq<char>> {
    if format_kind(format) == "json_object"@ {
        Some(
            "\n\nIMPORTANT: respond with a single valid JSON object. No prose, no markdown fences."@,
        )
    } else if format_kind(format) == "json_schema"@ {
        Some(
            "\n\nIMPORTANT: respond with a single JSON value that conforms to this JSON Schema. No prose, no markdown fences.\nSchema:\n"@
                + json::json_text(format_schema(format)),
        )
    } else {
        None
    }
}

/// Where the first system message is.
pub open spec fn first_system(messages: Seq<MessageView>) -> int {
    choose|i: int|
        0 <= i < messages.len() && (#[trigger] messages[i]).role == "system"@ && forall|j: int|
            0 <= j < i ==> (#[trigger] messages[j]).role != "system"@
}

/// The messages with `nudge` at the end of the first system message, or in one
/// of its own, before all others, where there is none.
pub open spec fn nudged(messages: Seq<MessageView>, nudge: Seq<char>) -> Seq<MessageView> {
    if chat_template::has_system(messages) {
        let i = first_system(messages);
        messages.update(
            i,
            MessageView { role: messages[i].role, content: messages[i].content + nudge },
        )
    } else {
        seq![
            MessageView { role: "system"@, content: "You are a helpful assistant."@ + nudge },
        ] + messages
    }
}

/// The messages with what the model is told of the format, if one is asked for.
pub open spec fn formatted(messages: Seq<MessageView>, format: Option<JsonModel>) -> Seq<
    MessageView,
> {
    match format {
        Some(f) => match nudge_for(f) {
            Some(n) => nudged(messages, n),
            None => messages,
        },
        None => messages,
    }
}

/// What a model is told so that it answers in the format that is asked for.
pub fn format_nudge(format: &serde_json::Value) -> (r: Option<String>)
    ensures
        match r {
            Some(s) => nudge_for(json::json_model(*format)) == Some(s@),
            None => nudge_for(json::json_model(*format)) is None,
        },
{
    let kind = match json::member_str(format, "type") {
        Some(t) => t,
        None => "",
    };
    if same(kind, "json_object") {
        return Some(
            "\n\nIMPORTANT: respond with a single valid JSON object. No prose, no markdown fences."
                .to_owned(),
        );
    }
    if same(kind, "json_schema") {
        let schema = match json::value_get(format, "json_schema") {
            Some(j) => match json::value_get(j, "schema") {
                Some(s) => s.clone(),
                None => json::value_null(),
            },
            None => json::value_null(),
        };
        let shown = json::value_text(&schema);
        return Some(
            concat2(
                "\n\nIMPORTANT: respond with a single JSON value that conforms to this JSON Schema. No prose, no markdown fences.\nSchema:\n",
                shown.as_str(),
            ),
        );
    }
    None
}

/// Adds to the messages what the model is told of the format that is asked for.
pub fn inject_response_format(
    messages: Vec<ChatMessage>,
    response_format: Option<&serde_json::Value>,
) -> (r: Vec<ChatMessage>)
    ensures
        chat_template::message_views(r@) == formatted(
            chat_template::message_views(messages@),
            json::json_ref_model(response_format),
        ),
{
    let nudge = match response_format {
        Some(f) => format_nudge(f),
        None => None,
    };
    let nudge = match nudge {
        Some(n) => n,
        None => {
            return messages;
        },
    };
    let ghost all = chat_template::message_views(messages@);
    let mut list = messages;
    let mut i: usize = 0;
    while i < list.len()
        invariant
            i <= list@.len(),
            all == chat_template::message_views(list@),
            all == chat_template::message_views(messages@),
            forall|j: int| 0 <= j < i ==> (#[trigger] all[j]).role != "system"@,
            json::json_ref_model(response_format) matches Some(f) && nudge_for(f) == Some(nudge@),
        decreases list@.len() - i,
    {
        assert(all[i as int] == list@[i as int]@);
        if same(list[i].role.as_str(), "system") {
            let changed = ChatMessage {
                role: list[i].role.clone(),
                content: concat2(list[i].content.as_str(), nudge.as_str()),
            };
            proof {
                assert(all[i as int].role == "system"@);
                let k = first_system(all);
                if k < i {
                    assert(all[k].role != "system"@);
                }
                if i < k {
                    assert(all[i as int].role != "system"@);
                }
            }
            list.set(i, changed);
            assert(chat_template::message_views(list@) =~= nudged(all, nudge@));
            return list;
        }
        i = i + 1;
    }
    let added = ChatMessage {
        role: "system".to_owned(),
        content: concat2("You are a helpful assistant.", nudge.as_str()),
    };
    list.insert(0, added);
    assert(chat_template::message_views(list@) =~= nudged(all, nudge@));
    list
}

/// Where a format is asked for, the model is told of it in the first system
/// message, and nothing else changes.
pub proof fn law_the_model_is_told_of_the_format(
    messages: Seq<MessageView>,
    format: JsonModel,
)
    requires
        nudge_for(format) is Some,
    ensures
        ({
            let after = formatted(messages, Some(format));
            &&& chat_template::has_system(after)
            &&& nudge_for(format).unwrap().is_suffix_of(after[first_system(after)].content)
            &&& chat_template::dialogue_turns(after) == chat_template::dialogue_turns(messages)
        }),
{
    let nudge = nudge_for(format).unwrap();
    let after = formatted(messages, Some(format));
    if chat_template::has_system(messages) {
        lemma_first_system(messages);
        let i = first_system(messages);
        assert(after[i].role == "system"@);
        assert(forall|j: int| 0 <= j < i ==> after[j] == messages[j]);
        lemma_first_system_is(after, i);
        let c = messages[i].content;
        assert((c + nudge).skip((c + nudge).len() - nudge.len()) =~= nudge);
        lemma_dialogue_unchanged(messages, i, after[i]);
    } else {
        assert(after[0].role == "system"@);
        lemma_first_system_is(after, 0);
        let c = "You are a helpful assistant."@;
        assert((c + nudge).skip((c + nudge).len() - nudge.len()) =~= nudge);
        lemma_dialogue_behind_system(after[0], messages);
    }
}

proof fn lemma_first_system(messages: Seq<MessageView>)
    requires
        chat_template::has_system(messages),
    ensures
        0 <= first_system(messages) < messages.len(),
        messages[first_system(messages)].role == "system"@,
        forall|j: int|
            0 <= j < first_system(messages) ==> (#[trigger] messages[j]).role != "system"@,
{
    let k = choose|k: int| 0 <= k < messages.len() && (#[trigger] messages[k]).role == "system"@;
    lemma_some_first(messages, k);
}

proof fn lemma_some_first(messages: Seq<MessageView>, k: int)
    requires
        0 <= k < messages.len(),
        messages[k].role == "system"@,
    ensures
        exists|i: int|
            0 <= i < messages.len() && (#[trigger] messages[i]).role == "system"@ && forall|j: int|
                0 <= j < i ==> (#[trigger] messages[j]).role != "system"@,
    decreases k,
{
    if exists|j: int| 0 <= j < k && (#[trigger] messages[j]).role == "system"@ {
        let j = choose|j: int| 0 <= j < k && (#[trigger] messages[j]).role == "system"@;
        lemma_some_first(messages, j);
    } else {
        assert(messages[k].role == "system"@);
    }
}

proof fn lemma_first_system_is(messages: Seq<MessageView>, i: int)
    requires
        0 <= i < messages.len(),
        messages[i].role == "system"@,
        forall|j: int| 0 <= j < i ==> (#[trigger] messages[j]).role != "system"@,
    ensures
        chat_template::has_system(messages),
        first_system(messages) == i,
{
    assert(messages[i].role == "system"@);
    lemma_first_system(messages);
    let k = first_system(messages);
    if k < i {
        assert(messages[k].role != "system"@);
    }
    if i < k {
        assert(messages[i].role != "system"@);
    }
}

proof fn lemma_dialogue_unchanged(messages: Seq<MessageView>, i: int, m: MessageView)
    requires
        0 <= i < messages.len(),
        messages[i].role == "system"@,
        m.role == "system"@,
    ensures
        chat_template::dialogue_turns(messages.update(i, m)) == chat_template::dialogue_turns(
            messages,
        ),
    decreases messages.len(),
{
    reveal_strlit("system");
    reveal_strlit("user");
    reveal_strlit("assistant");
    assert("system"@.len() == 6 && "user"@.len() == 4 && "assistant"@.len() == 9);
    let after = messages.update(i, m);
    if i == messages.len() - 1 {
        assert(after.drop_last() =~= messages.drop_last());
    } else {
        assert(after.drop_last() =~= messages.drop_last().update(i, m));
        lemma_dialogue_unchanged(messages.drop_last(), i, m);
    }
}

proof fn lemma_dialogue_behind_system(m: MessageView, messages: Seq<MessageView>)
    requires
        m.role == "system"@,
    ensures
        chat_template::dialogue_turns(seq![m] + messages) == chat_template::dialogue_turns(
            messages,
        ),
    decreases messages.len(),
{
    reveal_strlit("system");
    reveal_strlit("user");
    reveal_strlit("assistant");
    assert("system"@.len() == 6 && "user"@.len() == 4 && "assistant"@.len() == 9);
    let all = seq![m] + messages;
    if messages.len() == 0 {
        reveal_with_fuel(chat_template::dialogue_turns, 2);
        assert(all.drop_last() =~= Seq::<MessageView>::empty());
        assert(chat_template::dialogue_turns(all) =~= Seq::<char>::empty());
    } else {
        assert(all.drop_last() =~= seq![m] + messages.drop_last());
        lemma_dialogue_behind_system(m, messages.drop_last());
    }
}

/// What a model is told of a format goes behind what the first system message says, or
/// behind the default one before all others, where there is none; and every other message
/// stays as it is, in its place.
pub proof fn law_only_the_first_system_message_grows(
    messages: Seq<MessageView>,
    nudge: Seq<char>,
    i: int,
)
    ensures
        0 <= i < messages.len() && messages[i].role == "system"@ && (forall|j: int|
            0 <= j < i ==> (#[trigger] messages[j]).role != "system"@) ==> {
            let after = nudged(messages, nudge);
            &&& after.len() == messages.len()
            &&& after[i].role == "system"@
            &&& after[i].content == messages[i].content + nudge
            &&& forall|j: int|
                0 <= j < messages.len() && j != i ==> #[trigger] after[j] == messages[j]
        },
        (forall|j: int| 0 <= j < messages.len() ==> (#[trigger] messages[j]).role != "system"@) ==> {
            let after = nudged(messages, nudge);
            &&& after.len() == messages.len() + 1
            &&& after[0].role == "system"@
            &&& after[0].content == "You are a helpful assistant."@ + nudge
            &&& after.drop_first() == messages
        },
{
    if 0 <= i < messages.len() && messages[i].role == "system"@ && (forall|j: int|
        0 <= j < i ==> (#[trigger] messages[j]).role != "system"@) {
        assert(chat_template::has_system(messages));
        lemma_first_system(messages);
        let k = first_system(messages);
        if k < i {
            assert(messages[k].role != "system"@);
        }
        if i < k {
            assert(messages[i].role != "system"@);
        }
    }
    if forall|j: int| 0 <= j < messages.len() ==> (#[trigger] messages[j]).role != "system"@ {
        assert(nudged(messages, nudge).drop_first() =~= messages);
    }
}

/// Which formats a model is told of: a JSON object, and a JSON value of a schema, which it
/// is then shown; and no other.
pub proof fn law_which_formats_are_told(format: JsonModel, messages: Seq<MessageView>)
    ensures
        format.member_text("type"@) == Some("json_object"@) ==> nudge_for(format) is Some,
        format.member_text("type"@) == Some("json_schema"@) ==> (nudge_for(format) matches Some(n)
            && (match format.member("json_schema"@) {
            Some(j) => match j.member("schema"@) {
                Some(schema) => json::json_text(schema).is_suffix_of(n),
                None => json::json_text(JsonModel::Null).is_suffix_of(n),
            },
            None => json::json_text(JsonModel::Null).is_suffix_of(n),
        })),
        format.member_text("type"@) != Some("json_object"@) && format.member_text("type"@) != Some(
            "json_schema"@,
        ) ==> formatted(messages, Some(format)) == messages,
        formatted(messages, None) == messages,
{
    reveal_strlit("");
    reveal_strlit("json_object");
    reveal_strlit("json_schema");
    assert(""@.len() == 0 && "json_object"@.len() == 11 && "json_schema"@.len() == 11);
    assert("json_object"@[5] == 'o' && "json_schema"@[5] == 's');
    if format.member_text("type"@) == Some("json_schema"@) {
        let schema = json::json_text(format_schema(format));
        let n = nudge_for(format)->0;
        assert(n.skip(n.len() - schema.len()) =~= schema);
    }
}

} // verus!
