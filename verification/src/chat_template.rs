//! Rendering a chat as the prompt of a model.

use vstd::prelude::*;
use vstd::string::*;

use crate::text::same;

verus! {

/// One message of a chat.
#[derive(Debug, Clone)]
pub struct ChatMessage {
    pub role: String,
    pub content: String,
}

/// A [`ChatMessage`] as sequences of characters.
pub struct MessageView {
    pub role: Seq<char>,
    pub content: Seq<char>,
}

impl View for ChatMessage {
    type V = MessageView;

    open spec fn view(&self) -> MessageView {
        MessageView { role: self.role@, content: self.content@ }
    }
}

/// The views of a list of messages.
pub open spec fn message_views(messages: Seq<ChatMessage>) -> Seq<MessageView> {
    messages.map_values(|m: ChatMessage| m@)
}

/// A turn of the chat: who speaks, and what.
pub open spec fn turn(role: Seq<char>, body: Seq<char>) -> Seq<char> {
    "<|im_start|>"@ + role + "\n"@ + body + "<|im_end|>\n"@
}

/// All system messages, in their order.
pub open spec fn system_turns(messages: Seq<MessageView>) -> Seq<char>
    decreases messages.len(),
{
    if messages.len() == 0 {
        Seq::empty()
    } else {
        system_turns(messages.drop_last()) + (if messages.last().role == "system"@ {
            turn("system"@, messages.last().content)
        } else {
            Seq::empty()
        })
    }
}

/// How a message that is not a system message is rendered. A role that the
/// model does not know becomes a user turn that begins with the role's name.
pub open spec fn dialogue_turn(m: MessageView) -> Seq<char> {
    if m.role == "user"@ || m.role == "assistant"@ {
        turn(m.role, m.content)
    } else if m.role == "system"@ {
        Seq::empty()
    } else {
        turn("user"@, "["@ + m.role + "] "@ + m.content)
    }
}

/// All other messages, in their order.
pub open spec fn dialogue_turns(messages: Seq<MessageView>) -> Seq<char>
    decreases messages.len(),
{
    if messages.len() == 0 {
        Seq::empty()
    } else {
        dialogue_turns(messages.drop_last()) + dialogue_turn(messages.last())
    }
}

/// Whether there is a system message.
pub open spec fn has_system(messages: Seq<MessageView>) -> bool {
    exists|i: int| 0 <= i < messages.len() && (#[trigger] messages[i]).role == "system"@
}

/// The prompt of a Qwen3 chat: the system messages, or a default one where there
/// is none; then the other messages; then the opening of the reply.
pub open spec fn qwen3_prompt(messages: Seq<MessageView>) -> Seq<char> {
    (if has_system(messages) {
        system_turns(messages)
    } else {
        turn("system"@, "You are a helpful assistant."@)
    }) + dialogue_turns(messages) + "<|im_start|>assistant\n"@
}

fn push_turn(out: &mut String, role: &str, body: &str)
    ensures
        final(out)@ == old(out)@ + turn(role@, body@),
{
    let ghost before = out@;
    out.append("<|im_start|>");
    out.append(role);
    out.append("\n");
    out.append(body);
    out.append("<|im_end|>\n");
    assert(out@ =~= before + turn(role@, body@));
}

/// Renders a chat as the prompt of a Qwen3 (Instruct) model.
pub fn qwen3_chat(messages: &[ChatMessage]) -> (r: String)
    ensures
        r@ == qwen3_prompt(message_views(messages@)),
{
    let ghost all = message_views(messages@);
    let mut out = String::new();
    let mut saw_system = false;
    let mut i: usize = 0;
    while i < messages.len()
        invariant
            i <= messages@.len(),
            all == message_views(messages@),
            out@ == system_turns(all.take(i as int)),
            saw_system == has_system(all.take(i as int)),
        decreases messages@.len() - i,
    {
        let ghost head = all.take(i as int);
        let ghost next = all.take(i + 1);
        assert(next.drop_last() =~= head);
        assert(next.last() == messages@[i as int]@);
        assert(forall|j: int| 0 <= j < i ==> next[j] == head[j]);
        let m = &messages[i];
        if same(m.role.as_str(), "system") {
            push_turn(&mut out, "system", m.content.as_str());
            saw_system = true;
            assert(next[i as int].role == "system"@);
        } else {
            assert(out@ + Seq::<char>::empty() =~= out@);
        }
        proof {
            if has_system(next) && next[i as int].role != "system"@ {
                let j = choose|j: int|
                    0 <= j < next.len() && (#[trigger] next[j]).role == "system"@;
                assert(head[j].role == "system"@);
            }
            if has_system(head) {
                let j = choose|j: int|
                    0 <= j < head.len() && (#[trigger] head[j]).role == "system"@;
                assert(next[j].role == "system"@);
            }
        }
        i = i + 1;
    }
    assert(all.take(i as int) =~= all);
    if !saw_system {
        out = String::new();
        push_turn(&mut out, "system", "You are a helpful assistant.");
        assert(out@ =~= turn("system"@, "You are a helpful assistant."@));
    }
    let ghost opening = out@;
    let mut i: usize = 0;
    assert(opening + dialogue_turns(all.take(0)) =~= opening);
    while i < messages.len()
        invariant
            i <= messages@.len(),
            all == message_views(messages@),
            out@ == opening + dialogue_turns(all.take(i as int)),
        decreases messages@.len() - i,
    {
        let ghost head = all.take(i as int);
        let ghost next = all.take(i + 1);
        assert(next.drop_last() =~= head);
        assert(next.last() == messages@[i as int]@);
        let ghost before = out@;
        let m = &messages[i];
        let role = m.role.as_str();
        if same(role, "user") || same(role, "assistant") {
            push_turn(&mut out, role, m.content.as_str());
        } else if !same(role, "system") {
            let mut body = "[".to_owned();
            body.append(role);
            body.append("] ");
            body.append(m.content.as_str());
            push_turn(&mut out, "user", body.as_str());
        }
        assert(out@ =~= before + dialogue_turn(next.last()));
        assert(out@ =~= opening + dialogue_turns(next));
        i = i + 1;
    }
    assert(all.take(i as int) =~= all);
    out.append("<|im_start|>assistant\n");
    out
}

/// A message that is no system message goes to the end of the prompt, before the opening
/// of the reply: under its own role, or under that of the user with its role in brackets,
/// where the model does not know it.
pub proof fn law_a_message_goes_before_the_reply(messages: Seq<MessageView>, m: MessageView)
    requires
        m.role != "system"@,
    ensures
        ({
            let opening = "<|im_start|>assistant\n"@;
            let before = qwen3_prompt(messages);
            let kept = before.take(before.len() - opening.len());
            &&& before == kept + opening
            &&& m.role == "user"@ ==> qwen3_prompt(messages.push(m)) == kept
                + "<|im_start|>"@ + "user"@ + "\n"@ + m.content + "<|im_end|>\n"@ + opening
            &&& m.role == "assistant"@ ==> qwen3_prompt(messages.push(m)) == kept
                + "<|im_start|>"@ + "assistant"@ + "\n"@ + m.content + "<|im_end|>\n"@ + opening
            &&& m.role != "user"@ && m.role != "assistant"@ ==> qwen3_prompt(messages.push(m))
                == kept + "<|im_start|>"@ + "user"@ + "\n"@ + ("["@ + m.role + "] "@ + m.content)
                + "<|im_end|>\n"@ + opening
        }),
{
    let all = messages.push(m);
    assert(all.drop_last() =~= messages);
    assert(has_system(all) == has_system(messages)) by {
        if has_system(messages) {
            let j = choose|j: int|
                0 <= j < messages.len() && (#[trigger] messages[j]).role == "system"@;
            assert(all[j].role == "system"@);
        }
        if has_system(all) {
            let j = choose|j: int| 0 <= j < all.len() && (#[trigger] all[j]).role == "system"@;
            assert(messages[j].role == "system"@);
        }
    }
    assert(system_turns(all) =~= system_turns(messages));
    let opening = "<|im_start|>assistant\n"@;
    let before = qwen3_prompt(messages);
    let kept = before.take(before.len() - opening.len());
    let head = (if has_system(messages) {
        system_turns(messages)
    } else {
        turn("system"@, "You are a helpful assistant."@)
    });
    assert(kept =~= head + dialogue_turns(messages));
    assert(before =~= kept + opening);
    let body = if m.role == "user"@ || m.role == "assistant"@ {
        m.content
    } else {
        "["@ + m.role + "] "@ + m.content
    };
    let role = if m.role == "assistant"@ {
        "assistant"@
    } else {
        "user"@
    };
    assert(dialogue_turn(m) == turn(role, body));
    assert(qwen3_prompt(all) =~= kept + "<|im_start|>"@ + role + "\n"@ + body + "<|im_end|>\n"@
        + opening);
}

/// A chat that begins with system messages opens with them, each in a turn of its own;
/// one with no system message opens with the default one; and where nothing else is said
/// the reply follows.
pub proof fn law_system_messages_open_the_prompt(messages: Seq<MessageView>, m: MessageView)
    requires
        forall|i: int| 0 <= i < messages.len() ==> (#[trigger] messages[i]).role == "system"@,
        m.role == "system"@,
    ensures
        ({
            let opening = "<|im_start|>assistant\n"@;
            let before = qwen3_prompt(messages);
            let kept = if messages.len() == 0 {
                Seq::empty()
            } else {
                before.take(before.len() - opening.len())
            };
            &&& qwen3_prompt(messages.push(m)) == kept + "<|im_start|>"@ + "system"@ + "\n"@
                + m.content + "<|im_end|>\n"@ + opening
            &&& qwen3_prompt(Seq::empty()) == "<|im_start|>"@ + "system"@ + "\n"@
                + "You are a helpful assistant."@ + "<|im_end|>\n"@ + opening
        }),
{
    let opening = "<|im_start|>assistant\n"@;
    let all = messages.push(m);
    let none = Seq::<MessageView>::empty();
    assert(all.drop_last() =~= messages);
    assert(all[messages.len() as int].role == "system"@);
    assert(has_system(all));
    assert(!has_system(none));
    lemma_no_dialogue(messages);
    lemma_no_dialogue(all);
    assert(qwen3_prompt(none) =~= turn("system"@, "You are a helpful assistant."@) + opening);
    let before = qwen3_prompt(messages);
    let kept = if messages.len() == 0 {
        Seq::empty()
    } else {
        before.take(before.len() - opening.len())
    };
    if messages.len() > 0 {
        assert(messages[0].role == "system"@);
        assert(has_system(messages));
        assert(kept =~= system_turns(messages));
    } else {
        assert(kept =~= system_turns(messages));
    }
    assert(qwen3_prompt(all) =~= kept + turn("system"@, m.content) + opening);
    assert(qwen3_prompt(all) =~= kept + "<|im_start|>"@ + "system"@ + "\n"@ + m.content
        + "<|im_end|>\n"@ + opening);
}

proof fn lemma_no_dialogue(messages: Seq<MessageView>)
    requires
        forall|i: int| 0 <= i < messages.len() ==> (#[trigger] messages[i]).role == "system"@,
    ensures
        dialogue_turns(messages) == Seq::<char>::empty(),
    decreases messages.len(),
{
    if messages.len() > 0 {
        assert forall|i: int| 0 <= i < messages.drop_last().len() implies (
        #[trigger] messages.drop_last()[i]).role == "system"@ by {
            assert(messages[i].role == "system"@);
        }
        lemma_no_dialogue(messages.drop_last());
        reveal_strlit("system");
        reveal_strlit("user");
        reveal_strlit("assistant");
        assert("system"@.len() == 6 && "user"@.len() == 4 && "assistant"@.len() == 9);
        assert(messages[messages.len() - 1].role == "system"@);
        assert(dialogue_turns(messages) =~= Seq::<char>::empty());
    }
}

/// Where a system message stands among the others makes no difference.
pub proof fn law_system_messages_may_stand_anywhere(
    a: Seq<MessageView>,
    s: MessageView,
    m: MessageView,
    b: Seq<MessageView>,
)
    requires
        s.role == "system"@,
        m.role != "system"@,
    ensures
        qwen3_prompt(a.push(s).push(m) + b) == qwen3_prompt(a.push(m).push(s) + b),
{
    let x = a.push(s).push(m);
    let y = a.push(m).push(s);
    assert((x + b)[a.len() as int].role == "system"@);
    assert((y + b)[a.len() as int + 1].role == "system"@);
    assert(has_system(x + b) && has_system(y + b));
    assert(x.drop_last() =~= a.push(s));
    assert(y.drop_last() =~= a.push(m));
    assert(a.push(s).drop_last() =~= a);
    assert(a.push(m).drop_last() =~= a);
    reveal_with_fuel(system_turns, 3);
    reveal_with_fuel(dialogue_turns, 3);
    reveal_strlit("system");
    reveal_strlit("user");
    reveal_strlit("assistant");
    assert("system"@.len() == 6 && "user"@.len() == 4 && "assistant"@.len() == 9);
    assert(system_turns(x) =~= system_turns(y));
    assert(dialogue_turns(x) =~= dialogue_turns(y));
    lemma_turns_go_on(x, y, b);
}

proof fn lemma_turns_go_on(x: Seq<MessageView>, y: Seq<MessageView>, b: Seq<MessageView>)
    requires
        system_turns(x) == system_turns(y),
        dialogue_turns(x) == dialogue_turns(y),
    ensures
        system_turns(x + b) == system_turns(y + b),
        dialogue_turns(x + b) == dialogue_turns(y + b),
    decreases b.len(),
{
    if b.len() == 0 {
        assert(x + b =~= x && y + b =~= y);
    } else {
        lemma_turns_go_on(x, y, b.drop_last());
        assert((x + b).drop_last() =~= x + b.drop_last());
        assert((y + b).drop_last() =~= y + b.drop_last());
        assert((x + b).last() == (y + b).last());
    }
}

} // verus!
