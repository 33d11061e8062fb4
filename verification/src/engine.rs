//! A loaded model, and what a generation comes to.

use vstd::prelude::*;

use crate::config::ModelConfig;
use crate::decoding::{
    decoded, law_decoding_is_greedy, law_how_long_a_reply_is,
    law_speculation_gives_what_the_target_gives, lemma_continuation_len, most_tokens, runs_for,
};
use crate::error::{Error, ErrorView};
use crate::flush;
use crate::json;
use crate::json::JsonModel;
use crate::sampler::SamplingParams;
use crate::speculative;
use crate::speculative::{Finish, SpecEvent, SpecView, Stage, SPEC_K};
use crate::text;
use crate::text::decimal_text;
use crate::tokenizer::{piece_text, streamed, Tokenizer};

verus! {

/// A model that is ready to generate: its configuration, its tokenizer and the
/// weights `M`.
pub struct LoadedModel<M> {
    pub cfg: ModelConfig,
    pub tokenizer: Tokenizer,
    pub model: M,
}

/// What a generation came to.
#[derive(Debug)]
pub struct GenerationResult {
    pub text: String,
    pub prompt_tokens: u32,
    pub completion_tokens: u32,
    pub finish_reason: String,
    pub tool_calls: Vec<serde_json::Value>,
}

/// A [`GenerationResult`] by what its fields hold.
pub struct ResultView {
    pub text: Seq<char>,
    pub prompt_tokens: u32,
    pub completion_tokens: u32,
    pub finish_reason: Seq<char>,
    pub tool_calls: Seq<JsonModel>,
}

impl View for GenerationResult {
    type V = ResultView;

    open spec fn view(&self) -> ResultView {
        ResultView {
            text: self.text@,
            prompt_tokens: self.prompt_tokens,
            completion_tokens: self.completion_tokens,
            finish_reason: self.finish_reason@,
            tool_calls: json::json_models(self.tool_calls@),
        }
    }
}

/// The error of two models with different vocabularies.
pub open spec fn vocab_mismatch(target: ModelConfig, draft: ModelConfig) -> ErrorView {
    ErrorView::ModelLoad(
        "draft/target vocab mismatch: target="@ + text::decimal(target.vocab_size as nat)
            + " draft="@ + text::decimal(draft.vocab_size as nat),
    )
}

/// Checks that a draft and a target share a vocabulary.
pub fn check_compatible<M, N>(target: &LoadedModel<M>, draft: &LoadedModel<N>) -> (r: Result<
    (),
    Error,
>)
    ensures
        match r {
            Ok(()) => target.cfg.vocab_size == draft.cfg.vocab_size,
            Err(e) => target.cfg.vocab_size != draft.cfg.vocab_size && e@ == vocab_mismatch(
                target.cfg,
                draft.cfg,
            ),
        },
{
    if target.cfg.vocab_size != draft.cfg.vocab_size {
        let mut m = "draft/target vocab mismatch: target=".to_owned();
        m.append(decimal_text(target.cfg.vocab_size as u64).as_str());
        m.append(" draft=");
        m.append(decimal_text(draft.cfg.vocab_size as u64).as_str());
        return Err(Error::ModelLoad(m));
    }
    Ok(())
}

/// Whether a generation can be speculative: only where the likeliest token is
/// always taken, which is where the temperature is not above zero.
pub fn can_speculate(params: &SamplingParams) -> (r: bool)
    ensures
        r == !params.temperature.positive(),
{
    !params.temperature.is_positive()
}

/// Generates with a target and a draft, by `both`, where that can be speculative,
/// and with the target alone, by `alone`, where it cannot. `state` is what either
/// works on.
pub fn generate<S, R, F: FnOnce(S) -> R, G: FnOnce(S) -> R>(
    params: &SamplingParams,
    state: S,
    alone: F,
    both: G,
) -> (r: R)
    requires
        params.temperature.positive() ==> call_requires(alone, (state,)),
        !params.temperature.positive() ==> call_requires(both, (state,)),
    ensures
        params.temperature.positive() ==> call_ensures(alone, (state,), r),
        !params.temperature.positive() ==> call_ensures(both, (state,), r),
{
    if can_speculate(params) {
        both(state)
    } else {
        alone(state)
    }
}

/// Why a generation ended, as the API says it.
pub open spec fn finish_text(finish: Finish, tool_calls: bool) -> Seq<char> {
    if tool_calls {
        "tool_calls"@
    } else {
        match finish {
            Finish::Length => "length"@,
            Finish::Stop => "stop"@,
        }
    }
}

/// What a generation came to, by what its fields hold.
pub open spec fn concluded(
    text: Seq<char>,
    tool_calls: Seq<JsonModel>,
    finish: Finish,
    prompt_len: nat,
    emitted: nat,
) -> ResultView {
    ResultView {
        text,
        prompt_tokens: prompt_len as u32,
        completion_tokens: emitted as u32,
        finish_reason: finish_text(finish, tool_calls.len() > 0),
        tool_calls,
    }
}

/// What a generation came to: the text as it is, the tool calls as they are given,
/// and the counts. A count is kept to 32 bits. A reply with tool calls ends because
/// of them.
pub fn conclude(
    text: String,
    tool_calls: Vec<serde_json::Value>,
    finish: Finish,
    prompt_len: usize,
    emitted: usize,
) -> (r: GenerationResult)
    ensures
        r.text == text,
        r.tool_calls == tool_calls,
        r.prompt_tokens == prompt_len as u32,
        r.completion_tokens == emitted as u32,
        r.finish_reason@ == finish_text(finish, tool_calls@.len() > 0),
        r@ == concluded(
            text@,
            json::json_models(tool_calls@),
            finish,
            prompt_len as nat,
            emitted as nat,
        ),
{
    let finish_reason = if tool_calls.len() > 0 {
        "tool_calls".to_owned()
    } else {
        match finish {
            Finish::Length => "length".to_owned(),
            Finish::Stop => "stop".to_owned(),
        }
    };
    GenerationResult {
        text,
        prompt_tokens: #[verifier::truncate] (prompt_len as u32),
        completion_tokens: #[verifier::truncate] (emitted as u32),
        finish_reason,
        tool_calls,
    }
}

/// Whether a result says of a reply that would end after `n` tokens how many were
/// given under the limit, and why it ended; and has no text where there are none.
pub open spec fn says(
    r: ResultView,
    prompt: Seq<u32>,
    limit: nat,
    n: nat,
    tool_calls: Seq<JsonModel>,
) -> bool {
    &&& r.prompt_tokens == prompt.len() as u32
    &&& r.completion_tokens == if n < most_tokens(limit) {
        n
    } else {
        most_tokens(limit)
    }
    &&& r.tool_calls == tool_calls
    &&& r.finish_reason == if tool_calls.len() > 0 {
        "tool_calls"@
    } else if n < most_tokens(limit) {
        "stop"@
    } else {
        "length"@
    }
    &&& n == 0 ==> r.text.len() == 0
}

/// What is said of a generation that has ended, with one model or with a draft: how
/// long the prompt is; as many tokens as come before the one that ends the reply, or as
/// the limit allows, and one at least; that the reply is complete where that token
/// comes first, and else that it was too long, unless there are tool calls; and no text
/// where the first prediction ends the reply.
pub proof fn law_what_is_said_of_a_generation(
    next: spec_fn(Seq<u32>) -> u32,
    decode: spec_fn(Seq<u32>) -> Seq<char>,
    prompt: Seq<u32>,
    limit: nat,
    n: nat,
    events: Seq<SpecEvent>,
    steps: nat,
    readings: Seq<Seq<char>>,
    tool_calls: Seq<JsonModel>,
)
    requires
        prompt.len() + limit + SPEC_K <= usize::MAX,
        limit <= u32::MAX,
        runs_for(next, prompt, limit, n),
        speculative::answers(SpecView::start(prompt.len(), limit), events),
        speculative::faithful_run(next, prompt, SpecView::start(prompt.len(), limit), events),
        speculative::run(SpecView::start(prompt.len(), limit), events).stage == Stage::Done,
        decoded(next, prompt, limit, steps).ended is Some,
        flush::piecewise(decode),
    ensures
        ({
            let both = speculative::run(SpecView::start(prompt.len(), limit), events);
            let shown = flush::shown(decode, SpecView::start(prompt.len(), limit), events);
            let r = concluded(shown, tool_calls, both.finish, prompt.len(), both.emitted.len());
            says(r, prompt, limit, n, tool_calls)
        }),
        ({
            let alone = decoded(next, prompt, limit, steps);
            let given = streamed(alone.emitted, readings).0;
            let text = given.text + piece_text(given.last_piece(decode(given.pending)));
            let r = concluded(
                text,
                tool_calls,
                alone.ended->0,
                prompt.len(),
                alone.emitted.len(),
            );
            says(r, prompt, limit, n, tool_calls)
        }),
{
    law_how_long_a_reply_is(next, prompt, limit, n);
    lemma_continuation_len(
        next,
        prompt,
        if n < most_tokens(limit) {
            n
        } else {
            most_tokens(limit)
        },
    );
    law_speculation_gives_what_the_target_gives(next, prompt, limit, events, steps);
    law_decoding_is_greedy(next, prompt, limit, steps);
    flush::law_what_is_shown_is_the_text(decode, prompt.len(), limit, events);
    flush::lemma_piecewise(decode, Seq::empty(), Seq::empty());
    if n == 0 {
        assert(decoded(next, prompt, limit, steps).emitted =~= Seq::<u32>::empty());
    }
}

} // verus!
