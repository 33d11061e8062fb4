//! Decoding with one model, token by token.

use vstd::prelude::*;

use crate::flush;
use crate::speculative;
use crate::speculative::{ends_reply, Finish, SpecEvent, SpecView, Stage, SPEC_K};
use crate::tokenizer;
use crate::tokenizer::REPLACEMENT;

verus! {

/// How far a generation is.
pub struct DecodingView {
    /// The limit on new tokens.
    pub limit: nat,
    pub emitted: Seq<u32>,
    /// Why the generation ended, once it has.
    pub ended: Option<Finish>,
}

impl DecodingView {
    /// Nothing has been predicted yet.
    pub open spec fn start(limit: nat) -> DecodingView {
        DecodingView { limit, emitted: Seq::empty(), ended: None }
    }

    /// How far the generation is after `token` was predicted. A token that ends
    /// the reply is not emitted; the first of the others is, whatever the limit.
    pub open spec fn after(self, token: u32) -> DecodingView {
        if self.ended is Some {
            self
        } else if speculative::is_eos(token) {
            DecodingView { ended: Some(Finish::Stop), ..self }
        } else {
            DecodingView {
                emitted: self.emitted.push(token),
                ended: if self.emitted.len() + 1 >= self.limit {
                    Some(Finish::Length)
                } else {
                    None
                },
                ..self
            }
        }
    }
}

/// A generation with one model.
#[derive(Debug)]
pub struct Decoding {
    limit: u32,
    emitted: Vec<u32>,
    ended: Option<Finish>,
}

impl View for Decoding {
    type V = DecodingView;

    closed spec fn view(&self) -> DecodingView {
        DecodingView { limit: self.limit as nat, emitted: self.emitted@, ended: self.ended }
    }
}

impl Decoding {
    /// A generation of at most `max_new_tokens` tokens.
    pub fn new(max_new_tokens: u32) -> (r: Self)
        ensures
            r@ == DecodingView::start(max_new_tokens as nat),
    {
        let r = Decoding { limit: max_new_tokens, emitted: Vec::new(), ended: None };
        assert(r@.emitted =~= Seq::<u32>::empty());
        r
    }

    /// The tokens emitted so far.
    pub fn emitted(&self) -> (r: &Vec<u32>)
        ensures
            r@ == self@.emitted,
    {
        &self.emitted
    }

    /// Why the generation ended, once it has.
    pub fn ended(&self) -> (r: Option<Finish>)
        ensures
            r == self@.ended,
    {
        self.ended
    }

    /// Takes the token that was predicted. The result is whether it was emitted.
    pub fn take(&mut self, token: u32) -> (r: bool)
        ensures
            final(self)@ == old(self)@.after(token),
            r == (final(self)@.emitted != old(self)@.emitted),
    {
        let ghost before = self.emitted@;
        if self.ended.is_some() {
            return false;
        }
        if ends_reply(token) {
            self.ended = Some(Finish::Stop);
            return false;
        }
        self.emitted.push(token);
        assert(self.emitted@.len() != before.len());
        if self.emitted.len() as u64 >= self.limit as u64 {
            self.ended = Some(Finish::Length);
        }
        true
    }
}

/// How far a generation is after `n` predictions of a model that predicts
/// `next(context)` after each context.
pub open spec fn decoded(
    next: spec_fn(Seq<u32>) -> u32,
    prompt: Seq<u32>,
    limit: nat,
    n: nat,
) -> DecodingView
    decreases n,
{
    if n == 0 {
        DecodingView::start(limit)
    } else {
        let s = decoded(next, prompt, limit, (n - 1) as nat);
        s.after(next(prompt + s.emitted))
    }
}

/// Decoding token by token is greedy decoding: a generation that has ended has
/// emitted what the model predicts after each of its own tokens.
pub proof fn law_decoding_is_greedy(
    next: spec_fn(Seq<u32>) -> u32,
    prompt: Seq<u32>,
    limit: nat,
    n: nat,
)
    ensures
        decoded(next, prompt, limit, n).ended matches Some(f) ==> (
            decoded(next, prompt, limit, n).emitted,
            f,
        ) == speculative::single_target(next, prompt, limit),
{
    lemma_on_course(next, prompt, limit, n);
}

proof fn lemma_on_course(
    next: spec_fn(Seq<u32>) -> u32,
    prompt: Seq<u32>,
    limit: nat,
    n: nat,
)
    ensures
        ({
            let s = decoded(next, prompt, limit, n);
            &&& s.limit == limit
            &&& match s.ended {
                Some(f) => (s.emitted, f) == speculative::single_target(next, prompt, limit),
                None => if s.emitted.len() == 0 {
                    n == 0
                } else {
                    s.emitted.len() < limit && speculative::decode_from(
                        next,
                        prompt,
                        s.emitted,
                        limit,
                    ) == speculative::single_target(next, prompt, limit)
                },
            }
        }),
    decreases n,
{
    reveal_with_fuel(speculative::decode_from, 3);
    if n > 0 {
        lemma_on_course(next, prompt, limit, (n - 1) as nat);
        let before = decoded(next, prompt, limit, (n - 1) as nat);
        let t = next(prompt + before.emitted);
        if before.ended is None && before.emitted.len() == 0 {
            assert(prompt + before.emitted =~= prompt);
            assert(before.emitted =~= Seq::<u32>::empty());
            assert(before.emitted.push(t) =~= seq![t]);
        }
    }
}

/// A generation ends: after as many predictions as the limit allows tokens, and
/// one at least.
pub proof fn law_decoding_ends(
    next: spec_fn(Seq<u32>) -> u32,
    prompt: Seq<u32>,
    limit: nat,
    n: nat,
)
    requires
        n >= limit,
        n >= 1,
    ensures
        decoded(next, prompt, limit, n).ended is Some,
{
    lemma_one_token_each(next, prompt, limit, n);
    lemma_on_course(next, prompt, limit, n);
}

proof fn lemma_one_token_each(
    next: spec_fn(Seq<u32>) -> u32,
    prompt: Seq<u32>,
    limit: nat,
    n: nat,
)
    ensures
        decoded(next, prompt, limit, n).ended is None ==> decoded(
            next,
            prompt,
            limit,
            n,
        ).emitted.len() == n,
    decreases n,
{
    if n > 0 {
        lemma_one_token_each(next, prompt, limit, (n - 1) as nat);
    }
}

/// A speculative generation and one with the target alone that have both come
/// to their end have emitted the same tokens, and ended for the same reason.
pub proof fn law_speculation_gives_what_the_target_gives(
    next: spec_fn(Seq<u32>) -> u32,
    prompt: Seq<u32>,
    limit: nat,
    events: Seq<SpecEvent>,
    n: nat,
)
    requires
        prompt.len() + limit + SPEC_K <= usize::MAX,
        limit <= u32::MAX,
        speculative::answers(SpecView::start(prompt.len(), limit), events),
        speculative::faithful_run(next, prompt, SpecView::start(prompt.len(), limit), events),
        speculative::run(SpecView::start(prompt.len(), limit), events).stage == Stage::Done,
        decoded(next, prompt, limit, n).ended is Some,
    ensures
        speculative::run(SpecView::start(prompt.len(), limit), events).emitted == decoded(
            next,
            prompt,
            limit,
            n,
        ).emitted,
        Some(speculative::run(SpecView::start(prompt.len(), limit), events).finish) == decoded(
            next,
            prompt,
            limit,
            n,
        ).ended,
{
    speculative::law_speculation_is_exact(next, prompt, limit, events);
    law_decoding_is_greedy(next, prompt, limit, n);
}

/// A speculative generation and one with the target alone that have both come to
/// their end have given the same text: that of the tokens that they emitted, but for a
/// trailing replacement character. A reply that ends inside a character is left out
/// where the tokens of that character read as more than one replacement character:
/// the speculative generation shows all of those but the last, and the other none.
pub proof fn law_speculation_shows_what_the_target_shows(
    next: spec_fn(Seq<u32>) -> u32,
    decode: spec_fn(Seq<u32>) -> Seq<char>,
    prompt: Seq<u32>,
    limit: nat,
    events: Seq<SpecEvent>,
    n: nat,
    readings: Seq<Seq<char>>,
)
    requires
        prompt.len() + limit + SPEC_K <= usize::MAX,
        limit <= u32::MAX,
        speculative::answers(SpecView::start(prompt.len(), limit), events),
        speculative::faithful_run(next, prompt, SpecView::start(prompt.len(), limit), events),
        speculative::run(SpecView::start(prompt.len(), limit), events).stage == Stage::Done,
        decoded(next, prompt, limit, n).ended is Some,
        flush::piecewise(decode),
        flush::reads(decode, decoded(next, prompt, limit, n).emitted, readings),
        flush::whole(decode(decoded(next, prompt, limit, n).emitted)) || decode(
            tokenizer::streamed(decoded(next, prompt, limit, n).emitted, readings).0.pending,
        ) == seq![REPLACEMENT],
    ensures
        ({
            let emitted = decoded(next, prompt, limit, n).emitted;
            let given = tokenizer::streamed(emitted, readings).0;
            &&& flush::shown(decode, SpecView::start(prompt.len(), limit), events) == given.text
            &&& given.text == flush::held_back(decode(emitted))
            &&& given.last_piece(decode(given.pending)) is None
        }),
{
    law_speculation_gives_what_the_target_gives(next, prompt, limit, events, n);
    flush::law_what_is_shown_is_the_text(decode, prompt.len(), limit, events);
    flush::law_the_stream_is_what_is_shown(
        decode,
        decoded(next, prompt, limit, n).emitted,
        readings,
    );
}

/// What decoding from `so_far` on comes to.
proof fn lemma_decode_from(
    next: spec_fn(Seq<u32>) -> u32,
    prompt: Seq<u32>,
    so_far: Seq<u32>,
    limit: nat,
)
    requires
        so_far.len() > 0,
        so_far.len() <= limit || so_far.len() == 1,
        greedy(next, prompt, so_far),
    ensures
        ({
            let (out, finish) = speculative::decode_from(next, prompt, so_far, limit);
            &&& out.len() >= so_far.len()
            &&& greedy(next, prompt, out)
            &&& match finish {
                Finish::Length => out.len() == limit || limit == 0 && out.len() == 1,
                Finish::Stop => out.len() < limit && speculative::is_eos(next(prompt + out)),
            }
        }),
    decreases limit - so_far.len(),
{
    let t = next(prompt + so_far);
    if so_far.len() < limit && !speculative::is_eos(t) {
        let more = so_far.push(t);
        assert forall|i: int| 0 <= i < more.len() implies #[trigger] more[i] == next(
            prompt + more.take(i),
        ) && !speculative::is_eos(more[i]) by {
            assert(more.take(i) =~= so_far.take(i));
            if i < so_far.len() {
                assert(more[i] == so_far[i]);
            } else {
                assert(so_far.take(i) =~= so_far);
            }
        }
        lemma_decode_from(next, prompt, more, limit);
    }
}

/// Whether each of `tokens` is what is predicted after the prompt and those before
/// it, and none of them ends the reply.
pub open spec fn greedy(
    next: spec_fn(Seq<u32>) -> u32,
    prompt: Seq<u32>,
    tokens: Seq<u32>,
) -> bool {
    forall|i: int|
        0 <= i < tokens.len() ==> #[trigger] tokens[i] == next(prompt + tokens.take(i))
            && !speculative::is_eos(tokens[i])
}

/// What a generation comes to: each token is the one predicted after those before
/// it, and none ends the reply. It ends with as many tokens as the limit allows, and
/// one at least, or before that, where the prediction ends the reply. Nothing is
/// emitted exactly where the first prediction does.
pub proof fn law_what_a_generation_comes_to(
    next: spec_fn(Seq<u32>) -> u32,
    prompt: Seq<u32>,
    limit: nat,
)
    ensures
        ({
            let (out, finish) = speculative::single_target(next, prompt, limit);
            &&& greedy(next, prompt, out)
            &&& (out.len() == 0) == speculative::is_eos(next(prompt))
            &&& match finish {
                Finish::Length => out.len() == limit || limit == 0 && out.len() == 1,
                Finish::Stop => (out.len() < limit || out.len() == 0) && speculative::is_eos(
                    next(prompt + out),
                ),
            }
        }),
{
    let t = next(prompt);
    if speculative::is_eos(t) {
        assert(prompt + Seq::<u32>::empty() =~= prompt);
    } else {
        let first = seq![t];
        assert(prompt + first.take(0) =~= prompt);
        lemma_decode_from(next, prompt, first, limit);
    }
}

/// The first `n` tokens that are predicted after a prompt, each after those before it.
pub open spec fn continuation(
    next: spec_fn(Seq<u32>) -> u32,
    prompt: Seq<u32>,
    n: nat,
) -> Seq<u32>
    decreases n,
{
    if n == 0 {
        Seq::empty()
    } else {
        let before = continuation(next, prompt, (n - 1) as nat);
        before.push(next(prompt + before))
    }
}

/// Whether the token predicted after `n` others ends the reply.
pub open spec fn ends_at(next: spec_fn(Seq<u32>) -> u32, prompt: Seq<u32>, n: nat) -> bool {
    speculative::is_eos(next(prompt + continuation(next, prompt, n)))
}

/// How many tokens are emitted under a limit at most.
pub open spec fn most_tokens(limit: nat) -> nat {
    if limit == 0 {
        1
    } else {
        limit
    }
}

/// Whether none of the first `n` predictions ends the reply, and the next one does or
/// is not made any more.
pub open spec fn runs_for(
    next: spec_fn(Seq<u32>) -> u32,
    prompt: Seq<u32>,
    limit: nat,
    n: nat,
) -> bool {
    &&& forall|i: nat| i < n ==> !(#[trigger] ends_at(next, prompt, i))
    &&& ends_at(next, prompt, n) || n >= most_tokens(limit)
}

/// Why a generation ends under a limit whose reply would end after `n` tokens.
pub open spec fn finish_after(limit: nat, n: nat) -> Finish {
    if n < most_tokens(limit) {
        Finish::Stop
    } else {
        Finish::Length
    }
}

/// A continuation has as many tokens as were asked for.
pub proof fn lemma_continuation_len(next: spec_fn(Seq<u32>) -> u32, prompt: Seq<u32>, n: nat)
    ensures
        continuation(next, prompt, n).len() == n,
    decreases n,
{
    if n > 0 {
        lemma_continuation_len(next, prompt, (n - 1) as nat);
    }
}

proof fn lemma_continued(
    next: spec_fn(Seq<u32>) -> u32,
    prompt: Seq<u32>,
    limit: nat,
    n: nat,
    i: nat,
)
    requires
        runs_for(next, prompt, limit, n),
        1 <= i <= n,
        i <= most_tokens(limit),
    ensures
        speculative::decode_from(next, prompt, continuation(next, prompt, i), limit) == (
            continuation(
                next,
                prompt,
                if n < most_tokens(limit) {
                    n
                } else {
                    most_tokens(limit)
                },
            ),
            finish_after(limit, n),
        ),
    decreases n - i,
{
    lemma_continuation_len(next, prompt, i);
    if i < n && i < most_tokens(limit) {
        assert(!ends_at(next, prompt, i));
        lemma_continued(next, prompt, limit, n, i + 1);
    }
}

/// How long a reply is, and why it ends: where the reply would end after `n` tokens it
/// is made of these, and ends because it is complete, unless the limit comes first.
pub proof fn law_how_long_a_reply_is(
    next: spec_fn(Seq<u32>) -> u32,
    prompt: Seq<u32>,
    limit: nat,
    n: nat,
)
    requires
        runs_for(next, prompt, limit, n),
    ensures
        speculative::single_target(next, prompt, limit) == (
            continuation(
                next,
                prompt,
                if n < most_tokens(limit) {
                    n
                } else {
                    most_tokens(limit)
                },
            ),
            finish_after(limit, n),
        ),
{
    reveal_with_fuel(continuation, 2);
    assert(prompt + Seq::<u32>::empty() =~= prompt);
    if n > 0 {
        assert(!ends_at(next, prompt, 0));
        assert(continuation(next, prompt, 1) =~= seq![next(prompt)]);
        lemma_continued(next, prompt, limit, n, 1);
    }
}

/// A token that is predicted while the generation is on ends it exactly where it is
/// `<|im_end|>` or `<|endoftext|>`, and is emitted otherwise.
pub proof fn law_two_tokens_end_a_generation(s: DecodingView, token: u32)
    requires
        s.ended is None,
    ensures
        token == 151645 || token == 151643 ==> s.after(token) == (DecodingView {
            ended: Some(Finish::Stop),
            ..s
        }),
        token != 151645 && token != 151643 ==> s.after(token).emitted == s.emitted.push(token)
            && s.after(token).ended != Some(Finish::Stop),
{
}

proof fn lemma_continuation_grows(
    next: spec_fn(Seq<u32>) -> u32,
    prompt: Seq<u32>,
    i: nat,
    n: nat,
)
    requires
        i < n,
    ensures
        continuation(next, prompt, n).len() == n,
        continuation(next, prompt, n)[i as int] == next(prompt + continuation(next, prompt, i)),
    decreases n,
{
    lemma_continuation_len(next, prompt, n);
    lemma_continuation_len(next, prompt, (n - 1) as nat);
    if i < n - 1 {
        lemma_continuation_grows(next, prompt, i, (n - 1) as nat);
    }
}

/// A generation whose predictions are neither `<|im_end|>` nor `<|endoftext|>` runs to
/// its limit, and emits them all, with one model and with two.
pub proof fn law_other_tokens_do_not_end_a_reply(
    next: spec_fn(Seq<u32>) -> u32,
    prompt: Seq<u32>,
    limit: nat,
    most: nat,
    n: nat,
    events: Seq<SpecEvent>,
)
    requires
        most == limit || limit == 0 && most == 1,
        most >= 1,
        forall|i: int|
            0 <= i < most ==> (#[trigger] continuation(next, prompt, most)[i]) != 151645
                && continuation(next, prompt, most)[i] != 151643,
        n >= limit,
        n >= 1,
    ensures
        ({
            let all = continuation(next, prompt, most);
            let one = decoded(next, prompt, limit, n);
            let two = speculative::run(SpecView::start(prompt.len(), limit), events);
            &&& one.emitted == all
            &&& one.ended == Some(Finish::Length)
            &&& prompt.len() + limit + SPEC_K <= usize::MAX && limit <= u32::MAX
                && speculative::answers(SpecView::start(prompt.len(), limit), events)
                && speculative::faithful_run(
                next,
                prompt,
                SpecView::start(prompt.len(), limit),
                events,
            ) && two.stage == Stage::Done ==> two.emitted == all && two.finish == Finish::Length
        }),
{
    let all = continuation(next, prompt, most);
    lemma_continuation_len(next, prompt, most);
    assert forall|i: nat| i < most implies !(#[trigger] ends_at(next, prompt, i)) by {
        lemma_continuation_grows(next, prompt, i, most);
        assert(all[i as int] != 151645 && all[i as int] != 151643);
    }
    lemma_comes_to(next, prompt, limit, n, most, events);
}

/// A generation ends at the first prediction that is `<|im_end|>` or `<|endoftext|>`,
/// where that comes before the limit: it has emitted all predictions before it, with one
/// model and with two.
pub proof fn law_a_reply_ends_at_the_first_end(
    next: spec_fn(Seq<u32>) -> u32,
    prompt: Seq<u32>,
    limit: nat,
    n: nat,
    length: nat,
    events: Seq<SpecEvent>,
)
    requires
        ({
            let all = continuation(next, prompt, length);
            let end = next(prompt + all);
            &&& forall|i: int| 0 <= i < all.len() ==> #[trigger] all[i] != 151645 && all[i] != 151643
            &&& end == 151645 || end == 151643
        }),
        length < limit || length == 0,
        n >= limit,
        n >= 1,
    ensures
        ({
            let all = continuation(next, prompt, length);
            let one = decoded(next, prompt, limit, n);
            let two = speculative::run(SpecView::start(prompt.len(), limit), events);
            &&& one.emitted == all
            &&& one.ended == Some(Finish::Stop)
            &&& prompt.len() + limit + SPEC_K <= usize::MAX && limit <= u32::MAX
                && speculative::answers(SpecView::start(prompt.len(), limit), events)
                && speculative::faithful_run(
                next,
                prompt,
                SpecView::start(prompt.len(), limit),
                events,
            ) && two.stage == Stage::Done ==> two.emitted == all && two.finish == Finish::Stop
        }),
{
    let all = continuation(next, prompt, length);
    lemma_continuation_len(next, prompt, length);
    assert forall|i: nat| i < length implies !(#[trigger] ends_at(next, prompt, i)) by {
        lemma_continuation_grows(next, prompt, i, length);
        assert(all[i as int] != 151645 && all[i as int] != 151643);
    }
    assert(ends_at(next, prompt, length));
    lemma_comes_to(next, prompt, limit, n, length, events);
}

/// What a generation comes to, with one model and with two.
proof fn lemma_comes_to(
    next: spec_fn(Seq<u32>) -> u32,
    prompt: Seq<u32>,
    limit: nat,
    n: nat,
    length: nat,
    events: Seq<SpecEvent>,
)
    requires
        runs_for(next, prompt, limit, length),
        length <= most_tokens(limit),
        n >= limit,
        n >= 1,
    ensures
        ({
            let all = continuation(next, prompt, length);
            let one = decoded(next, prompt, limit, n);
            let two = speculative::run(SpecView::start(prompt.len(), limit), events);
            &&& one.emitted == all
            &&& one.ended == Some(finish_after(limit, length))
            &&& prompt.len() + limit + SPEC_K <= usize::MAX && limit <= u32::MAX
                && speculative::answers(SpecView::start(prompt.len(), limit), events)
                && speculative::faithful_run(
                next,
                prompt,
                SpecView::start(prompt.len(), limit),
                events,
            ) && two.stage == Stage::Done ==> two.emitted == all && two.finish == finish_after(
                limit,
                length,
            )
        }),
{
    law_how_long_a_reply_is(next, prompt, limit, length);
    law_decoding_ends(next, prompt, limit, n);
    law_decoding_is_greedy(next, prompt, limit, n);
    let start = SpecView::start(prompt.len(), limit);
    if prompt.len() + limit + SPEC_K <= usize::MAX && limit <= u32::MAX && speculative::answers(
        start,
        events,
    ) && speculative::faithful_run(next, prompt, start, events) && speculative::run(
        start,
        events,
    ).stage == Stage::Done {
        speculative::law_speculation_is_exact(next, prompt, limit, events);
    }
}

} // verus!
