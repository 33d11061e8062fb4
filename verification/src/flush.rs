//! Showing the text of emitted tokens as it grows.

use vstd::prelude::*;
use vstd::string::*;
use vstd::utf8::*;

use crate::error::Error;
use crate::speculative;
use crate::speculative::{SpecEvent, SpecView, SPEC_K};
use crate::text::ends_with_char;
use crate::tokenizer;
use crate::tokenizer::{DecoderView, Piece, PieceView, Tokenizer, REPLACEMENT};

verus! {

/// `full` without a trailing replacement character, which may be the beginning
/// of a character that the next token completes.
pub open spec fn held_back(full: Seq<char>) -> Seq<char> {
    if full.len() > 0 && full.last() == REPLACEMENT {
        full.drop_last()
    } else {
        full
    }
}

/// Whether `full` goes on after `text` in the sense of [`flush_decoded`]: it is
/// not longer, or `text` is as long as some beginning of it.
pub open spec fn continues(full: Seq<char>, text: Seq<char>) -> bool {
    let shown = encode_utf8(held_back(full));
    let n = encode_utf8(text).len() as int;
    n < shown.len() ==> is_char_boundary(shown, n)
}

/// The part of `full` that is not in `text` yet, by length.
pub open spec fn fresh(full: Seq<char>, text: Seq<char>) -> Seq<char> {
    let shown = encode_utf8(held_back(full));
    let n = encode_utf8(text).len() as int;
    if n < shown.len() {
        decode_utf8(shown.subrange(n, shown.len() as int))
    } else {
        Seq::empty()
    }
}

/// Takes from `full`, the text of all tokens so far, what goes beyond `text`,
/// appends it to `text` and returns it as a piece that `last` completed.
pub fn flush_decoded(full: &str, text: &mut String, last: u32) -> (r: Option<Piece>)
    requires
        continues(full@, old(text)@),
    ensures
        tokenizer::piece_view(r) == (if fresh(full@, old(text)@).len() > 0 {
            Some(PieceView { text: fresh(full@, old(text)@), token: last })
        } else {
            None
        }),
        final(text)@ == old(text)@ + fresh(full@, old(text)@),
{
    broadcast use encode_utf8_decode_utf8, encode_utf8_valid_utf8;

    let ghost before = text@;
    let shown: &str = if ends_with_char(full, REPLACEMENT) {
        let n = full.unicode_len();
        let s = full.substring_char(0, n - 1);
        assert(s@ =~= full@.drop_last());
        s
    } else {
        full
    };
    assert(shown@ == held_back(full@));
    let n = text.as_str().as_bytes().len();
    let m = shown.as_bytes().len();
    if m > n {
        let (head, tail) = shown.split_at(n);
        proof {
            let rest = encode_utf8(shown@).subrange(n as int, m as int);
            assert(tail.spec_bytes() == rest);
            assert(tail@ == decode_utf8(rest));
            assert(tail@.len() > 0);
        }
        text.append(tail);
        Some(Piece { text: tail.to_owned(), token: last })
    } else {
        assert(before + Seq::<char>::empty() =~= before);
        None
    }
}

/// What a flush came to.
#[derive(Debug)]
pub enum Flush {
    /// New text.
    Piece(Piece),
    /// No new text.
    Nothing,
    /// The text shown so far ends inside a character of the new decoding.
    Torn,
}

/// Decodes `emitted` and shows the text that is new, as a piece of the last
/// emitted token. Nothing is shown when the text shown so far would end inside a
/// character of the new decoding.
pub fn flush_emitted(tokenizer: &Tokenizer, emitted: &[u32], text: &mut String) -> (r: Result<
    Flush,
    Error,
>)
    ensures
        match tokenizer.decoding(emitted@, false) {
            Ok(full) => if continues(full, old(text)@) {
                let last = if emitted@.len() > 0 {
                    emitted@.last()
                } else {
                    0
                };
                let new = fresh(full, old(text)@);
                &&& final(text)@ == old(text)@ + new
                &&& if new.len() > 0 {
                    r matches Ok(Flush::Piece(p)) && p@ == (PieceView { text: new, token: last })
                } else {
                    r matches Ok(Flush::Nothing)
                }
            } else {
                final(text)@ == old(text)@ && r matches Ok(Flush::Torn)
            },
            Err(e) => final(text)@ == old(text)@ && (r matches Err(x) && x@ == e),
        },
{
    broadcast use encode_utf8_valid_utf8;

    match tokenizer.decode(emitted, false) {
        Ok(full) => {
            let last: u32 = if emitted.len() > 0 {
                emitted[emitted.len() - 1]
            } else {
                0
            };
            if !can_flush(full.as_str(), text.as_str()) {
                return Ok(Flush::Torn);
            }
            match flush_decoded(full.as_str(), text, last) {
                Some(p) => Ok(Flush::Piece(p)),
                None => Ok(Flush::Nothing),
            }
        },
        Err(e) => Err(e),
    }
}

/// Whether `full` goes on after `text`, so that [`flush_decoded`] can be asked.
pub fn can_flush(full: &str, text: &str) -> (r: bool)
    ensures
        r == continues(full@, text@),
{
    let shown: &str = if ends_with_char(full, REPLACEMENT) {
        let n = full.unicode_len();
        let s = full.substring_char(0, n - 1);
        assert(s@ =~= full@.drop_last());
        s
    } else {
        full
    };
    let n = text.as_bytes().len();
    let m = shown.as_bytes().len();
    n >= m || shown.is_char_boundary(n)
}

/// The encoding of a text and what follows it.
proof fn lemma_encode_concat(a: Seq<char>, b: Seq<char>)
    ensures
        encode_utf8(a + b) == encode_utf8(a) + encode_utf8(b),
    decreases a.len(),
{
    if a.len() == 0 {
        assert(a + b =~= b);
        assert(encode_utf8(a) + encode_utf8(b) =~= encode_utf8(b));
    } else {
        assert((a + b).drop_first() =~= a.drop_first() + b);
        lemma_encode_concat(a.drop_first(), b);
        assert(encode_utf8(a + b) =~= encode_utf8(a) + encode_utf8(b));
    }
}

proof fn lemma_boundary_after(a: Seq<char>, b: Seq<char>)
    ensures
        is_char_boundary(encode_utf8(a + b), encode_utf8(a).len() as int),
    decreases a.len(),
{
    broadcast use encode_utf8_valid_utf8;

    if a.len() > 0 {
        let t = a.drop_first();
        assert((a + b).drop_first() =~= t + b);
        lemma_boundary_after(t, b);
        lemma_encode_concat(a, b);
        encode_utf8_first_scalar(a + b);
        let bytes = encode_utf8(a + b);
        assert((a + b)[0] == a[0]);
        assert(pop_first_scalar(bytes) =~= encode_utf8(t + b));
    }
}

/// Where a decoding extends the text shown so far, the flush shows exactly what
/// is new: afterwards the text is the decoding, but for a trailing replacement
/// character.
pub proof fn law_flush_catches_up(full: Seq<char>, text: Seq<char>)
    requires
        text.is_prefix_of(held_back(full)),
    ensures
        continues(full, text),
        text + fresh(full, text) == held_back(full),
{
    broadcast use encode_utf8_decode_utf8, encode_utf8_valid_utf8;

    let shown = held_back(full);
    let rest = shown.skip(text.len() as int);
    assert(text + rest =~= shown);
    lemma_encode_concat(text, rest);
    lemma_boundary_after(text, rest);
    let bytes = encode_utf8(shown);
    let n = encode_utf8(text).len() as int;
    assert(bytes.subrange(n, bytes.len() as int) =~= encode_utf8(rest));
    if n >= bytes.len() {
        assert(encode_utf8(rest).len() == 0);
        assert(rest == decode_utf8(encode_utf8(rest)));
        assert(rest =~= Seq::<char>::empty());
    }
}

/// The text shown after a flush of `full`.
pub open spec fn flushed(full: Seq<char>, text: Seq<char>) -> Seq<char> {
    if continues(full, text) {
        text + fresh(full, text)
    } else {
        text
    }
}

/// The text shown after the first `points[i]` tokens of `emitted` were flushed, for
/// each `i` in turn.
pub open spec fn flushed_at(
    decode: spec_fn(Seq<u32>) -> Seq<char>,
    emitted: Seq<u32>,
    points: Seq<usize>,
    text: Seq<char>,
) -> Seq<char>
    decreases points.len(),
{
    if points.len() == 0 {
        text
    } else {
        flushed(
            decode(emitted.take(points.last() as int)),
            flushed_at(decode, emitted, points.drop_last(), text),
        )
    }
}

/// The text that a speculative generation has shown after `event`, where it had shown
/// `text` before.
pub open spec fn shown_after(
    decode: spec_fn(Seq<u32>) -> Seq<char>,
    before: SpecView,
    event: SpecEvent,
    text: Seq<char>,
) -> Seq<char> {
    let emitted = before.after(event).emitted;
    match event {
        SpecEvent::Prefilled(_) => if emitted.len() > 0 {
            flushed(decode(emitted), text)
        } else {
            text
        },
        SpecEvent::Verified(preds) => flushed_at(
            decode,
            emitted,
            before.flush_points(preds),
            text,
        ),
        _ => text,
    }
}

/// The text that a speculative generation has shown after `events`.
pub open spec fn shown(
    decode: spec_fn(Seq<u32>) -> Seq<char>,
    start: SpecView,
    events: Seq<SpecEvent>,
) -> Seq<char>
    decreases events.len(),
{
    if events.len() == 0 {
        Seq::empty()
    } else {
        let head = events.drop_last();
        shown_after(
            decode,
            speculative::run(start, head),
            events.last(),
            shown(decode, start, head),
        )
    }
}

/// Whether a text does not end in a replacement character.
pub open spec fn whole(text: Seq<char>) -> bool {
    text.len() == 0 || text.last() != REPLACEMENT
}

/// Whether a decoding goes piece by piece: where the text of some tokens is whole,
/// what follows them is decoded as if it stood alone, and more tokens only add to
/// what is shown of a text.
#[verifier::opaque]
pub open spec fn piecewise(decode: spec_fn(Seq<u32>) -> Seq<char>) -> bool {
    &&& decode(Seq::empty()) == Seq::<char>::empty()
    &&& forall|a: Seq<u32>, b: Seq<u32>|
        whole(decode(a)) ==> #[trigger] decode(a + b) == decode(a) + decode(b)
    &&& forall|a: Seq<u32>, b: Seq<u32>|
        held_back(decode(a)).is_prefix_of(held_back(#[trigger] decode(a + b)))
}

/// What [`piecewise`] says of `a` and `b`.
pub proof fn lemma_piecewise(decode: spec_fn(Seq<u32>) -> Seq<char>, a: Seq<u32>, b: Seq<u32>)
    requires
        piecewise(decode),
    ensures
        decode(Seq::empty()) == Seq::<char>::empty(),
        whole(decode(a)) ==> decode(a + b) == decode(a) + decode(b),
        held_back(decode(a)).is_prefix_of(held_back(decode(a + b))),
{
    reveal(piecewise);
}

/// Flushing at growing lengths shows the text of the longest.
proof fn lemma_flushed_at(
    decode: spec_fn(Seq<u32>) -> Seq<char>,
    emitted: Seq<u32>,
    points: Seq<usize>,
    from: int,
)
    requires
        piecewise(decode),
        points.len() > 0,
        0 <= from <= points[0],
        forall|i: int, j: int| 0 <= i <= j < points.len() ==> points[i] <= points[j],
        points.last() <= emitted.len(),
    ensures
        flushed_at(decode, emitted, points, held_back(decode(emitted.take(from)))) == held_back(
            decode(emitted.take(points.last() as int)),
        ),
    decreases points.len(),
{
    let text = held_back(decode(emitted.take(from)));
    let before = points.drop_last();
    let earlier: int = if before.len() == 0 {
        from
    } else {
        before.last() as int
    };
    if before.len() > 0 {
        lemma_flushed_at(decode, emitted, before, from);
    }
    let so_far = flushed_at(decode, emitted, before, text);
    assert(so_far == held_back(decode(emitted.take(earlier))));
    let end = points.last() as int;
    assert(emitted.take(end) =~= emitted.take(earlier) + emitted.subrange(earlier, end));
    lemma_piecewise(decode, emitted.take(earlier), emitted.subrange(earlier, end));
    law_flush_catches_up(decode(emitted.take(end)), so_far);
}

/// Where what was shown before an event is the text of what was emitted, it is so
/// afterwards.
proof fn lemma_shown_after(
    decode: spec_fn(Seq<u32>) -> Seq<char>,
    before: SpecView,
    event: SpecEvent,
)
    requires
        piecewise(decode),
        before.valid(),
        before.expects(event),
    ensures
        shown_after(decode, before, event, held_back(decode(before.emitted))) == held_back(
            decode(before.after(event).emitted),
        ),
{
    let emitted = before.after(event).emitted;
    match event {
        SpecEvent::Prefilled(_) => {
            if emitted.len() > 0 {
                assert(before.emitted + emitted =~= emitted);
                lemma_piecewise(decode, before.emitted, emitted);
                law_flush_catches_up(decode(emitted), held_back(decode(before.emitted)));
            } else {
                assert(emitted =~= before.emitted);
            }
        },
        SpecEvent::Verified(preds) => {
            speculative::lemma_flush_points(before, preds);
            let points = before.flush_points(preds);
            assert(emitted.take(before.emitted.len() as int) =~= before.emitted);
            assert(emitted.take(points.last() as int) =~= emitted);
            lemma_flushed_at(decode, emitted, points, before.emitted.len() as int);
        },
        _ => {},
    }
}

/// What a speculative generation has shown is the text of what it has emitted, but
/// for a trailing replacement character.
pub proof fn law_what_is_shown_is_the_text(
    decode: spec_fn(Seq<u32>) -> Seq<char>,
    prompt_len: nat,
    limit: nat,
    events: Seq<SpecEvent>,
)
    requires
        piecewise(decode),
        prompt_len + limit + SPEC_K <= usize::MAX,
        limit <= u32::MAX,
        speculative::answers(SpecView::start(prompt_len, limit), events),
    ensures
        shown(decode, SpecView::start(prompt_len, limit), events) == held_back(
            decode(speculative::run(SpecView::start(prompt_len, limit), events).emitted),
        ),
    decreases events.len(),
{
    let start = SpecView::start(prompt_len, limit);
    if events.len() == 0 {
        lemma_piecewise(decode, Seq::empty(), Seq::empty());
    } else {
        let head = events.drop_last();
        assert forall|i: int| 0 <= i < head.len() implies speculative::run(
            start,
            head.take(i),
        ).expects(#[trigger] head[i]) by {
            assert(head.take(i) =~= events.take(i));
            assert(events[i] == head[i]);
        }
        law_what_is_shown_is_the_text(decode, prompt_len, limit, head);
        speculative::law_reachable_states_are_valid(prompt_len, limit, head);
        assert(events.take(events.len() - 1) =~= head);
        let last = events[events.len() - 1];
        lemma_shown_after(decode, speculative::run(start, head), last);
    }
}

/// Whether `readings[i]` is what the tokens kept back at step `i` read.
pub open spec fn reads_at(
    decode: spec_fn(Seq<u32>) -> Seq<char>,
    tokens: Seq<u32>,
    readings: Seq<Seq<char>>,
    i: int,
) -> bool {
    readings[i] == decode(
        tokenizer::streamed(tokens.take(i), readings).0.pending.push(tokens[i]),
    )
}

/// Whether `readings` is what the tokens kept back read, step by step.
pub open spec fn reads(
    decode: spec_fn(Seq<u32>) -> Seq<char>,
    tokens: Seq<u32>,
    readings: Seq<Seq<char>>,
) -> bool {
    forall|i: int|
        0 <= i < tokens.len() ==> #[trigger] reads_at(decode, tokens, readings, i)
}

/// What a stream has given is the text of the tokens that it does not keep back.
proof fn lemma_streamed(
    decode: spec_fn(Seq<u32>) -> Seq<char>,
    tokens: Seq<u32>,
    readings: Seq<Seq<char>>,
) -> (given: Seq<u32>)
    requires
        piecewise(decode),
        reads(decode, tokens, readings),
    ensures
        ({
            let d = tokenizer::streamed(tokens, readings).0;
            &&& tokens == given + d.pending
            &&& d.text == decode(given)
            &&& whole(decode(given))
            &&& d.pending.len() > 0 ==> !whole(decode(d.pending))
        }),
    decreases tokens.len(),
{
    lemma_piecewise(decode, Seq::empty(), Seq::empty());
    if tokens.len() == 0 {
        assert(tokens =~= Seq::<u32>::empty() + Seq::<u32>::empty());
        Seq::empty()
    } else {
        let head = tokens.drop_last();
        assert forall|i: int| 0 <= i < head.len() implies #[trigger] reads_at(
            decode,
            head,
            readings,
            i,
        ) by {
            assert(reads_at(decode, tokens, readings, i));
            assert(head.take(i) =~= tokens.take(i));
        }
        let given = lemma_streamed(decode, head, readings);
        let d = tokenizer::streamed(head, readings).0;
        let kept = d.pending.push(tokens.last());
        assert(tokens.take(tokens.len() - 1) =~= head);
        let text = readings[tokens.len() - 1];
        assert(reads_at(decode, tokens, readings, tokens.len() - 1));
        assert(text == decode(kept));
        assert(tokens =~= head.push(tokens.last()));
        assert(given + kept =~= (given + d.pending).push(tokens.last()));
        if whole(text) {
            lemma_piecewise(decode, given, kept);
            assert(tokens =~= tokens + Seq::<u32>::empty());
            tokens
        } else {
            given
        }
    }
}

/// A generation with one model gives the text of what it has emitted, and keeps no
/// token back, where that text does not end in a replacement character. Where it
/// does, the reply ends inside a character, and the tokens kept back are dropped.
pub proof fn law_the_stream_is_the_text(
    decode: spec_fn(Seq<u32>) -> Seq<char>,
    emitted: Seq<u32>,
    readings: Seq<Seq<char>>,
)
    requires
        piecewise(decode),
        reads(decode, emitted, readings),
        whole(decode(emitted)),
    ensures
        tokenizer::streamed(emitted, readings).0 == (DecoderView {
            pending: Seq::empty(),
            text: decode(emitted),
        }),
{
    let given = lemma_streamed(decode, emitted, readings);
    let d = tokenizer::streamed(emitted, readings).0;
    lemma_piecewise(decode, given, d.pending);
    assert(d.pending =~= Seq::<u32>::empty());
    assert(emitted =~= given);
}

/// What a stream gives in the end is what is shown of the text of what was emitted,
/// but for a trailing replacement character. A reply is left out whose last tokens
/// read as more than that one character where they are kept back: a stream gives
/// nothing of it, and what is shown of the text holds all of it but the last.
pub proof fn law_the_stream_is_what_is_shown(
    decode: spec_fn(Seq<u32>) -> Seq<char>,
    emitted: Seq<u32>,
    readings: Seq<Seq<char>>,
)
    requires
        piecewise(decode),
        reads(decode, emitted, readings),
        whole(decode(emitted)) || decode(tokenizer::streamed(emitted, readings).0.pending)
            == seq![REPLACEMENT],
    ensures
        ({
            let d = tokenizer::streamed(emitted, readings).0;
            &&& d.text == held_back(decode(emitted))
            &&& d.last_piece(decode(d.pending)) is None
        }),
{
    if whole(decode(emitted)) {
        law_the_stream_is_the_text(decode, emitted, readings);
    } else {
        let given = lemma_streamed(decode, emitted, readings);
        let d = tokenizer::streamed(emitted, readings).0;
        lemma_piecewise(decode, given, d.pending);
        assert(decode(emitted).drop_last() =~= d.text);
        assert(decode(d.pending)[0] == REPLACEMENT);
    }
}

/// Of a text that ends in U+FFFD that one character is held back, and no other; any other
/// text is shown whole; and nothing is shown anew of a text that is no longer than what was
/// shown.
pub proof fn law_one_character_is_held_back(text: Seq<char>, before: Seq<char>)
    ensures
        held_back(text.push('\u{FFFD}')) == text,
        text.len() > 0 && text.last() != '\u{FFFD}' ==> held_back(text) == text,
        text.len() == 0 ==> held_back(text) == text,
        encode_utf8(held_back(text)).len() <= encode_utf8(before).len() ==> fresh(text, before).len()
            == 0,
{
    assert(text.push('\u{FFFD}').drop_last() =~= text);
}

} // verus!
