//! The tokenizer of a model, and the decoding of a token stream into text that
//! never breaks a character apart.

use tokenizers::Tokenizer as HfTokenizer;
use vstd::prelude::*;
use vstd::string::*;

use crate::error::{Error, ErrorView};
use crate::json::{is_unrepeated, json_parsed, unrepeated, value_parse};
use crate::text::{contains_char, ends_with_char, views};
use crate::tokenizer_json::{allows, guard_for, is_allowed, steady, steady_guard, Guard};

verus! {

/// The tokenizer of the `tokenizers` crate.
#[verifier::external_type_specification]
#[verifier::external_body]
pub struct ExTokenizer(HfTokenizer);

/// Whether `serde_json::from_str` reads a tokenizer in a text.
pub uninterp spec fn tokenizer_accepts(text: Seq<char>) -> bool;

/// Whether `serde_json::from_str` may read a text as this tokenizer, or reject it with
/// this message.
pub uninterp spec fn may_read(text: Seq<char>, r: Result<HfTokenizer, Seq<char>>) -> bool;

/// Whether a text is a steady description of a tokenizer in which no key is repeated.
/// Of parts that share a key all are read, and the last one is kept, so that nothing is
/// known of the others.
pub open spec fn runnable(text: Seq<char>) -> bool {
    json_parsed(text) matches Ok(d) && steady(d) && unrepeated(text, d)
}

/// Whether a tokenizer may have come of a runnable description.
pub open spec fn runs(tokenizer: HfTokenizer) -> bool {
    exists|text: Seq<char>| runnable(text) && #[trigger] may_read(text, Ok(tokenizer))
}

/// Whether a tokenizer may have come of a runnable description that asks this of the
/// tokens that are decoded.
pub open spec fn guarded(tokenizer: HfTokenizer, guard: Guard) -> bool {
    exists|text: Seq<char>|
        runnable(text) && guard_for(json_parsed(text)->Ok_0) == Some(guard) && #[trigger] may_read(
            text,
            Ok(tokenizer),
        )
}

/// The token that `tokenizers::Tokenizer::id_to_token` gives for an id.
pub uninterp spec fn token_of(tokenizer: HfTokenizer, id: u32) -> Option<Seq<char>>;

/// Whether `tokenizers::AddedVocabulary::is_special_token` finds a token among those
/// of a tokenizer.
pub uninterp spec fn special(tokenizer: HfTokenizer, token: Seq<char>) -> bool;

/// The tokens that are shown of `ids`: those that have one, without the special ones
/// where these are skipped.
pub open spec fn shown_tokens(
    tokenizer: HfTokenizer,
    ids: Seq<u32>,
    skip_special: bool,
) -> Seq<Seq<char>>
    decreases ids.len(),
{
    if ids.len() == 0 {
        Seq::empty()
    } else {
        let before = shown_tokens(tokenizer, ids.drop_last(), skip_special);
        match token_of(tokenizer, ids.last()) {
            Some(t) => if skip_special && special(tokenizer, t) {
                before
            } else {
                before.push(t)
            },
            None => before,
        }
    }
}

/// Whether `tokenizers::Tokenizer::encode` may give these ids for a text, or
/// this message.
pub uninterp spec fn may_encode(
    tokenizer: HfTokenizer,
    text: Seq<char>,
    add_special: bool,
    r: Result<Seq<u32>, Seq<char>>,
) -> bool;

/// What `tokenizers::Tokenizer::decode` gives for `ids`: the text, or the
/// message of its error.
pub uninterp spec fn decoded(
    tokenizer: HfTokenizer,
    ids: Seq<u32>,
    skip_special: bool,
) -> Result<Seq<char>, Seq<char>>;

/// Calls `serde_json::from_str` for a `tokenizers::Tokenizer`. The contract says
/// that the text alone decides whether it succeeds, and names what may come of
/// it. More than one tokenizer may: where a vocabulary gives one id to two tokens, a
/// hash map's order decides which of them the id stands for.
#[verifier::external_body]
fn tokenizer_parse(text: &str) -> (r: Result<HfTokenizer, String>)
    requires
        runnable(text@),
    ensures
        r is Ok == tokenizer_accepts(text@),
        match r {
            Ok(t) => may_read(text@, Ok(t)),
            Err(e) => may_read(text@, Err(e@)),
        },
{
    serde_json::from_str::<HfTokenizer>(text).map_err(|e| e.to_string())
}

/// Calls `tokenizers::Tokenizer::encode` and takes the ids of its result. The
/// contract names what may come of it, which need not be one thing: a byte-pair
/// model with merge dropout draws random numbers. Where a description has a text split,
/// or parts of it replaced, by a regular expression, a search that takes too long ends
/// there, and the rest of the text counts as one without a match.
#[verifier::external_body]
fn tokenizer_encode(t: &HfTokenizer, text: &str, add_special: bool) -> (r: Result<
    Vec<u32>,
    String,
>)
    requires
        runs(*t),
    ensures
        match r {
            Ok(ids) => may_encode(*t, text@, add_special, Ok(ids@)),
            Err(e) => may_encode(*t, text@, add_special, Err(e@)),
        },
{
    t.encode(text, add_special).map(|e| e.get_ids().to_vec()).map_err(|e| e.to_string())
}

/// Calls `tokenizers::Tokenizer::id_to_token`. The contract names the token that it
/// gives.
#[verifier::external_body]
fn tokenizer_token(t: &HfTokenizer, id: u32) -> (r: Option<String>)
    ensures
        match r {
            Some(s) => token_of(*t, id) == Some(s@),
            None => token_of(*t, id) is None,
        },
{
    t.id_to_token(id)
}

/// Calls `tokenizers::AddedVocabulary::is_special_token` of a tokenizer's added
/// vocabulary. The contract names what it says.
#[verifier::external_body]
fn tokenizer_is_special(t: &HfTokenizer, token: &str) -> (r: bool)
    ensures
        r == special(*t, token@),
{
    t.get_added_vocabulary().is_special_token(token)
}

/// Calls `tokenizers::Tokenizer::decode`. The contract names its result, which
/// the tokenizer, the ids and the flag decide. The tokens of the ids must be such that
/// the decoder can be run on them.
#[verifier::external_body]
fn tokenizer_decode(t: &HfTokenizer, ids: &[u32], skip_special: bool) -> (r: Result<
    String,
    String,
>)
    requires
        exists|guard: Guard| #[trigger]
            guarded(*t, guard) && allows(guard, shown_tokens(*t, ids@, skip_special)),
    ensures
        match r {
            Ok(s) => decoded(*t, ids@, skip_special) == Ok::<Seq<char>, Seq<char>>(s@),
            Err(e) => decoded(*t, ids@, skip_special) == Err::<Seq<char>, Seq<char>>(e@),
        },
{
    t.decode(ids, skip_special).map_err(|e| e.to_string())
}

/// The tokens that are shown of `ids`.
fn list_tokens(t: &HfTokenizer, ids: &[u32], skip_special: bool) -> (r: Vec<String>)
    ensures
        views(r@) == shown_tokens(*t, ids@, skip_special),
{
    let mut tokens: Vec<String> = Vec::new();
    let mut i: usize = 0;
    assert(ids@.take(0) =~= Seq::<u32>::empty());
    assert(views(tokens@) =~= Seq::<Seq<char>>::empty());
    while i < ids.len()
        invariant
            i <= ids@.len(),
            views(tokens@) == shown_tokens(*t, ids@.take(i as int), skip_special),
        decreases ids@.len() - i,
    {
        let ghost before = tokens@;
        assert(ids@.take(i + 1).drop_last() =~= ids@.take(i as int));
        assert(ids@.take(i + 1).last() == ids@[i as int]);
        if let Some(token) = tokenizer_token(t, ids[i]) {
            if !(skip_special && tokenizer_is_special(t, token.as_str())) {
                let ghost shown = token@;
                tokens.push(token);
                assert(views(tokens@) =~= views(before).push(shown));
            }
        }
        i = i + 1;
    }
    assert(ids@.take(i as int) =~= ids@);
    tokens
}

/// The message for a description that is not run.
pub const UNSUPPORTED: &'static str = "unsupported tokenizer description";

/// The message for ids whose tokens a decoder cannot be run on.
pub const UNDECODABLE: &'static str = "tokens cannot be decoded";

/// A model's tokenizer.
pub struct Tokenizer {
    inner: HfTokenizer,
    guard: Guard,
}

impl Tokenizer {
    /// Whether the tokens of `ids` are such that the decoder can be run on them: always,
    /// but for one that takes a suffix off the last token, which must be there, and one
    /// that strips the end of a token, which must be long enough.
    pub closed spec fn decodable(&self, ids: Seq<u32>, skip_special: bool) -> bool {
        allows(self.guard, shown_tokens(self.inner, ids, skip_special))
    }

    /// What decoding `ids` gives.
    pub closed spec fn decoding(&self, ids: Seq<u32>, skip_special: bool) -> Result<
        Seq<char>,
        ErrorView,
    > {
        if !self.decodable(ids, skip_special) {
            Err(ErrorView::Tokenizer(UNDECODABLE@))
        } else {
            match decoded(self.inner, ids, skip_special) {
                Ok(s) => Ok(s),
                Err(e) => Err(ErrorView::Tokenizer(e)),
            }
        }
    }

    /// Whether encoding `text` may give these ids, or this error.
    pub closed spec fn may_give(
        &self,
        text: Seq<char>,
        add_special: bool,
        r: Result<Seq<u32>, ErrorView>,
    ) -> bool {
        match r {
            Ok(ids) => may_encode(self.inner, text, add_special, Ok(ids)),
            Err(ErrorView::Tokenizer(e)) => may_encode(self.inner, text, add_special, Err(e)),
            Err(_) => false,
        }
    }

    /// Whether a text may be read as this tokenizer.
    pub closed spec fn may_come_of(&self, text: Seq<char>) -> bool {
        may_read(text, Ok(self.inner))
    }

    /// Every tokenizer came of a runnable description, which asks what is asked of the
    /// tokens that are decoded.
    #[verifier::type_invariant]
    spec fn may_be_run(self) -> bool {
        guarded(self.inner, self.guard)
    }

    /// The tokenizer that the text of a `tokenizer.json` describes. It is an error
    /// where the text is no JSON, where it asks for what the `tokenizers` crate cannot be
    /// trusted to run, or gives a key twice, and where that crate rejects it.
    pub fn from_json(json: &str) -> (r: Result<Self, Error>)
        ensures
            r is Ok == (runnable(json@) && tokenizer_accepts(json@)),
            match r {
                Ok(t) => t.may_come_of(json@),
                Err(e) => e@ matches ErrorView::Tokenizer(m) && match json_parsed(json@) {
                    Err(reason) => m == reason,
                    Ok(_) => if runnable(json@) {
                        may_read(json@, Err(m))
                    } else {
                        m == UNSUPPORTED@
                    },
                },
            },
    {
        let d = match value_parse(json) {
            Ok(d) => d,
            Err(e) => return Err(Error::Tokenizer(e)),
        };
        let guard = match steady_guard(&d) {
            Some(guard) => guard,
            None => return Err(Error::Tokenizer(UNSUPPORTED.to_owned())),
        };
        if !is_unrepeated(json, &d) {
            return Err(Error::Tokenizer(UNSUPPORTED.to_owned()));
        }
        match tokenizer_parse(json) {
            Ok(inner) => Ok(Tokenizer { inner, guard }),
            Err(e) => Err(Error::Tokenizer(e)),
        }
    }

    /// The ids of the tokens of `text`.
    pub fn encode(&self, text: &str, add_special: bool) -> (r: Result<Vec<u32>, Error>)
        ensures
            match r {
                Ok(ids) => self.may_give(text@, add_special, Ok(ids@)),
                Err(e) => self.may_give(text@, add_special, Err(e@)),
            },
            r matches Err(e) ==> e@ is Tokenizer,
    {
        proof {
            use_type_invariant(self);
        }
        match tokenizer_encode(&self.inner, text, add_special) {
            Ok(ids) => Ok(ids),
            Err(e) => Err(Error::Tokenizer(e)),
        }
    }

    /// The text of the tokens `ids`. It is an error where the `tokenizers` crate says
    /// so, and where its decoder cannot be run on these tokens.
    pub fn decode(&self, ids: &[u32], skip_special: bool) -> (r: Result<String, Error>)
        ensures
            match r {
                Ok(s) => self.decoding(ids@, skip_special) == Ok::<Seq<char>, ErrorView>(s@),
                Err(e) => self.decoding(ids@, skip_special) == Err::<Seq<char>, ErrorView>(e@),
            },
            r matches Err(e) ==> e@ is Tokenizer,
            !self.decodable(ids@, skip_special) ==> (r matches Err(e) && e@
                == ErrorView::Tokenizer(UNDECODABLE@)),
    {
        proof {
            use_type_invariant(self);
        }
        if self.guard != Guard::Free {
            let tokens = list_tokens(&self.inner, ids, skip_special);
            if !is_allowed(self.guard, &tokens) {
                return Err(Error::Tokenizer(UNDECODABLE.to_owned()));
            }
        }
        match tokenizer_decode(&self.inner, ids, skip_special) {
            Ok(s) => Ok(s),
            Err(e) => Err(Error::Tokenizer(e)),
        }
    }
}

/// What a decoder shows where bytes do not make up a character.
pub const REPLACEMENT: char = '\u{FFFD}';

/// A piece of text that became complete, with the token that completed it.
#[derive(Debug)]
pub struct Piece {
    pub text: String,
    pub token: u32,
}

/// A [`Piece`] with its text as a sequence of characters.
pub struct PieceView {
    pub text: Seq<char>,
    pub token: u32,
}

impl View for Piece {
    type V = PieceView;

    open spec fn view(&self) -> PieceView {
        PieceView { text: self.text@, token: self.token }
    }
}

/// The view of an optional piece.
pub open spec fn piece_view(p: Option<Piece>) -> Option<PieceView> {
    match p {
        Some(x) => Some(x@),
        None => None,
    }
}

/// The text of an optional piece; empty where there is none.
pub open spec fn piece_text(p: Option<PieceView>) -> Seq<char> {
    match p {
        Some(x) => x.text,
        None => Seq::empty(),
    }
}

/// Turns tokens into text as they come. Tokens that end in the middle of a
/// character are kept back until the character is complete.
#[derive(Debug)]
pub struct Utf8TokenDecoder {
    pending: Vec<u32>,
    text: String,
}

/// What a [`Utf8TokenDecoder`] holds.
pub struct DecoderView {
    /// The tokens that are kept back.
    pub pending: Seq<u32>,
    /// The text of all pieces so far.
    pub text: Seq<char>,
}

impl View for Utf8TokenDecoder {
    type V = DecoderView;

    closed spec fn view(&self) -> DecoderView {
        DecoderView { pending: self.pending@, text: self.text@ }
    }
}

impl DecoderView {
    /// With `token` kept back too.
    pub open spec fn with(self, token: u32) -> DecoderView {
        DecoderView { pending: self.pending.push(token), ..self }
    }

    /// The piece that is due when the kept tokens read `text` and `token` was
    /// the last of them.
    pub open spec fn due(text: Seq<char>, token: u32) -> Option<PieceView> {
        if text.len() > 0 && text.last() != REPLACEMENT {
            Some(PieceView { text, token })
        } else {
            None
        }
    }

    /// The state after the kept tokens were found to read `text`.
    pub open spec fn settled(self, text: Seq<char>) -> DecoderView {
        if text.len() > 0 && text.last() == REPLACEMENT {
            self
        } else {
            DecoderView { pending: Seq::empty(), text: self.text + text }
        }
    }

    /// The last piece, when the kept tokens read `text` at the end of the stream.
    pub open spec fn last_piece(self, text: Seq<char>) -> Option<PieceView> {
        if self.pending.len() > 0 && !text.contains(REPLACEMENT) {
            Some(PieceView { text, token: 0 })
        } else {
            None
        }
    }
}

impl Utf8TokenDecoder {
    /// A decoder that has seen nothing yet.
    pub fn new() -> (r: Self)
        ensures
            r@ == (DecoderView { pending: Seq::empty(), text: Seq::empty() }),
    {
        Utf8TokenDecoder { pending: Vec::new(), text: String::new() }
    }

    /// Takes the next token. The result is the piece that it completes, if any.
    pub fn push(&mut self, tokenizer: &Tokenizer, token_id: u32) -> (r: Result<
        Option<Piece>,
        Error,
    >)
        ensures
            ({
                let kept = old(self)@.with(token_id);
                match tokenizer.decoding(kept.pending, false) {
                    Ok(text) => {
                        &&& r matches Ok(p)
                        &&& piece_view(p) == DecoderView::due(text, token_id)
                        &&& final(self)@ == kept.settled(text)
                    },
                    Err(e) => {
                        &&& r matches Err(x)
                        &&& x@ == e
                        &&& e is Tokenizer
                        &&& final(self)@ == kept
                    },
                }
            }),
    {
        self.pending.push(token_id);
        match tokenizer.decode(self.pending.as_slice(), false) {
            Ok(text) => Ok(self.settle(text, token_id)),
            Err(e) => Err(e),
        }
    }

    /// Goes on when the kept tokens, the last of which is `token_id`, read
    /// `text`.
    pub fn settle(&mut self, text: String, token_id: u32) -> (r: Option<Piece>)
        ensures
            piece_view(r) == DecoderView::due(text@, token_id),
            final(self)@ == old(self)@.settled(text@),
    {
        if ends_with_char(text.as_str(), REPLACEMENT) {
            return None;
        }
        self.text.append(text.as_str());
        self.pending.clear();
        assert(self@.pending =~= Seq::<u32>::empty());
        if text.as_str().is_empty() {
            None
        } else {
            Some(Piece { text, token: token_id })
        }
    }

    /// Ends the stream. The result is the whole text, and the last piece if
    /// tokens were kept back and read without a gap.
    pub fn finish(self, tokenizer: &Tokenizer) -> (r: Result<(String, Option<Piece>), Error>)
        ensures
            if self@.pending.len() == 0 {
                r matches Ok((text, piece)) && text@ == self@.text && piece is None
            } else {
                match tokenizer.decoding(self@.pending, false) {
                    Ok(rest) => {
                        &&& r matches Ok((text, piece))
                        &&& piece_view(piece) == self@.last_piece(rest)
                        &&& text@ == self@.text + piece_text(self@.last_piece(rest))
                    },
                    Err(e) => r matches Err(x) && x@ == e && e is Tokenizer,
                }
            },
    {
        if self.pending.len() == 0 {
            return Ok((self.text, None));
        }
        match tokenizer.decode(self.pending.as_slice(), false) {
            Ok(rest) => Ok(self.conclude(rest)),
            Err(e) => Err(e),
        }
    }

    /// Ends the stream when the kept tokens read `rest`.
    pub fn conclude(self, rest: String) -> (r: (String, Option<Piece>))
        ensures
            piece_view(r.1) == self@.last_piece(rest@),
            r.0@ == self@.text + piece_text(self@.last_piece(rest@)),
    {
        let mut text = self.text;
        if self.pending.len() == 0 || contains_char(rest.as_str(), REPLACEMENT) {
            assert(text@ + Seq::<char>::empty() =~= text@);
            return (text, None);
        }
        text.append(rest.as_str());
        (text, Some(Piece { text: rest, token: 0 }))
    }
}

/// The state and the pieces after tokens were pushed one by one, where
/// `readings[i]` is what the tokens kept back at step `i` read.
pub open spec fn streamed(tokens: Seq<u32>, readings: Seq<Seq<char>>) -> (
    DecoderView,
    Seq<Option<PieceView>>,
)
    decreases tokens.len(),
{
    if tokens.len() == 0 {
        (DecoderView { pending: Seq::empty(), text: Seq::empty() }, Seq::empty())
    } else {
        let (d, pieces) = streamed(tokens.drop_last(), readings);
        let text = readings[tokens.len() - 1];
        (d.with(tokens.last()).settled(text), pieces.push(DecoderView::due(text, tokens.last())))
    }
}

/// The texts of `pieces` in a row.
pub open spec fn pieces_text(pieces: Seq<Option<PieceView>>) -> Seq<char>
    decreases pieces.len(),
{
    if pieces.len() == 0 {
        Seq::empty()
    } else {
        pieces_text(pieces.drop_last()) + piece_text(pieces.last())
    }
}

/// Streaming never breaks a character apart and loses nothing: the pieces in a
/// row are the decoder's text, and no piece ends in a replacement character.
pub proof fn law_pieces_make_the_text(tokens: Seq<u32>, readings: Seq<Seq<char>>)
    ensures
        streamed(tokens, readings).0.text == pieces_text(streamed(tokens, readings).1),
        forall|i: int|
            0 <= i < streamed(tokens, readings).1.len() ==> (#[trigger] streamed(
                tokens,
                readings,
            ).1[i] matches Some(p) ==> p.text.len() > 0 && p.text.last() != REPLACEMENT),
    decreases tokens.len(),
{
    if tokens.len() > 0 {
        law_pieces_make_the_text(tokens.drop_last(), readings);
        let (d, pieces) = streamed(tokens.drop_last(), readings);
        let text = readings[tokens.len() - 1];
        let all = pieces.push(DecoderView::due(text, tokens.last()));
        assert(all.drop_last() =~= pieces);
        assert(d.text + Seq::<char>::empty() =~= d.text);
        if text.len() == 0 {
            assert(text =~= Seq::<char>::empty());
        }
    }
}

/// Tokens that read as a text which ends inside a character, and so in U+FFFD, are kept
/// back, and nothing is given; any other text is given whole, under the last token, unless
/// it is empty, and nothing is kept back.
pub proof fn law_what_is_kept_back(d: DecoderView, token: u32, text: Seq<char>)
    ensures
        ({
            let kept = d.with(token);
            let broken = text.len() > 0 && text.last() == '\u{FFFD}';
            &&& kept.pending == d.pending.push(token) && kept.text == d.text
            &&& broken ==> kept.settled(text) == kept && DecoderView::due(text, token) is None
            &&& !broken ==> kept.settled(text).pending.len() == 0 && kept.settled(text).text
                == d.text + text
            &&& !broken && text.len() > 0 ==> DecoderView::due(text, token) == Some(
                PieceView { text, token },
            )
            &&& text.len() == 0 ==> DecoderView::due(text, token) is None
        }),
{
}

/// At the end of a stream the tokens that were kept back are given, if there are any and
/// they read as whole characters, and else dropped.
pub proof fn law_what_is_given_at_the_end(d: DecoderView, text: Seq<char>)
    ensures
        d.pending.len() > 0 && !text.contains('\u{FFFD}') ==> piece_text(d.last_piece(text))
            == text && d.last_piece(text) is Some,
        d.pending.len() == 0 || text.contains('\u{FFFD}') ==> d.last_piece(text) is None,
{
}

/// What is shown of two stretches of ids is what is shown of each; of one id its token is
/// shown, unless it has none, or special tokens are skipped and it is one.
pub proof fn law_tokens_are_shown_one_by_one(
    tokenizer: HfTokenizer,
    a: Seq<u32>,
    b: Seq<u32>,
    id: u32,
    skip_special: bool,
)
    ensures
        shown_tokens(tokenizer, a + b, skip_special) == shown_tokens(tokenizer, a, skip_special)
            + shown_tokens(tokenizer, b, skip_special),
        match token_of(tokenizer, id) {
            Some(t) => shown_tokens(tokenizer, seq![id], skip_special) == if skip_special
                && special(tokenizer, t) {
                Seq::empty()
            } else {
                seq![t]
            },
            None => shown_tokens(tokenizer, seq![id], skip_special).len() == 0,
        },
    decreases b.len(),
{
    reveal_with_fuel(shown_tokens, 2);
    assert(seq![id].drop_last() =~= Seq::<u32>::empty());
    if token_of(tokenizer, id) is Some {
        let t = token_of(tokenizer, id)->0;
        assert(Seq::<Seq<char>>::empty().push(t) =~= seq![t]);
    }
    if b.len() == 0 {
        assert(a + b =~= a);
        assert(shown_tokens(tokenizer, a + b, skip_special) =~= shown_tokens(
            tokenizer,
            a,
            skip_special,
        ) + shown_tokens(tokenizer, b, skip_special));
    } else {
        law_tokens_are_shown_one_by_one(tokenizer, a, b.drop_last(), id, skip_special);
        assert((a + b).drop_last() =~= a + b.drop_last());
        assert((a + b).last() == b.last());
        assert(shown_tokens(tokenizer, a + b, skip_special) =~= shown_tokens(
            tokenizer,
            a,
            skip_special,
        ) + shown_tokens(tokenizer, b, skip_special));
    }
}

} // verus!
