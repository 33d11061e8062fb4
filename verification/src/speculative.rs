//! Speculative decoding: a fast draft model proposes, a slower target checks.
//!
//! The greedy variant is exact:
//!   1. The target reads the prompt; the first token is its prediction there.
//!   2. The draft reads the prompt and ingests that first token.
//!   3. In each round the draft proposes up to `SPEC_K - 1` tokens, one by one.
//!   4. The target reads the last emitted token and all proposals in one pass,
//!      which gives its prediction after each of them.
//!   5. The longest prefix of the proposals that the target agrees with is
//!      emitted, and after it one more token: the target's own prediction.
//!   6. Both key/value caches are rewound to what was emitted.
//!
//! [`Speculation`] holds the decisions. The two models are run by the caller,
//! who asks for the [`Speculation::stage`], does what it asks for and reports
//! back.

use vstd::prelude::*;

verus! {

/// How many tokens a round can emit at most: the proposals and one more.
pub const SPEC_K: usize = 4;

/// The tokens that end a reply.
pub open spec fn is_eos(token: u32) -> bool {
    token == 151645 || token == 151643
}

/// Whether `token` ends a reply.
pub fn ends_reply(token: u32) -> (r: bool)
    ensures
        r == is_eos(token),
{
    token == 151645 || token == 151643
}

/// Why a generation ended.
#[derive(Debug, Clone, Copy, PartialEq, Eq, Structural)]
pub enum Finish {
    /// The limit on new tokens was reached.
    Length,
    /// The model ended its reply.
    Stop,
}

/// What the two models have to do next.
#[derive(Debug, Clone, Copy, PartialEq, Eq, Structural)]
pub enum Stage {
    /// Run both models over the prompt; report the target's prediction.
    Prefill,
    /// Run the draft over the last emitted token.
    Ingest,
    /// Take the draft's prediction, run the draft over it and report it.
    Propose,
    /// Run the target over [`Speculation::verify_input`]; report its predictions.
    Verify,
    /// Truncate both caches to [`Speculation::keep`] positions.
    Rewind,
    /// Nothing: the generation is over.
    Done,
}

/// What was reported back.
pub enum SpecEvent {
    Prefilled(u32),
    Ingested,
    Proposed(u32),
    Verified(Seq<u32>),
    Rewound,
}

/// The state of a speculative generation.
pub struct SpecView {
    pub prompt_len: nat,
    pub limit: nat,
    pub stage: Stage,
    pub emitted: Seq<u32>,
    pub drafts: Seq<u32>,
    pub finish: Finish,
    /// How many positions the target's cache holds.
    pub target_len: nat,
    /// How many positions the draft's cache holds.
    pub draft_len: nat,
    pub rounds: nat,
    pub proposed: nat,
    pub accepted: nat,
}

/// How many proposals the target agrees with before the first disagreement.
pub open spec fn agreed(drafts: Seq<u32>, preds: Seq<u32>) -> nat
    decreases drafts.len(),
{
    if drafts.len() == 0 || preds.len() == 0 || drafts[0] != preds[0] {
        0
    } else {
        1 + agreed(drafts.drop_first(), preds.drop_first())
    }
}

/// `emitted` after `tokens` have been offered to it one by one: the limit and
/// the end of the reply are looked at before each of them.
pub open spec fn absorb(emitted: Seq<u32>, tokens: Seq<u32>, limit: nat) -> (
    Seq<u32>,
    Option<Finish>,
)
    decreases tokens.len(),
{
    if tokens.len() == 0 {
        (emitted, None)
    } else if emitted.len() >= limit {
        (emitted, Some(Finish::Length))
    } else if is_eos(tokens[0]) {
        (emitted, Some(Finish::Stop))
    } else {
        absorb(emitted.push(tokens[0]), tokens.drop_first(), limit)
    }
}

impl SpecView {
    /// The state before anything has run.
    pub open spec fn start(prompt_len: nat, limit: nat) -> SpecView {
        SpecView {
            prompt_len,
            limit,
            stage: Stage::Prefill,
            emitted: Seq::empty(),
            drafts: Seq::empty(),
            finish: Finish::Length,
            target_len: 0,
            draft_len: 0,
            rounds: 0,
            proposed: 0,
            accepted: 0,
        }
    }

    /// What the state is after `e` was reported.
    pub open spec fn after(self, e: SpecEvent) -> SpecView {
        match e {
            SpecEvent::Prefilled(t) => if is_eos(t) {
                SpecView {
                    stage: Stage::Done,
                    finish: Finish::Stop,
                    target_len: self.prompt_len,
                    draft_len: self.prompt_len,
                    ..self
                }
            } else {
                SpecView {
                    stage: Stage::Ingest,
                    emitted: seq![t],
                    target_len: self.prompt_len,
                    draft_len: self.prompt_len,
                    ..self
                }
            },
            SpecEvent::Ingested => SpecView {
                stage: if self.emitted.len() < self.limit {
                    Stage::Propose
                } else {
                    Stage::Done
                },
                draft_len: self.draft_len + 1,
                ..self
            },
            SpecEvent::Proposed(d) => SpecView {
                stage: if is_eos(d) || self.drafts.len() + 1 == SPEC_K - 1 {
                    Stage::Verify
                } else {
                    Stage::Propose
                },
                drafts: self.drafts.push(d),
                draft_len: self.draft_len + 1,
                ..self
            },
            SpecEvent::Verified(preds) => {
                let k = agreed(self.drafts, preds);
                let (emitted, ended) = absorb(
                    self.emitted,
                    preds.take(k as int + 1),
                    self.limit,
                );
                SpecView {
                    stage: if ended is Some {
                        Stage::Done
                    } else {
                        Stage::Rewind
                    },
                    emitted,
                    drafts: Seq::empty(),
                    finish: match ended {
                        Some(f) => f,
                        None => Finish::Length,
                    },
                    target_len: self.target_len + 1 + self.drafts.len(),
                    rounds: self.rounds + 1,
                    proposed: self.proposed + self.drafts.len(),
                    accepted: self.accepted + k,
                    ..self
                }
            },
            SpecEvent::Rewound => SpecView {
                stage: Stage::Ingest,
                target_len: self.keep(),
                draft_len: self.keep(),
                ..self
            },
        }
    }

    /// Whether `e` answers what the state asks for.
    pub open spec fn expects(self, e: SpecEvent) -> bool {
        match e {
            SpecEvent::Prefilled(_) => self.stage == Stage::Prefill,
            SpecEvent::Ingested => self.stage == Stage::Ingest,
            SpecEvent::Proposed(_) => self.stage == Stage::Propose,
            SpecEvent::Verified(preds) => self.stage == Stage::Verify && preds.len()
                == self.drafts.len() + 1,
            SpecEvent::Rewound => self.stage == Stage::Rewind,
        }
    }

    /// The length to which both caches are rewound: everything but the last
    /// emitted token, which is fed again at the start of the next round.
    pub open spec fn keep(self) -> nat {
        (self.prompt_len + self.emitted.len() - 1) as nat
    }

    /// What the target reads in a verification.
    pub open spec fn verify_input(self) -> Seq<u32> {
        seq![self.emitted.last()] + self.drafts
    }

    /// The lengths that `emitted` has when its text is to be flushed, after a
    /// verification: once with the accepted proposals, and once more with the
    /// target's own token if that was emitted too.
    pub open spec fn flush_points(self, preds: Seq<u32>) -> Seq<usize> {
        let k = agreed(self.drafts, preds);
        let first = absorb(self.emitted, preds.take(k as int), self.limit).0.len();
        let second = absorb(self.emitted, preds.take(k as int + 1), self.limit).0.len();
        if second > first {
            seq![first as usize, second as usize]
        } else {
            seq![first as usize]
        }
    }

    /// What holds of every state that can be reached.
    pub open spec fn valid(self) -> bool {
        &&& self.prompt_len + self.limit + SPEC_K <= usize::MAX
        &&& self.limit <= u32::MAX
        &&& self.emitted.len() <= self.limit || self.emitted.len() == 1
        &&& forall|i: int|
            0 <= i < self.emitted.len() ==> !is_eos(#[trigger] self.emitted[i])
        &&& self.rounds <= self.emitted.len()
        &&& self.proposed <= (SPEC_K - 1) * self.rounds
        &&& self.accepted <= self.proposed
        &&& match self.stage {
            Stage::Prefill => self == SpecView::start(self.prompt_len, self.limit),
            Stage::Ingest => {
                &&& self.emitted.len() >= 1
                &&& self.drafts.len() == 0
                &&& self.finish == Finish::Length
                &&& self.rounds < self.emitted.len()
                &&& self.target_len == self.keep()
                &&& self.draft_len == self.keep()
            },
            Stage::Propose => {
                &&& 1 <= self.emitted.len() < self.limit
                &&& self.drafts.len() < SPEC_K - 1
                &&& self.finish == Finish::Length
                &&& self.rounds < self.emitted.len()
                &&& forall|i: int|
                    0 <= i < self.drafts.len() ==> !is_eos(#[trigger] self.drafts[i])
                &&& self.target_len == self.keep()
                &&& self.draft_len == self.keep() + 1 + self.drafts.len()
            },
            Stage::Verify => {
                &&& 1 <= self.emitted.len() < self.limit
                &&& 1 <= self.drafts.len() <= SPEC_K - 1
                &&& self.finish == Finish::Length
                &&& self.rounds < self.emitted.len()
                &&& self.target_len == self.keep()
                &&& self.draft_len == self.keep() + 1 + self.drafts.len()
            },
            Stage::Rewind => {
                &&& self.emitted.len() >= 1
                &&& self.drafts.len() == 0
                &&& self.finish == Finish::Length
                &&& self.rounds < self.emitted.len()
                &&& self.target_len >= self.keep()
                &&& self.draft_len >= self.keep()
            },
            Stage::Done => true,
        }
    }
}

/// How far a speculative generation is.
struct Progress {
    prompt_len: usize,
    limit: u32,
    stage: Stage,
    emitted: Vec<u32>,
    drafts: Vec<u32>,
    finish: Finish,
    target_len: usize,
    draft_len: usize,
    rounds: u64,
    proposed: u64,
    accepted: u64,
}

impl View for Progress {
    type V = SpecView;

    closed spec fn view(&self) -> SpecView {
        SpecView {
            prompt_len: self.prompt_len as nat,
            limit: self.limit as nat,
            stage: self.stage,
            emitted: self.emitted@,
            drafts: self.drafts@,
            finish: self.finish,
            target_len: self.target_len as nat,
            draft_len: self.draft_len as nat,
            rounds: self.rounds as nat,
            proposed: self.proposed as nat,
            accepted: self.accepted as nat,
        }
    }
}

proof fn lemma_agreed(drafts: Seq<u32>, preds: Seq<u32>)
    requires
        preds.len() > drafts.len(),
    ensures
        agreed(drafts, preds) <= drafts.len(),
        forall|i: int| 0 <= i < agreed(drafts, preds) ==> drafts[i] == preds[i],
        agreed(drafts, preds) < drafts.len() ==> drafts[agreed(drafts, preds) as int]
            != preds[agreed(drafts, preds) as int],
    decreases drafts.len(),
{
    if drafts.len() > 0 && drafts[0] == preds[0] {
        let d = drafts.drop_first();
        let p = preds.drop_first();
        lemma_agreed(d, p);
        let k = agreed(d, p);
        assert forall|i: int| 0 <= i < 1 + k implies drafts[i] == preds[i] by {
            if i > 0 {
                assert(d[i - 1] == p[i - 1]);
            }
        }
        if 1 + k < drafts.len() {
            assert(d[k as int] != p[k as int]);
        }
    }
}

proof fn lemma_agreed_is(drafts: Seq<u32>, preds: Seq<u32>, k: int)
    requires
        preds.len() > drafts.len(),
        0 <= k <= drafts.len(),
        forall|i: int| 0 <= i < k ==> drafts[i] == preds[i],
        k < drafts.len() ==> drafts[k] != preds[k],
    ensures
        agreed(drafts, preds) == k,
{
    lemma_agreed(drafts, preds);
    let a = agreed(drafts, preds) as int;
    if a < k {
        assert(drafts[a] == preds[a]);
    } else if k < a {
        assert(drafts[k] == preds[k]);
    }
}

/// What `absorb` keeps, and how long its result is.
proof fn lemma_absorb(emitted: Seq<u32>, tokens: Seq<u32>, limit: nat)
    requires
        forall|i: int| 0 <= i < emitted.len() ==> !is_eos(#[trigger] emitted[i]),
    ensures
        ({
            let (out, ended) = absorb(emitted, tokens, limit);
            &&& emitted.is_prefix_of(out)
            &&& forall|i: int| 0 <= i < out.len() ==> !is_eos(#[trigger] out[i])
            &&& out.len() <= emitted.len() + tokens.len()
            &&& out.len() <= limit || out.len() == emitted.len()
            &&& ended is None ==> out == emitted + tokens
        }),
    decreases tokens.len(),
{
    if tokens.len() == 0 {
        assert(emitted + tokens =~= emitted);
    } else if emitted.len() < limit && !is_eos(tokens[0]) {
        let e = emitted.push(tokens[0]);
        let t = tokens.drop_first();
        lemma_absorb(e, t, limit);
        let (out, ended) = absorb(e, t, limit);
        assert(emitted.is_prefix_of(out)) by {
            assert(e.is_prefix_of(out));
            assert(emitted =~= e.subrange(0, emitted.len() as int));
        }
        assert(e + t =~= emitted + tokens);
    }
}

/// Offering `a`, then `b`, is offering both in a row.
proof fn lemma_absorb_concat(emitted: Seq<u32>, a: Seq<u32>, b: Seq<u32>, limit: nat)
    ensures
        absorb(emitted, a + b, limit) == ({
            let (out, ended) = absorb(emitted, a, limit);
            if ended is Some {
                (out, ended)
            } else {
                absorb(out, b, limit)
            }
        }),
    decreases a.len(),
{
    if a.len() == 0 {
        assert(a + b =~= b);
    } else if emitted.len() < limit && !is_eos(a[0]) {
        assert((a + b).drop_first() =~= a.drop_first() + b);
        lemma_absorb_concat(emitted.push(a[0]), a.drop_first(), b, limit);
    }
}

/// Offers `tokens[from..to]` to `emitted`.
fn offer(emitted: &mut Vec<u32>, tokens: &Vec<u32>, from: usize, to: usize, limit: u32) -> (ended:
    Option<Finish>)
    requires
        from <= to <= tokens@.len(),
        old(emitted)@.len() <= limit || old(emitted)@.len() == 1,
    ensures
        (final(emitted)@, ended) == absorb(
            old(emitted)@,
            tokens@.subrange(from as int, to as int),
            limit as nat,
        ),
{
    let ghost start = emitted@;
    let mut i: usize = from;
    assert(tokens@.subrange(from as int, to as int) == tokens@.subrange(i as int, to as int));
    while i < to
        invariant
            from <= i <= to <= tokens@.len(),
            start == old(emitted)@,
            emitted@.len() <= limit || emitted@.len() == 1,
            absorb(start, tokens@.subrange(from as int, to as int), limit as nat) == absorb(
                emitted@,
                tokens@.subrange(i as int, to as int),
                limit as nat,
            ),
        decreases to - i,
    {
        let ghost rest = tokens@.subrange(i as int, to as int);
        let t = tokens[i];
        assert(rest[0] == t);
        assert(rest.drop_first() =~= tokens@.subrange(i + 1, to as int));
        if emitted.len() as u32 >= limit {
            return Some(Finish::Length);
        }
        if ends_reply(t) {
            return Some(Finish::Stop);
        }
        emitted.push(t);
        i = i + 1;
    }
    assert(tokens@.subrange(i as int, to as int).len() == 0);
    None
}

impl Progress {
    /// A generation of at most `max_new_tokens` tokens after a prompt of
    /// `prompt_len` tokens. The first token is emitted whatever the limit is.
    fn new(prompt_len: usize, max_new_tokens: u32) -> (r: Self)
        requires
            prompt_len + max_new_tokens + SPEC_K <= usize::MAX,
        ensures
            r@ == SpecView::start(prompt_len as nat, max_new_tokens as nat),
            r@.valid(),
    {
        let r = Progress {
            prompt_len,
            limit: max_new_tokens,
            stage: Stage::Prefill,
            emitted: Vec::new(),
            drafts: Vec::new(),
            finish: Finish::Length,
            target_len: 0,
            draft_len: 0,
            rounds: 0,
            proposed: 0,
            accepted: 0,
        };
        assert(r@ == SpecView::start(prompt_len as nat, max_new_tokens as nat));
        r
    }

    /// The tokens that the target reads in a verification: the last emitted
    /// token, then the proposals.
    fn verify_input(&self) -> (r: Vec<u32>)
        requires
            self@.valid(),
            self@.stage == Stage::Verify,
        ensures
            r@ == self@.verify_input(),
    {
        let mut out: Vec<u32> = Vec::new();
        out.push(self.emitted[self.emitted.len() - 1]);
        let mut i: usize = 0;
        while i < self.drafts.len()
            invariant
                i <= self.drafts@.len(),
                out@ =~= seq![self.emitted@.last()] + self.drafts@.take(i as int),
            decreases self.drafts@.len() - i,
        {
            out.push(self.drafts[i]);
            i = i + 1;
        }
        assert(self.drafts@.take(i as int) =~= self.drafts@);
        out
    }

    /// The length to which both caches are to be truncated.
    fn keep(&self) -> (r: usize)
        requires
            self@.valid(),
            self@.stage == Stage::Rewind,
        ensures
            r == self@.keep(),
            r <= self@.target_len,
            r <= self@.draft_len,
    {
        self.prompt_len + (self.emitted.len() - 1)
    }

    /// Both models have read the prompt; `leader` is the target's prediction.
    fn prefilled(&mut self, leader: u32)
        requires
            old(self)@.valid(),
            old(self)@.expects(SpecEvent::Prefilled(leader)),
        ensures
            final(self)@ == old(self)@.after(SpecEvent::Prefilled(leader)),
            final(self)@.valid(),
    {
        self.target_len = self.prompt_len;
        self.draft_len = self.prompt_len;
        if ends_reply(leader) {
            self.finish = Finish::Stop;
            self.stage = Stage::Done;
        } else {
            self.emitted.push(leader);
            self.stage = Stage::Ingest;
            assert(self.emitted@ =~= seq![leader]);
        }
        assert(self@ == old(self)@.after(SpecEvent::Prefilled(leader)));
    }

    /// The draft has read the last emitted token.
    fn ingested(&mut self)
        requires
            old(self)@.valid(),
            old(self)@.expects(SpecEvent::Ingested),
        ensures
            final(self)@ == old(self)@.after(SpecEvent::Ingested),
            final(self)@.valid(),
    {
        self.draft_len = self.draft_len + 1;
        self.stage = if (self.emitted.len() as u32) < self.limit {
            Stage::Propose
        } else {
            Stage::Done
        };
        assert(self@ == old(self)@.after(SpecEvent::Ingested));
    }

    /// The draft has predicted `token` and read it.
    fn proposed(&mut self, token: u32)
        requires
            old(self)@.valid(),
            old(self)@.expects(SpecEvent::Proposed(token)),
        ensures
            final(self)@ == old(self)@.after(SpecEvent::Proposed(token)),
            final(self)@.valid(),
    {
        self.drafts.push(token);
        self.draft_len = self.draft_len + 1;
        if ends_reply(token) || self.drafts.len() == SPEC_K - 1 {
            self.stage = Stage::Verify;
        }
        assert(self@ == old(self)@.after(SpecEvent::Proposed(token)));
    }

    /// The target has read [`Self::verify_input`] and predicts `preds[i]` after
    /// its first `i + 1` tokens. Emits what the two models agree on and the
    /// target's next token. The result lists the lengths of `emitted` at which
    /// its text is to be flushed.
    fn verified(&mut self, preds: &Vec<u32>) -> (flush: Vec<usize>)
        requires
            old(self)@.valid(),
            old(self)@.expects(SpecEvent::Verified(preds@)),
        ensures
            final(self)@ == old(self)@.after(SpecEvent::Verified(preds@)),
            final(self)@.valid(),
            flush@ == old(self)@.flush_points(preds@),
    {
        let ghost before = self@;
        let n = self.drafts.len();
        let mut k: usize = 0;
        while k < n && preds[k] == self.drafts[k]
            invariant
                k <= n,
                n == self.drafts@.len(),
                preds@.len() == n + 1,
                forall|i: int| 0 <= i < k ==> self.drafts@[i] == preds@[i],
                self@ == before,
            decreases n - k,
        {
            k = k + 1;
        }
        proof {
            lemma_agreed_is(self.drafts@, preds@, k as int);
            lemma_absorb(before.emitted, preds@.take(k as int), before.limit);
            lemma_absorb(before.emitted, preds@.take(k + 1), before.limit);
            lemma_absorb_concat(
                before.emitted,
                preds@.take(k as int),
                seq![preds@[k as int]],
                before.limit,
            );
            assert(preds@.take(k as int) + seq![preds@[k as int]] =~= preds@.take(k + 1));
            assert(preds@.subrange(0, k as int) =~= preds@.take(k as int));
            assert(preds@.subrange(k as int, k + 1) =~= seq![preds@[k as int]]);
            assert(before.proposed <= 3 * before.rounds);
            assert(before.rounds <= u32::MAX);
        }
        self.target_len = self.target_len + 1 + n;
        self.rounds = self.rounds + 1;
        self.proposed = self.proposed + n as u64;
        self.accepted = self.accepted + k as u64;
        self.drafts.clear();

        let mut emitted: Vec<u32> = Vec::new();
        core::mem::swap(&mut emitted, &mut self.emitted);
        let ended = offer(&mut emitted, preds, 0, k, self.limit);
        let mut flush: Vec<usize> = Vec::new();
        flush.push(emitted.len());
        let ended = match ended {
            Some(f) => Some(f),
            None => {
                proof {
                    reveal_with_fuel(absorb, 2);
                }
                let ended = offer(&mut emitted, preds, k, k + 1, self.limit);
                if ended.is_none() {
                    flush.push(emitted.len());
                }
                ended
            },
        };
        self.emitted = emitted;
        match ended {
            Some(f) => {
                self.finish = f;
                self.stage = Stage::Done;
            },
            None => {
                self.stage = Stage::Rewind;
            },
        }
        assert(self@ == before.after(SpecEvent::Verified(preds@)));
        assert(flush@ =~= before.flush_points(preds@));
        flush
    }

    /// Both caches have been truncated to [`Self::keep`] positions.
    fn rewound(&mut self)
        requires
            old(self)@.valid(),
            old(self)@.expects(SpecEvent::Rewound),
        ensures
            final(self)@ == old(self)@.after(SpecEvent::Rewound),
            final(self)@.valid(),
    {
        let keep = self.keep();
        self.target_len = keep;
        self.draft_len = keep;
        self.stage = Stage::Ingest;
        assert(self@ == old(self)@.after(SpecEvent::Rewound));
    }
}

/// A speculative generation in progress.
pub struct Speculation {
    progress: Progress,
}

impl View for Speculation {
    type V = SpecView;

    closed spec fn view(&self) -> SpecView {
        self.progress@
    }
}

impl Speculation {
    /// Every generation is in a state that can be reached.
    #[verifier::type_invariant]
    spec fn is_valid(self) -> bool {
        self.progress@.valid()
    }

    /// A generation of at most `max_new_tokens` tokens after a prompt of
    /// `prompt_len` tokens. The first token is emitted whatever the limit is.
    pub fn new(prompt_len: usize, max_new_tokens: u32) -> (r: Self)
        requires
            prompt_len + max_new_tokens + SPEC_K <= usize::MAX,
        ensures
            r@ == SpecView::start(prompt_len as nat, max_new_tokens as nat),
            r@.valid(),
    {
        Speculation { progress: Progress::new(prompt_len, max_new_tokens) }
    }

    /// What has to be done next.
    pub fn stage(&self) -> (r: Stage)
        ensures
            r == self@.stage,
            self@.valid(),
    {
        proof {
            use_type_invariant(self);
        }
        self.progress.stage
    }

    /// The tokens emitted so far.
    pub fn emitted(&self) -> (r: &Vec<u32>)
        ensures
            r@ == self@.emitted,
    {
        &self.progress.emitted
    }

    /// Why the generation ended; `Length` as long as it has not.
    pub fn finish(&self) -> (r: Finish)
        ensures
            r == self@.finish,
    {
        self.progress.finish
    }

    /// How many tokens the prompt has.
    pub fn prompt_len(&self) -> (r: usize)
        ensures
            r == self@.prompt_len,
    {
        self.progress.prompt_len
    }

    /// The last emitted token, which opens the next verification.
    pub fn leader(&self) -> (r: Option<u32>)
        ensures
            r == (if self@.emitted.len() > 0 {
                Some(self@.emitted.last())
            } else {
                None
            }),
    {
        let emitted = self.emitted();
        if emitted.len() > 0 {
            Some(emitted[emitted.len() - 1])
        } else {
            None
        }
    }

    /// The number of rounds, of proposals and of accepted proposals.
    pub fn counts(&self) -> (r: (u64, u64, u64))
        ensures
            r.0 == self@.rounds,
            r.1 == self@.proposed,
            r.2 == self@.accepted,
    {
        (self.progress.rounds, self.progress.proposed, self.progress.accepted)
    }

    /// The tokens that the target reads in a verification: the last emitted
    /// token, then the proposals.
    pub fn verify_input(&self) -> (r: Vec<u32>)
        requires
            self@.stage == Stage::Verify,
        ensures
            r@ == self@.verify_input(),
    {
        proof {
            use_type_invariant(self);
        }
        self.progress.verify_input()
    }

    /// The length to which both caches are to be truncated.
    pub fn keep(&self) -> (r: usize)
        requires
            self@.stage == Stage::Rewind,
        ensures
            r == self@.keep(),
            r <= self@.target_len,
            r <= self@.draft_len,
    {
        proof {
            use_type_invariant(self);
        }
        self.progress.keep()
    }

    /// Both models have read the prompt; `leader` is the target's prediction.
    pub fn prefilled(&mut self, leader: u32)
        requires
            old(self)@.expects(SpecEvent::Prefilled(leader)),
        ensures
            final(self)@ == old(self)@.after(SpecEvent::Prefilled(leader)),
            final(self)@.valid(),
    {
        proof {
            use_type_invariant(&*self);
        }
        let mut progress = Progress::new(0, 0);
        core::mem::swap(&mut self.progress, &mut progress);
        progress.prefilled(leader);
        self.progress = progress;
    }

    /// The draft has read the last emitted token.
    pub fn ingested(&mut self)
        requires
            old(self)@.expects(SpecEvent::Ingested),
        ensures
            final(self)@ == old(self)@.after(SpecEvent::Ingested),
            final(self)@.valid(),
    {
        proof {
            use_type_invariant(&*self);
        }
        let mut progress = Progress::new(0, 0);
        core::mem::swap(&mut self.progress, &mut progress);
        progress.ingested();
        self.progress = progress;
    }

    /// The draft has predicted `token` and read it.
    pub fn proposed(&mut self, token: u32)
        requires
            old(self)@.expects(SpecEvent::Proposed(token)),
        ensures
            final(self)@ == old(self)@.after(SpecEvent::Proposed(token)),
            final(self)@.valid(),
    {
        proof {
            use_type_invariant(&*self);
        }
        let mut progress = Progress::new(0, 0);
        core::mem::swap(&mut self.progress, &mut progress);
        progress.proposed(token);
        self.progress = progress;
    }

    /// The target has read [`Self::verify_input`] and predicts `preds[i]` after
    /// its first `i + 1` tokens. Emits what the two models agree on and the
    /// target's next token. The result lists the lengths of `emitted` at which
    /// its text is to be flushed.
    pub fn verified(&mut self, preds: &Vec<u32>) -> (flush: Vec<usize>)
        requires
            old(self)@.expects(SpecEvent::Verified(preds@)),
        ensures
            final(self)@ == old(self)@.after(SpecEvent::Verified(preds@)),
            final(self)@.valid(),
            flush@ == old(self)@.flush_points(preds@),
    {
        proof {
            use_type_invariant(&*self);
        }
        let mut progress = Progress::new(0, 0);
        core::mem::swap(&mut self.progress, &mut progress);
        let flush = progress.verified(preds);
        self.progress = progress;
        flush
    }

    /// Both caches have been truncated to [`Self::keep`] positions.
    pub fn rewound(&mut self)
        requires
            old(self)@.expects(SpecEvent::Rewound),
        ensures
            final(self)@ == old(self)@.after(SpecEvent::Rewound),
            final(self)@.valid(),
    {
        proof {
            use_type_invariant(&*self);
        }
        let mut progress = Progress::new(0, 0);
        core::mem::swap(&mut self.progress, &mut progress);
        progress.rewound();
        self.progress = progress;
    }
}

/// The state after `events` were reported one after the other.
pub open spec fn run(s: SpecView, events: Seq<SpecEvent>) -> SpecView
    decreases events.len(),
{
    if events.len() == 0 {
        s
    } else {
        run(s, events.drop_last()).after(events.last())
    }
}

/// Whether each of `events` answers what the state asked for at its time.
pub open spec fn answers(s: SpecView, events: Seq<SpecEvent>) -> bool {
    forall|i: int|
        0 <= i < events.len() ==> run(s, events.take(i)).expects(#[trigger] events[i])
}

/// Whether `e` reports what a target does that predicts `next(context)` after
/// each context. Nothing is asked of the draft.
pub open spec fn faithful(
    next: spec_fn(Seq<u32>) -> u32,
    prompt: Seq<u32>,
    s: SpecView,
    e: SpecEvent,
) -> bool {
    match e {
        SpecEvent::Prefilled(t) => t == next(prompt),
        SpecEvent::Verified(preds) => forall|i: int|
            0 <= i < preds.len() ==> #[trigger] preds[i] == next(
                prompt + s.emitted + s.drafts.take(i),
            ),
        _ => true,
    }
}

/// Whether every one of `events` is [`faithful`].
pub open spec fn faithful_run(
    next: spec_fn(Seq<u32>) -> u32,
    prompt: Seq<u32>,
    s: SpecView,
    events: Seq<SpecEvent>,
) -> bool {
    forall|i: int|
        0 <= i < events.len() ==> faithful(
            next,
            prompt,
            run(s, events.take(i)),
            #[trigger] events[i],
        )
}

/// Greedy decoding with the target alone, from `so_far` on.
pub open spec fn decode_from(
    next: spec_fn(Seq<u32>) -> u32,
    prompt: Seq<u32>,
    so_far: Seq<u32>,
    limit: nat,
) -> (Seq<u32>, Finish)
    decreases limit - so_far.len(),
{
    let t = next(prompt + so_far);
    if so_far.len() >= limit {
        (so_far, Finish::Length)
    } else if is_eos(t) {
        (so_far, Finish::Stop)
    } else {
        decode_from(next, prompt, so_far.push(t), limit)
    }
}

/// Greedy decoding with the target alone. The first token is emitted whatever
/// the limit is, unless it ends the reply.
pub open spec fn single_target(
    next: spec_fn(Seq<u32>) -> u32,
    prompt: Seq<u32>,
    limit: nat,
) -> (Seq<u32>, Finish) {
    let t = next(prompt);
    if is_eos(t) {
        (Seq::empty(), Finish::Stop)
    } else {
        decode_from(next, prompt, seq![t], limit)
    }
}

/// Every report that answers what is asked for leads to a valid state.
proof fn lemma_after_valid(s: SpecView, e: SpecEvent)
    requires
        s.valid(),
        s.expects(e),
    ensures
        s.after(e).valid(),
{
    match e {
        SpecEvent::Verified(preds) => {
            lemma_agreed(s.drafts, preds);
            let k = agreed(s.drafts, preds) as int;
            lemma_absorb(s.emitted, preds.take(k + 1), s.limit);
            let out = absorb(s.emitted, preds.take(k + 1), s.limit).0;
            assert(out.len() >= s.emitted.len());
        },
        _ => {},
    }
}

/// Every state that can be reached is valid.
pub proof fn law_reachable_states_are_valid(
    prompt_len: nat,
    limit: nat,
    events: Seq<SpecEvent>,
)
    requires
        prompt_len + limit + SPEC_K <= usize::MAX,
        limit <= u32::MAX,
        answers(SpecView::start(prompt_len, limit), events),
    ensures
        run(SpecView::start(prompt_len, limit), events).valid(),
        run(SpecView::start(prompt_len, limit), events).prompt_len == prompt_len,
        run(SpecView::start(prompt_len, limit), events).limit == limit,
    decreases events.len(),
{
    let s0 = SpecView::start(prompt_len, limit);
    if events.len() > 0 {
        let head = events.drop_last();
        assert(answers(s0, head)) by {
            assert forall|i: int| 0 <= i < head.len() implies run(s0, head.take(i)).expects(
                #[trigger] head[i],
            ) by {
                assert(head.take(i) =~= events.take(i));
                assert(events[i] == head[i]);
            }
        }
        law_reachable_states_are_valid(prompt_len, limit, head);
        assert(events.take(events.len() - 1) =~= head);
        assert(run(s0, events.take(events.len() - 1)).expects(events[events.len() - 1]));
        lemma_after_valid(run(s0, head), events.last());
    }
}

/// Offering what the target predicts is decoding with the target.
proof fn lemma_absorb_exact(
    next: spec_fn(Seq<u32>) -> u32,
    prompt: Seq<u32>,
    emitted: Seq<u32>,
    tokens: Seq<u32>,
    limit: nat,
)
    requires
        forall|j: int|
            0 <= j < tokens.len() ==> #[trigger] tokens[j] == next(
                prompt + (emitted + tokens.take(j)),
            ),
    ensures
        ({
            let (out, ended) = absorb(emitted, tokens, limit);
            decode_from(next, prompt, emitted, limit) == match ended {
                Some(f) => (out, f),
                None => decode_from(next, prompt, out, limit),
            }
        }),
    decreases tokens.len(),
{
    if tokens.len() > 0 {
        assert(emitted + tokens.take(0) =~= emitted);
        assert(tokens[0] == next(prompt + emitted));
        if emitted.len() < limit && !is_eos(tokens[0]) {
            let e = emitted.push(tokens[0]);
            let t = tokens.drop_first();
            assert forall|j: int| 0 <= j < t.len() implies #[trigger] t[j] == next(
                prompt + (e + t.take(j)),
            ) by {
                assert(e + t.take(j) =~= emitted + tokens.take(j + 1));
                assert(tokens[j + 1] == t[j]);
            }
            lemma_absorb_exact(next, prompt, e, t, limit);
        }
    }
}

/// What is left to decode, or has been decoded, is what the target alone gives.
spec fn on_course(
    next: spec_fn(Seq<u32>) -> u32,
    prompt: Seq<u32>,
    s: SpecView,
) -> bool {
    match s.stage {
        Stage::Prefill => true,
        Stage::Done => (s.emitted, s.finish) == single_target(next, prompt, s.limit),
        _ => s.emitted.len() >= 1 && decode_from(next, prompt, s.emitted, s.limit)
            == single_target(next, prompt, s.limit),
    }
}

proof fn lemma_after_on_course(
    next: spec_fn(Seq<u32>) -> u32,
    prompt: Seq<u32>,
    s: SpecView,
    e: SpecEvent,
)
    requires
        s.valid(),
        s.expects(e),
        on_course(next, prompt, s),
        faithful(next, prompt, s, e),
    ensures
        on_course(next, prompt, s.after(e)),
{
    match e {
        SpecEvent::Prefilled(t) => {
            if is_eos(t) {
                assert(s.after(e).emitted =~= Seq::<u32>::empty());
            }
        },
        SpecEvent::Verified(preds) => {
            lemma_agreed(s.drafts, preds);
            let k = agreed(s.drafts, preds) as int;
            let tokens = preds.take(k + 1);
            assert forall|j: int| 0 <= j < tokens.len() implies #[trigger] tokens[j] == next(
                prompt + (s.emitted + tokens.take(j)),
            ) by {
                assert(preds[j] == next(prompt + s.emitted + s.drafts.take(j)));
                assert(s.drafts.take(j) =~= tokens.take(j));
                assert(prompt + s.emitted + tokens.take(j) =~= prompt + (s.emitted + tokens.take(
                    j,
                )));
            }
            lemma_absorb_exact(next, prompt, s.emitted, tokens, s.limit);
            lemma_absorb(s.emitted, tokens, s.limit);
        },
        _ => {},
    }
}

proof fn lemma_run_on_course(
    next: spec_fn(Seq<u32>) -> u32,
    prompt: Seq<u32>,
    limit: nat,
    events: Seq<SpecEvent>,
)
    requires
        prompt.len() + limit + SPEC_K <= usize::MAX,
        limit <= u32::MAX,
        answers(SpecView::start(prompt.len(), limit), events),
        faithful_run(next, prompt, SpecView::start(prompt.len(), limit), events),
    ensures
        on_course(next, prompt, run(SpecView::start(prompt.len(), limit), events)),
    decreases events.len(),
{
    let s0 = SpecView::start(prompt.len(), limit);
    if events.len() > 0 {
        let head = events.drop_last();
        assert forall|i: int| 0 <= i < head.len() implies run(s0, head.take(i)).expects(
            #[trigger] head[i],
        ) && faithful(next, prompt, run(s0, head.take(i)), head[i]) by {
            assert(head.take(i) =~= events.take(i));
            assert(events[i] == head[i]);
        }
        lemma_run_on_course(next, prompt, limit, head);
        law_reachable_states_are_valid(prompt.len(), limit, head);
        assert(events.take(events.len() - 1) =~= head);
        let last = events[events.len() - 1];
        assert(run(s0, events.take(events.len() - 1)).expects(last));
        lemma_after_on_course(next, prompt, run(s0, head), last);
    }
}

/// Speculative decoding is exact: whatever the draft proposes, a generation that
/// has come to its end has emitted the very tokens, and ended for the very
/// reason, that decoding greedily with the target alone gives.
pub proof fn law_speculation_is_exact(
    next: spec_fn(Seq<u32>) -> u32,
    prompt: Seq<u32>,
    limit: nat,
    events: Seq<SpecEvent>,
)
    requires
        prompt.len() + limit + SPEC_K <= usize::MAX,
        limit <= u32::MAX,
        answers(SpecView::start(prompt.len(), limit), events),
        faithful_run(next, prompt, SpecView::start(prompt.len(), limit), events),
        run(SpecView::start(prompt.len(), limit), events).stage == Stage::Done,
    ensures
        ({
            let end = run(SpecView::start(prompt.len(), limit), events);
            (end.emitted, end.finish) == single_target(next, prompt, limit)
        }),
{
    lemma_run_on_course(next, prompt, limit, events);
    law_reachable_states_are_valid(prompt.len(), limit, events);
}

/// A round emits the accepted proposals and one token more, unless it ends the
/// generation; at most `SPEC_K` tokens either way.
pub proof fn law_a_round_emits_one_more_than_it_accepts(s: SpecView, preds: Seq<u32>)
    requires
        s.valid(),
        s.expects(SpecEvent::Verified(preds)),
    ensures
        ({
            let k = agreed(s.drafts, preds);
            let t = s.after(SpecEvent::Verified(preds));
            &&& k <= SPEC_K - 1
            &&& t.emitted.len() <= s.emitted.len() + k + 1
            &&& t.stage != Stage::Done ==> t.emitted == s.emitted + s.drafts.take(k as int).push(
                preds[k as int],
            )
        }),
{
    lemma_agreed(s.drafts, preds);
    let k = agreed(s.drafts, preds) as int;
    lemma_absorb(s.emitted, preds.take(k + 1), s.limit);
    assert(s.drafts.take(k).push(preds[k]) =~= preds.take(k + 1));
}

/// Where the text of a verification is flushed.
pub proof fn lemma_flush_points(s: SpecView, preds: Seq<u32>)
    requires
        s.valid(),
        s.expects(SpecEvent::Verified(preds)),
    ensures
        ({
            let points = s.flush_points(preds);
            let emitted = s.after(SpecEvent::Verified(preds)).emitted;
            &&& s.emitted.is_prefix_of(emitted)
            &&& points.len() > 0
            &&& points[0] >= s.emitted.len()
            &&& forall|i: int, j: int| 0 <= i <= j < points.len() ==> points[i] <= points[j]
            &&& points.last() == emitted.len()
        }),
{
    lemma_agreed(s.drafts, preds);
    let k = agreed(s.drafts, preds) as int;
    lemma_absorb(s.emitted, preds.take(k), s.limit);
    lemma_absorb(s.emitted, preds.take(k + 1), s.limit);
    lemma_absorb_concat(s.emitted, preds.take(k), seq![preds[k]], s.limit);
    assert(preds.take(k) + seq![preds[k]] =~= preds.take(k + 1));
    lemma_absorb(absorb(s.emitted, preds.take(k), s.limit).0, seq![preds[k]], s.limit);
}

/// The text of every emitted token is flushed: the last flush of a verification
/// covers all that it emitted, also when it ends the generation.
pub proof fn law_every_emitted_token_is_flushed(s: SpecView, preds: Seq<u32>)
    requires
        s.valid(),
        s.expects(SpecEvent::Verified(preds)),
    ensures
        s.flush_points(preds).last() == s.after(SpecEvent::Verified(preds)).emitted.len(),
{
    lemma_flush_points(s, preds);
}

/// The tokens that the two caches were filled with.
pub struct CachedTokens {
    pub target: Seq<u32>,
    pub draft: Seq<u32>,
}

/// What the caches hold after what led to `e` was done in the state `s`.
pub open spec fn cached_after(
    c: CachedTokens,
    prompt: Seq<u32>,
    s: SpecView,
    e: SpecEvent,
) -> CachedTokens {
    match e {
        SpecEvent::Prefilled(_) => CachedTokens { target: prompt, draft: prompt },
        SpecEvent::Ingested => CachedTokens { draft: c.draft.push(s.emitted.last()), ..c },
        SpecEvent::Proposed(d) => CachedTokens { draft: c.draft.push(d), ..c },
        SpecEvent::Verified(_) => CachedTokens { target: c.target + s.verify_input(), ..c },
        SpecEvent::Rewound => CachedTokens {
            target: c.target.take(s.keep() as int),
            draft: c.draft.take(s.keep() as int),
        },
    }
}

/// What the caches hold after `events`.
pub open spec fn cached(prompt: Seq<u32>, limit: nat, events: Seq<SpecEvent>) -> CachedTokens
    decreases events.len(),
{
    if events.len() == 0 {
        CachedTokens { target: Seq::empty(), draft: Seq::empty() }
    } else {
        let head = events.drop_last();
        cached_after(
            cached(prompt, limit, head),
            prompt,
            run(SpecView::start(prompt.len(), limit), head),
            events.last(),
        )
    }
}

/// What the caches should hold in the state `s`.
pub open spec fn cache_in_step(c: CachedTokens, prompt: Seq<u32>, s: SpecView) -> bool {
    &&& c.target.len() == s.target_len
    &&& c.draft.len() == s.draft_len
    &&& match s.stage {
        Stage::Ingest => {
            &&& c.target == prompt + s.emitted.drop_last()
            &&& c.draft == prompt + s.emitted.drop_last()
        },
        Stage::Propose | Stage::Verify => {
            &&& c.target == prompt + s.emitted.drop_last()
            &&& c.draft == prompt + s.emitted + s.drafts
        },
        Stage::Rewind => {
            &&& c.target.take(s.keep() as int) == prompt + s.emitted.drop_last()
            &&& c.draft.take(s.keep() as int) == prompt + s.emitted.drop_last()
        },
        _ => true,
    }
}

proof fn lemma_cached_after(c: CachedTokens, prompt: Seq<u32>, s: SpecView, e: SpecEvent)
    requires
        s.valid(),
        s.prompt_len == prompt.len(),
        s.expects(e),
        cache_in_step(c, prompt, s),
    ensures
        cache_in_step(cached_after(c, prompt, s, e), prompt, s.after(e)),
{
    let c2 = cached_after(c, prompt, s, e);
    let s2 = s.after(e);
    match e {
        SpecEvent::Prefilled(t) => {
            if !is_eos(t) {
                assert(prompt + s2.emitted.drop_last() =~= prompt);
            }
        },
        SpecEvent::Ingested => {
            assert(s.emitted =~= s.emitted.drop_last().push(s.emitted.last()));
            assert(c2.draft =~= prompt + s.emitted + s.drafts);
        },
        SpecEvent::Proposed(d) => {
            assert(c2.draft =~= prompt + s.emitted + s2.drafts);
        },
        SpecEvent::Verified(preds) => {
            lemma_agreed(s.drafts, preds);
            let k = agreed(s.drafts, preds) as int;
            lemma_absorb(s.emitted, preds.take(k + 1), s.limit);
            if s2.stage == Stage::Rewind {
                assert(s2.emitted =~= s.emitted + preds.take(k + 1));
                assert(s2.emitted.drop_last() =~= s.emitted + s.drafts.take(k));
                assert(c2.target =~= prompt + s.emitted + s.drafts);
                assert(c2.target.take(s2.keep() as int) =~= prompt + s2.emitted.drop_last());
                assert(c2.draft.take(s2.keep() as int) =~= prompt + s2.emitted.drop_last());
            }
        },
        SpecEvent::Rewound => {},
    }
}

/// The caches stay in step with what was emitted: before every pass the target's
/// cache holds the prompt and all emitted tokens but the last, and the draft's
/// cache holds the same, then the last token and the proposals once it has read
/// them.
pub proof fn law_caches_stay_in_step(prompt: Seq<u32>, limit: nat, events: Seq<SpecEvent>)
    requires
        prompt.len() + limit + SPEC_K <= usize::MAX,
        limit <= u32::MAX,
        answers(SpecView::start(prompt.len(), limit), events),
    ensures
        cache_in_step(
            cached(prompt, limit, events),
            prompt,
            run(SpecView::start(prompt.len(), limit), events),
        ),
    decreases events.len(),
{
    let s0 = SpecView::start(prompt.len(), limit);
    if events.len() > 0 {
        let head = events.drop_last();
        assert forall|i: int| 0 <= i < head.len() implies run(s0, head.take(i)).expects(
            #[trigger] head[i],
        ) by {
            assert(head.take(i) =~= events.take(i));
            assert(events[i] == head[i]);
        }
        law_caches_stay_in_step(prompt, limit, head);
        law_reachable_states_are_valid(prompt.len(), limit, head);
        assert(events.take(events.len() - 1) =~= head);
        let last = events[events.len() - 1];
        assert(run(s0, events.take(events.len() - 1)).expects(last));
        lemma_cached_after(cached(prompt, limit, head), prompt, run(s0, head), last);
    }
}

/// A draft proposes three tokens a round, and fewer only where one of them is
/// `<|im_end|>` or `<|endoftext|>`: then it is the last.
pub proof fn law_three_tokens_are_proposed(s: SpecView, d: u32)
    requires
        s.valid(),
        s.expects(SpecEvent::Proposed(d)),
    ensures
        ({
            let t = s.after(SpecEvent::Proposed(d));
            &&& t.drafts == s.drafts.push(d)
            &&& t.stage == Stage::Verify || t.stage == Stage::Propose
            &&& t.stage == Stage::Verify <==> t.drafts.len() == 3 || d == 151645 || d == 151643
        }),
{
}

/// What is counted of a round: one round more, all its proposals, and of these the ones
/// before the first that the target would not have made.
pub proof fn law_what_is_counted_of_a_round(s: SpecView, preds: Seq<u32>, k: nat)
    requires
        s.valid(),
        s.expects(SpecEvent::Verified(preds)),
        k <= s.drafts.len(),
        forall|i: int| 0 <= i < k ==> s.drafts[i] == #[trigger] preds[i],
        k < s.drafts.len() ==> s.drafts[k as int] != preds[k as int],
    ensures
        ({
            let t = s.after(SpecEvent::Verified(preds));
            &&& t.rounds == s.rounds + 1
            &&& t.proposed == s.proposed + s.drafts.len()
            &&& t.accepted == s.accepted + k
        }),
{
    lemma_agreed_is(s.drafts, preds, k as int);
}

} // verus!
