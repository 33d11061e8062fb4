use base_mlx::decoding::Decoding;
use base_mlx::engine::conclude;
use base_mlx::speculative::{ends_reply, Finish, Speculation, Stage, SPEC_K};

const EOS: u32 = 151645;

/// Decodes greedily with the target alone.
fn single(next: &dyn Fn(&[u32]) -> u32, prompt: &[u32], limit: usize) -> (Vec<u32>, Finish) {
    let mut context = prompt.to_vec();
    let first = next(&context);
    if ends_reply(first) {
        return (Vec::new(), Finish::Stop);
    }
    context.push(first);
    while context.len() - prompt.len() < limit {
        let t = next(&context);
        if ends_reply(t) {
            return (context[prompt.len()..].to_vec(), Finish::Stop);
        }
        context.push(t);
    }
    (context[prompt.len()..].to_vec(), Finish::Length)
}

/// Decodes greedily with the library's account of a generation.
fn decode(next: &dyn Fn(&[u32]) -> u32, prompt: &[u32], limit: u32) -> (Vec<u32>, Finish) {
    let mut d = Decoding::new(limit);
    loop {
        let mut context = prompt.to_vec();
        context.extend(d.emitted());
        let before = d.emitted().len();
        let taken = d.take(next(&context));
        assert_eq!(taken, d.emitted().len() == before + 1);
        if let Some(finish) = d.ended() {
            return (d.emitted().clone(), finish);
        }
    }
}

struct Run {
    emitted: Vec<u32>,
    finish: Finish,
    counts: (u64, u64, u64),
    flushed: Vec<usize>,
}

/// Decodes with both models, and checks the caches on the way.
fn speculate(
    target: &dyn Fn(&[u32]) -> u32,
    draft: &dyn Fn(&[u32]) -> u32,
    prompt: &[u32],
    limit: u32,
) -> Run {
    let mut s = Speculation::new(prompt.len(), limit);
    let mut target_cache: Vec<u32> = Vec::new();
    let mut draft_cache: Vec<u32> = Vec::new();
    let mut flushed: Vec<usize> = Vec::new();
    assert_eq!(s.prompt_len(), prompt.len());
    loop {
        match s.stage() {
            Stage::Prefill => {
                assert_eq!(s.leader(), None);
                target_cache.extend(prompt);
                draft_cache.extend(prompt);
                s.prefilled(target(&target_cache));
                if !s.emitted().is_empty() {
                    flushed.push(s.emitted().len());
                }
            }
            Stage::Ingest => {
                let mut held = prompt.to_vec();
                held.extend(&s.emitted()[..s.emitted().len() - 1]);
                assert_eq!(target_cache, held);
                assert_eq!(draft_cache, held);
                draft_cache.push(s.leader().unwrap());
                s.ingested();
            }
            Stage::Propose => {
                let d = draft(&draft_cache);
                draft_cache.push(d);
                s.proposed(d);
            }
            Stage::Verify => {
                let input = s.verify_input();
                assert!(input.len() <= SPEC_K);
                assert_eq!(input[0], s.leader().unwrap());
                let mut preds = Vec::new();
                for &t in &input {
                    target_cache.push(t);
                    preds.push(target(&target_cache));
                }
                let before = s.emitted().len();
                flushed.extend(s.verified(&preds));
                assert!(s.emitted().len() <= before + SPEC_K);
                assert_eq!(*flushed.last().unwrap(), s.emitted().len());
            }
            Stage::Rewind => {
                let keep = s.keep();
                assert!(keep <= target_cache.len() && keep <= draft_cache.len());
                target_cache.truncate(keep);
                draft_cache.truncate(keep);
                s.rewound();
            }
            Stage::Done => break,
        }
    }
    Run { emitted: s.emitted().clone(), finish: s.finish(), counts: s.counts(), flushed }
}

/// Counts up, and ends the reply after ten.
fn counting(context: &[u32]) -> u32 {
    let last = *context.last().unwrap();
    if last >= 10 {
        EOS
    } else {
        last + 1
    }
}

#[test]
fn the_tokens_that_end_a_reply() {
    assert!(ends_reply(151645));
    assert!(ends_reply(151643));
    assert!(!ends_reply(151644));
    assert!(!ends_reply(0));
}

#[test]
fn a_perfect_draft_is_always_accepted() {
    let r = speculate(&counting, &counting, &[1], 100);
    assert_eq!(r.emitted, vec![2, 3, 4, 5, 6, 7, 8, 9, 10]);
    assert_eq!(r.finish, Finish::Stop);
    assert_eq!(r.counts, (3, 7, 7));
    assert_eq!(r.flushed, vec![1, 4, 5, 8, 9, 9]);
}

#[test]
fn a_useless_draft_costs_only_time() {
    let r = speculate(&counting, &|_| 999, &[1], 100);
    assert_eq!(r.emitted, vec![2, 3, 4, 5, 6, 7, 8, 9, 10]);
    assert_eq!(r.finish, Finish::Stop);
    assert_eq!(r.counts, (9, 27, 0));
}

#[test]
fn a_draft_that_ends_the_reply_too_early_is_overruled() {
    let draft = |c: &[u32]| {
        if c.len() % 3 == 0 {
            EOS
        } else {
            counting(c)
        }
    };
    let r = speculate(&counting, &draft, &[1], 100);
    assert_eq!((r.emitted, r.finish), single(&counting, &[1], 100));
}

#[test]
fn speculation_gives_what_the_target_alone_gives() {
    let target = |c: &[u32]| {
        let sum: u32 = c.iter().enumerate().map(|(i, t)| (i as u32 + 3) * (t + 1)).sum();
        if sum % 23 == 0 {
            EOS
        } else {
            sum % 17
        }
    };
    for seed in 0..40u32 {
        let draft = |c: &[u32]| {
            if (c.len() as u32 * 7 + seed) % 5 < 3 {
                target(c)
            } else {
                (c.len() as u32 + seed) % 17
            }
        };
        for limit in [1u32, 2, 3, 4, 5, 7, 8, 9, 30] {
            let prompt = [seed, 5, seed % 3];
            let r = speculate(&target, &draft, &prompt, limit);
            assert_eq!(
                decode(&target, &prompt, limit),
                single(&target, &prompt, limit as usize),
                "{seed} {limit}"
            );
            assert_eq!(
                (r.emitted, r.finish),
                single(&target, &prompt, limit as usize),
                "{seed} {limit}"
            );
            let (rounds, proposed, accepted) = r.counts;
            assert!(accepted <= proposed && proposed <= (SPEC_K as u64 - 1) * rounds);
        }
    }
}

#[test]
fn a_reply_that_ends_at_once_is_empty() {
    let r = speculate(&|_| EOS, &counting, &[1, 2], 10);
    assert_eq!(r.emitted, Vec::<u32>::new());
    assert_eq!(r.finish, Finish::Stop);
    assert_eq!(r.counts, (0, 0, 0));
    assert!(r.flushed.is_empty());
}

#[test]
fn the_first_token_is_emitted_whatever_the_limit() {
    for limit in [0, 1] {
        let r = speculate(&counting, &counting, &[1], limit);
        assert_eq!(r.emitted, vec![2]);
        assert_eq!(r.finish, Finish::Length);
        assert_eq!(r.counts, (0, 0, 0));
    }
}

#[test]
fn the_limit_ends_a_generation_inside_a_round() {
    for limit in 2..9u32 {
        let r = speculate(&counting, &counting, &[1], limit);
        assert_eq!(r.emitted.len(), limit as usize);
        assert_eq!(r.finish, Finish::Length);
        assert_eq!(*r.flushed.last().unwrap(), r.emitted.len());
    }
}

#[test]
fn a_round_emits_the_accepted_proposals_and_one_more() {
    let mut s = Speculation::new(1, 100);
    s.prefilled(2);
    s.ingested();
    s.proposed(3);
    s.proposed(4);
    s.proposed(9);
    assert_eq!(s.stage(), Stage::Verify);
    assert_eq!(s.verify_input(), vec![2, 3, 4, 9]);
    assert_eq!(s.verified(&vec![3, 4, 5, 77]), vec![3, 4]);
    assert_eq!(s.emitted(), &vec![2, 3, 4, 5]);
    assert_eq!(s.stage(), Stage::Rewind);
    assert_eq!(s.keep(), 4);
    assert_eq!(s.counts(), (1, 3, 2));
    s.rewound();
    assert_eq!(s.leader(), Some(5));
    assert_eq!(s.stage(), Stage::Ingest);
}

#[test]
fn decoding_ends_at_the_limit_or_with_the_reply() {
    assert_eq!(decode(&counting, &[7], 2), (vec![8, 9], Finish::Length));
    assert_eq!(decode(&counting, &[7], 3), (vec![8, 9, 10], Finish::Length));
    assert_eq!(decode(&counting, &[7], 4), (vec![8, 9, 10], Finish::Stop));
    assert_eq!(decode(&counting, &[7], 0), (vec![8], Finish::Length));
    assert_eq!(decode(&counting, &[10], 5), (Vec::new(), Finish::Stop));
}

#[test]
fn a_generation_that_has_ended_takes_nothing_more() {
    let mut d = Decoding::new(1);
    assert_eq!(d.ended(), None);
    assert!(d.take(4));
    assert_eq!(d.ended(), Some(Finish::Length));
    assert!(!d.take(5));
    assert!(!d.take(EOS));
    assert_eq!(d.emitted(), &vec![4]);
    assert_eq!(d.ended(), Some(Finish::Length));
}

#[test]
fn what_is_said_of_a_reply() {
    for (n, limit, count, finish) in [
        (0, 0, 0, "stop"),
        (0, 4, 0, "stop"),
        (2, 0, 1, "length"),
        (3, 4, 3, "stop"),
        (4, 4, 4, "length"),
        (9, 4, 4, "length"),
    ] {
        let next = |context: &[u32]| if context.len() == 2 + n { EOS } else { 7 };
        let (alone, end) = decode(&next, &[1, 2], limit);
        let both = speculate(&next, &next, &[1, 2], limit);
        for (emitted, end) in [(alone, end), (both.emitted, both.finish)] {
            let r = conclude(String::new(), Vec::new(), end, 2, emitted.len());
            assert_eq!((r.prompt_tokens, r.completion_tokens), (2, count));
            assert_eq!(r.finish_reason, finish);
        }
    }
}
