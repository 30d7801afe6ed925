//! The host state of the engine and the decoding loops.

use whetstone::engine::{
    chunk_width, cross_entropy_windows, prefill, window_pairs, PrefillPart, RECENT_CAP,
};
use whetstone::error::{Error, Lack, RunIssue, ShapeFault};
use whetstone::generate::{GenAction, Generation};
use whetstone::profile::{launches, must_reset, stage_labels, Stage};
use whetstone::sampling::{draw, pool_size, splitmix64};
use whetstone::speculate::{count_agreed, propose, Action, Speculation};
use whetstone::{Engine, SpecConfig, SpecStats};

fn run_issue<T>(r: Result<T, Error>) -> RunIssue {
    match r {
        Err(Error::Shape(ShapeFault::Run(issue))) => issue,
        Err(e) => panic!("unexpected error: {e:?}"),
        Ok(_) => panic!("should have been refused"),
    }
}

#[test]
fn a_full_cache_takes_no_more() {
    let mut e = Engine::new(2);
    assert!(e.step().is_ok());
    for t in [7, 8] {
        e.forward(t).unwrap();
        e.stepped();
    }
    assert_eq!(e.position(), 2);
    assert_eq!(e.max_seq(), 2);
    assert_eq!(run_issue(e.step()), RunIssue::ContextFull(2));
    assert_eq!(run_issue(e.forward(9)), RunIssue::ContextFull(2));
    assert_eq!(e.penalised(10), vec![7, 8]);
    e.reset();
    assert_eq!(e.position(), 0);
    assert!(e.penalised(10).is_empty());
    e.stepped();
    assert_eq!(e.position(), 1);
}

#[test]
fn the_window_of_recent_tokens_is_bounded() {
    let mut e = Engine::new(4096);
    for t in 0..(RECENT_CAP as u32 + 5) {
        e.note(t);
    }
    let all = e.penalised(usize::MAX);
    assert_eq!(all.len(), RECENT_CAP);
    assert_eq!(all[0], 5);
    assert_eq!(e.penalised(2), vec![RECENT_CAP as u32 + 3, RECENT_CAP as u32 + 4]);
    e.unnote(3);
    assert_eq!(e.penalised(1), vec![RECENT_CAP as u32 + 1]);
    e.unnote(usize::MAX);
    assert!(e.penalised(1).is_empty());
}

#[test]
fn a_pass_must_fit() {
    let mut e = Engine::new(8);
    assert_eq!(run_issue(e.chunk_picks(1, &[])), RunIssue::NoChunk);
    assert_eq!(run_issue(e.forward_chunk(0, true, 4)), RunIssue::EmptyChunk);
    assert!(matches!(e.forward_chunk(1, false, 4), Err(Error::Unsupported(Lack::ChunkKernel))));
    assert_eq!(run_issue(e.forward_chunk(5, true, 4)), RunIssue::TooWide { tokens: 5, width: 4 });
    for _ in 0..2 {
        e.forward_chunk(3, true, 4).unwrap();
        e.chunk_done(&[1, 2, 3]);
    }
    assert_eq!(e.position(), 6);
    assert_eq!(
        run_issue(e.forward_chunk(3, true, 4)),
        RunIssue::PastEnd { tokens: 3, position: 6, capacity: 8 }
    );
    assert_eq!(e.chunk_picks(3, &[9, -1, 7, 0]).unwrap(), vec![9, 0, 7]);
}

#[test]
fn rejected_drafts_are_forgotten() {
    let mut e = Engine::new(16);
    for t in [1, 2, 3] {
        e.forward(t).unwrap();
        e.stepped();
    }
    e.forward_chunk(3, true, 4).unwrap();
    e.chunk_done(&[4, 5, 6]);
    e.rewind(4).unwrap();
    e.unnote(2);
    assert_eq!(e.position(), 4);
    assert_eq!(e.penalised(9), vec![1, 2, 3, 4]);
    assert_eq!(run_issue(e.rewind(5)), RunIssue::RewindAhead { to: 5, position: 4 });
}

#[test]
fn prompts_are_fed_in_passes() {
    let part = |from, to, want_logits| PrefillPart { from, to, want_logits };
    assert_eq!(
        prefill(9, true, true, 4).unwrap(),
        vec![part(0, 4, false), part(4, 8, false), part(8, 9, true)]
    );
    assert_eq!(prefill(8, true, true, 4).unwrap(), vec![part(0, 4, false), part(4, 8, true)]);
    assert!(prefill(1, true, true, 4).is_none());
    assert!(prefill(9, false, true, 4).is_none());
    assert!(prefill(9, true, false, 4).is_none());
    assert_eq!(chunk_width(None, 8), 8);
    assert_eq!(chunk_width(Some("3"), 8), 3);
    assert_eq!(chunk_width(Some("9"), 8), 8);
    assert_eq!(chunk_width(Some("0"), 8), 8);
    assert_eq!(chunk_width(Some("three"), 8), 8);
}

#[test]
fn passes_leave_what_single_tokens_leave() {
    let prompt: Vec<u32> = (0..37).collect();
    let mut single = Engine::new(64);
    for &t in &prompt {
        single.forward(t).unwrap();
        single.stepped();
    }
    let mut wide = Engine::new(64);
    for p in prefill(prompt.len(), true, true, 16).unwrap() {
        wide.forward_chunk(p.to - p.from, true, 16).unwrap();
        wide.chunk_done(&prompt[p.from..p.to]);
    }
    assert_eq!(wide.position(), 37);
    assert_eq!(wide.position(), single.position());
    assert_eq!(wide.penalised(usize::MAX), single.penalised(usize::MAX));
    assert_eq!(wide.penalised(2), vec![35, 36]);
}

#[test]
fn streams_are_scored_in_whole_windows() {
    assert_eq!(cross_entropy_windows(103, 10, 100, 64).unwrap(), 10);
    assert_eq!(cross_entropy_windows(103, 10, 3, 64).unwrap(), 3);
    assert_eq!(run_issue(cross_entropy_windows(103, 1, 3, 64)), RunIssue::WindowTooSmall);
    assert_eq!(
        run_issue(cross_entropy_windows(103, 65, 3, 64)),
        RunIssue::WindowTooLarge { window: 65, capacity: 64 }
    );
    let tokens: Vec<u32> = (0..9).collect();
    assert_eq!(window_pairs(&tokens, 3, 1), vec![(3, 4), (4, 5)]);
}

#[test]
fn drafts_continue_the_latest_longest_repeat() {
    let cfg = SpecConfig::default();
    assert_eq!((cfg.draft, cfg.ngram_max, cfg.ngram_min), (4, 3, 2));
    // "2 3" was last followed by 4 5.
    assert_eq!(propose(&[1, 2, 3, 4, 5, 2, 3], &cfg, 2), vec![4, 5]);
    assert_eq!(propose(&[1, 2, 3, 4, 5, 2, 3], &cfg, 9), vec![4, 5, 2, 3]);
    // The longer repeat wins over a later, shorter one.
    assert_eq!(propose(&[1, 2, 3, 9, 2, 3, 8, 1, 2, 3], &cfg, 1), vec![9]);
    assert!(propose(&[1, 2, 3, 4], &cfg, 3).is_empty());
    assert!(propose(&[1, 2, 1, 2], &cfg, 0).is_empty());
    assert_eq!(count_agreed(&[5, 6, 7], &[6, 7, 8]), 2);
    assert_eq!(count_agreed(&[5, 6, 7], &[6, 9, 8]), 1);
    assert_eq!(count_agreed(&[5, 6, 7], &[1, 9, 8]), 0);
}

/// A model that is a function of the last token and repeats itself.
fn choice(last: u32) -> u32 {
    match last % 16 {
        15 => last - 15,
        11 => last * 3 % 64,
        _ => last + 1,
    }
}

fn greedily(prompt: &[u32], max_new: usize, max_seq: usize) -> Vec<u32> {
    greedily_until(prompt, max_new, max_seq, |_| true)
}

/// What a caller sees who goes on after some tokens if `keep` says so.
fn greedily_until(prompt: &[u32], max_new: usize, max_seq: usize, keep: impl Fn(&[u32]) -> bool) -> Vec<u32> {
    let first = choice(prompt[prompt.len() - 1]);
    let mut g = Generation::start(prompt, max_new, prompt.len(), max_seq, first).unwrap();
    let (mut said, mut last) = (Vec::new(), first);
    loop {
        match g.action() {
            GenAction::Offer(t) => {
                said.push(t);
                last = t;
                g.shown(keep(&said));
            }
            GenAction::Step(n) => {
                assert_eq!(n, said.len());
                g.stepped(choice(last));
            }
            GenAction::Stop => {
                assert_eq!(g.generated(), said.len() - usize::from(!said.is_empty() && !keep(&said)));
                return said;
            }
        }
    }
}

fn speculatively(prompt: &[u32], max_new: usize, max_seq: usize) -> (Vec<u32>, SpecStats) {
    speculatively_until(prompt, max_new, max_seq, |_| true)
}

fn speculatively_until(
    prompt: &[u32],
    max_new: usize,
    max_seq: usize,
    keep: impl Fn(&[u32]) -> bool,
) -> (Vec<u32>, SpecStats) {
    let first = choice(prompt[prompt.len() - 1]);
    let cfg = SpecConfig::default();
    let mut s = Speculation::start(prompt, max_new, cfg, true, 8, prompt.len(), max_seq, first).unwrap();
    let mut said = Vec::new();
    loop {
        match s.action() {
            Action::Offer(t) => {
                said.push(t);
                s.kept(keep(&said));
            }
            Action::Run(tokens) => {
                let picks: Vec<u32> = tokens.iter().map(|&t| choice(t)).collect();
                let fix = s.picked(&picks);
                assert!(fix.position <= max_seq);
            }
            Action::Pend(_) => s.pended(),
            Action::Stop => {
                assert_eq!(s.generated(), said.len() - usize::from(!said.is_empty() && !keep(&said)));
                return (said, s.stats());
            }
        }
    }
}

#[test]
fn speculation_changes_nothing_but_the_number_of_passes() {
    let prompt: Vec<u32> = (0..16).chain(0..9).collect();
    for (max_new, max_seq) in [(0, 100), (1, 100), (40, 200), (40, 30), (7, 25)] {
        let plain = greedily(&prompt, max_new, max_seq);
        let (spec, stats) = speculatively(&prompt, max_new, max_seq);
        assert_eq!(spec, plain, "max_new {max_new}, max_seq {max_seq}");
        assert!(stats.rounds <= plain.len().max(1));
        assert!(stats.accepted <= stats.proposed);
    }
    let (_, stats) = speculatively(&prompt, 40, 200);
    assert!(stats.rounds < 40, "a repeating text is cheap to guess: {stats:?}");
}

#[test]
fn a_caller_who_stops_sees_the_same_tokens() {
    let prompt: Vec<u32> = (0..16).chain(0..9).collect();
    for n in 1..40 {
        let keep = |said: &[u32]| said.len() < n;
        let plain = greedily_until(&prompt, 40, 200, keep);
        assert_eq!(plain.len(), n);
        assert_eq!(speculatively_until(&prompt, 40, 200, keep).0, plain);
    }
    let keep = |said: &[u32]| said[said.len() - 1] != 33;
    let plain = greedily_until(&prompt, 40, 200, keep);
    assert_eq!(plain[plain.len() - 1], 33);
    assert_eq!(speculatively_until(&prompt, 40, 200, keep).0, plain);
}

#[test]
fn a_caller_can_stop_a_run() {
    let mut g = Generation::start(&[1], 5, 1, 100, 2).unwrap();
    g.shown(false);
    assert!(matches!(g.action(), GenAction::Stop));
    assert_eq!(g.generated(), 0);
    assert_eq!(run_issue(Generation::start(&[], 5, 0, 100, 2)), RunIssue::EmptyPrompt);

    let cfg = SpecConfig::default();
    let mut s = Speculation::start(&[1], 5, cfg, true, 8, 1, 100, 2).unwrap();
    s.kept(false);
    assert!(matches!(s.action(), Action::Stop));
    let cfg = SpecConfig::default();
    assert_eq!(run_issue(Speculation::start(&[], 5, cfg, true, 8, 0, 100, 2)), RunIssue::EmptyPrompt);
    let cfg = SpecConfig::default();
    assert!(matches!(
        Speculation::start(&[1], 5, cfg, false, 8, 1, 100, 2),
        Err(Error::Unsupported(Lack::ChunkKernel))
    ));
}

#[test]
fn draws_are_a_function_of_seed_and_step() {
    // The first output of the generator seeded with zero.
    assert_eq!(splitmix64(0), 0xe220_a839_7b1d_cdaf);
    assert_eq!(draw(0, 0), 0xe220_a839_7b1d_cdaf);
    assert_eq!(draw(7, 3), draw(7, 3));
    assert_ne!(draw(7, 3), draw(7, 4));
    assert_ne!(draw(7, 3), draw(8, 3));
    assert_eq!(pool_size(0, 1000), 512);
    assert_eq!(pool_size(40, 1000), 40);
    assert_eq!(pool_size(0, 100), 100);
}

#[test]
fn a_step_is_marked_stage_by_stage() {
    let labels = stage_labels(2);
    assert_eq!(labels.len(), 25);
    assert_eq!(labels[0], Stage::Embed);
    assert_eq!(labels[1..11], labels[11..21]);
    assert_eq!(labels[21..], [Stage::RmsNorm, Stage::LmHead, Stage::Sample, Stage::Advance]);
    assert_eq!(labels.iter().filter(|&&s| s == Stage::RmsNorm).count(), 5);
    assert_eq!(launches(2), 25);
    assert!(must_reset(10, 10));
    assert!(!must_reset(9, 10));
}
