//! Speculative decoding against a draft that costs nothing to run.
//!
//! The draft is an n-gram lookup: find the most recent earlier occurrence of the
//! last few tokens and propose whatever followed it. The target model then reads
//! the known-good token and the whole draft in one pass, and keeps the draft as
//! far as it agrees with its own greedy choice. What comes out is what greedy
//! decoding would have produced, token for token.
//!
//! The run is a small machine. [`Speculation::action`] says what is to be done
//! next (show a token to the caller, run the model, put a token where the next
//! pass will look), and the answer is handed back through
//! [`Speculation::kept`], [`Speculation::picked`] or [`Speculation::pended`].

use vstd::prelude::*;
use vstd::slice::slice_to_vec;

use crate::error::{Error, Lack, RunIssue, ShapeFault};

verus! {

/// How a speculative run is configured.
#[derive(Debug, Clone, Copy)]
pub struct SpecConfig {
    /// Tokens fed to one verification pass, with the known-good first one. The
    /// draft supplies `draft - 1` of them.
    pub draft: usize,
    /// Longest n-gram to match against the history. Longer matches are tried
    /// first because they are far likelier to be accepted.
    pub ngram_max: usize,
    /// Shortest n-gram to accept as a match. Below about 2 the proposals are
    /// noise and every round wastes its verification.
    pub ngram_min: usize,
}

impl Default for SpecConfig {
    fn default() -> (cfg: Self)
        ensures
            cfg.draft == 4,
            cfg.ngram_max == 3,
            cfg.ngram_min == 2,
    {
        SpecConfig { draft: 4, ngram_max: 3, ngram_min: 2 }
    }
}

/// What a speculative run actually did.
#[derive(Debug, Clone, Copy)]
pub struct SpecStats {
    /// Verification passes run.
    pub rounds: usize,
    /// Rounds where the n-gram draft found nothing and a plain step ran.
    pub empty_rounds: usize,
    /// Draft tokens proposed across all rounds.
    pub proposed: usize,
    /// Draft tokens the target confirmed.
    pub accepted: usize,
}

impl Default for SpecStats {
    fn default() -> (stats: Self)
        ensures
            stats.rounds == 0,
            stats.empty_rounds == 0,
            stats.proposed == 0,
            stats.accepted == 0,
    {
        SpecStats { rounds: 0, empty_rounds: 0, proposed: 0, accepted: 0 }
    }
}

/// Whether the last `n` tokens of a history also stand at `start`, before the
/// end of it.
pub open spec fn repeats_at(history: Seq<u32>, n: int, start: int) -> bool {
    &&& 0 <= n
    &&& 0 <= start
    &&& start + n < history.len()
    &&& history.subrange(start, start + n) == history.subrange(
        history.len() - n,
        history.len() as int,
    )
}

/// Whether `n` tokens at `start` are the match to draft from: no longer tail
/// within the bounds repeats, and this one does not repeat later.
pub open spec fn best_match(history: Seq<u32>, lo: int, hi: int, n: int, start: int) -> bool {
    &&& lo <= n <= hi
    &&& repeats_at(history, n, start)
    &&& forall|later: int| start < later ==> !repeats_at(history, n, later)
    &&& forall|longer: int, at: int| n < longer <= hi ==> !repeats_at(history, longer, at)
}

/// Whether there is a match to draft from.
pub open spec fn has_match(history: Seq<u32>, lo: int, hi: int) -> bool {
    exists|n: int, start: int| best_match(history, lo, hi, n, start)
}

/// The draft: up to `want` of the tokens that followed the best match.
pub open spec fn proposal(history: Seq<u32>, lo: int, hi: int, want: int) -> Seq<u32> {
    if want == 0 || !has_match(history, lo, hi) {
        Seq::empty()
    } else {
        let (n, start) = choose|n: int, start: int| best_match(history, lo, hi, n, start);
        following(history, start + n, want)
    }
}

/// Up to `want` tokens of a history from a place on.
pub open spec fn following(history: Seq<u32>, from: int, want: int) -> Seq<u32> {
    history.subrange(
        from,
        if want <= history.len() - from {
            from + want
        } else {
            history.len() as int
        },
    )
}

/// There is at most one best match, so a draft does not depend on the choice.
proof fn lemma_best_match(history: Seq<u32>, lo: int, hi: int, n: int, start: int)
    requires
        best_match(history, lo, hi, n, start),
    ensures
        has_match(history, lo, hi),
        forall|want: int|
            want != 0 ==> #[trigger] proposal(history, lo, hi, want) == following(
                history,
                start + n,
                want,
            ),
{
    let (m, at) = choose|m: int, at: int| best_match(history, lo, hi, m, at);
    assert(best_match(history, lo, hi, m, at));
    assert(n == m);
    assert(start == at);
}

/// A draft is no longer than was wanted, and only of tokens already seen.
pub proof fn drafts_are_quotes(history: Seq<u32>, lo: int, hi: int, want: int)
    requires
        0 <= want,
    ensures
        proposal(history, lo, hi, want).len() <= want,
        forall|i: int|
            0 <= i < proposal(history, lo, hi, want).len() ==> history.contains(
                #[trigger] proposal(history, lo, hi, want)[i],
            ),
{
    if want != 0 && has_match(history, lo, hi) {
        let (n, start) = choose|n: int, start: int| best_match(history, lo, hi, n, start);
        lemma_best_match(history, lo, hi, n, start);
        let p = proposal(history, lo, hi, want);
        assert forall|i: int| 0 <= i < p.len() implies history.contains(#[trigger] p[i]) by {
            assert(p[i] == history[start + n + i]);
        }
    }
}

/// Whether the runs of `n` tokens at `a` and at `b` are the same.
fn same_run(history: &[u32], a: usize, b: usize, n: usize) -> (same: bool)
    requires
        a + n <= history.len(),
        b + n <= history.len(),
    ensures
        same == (history@.subrange(a as int, a + n) == history@.subrange(b as int, b + n)),
{
    let mut i: usize = 0;
    while i < n
        invariant
            i <= n,
            a + n <= history.len(),
            b + n <= history.len(),
            forall|j: int|
                0 <= j < i ==> #[trigger] history@.subrange(a as int, a + n)[j]
                    == history@.subrange(b as int, b + n)[j],
        decreases n - i,
    {
        if history[a + i] != history[b + i] {
            proof {
                assert(history@.subrange(a as int, a + n)[i as int] != history@.subrange(
                    b as int,
                    b + n,
                )[i as int]);
            }
            return false;
        }
        i += 1;
    }
    assert(history@.subrange(a as int, a + n) =~= history@.subrange(b as int, b + n));
    true
}

/// The most recent earlier place where the last `n` tokens stand.
fn most_recent(history: &[u32], n: usize) -> (at: Option<usize>)
    requires
        n < history.len(),
    ensures
        match at {
            Some(start) => repeats_at(history@, n as int, start as int) && forall|later: int|
                start < later ==> !repeats_at(history@, n as int, later),
            None => forall|start: int| !repeats_at(history@, n as int, start),
        },
{
    let mut start: usize = history.len() - n;
    while 0 < start
        invariant
            n < history.len(),
            start <= history.len() - n,
            forall|later: int| start <= later ==> !repeats_at(history@, n as int, later),
        decreases start,
    {
        start -= 1;
        if same_run(history, start, history.len() - n, n) {
            return Some(start);
        }
    }
    None
}

/// Proposes up to `want` tokens by finding the most recent earlier occurrence of
/// the history's tail.
///
/// Longest n-gram first: a 3-token match is a much stronger signal than a
/// 2-token one, and proposing from a weak match burns the round's whole draft
/// budget on tokens that will be rejected at position one.
pub fn propose(history: &[u32], cfg: &SpecConfig, want: usize) -> (draft: Vec<u32>)
    ensures
        draft@ == proposal(history@, cfg.ngram_min as int, cfg.ngram_max as int, want as int),
{
    let ghost lo = cfg.ngram_min as int;
    let ghost hi = cfg.ngram_max as int;
    let mut draft: Vec<u32> = Vec::new();
    if want == 0 || history.len() == 0 {
        proof {
            assert(draft@ =~= Seq::<u32>::empty());
        }
        return draft;
    }
    let longest: usize = if cfg.ngram_max < history.len() {
        cfg.ngram_max
    } else {
        history.len() - 1
    };
    if longest < cfg.ngram_min {
        proof {
            assert(draft@ =~= Seq::<u32>::empty());
        }
        return draft;
    }
    let mut n: usize = longest;
    loop
        invariant
            cfg.ngram_min <= n <= longest,
            longest < history.len(),
            longest <= cfg.ngram_max,
            longest == cfg.ngram_max || longest == history.len() - 1,
            lo == cfg.ngram_min,
            hi == cfg.ngram_max,
            0 < want,
            draft@.len() == 0,
            forall|longer: int, at: int| n < longer <= hi ==> !repeats_at(history@, longer, at),
        decreases n,
    {
        if let Some(start) = most_recent(history, n) {
            proof {
                assert(best_match(history@, lo, hi, n as int, start as int));
                lemma_best_match(history@, lo, hi, n as int, start as int);
            }
            let from: usize = start + n;
            let take: usize = if want <= history.len() - from {
                want
            } else {
                history.len() - from
            };
            let ghost out = following(history@, from as int, want as int);
            let mut i: usize = 0;
            while i < take
                invariant
                    i <= take,
                    from + take <= history.len(),
                    out == history@.subrange(from as int, from + take),
                    draft@ == out.take(i as int),
                decreases take - i,
            {
                draft.push(history[from + i]);
                i += 1;
                assert(draft@ =~= out.take(i as int));
            }
            assert(draft@ =~= out);
            return draft;
        }
        if n == cfg.ngram_min {
            proof {
                assert(draft@ =~= Seq::<u32>::empty());
            }
            return draft;
        }
        n -= 1;
    }
}

/// What a speculative run wants done next.
#[derive(Debug)]
pub enum Action {
    /// Show this token to the caller, and say whether it is to go on.
    Offer(u32),
    /// Run these tokens through the model in one pass, and say which token it
    /// picks after each of them.
    Run(Vec<u32>),
    /// Put this token where the next pass will look.
    Pend(u32),
    /// Nothing: the run is over.
    Stop,
}

/// What is to be put right after a pass.
#[derive(Debug, Clone, Copy, PartialEq, Eq, Structural)]
pub struct Correction {
    /// Where the cache ends.
    pub position: usize,
    /// How many of the tokens that were run are to be forgotten.
    pub forget: usize,
}

/// What a run is in the middle of.
pub enum Phase {
    /// A token is to be shown.
    Offer,
    /// These tokens are to be run.
    Run(Vec<u32>),
    /// The tokens of this list from this place on are confirmed and still to be
    /// shown.
    Settle(Vec<u32>, usize),
    /// The next token is to be put in its place.
    Pend,
    /// The run is over.
    Done,
}

/// What a run is in the middle of, in terms of token sequences.
#[verifier::ext_equal]
pub enum PhaseView {
    Offer,
    Run(Seq<u32>),
    Settle(Seq<u32>),
    Pend,
    Done,
}

/// The counts of a run.
pub struct StatsView {
    pub rounds: nat,
    pub empty_rounds: nat,
    pub proposed: nat,
    pub accepted: nat,
}

impl View for SpecStats {
    type V = StatsView;

    open spec fn view(&self) -> StatsView {
        StatsView {
            rounds: self.rounds as nat,
            empty_rounds: self.empty_rounds as nat,
            proposed: self.proposed as nat,
            accepted: self.accepted as nat,
        }
    }
}

/// The state of a speculative run.
#[verifier::ext_equal]
pub struct RunView {
    /// Shortest n-gram to match.
    pub lo: int,
    /// Longest n-gram to match.
    pub hi: int,
    /// Tokens one pass may take.
    pub width: int,
    /// Tokens to generate at most.
    pub max_new: int,
    /// Tokens the cache can hold.
    pub max_seq: int,
    /// The prompt and what was shown and kept since.
    pub history: Seq<u32>,
    /// What was shown and kept.
    pub emitted: Seq<u32>,
    /// The next token to be shown, or to be shown once those before it are.
    pub next: u32,
    /// Tokens in the cache.
    pub pos: int,
    /// Whether the caller asked to stop.
    pub refused: bool,
    pub phase: PhaseView,
    pub stats: StatsView,
}

/// How many of the tokens behind the first the picks confirm.
pub open spec fn agreed(inputs: Seq<u32>, picks: Seq<u32>) -> int
    decreases inputs.len(),
{
    if inputs.len() <= 1 || picks.len() == 0 || picks[0] != inputs[1] {
        0
    } else {
        1 + agreed(inputs.skip(1), picks.skip(1))
    }
}

/// The state a run starts in, with a prompt in the cache and the model's pick
/// after it.
pub open spec fn started(
    cfg: SpecConfig,
    chunk_width: int,
    prompt: Seq<u32>,
    max_new: int,
    pos: int,
    max_seq: int,
    first: u32,
) -> RunView {
    RunView {
        lo: cfg.ngram_min as int,
        hi: cfg.ngram_max as int,
        width: if cfg.draft == 0 {
            1
        } else if cfg.draft < chunk_width {
            cfg.draft as int
        } else {
            chunk_width
        },
        max_new,
        max_seq,
        history: prompt,
        emitted: Seq::empty(),
        next: first,
        pos,
        refused: false,
        phase: if max_new == 0 {
            PhaseView::Done
        } else {
            PhaseView::Offer
        },
        stats: StatsView { rounds: 0, empty_rounds: 0, proposed: 0, accepted: 0 },
    }
}

/// The tokens of the next pass: the known-good one and a draft that fits both
/// the width of a pass and the room in the cache.
pub open spec fn next_inputs(s: RunView, history: Seq<u32>, token: u32) -> Seq<u32> {
    let room = s.max_seq - s.pos - 1;
    let want = if s.width - 1 < room {
        s.width - 1
    } else {
        room
    };
    seq![token] + proposal(history, s.lo, s.hi, want)
}

/// The state after the caller was shown a token and said whether to go on.
pub open spec fn after_kept(s: RunView, go_on: bool) -> RunView {
    if !go_on {
        RunView { refused: true, phase: PhaseView::Done, ..s }
    } else {
        match s.phase {
            PhaseView::Offer => {
                let history = s.history.push(s.next);
                let emitted = s.emitted.push(s.next);
                RunView {
                    history,
                    emitted,
                    phase: if emitted.len() >= s.max_new || s.pos >= s.max_seq {
                        PhaseView::Done
                    } else {
                        PhaseView::Run(next_inputs(s, history, s.next))
                    },
                    ..s
                }
            },
            PhaseView::Settle(rest) => {
                let emitted = s.emitted.push(rest[0]);
                RunView {
                    history: s.history.push(rest[0]),
                    emitted,
                    phase: if emitted.len() >= s.max_new {
                        PhaseView::Done
                    } else if rest.len() == 1 {
                        PhaseView::Pend
                    } else {
                        PhaseView::Settle(rest.skip(1))
                    },
                    ..s
                }
            },
            _ => s,
        }
    }
}

/// The state after a pass, with the model's pick after each of its tokens.
pub open spec fn after_picked(s: RunView, picks: Seq<u32>) -> RunView {
    match s.phase {
        PhaseView::Run(inputs) => {
            let m = agreed(inputs, picks);
            let alone = inputs.len() == 1;
            RunView {
                pos: s.pos + m + 1,
                next: picks[m],
                phase: if alone {
                    PhaseView::Offer
                } else if m == 0 {
                    PhaseView::Pend
                } else {
                    PhaseView::Settle(inputs.subrange(1, m + 1))
                },
                stats: StatsView {
                    rounds: s.stats.rounds + 1,
                    empty_rounds: s.stats.empty_rounds + if alone {
                        1nat
                    } else {
                        0nat
                    },
                    proposed: (s.stats.proposed + inputs.len() - 1) as nat,
                    accepted: (s.stats.accepted + m) as nat,
                },
                ..s
            }
        },
        _ => s,
    }
}

/// The state after the next token was put in its place.
pub open spec fn after_pended(s: RunView) -> RunView {
    RunView { phase: PhaseView::Offer, ..s }
}

/// What every state of a run keeps to.
pub open spec fn sound(s: RunView) -> bool {
    &&& 1 <= s.width
    &&& 0 <= s.pos <= s.max_seq
    &&& s.emitted.len() <= s.max_new
    &&& s.stats.rounds <= s.pos
    &&& s.stats.empty_rounds <= s.stats.rounds
    &&& s.stats.accepted <= s.stats.proposed <= s.stats.rounds * s.width
    &&& s.max_seq * s.width <= usize::MAX
    &&& match s.phase {
        PhaseView::Offer => s.emitted.len() < s.max_new,
        PhaseView::Pend => s.emitted.len() < s.max_new,
        PhaseView::Run(inputs) => {
            &&& 1 <= inputs.len() <= s.width
            &&& s.pos + inputs.len() <= s.max_seq
            &&& s.emitted.len() < s.max_new
        },
        PhaseView::Settle(rest) => 1 <= rest.len() && s.emitted.len() < s.max_new,
        PhaseView::Done => true,
    }
}

/// The picks confirm no more tokens than there are behind the first.
pub proof fn agreed_in_range(inputs: Seq<u32>, picks: Seq<u32>)
    requires
        1 <= inputs.len(),
    ensures
        0 <= agreed(inputs, picks) < inputs.len(),
        agreed(inputs, picks) <= picks.len(),
    decreases inputs.len(),
{
    if !(inputs.len() <= 1 || picks.len() == 0 || picks[0] != inputs[1]) {
        agreed_in_range(inputs.skip(1), picks.skip(1));
    }
}

/// The picks confirm exactly the tokens up to the first they differ from.
proof fn lemma_agreed(inputs: Seq<u32>, picks: Seq<u32>, m: int)
    requires
        inputs.len() == picks.len(),
        0 <= m < inputs.len(),
        forall|j: int| 0 <= j < m ==> picks[j] == #[trigger] inputs.skip(1)[j],
        m + 1 < inputs.len() ==> picks[m] != inputs[m + 1],
    ensures
        agreed(inputs, picks) == m,
    decreases inputs.len(),
{
    if m > 0 {
        assert(picks[0] == inputs.skip(1)[0]);
        let rest = inputs.skip(1);
        let tail = picks.skip(1);
        assert forall|j: int| 0 <= j < m - 1 implies tail[j] == #[trigger] rest.skip(1)[j] by {
            assert(picks[j + 1] == inputs.skip(1)[j + 1]);
        }
        lemma_agreed(rest, tail, m - 1);
    }
}

/// Counts the tokens behind the first that the picks confirm.
pub fn count_agreed(inputs: &[u32], picks: &[u32]) -> (m: usize)
    requires
        1 <= inputs.len(),
        inputs.len() == picks.len(),
    ensures
        m == agreed(inputs@, picks@),
        m < inputs.len(),
{
    let mut j: usize = 0;
    while j + 1 < inputs.len()
        invariant
            j < inputs.len(),
            inputs.len() == picks.len(),
            forall|i: int| 0 <= i < j ==> picks@[i] == #[trigger] inputs@.skip(1)[i],
        decreases inputs.len() - j,
    {
        if picks[j] != inputs[j + 1] {
            proof {
                lemma_agreed(inputs@, picks@, j as int);
            }
            return j;
        }
        assert(inputs@.skip(1)[j as int] == inputs@[j + 1]);
        j += 1;
    }
    proof {
        lemma_agreed(inputs@, picks@, j as int);
    }
    j
}

/// Greedy generation with n-gram speculation, as a machine to be driven.
pub struct Speculation {
    cfg: SpecConfig,
    width: usize,
    max_new: usize,
    max_seq: usize,
    history: Vec<u32>,
    prompt: usize,
    next: u32,
    pos: usize,
    refused: bool,
    phase: Phase,
    stats: SpecStats,
}

impl View for Phase {
    type V = PhaseView;

    open spec fn view(&self) -> PhaseView {
        match *self {
            Phase::Offer => PhaseView::Offer,
            Phase::Run(inputs) => PhaseView::Run(inputs@),
            Phase::Settle(list, from) => PhaseView::Settle(list@.skip(from as int)),
            Phase::Pend => PhaseView::Pend,
            Phase::Done => PhaseView::Done,
        }
    }
}

impl View for Speculation {
    type V = RunView;

    closed spec fn view(&self) -> RunView {
        RunView {
            lo: self.cfg.ngram_min as int,
            hi: self.cfg.ngram_max as int,
            width: self.width as int,
            max_new: self.max_new as int,
            max_seq: self.max_seq as int,
            history: self.history@,
            emitted: self.history@.skip(self.prompt as int),
            next: self.next,
            pos: self.pos as int,
            refused: self.refused,
            phase: self.phase@,
            stats: self.stats@,
        }
    }
}

impl Speculation {
    /// What holds of a run at all times.
    pub closed spec fn wf(&self) -> bool {
        &&& sound(self@)
        &&& self.prompt <= self.history@.len()
        &&& match self.phase {
            Phase::Settle(list, from) => from < list@.len(),
            _ => true,
        }
    }

    /// Every state of a run is sound: it neither leaves the cache nor emits more
    /// than was asked for, and the counts add up.
    pub proof fn runs_are_sound(&self)
        requires
            self.wf(),
        ensures
            sound(self@),
    {
    }

    /// Starts a run. The prompt is in the cache, which holds `pos` tokens, and
    /// `first` is the model's own choice after it.
    ///
    /// An empty prompt is refused, and so is a model that cannot run several
    /// tokens in one pass.
    pub fn start(
        prompt: &[u32],
        max_new: usize,
        cfg: SpecConfig,
        supports_chunk: bool,
        chunk_width: usize,
        pos: usize,
        max_seq: usize,
        first: u32,
    ) -> (run: Result<Speculation, Error>)
        requires
            1 <= chunk_width,
            pos <= max_seq,
            max_seq * chunk_width <= usize::MAX,
        ensures
            match run {
                Ok(run) => {
                    &&& prompt@.len() > 0
                    &&& supports_chunk
                    &&& run.wf()
                    &&& run@ == started(
                        cfg,
                        chunk_width as int,
                        prompt@,
                        max_new as int,
                        pos as int,
                        max_seq as int,
                        first,
                    )
                },
                Err(Error::Shape(ShapeFault::Run(why))) => prompt@.len() == 0 && why
                    == RunIssue::EmptyPrompt,
                Err(Error::Unsupported(what)) => prompt@.len() > 0 && !supports_chunk && what
                    == Lack::ChunkKernel,
                Err(_) => false,
            },
    {
        if prompt.len() == 0 {
            return Err(Error::Shape(ShapeFault::Run(RunIssue::EmptyPrompt)));
        }
        if !supports_chunk {
            return Err(Error::Unsupported(Lack::ChunkKernel));
        }
        let draft: usize = if cfg.draft == 0 {
            1
        } else {
            cfg.draft
        };
        let width: usize = if draft < chunk_width {
            draft
        } else {
            chunk_width
        };
        let history: Vec<u32> = slice_to_vec(prompt);
        let run = Speculation {
            cfg,
            width,
            max_new,
            max_seq,
            prompt: history.len(),
            history,
            next: first,
            pos,
            refused: false,
            phase: if max_new == 0 {
                Phase::Done
            } else {
                Phase::Offer
            },
            stats: SpecStats::default(),
        };
        proof {
            assert(run@.emitted =~= Seq::<u32>::empty());
            assert(max_seq * width <= max_seq * chunk_width) by (nonlinear_arith)
                requires
                    width <= chunk_width,
            ;
            assert(run@.stats.rounds * run@.width == 0) by (nonlinear_arith)
                requires
                    run@.stats.rounds == 0,
            ;
            assert(run@ =~= started(
                cfg,
                chunk_width as int,
                prompt@,
                max_new as int,
                pos as int,
                max_seq as int,
                first,
            ));
        }
        Ok(run)
    }

    /// What is to be done next.
    pub fn action(&self) -> (action: Action)
        requires
            self.wf(),
        ensures
            match self@.phase {
                PhaseView::Offer => action == Action::Offer(self@.next),
                PhaseView::Run(inputs) => action matches Action::Run(tokens) && tokens@ == inputs,
                PhaseView::Settle(rest) => action == Action::Offer(rest[0]),
                PhaseView::Pend => action == Action::Pend(self@.next),
                PhaseView::Done => action == Action::Stop,
            },
    {
        match &self.phase {
            Phase::Offer => Action::Offer(self.next),
            Phase::Run(inputs) => {
                let tokens: Vec<u32> = slice_to_vec(inputs.as_slice());
                Action::Run(tokens)
            },
            Phase::Settle(list, from) => Action::Offer(list[*from]),
            Phase::Pend => Action::Pend(self.next),
            Phase::Done => Action::Stop,
        }
    }

    /// Takes the caller's answer to a token it was shown: whether to go on.
    pub fn kept(&mut self, go_on: bool)
        requires
            old(self).wf(),
            old(self)@.phase is Offer || old(self)@.phase is Settle,
        ensures
            final(self).wf(),
            final(self)@ == after_kept(old(self)@, go_on),
    {
        let ghost before = self@;
        if !go_on {
            self.refused = true;
            self.phase = Phase::Done;
            assert(self@ =~= after_kept(before, go_on));
            return;
        }
        let mut phase = Phase::Done;
        std::mem::swap(&mut self.phase, &mut phase);
        match phase {
            Phase::Settle(list, from) => {
                let ghost rest = list@.skip(from as int);
                self.history.push(list[from]);
                if self.history.len() - self.prompt < self.max_new {
                    if list.len() - 1 == from {
                        self.phase = Phase::Pend;
                    } else {
                        assert(rest.skip(1) =~= list@.skip(from + 1));
                        self.phase = Phase::Settle(list, from + 1);
                    }
                }
                proof {
                    assert(self@.emitted =~= before.emitted.push(rest[0]));
                    assert(self@ =~= after_kept(before, go_on));
                }
            },
            _ => {
                self.history.push(self.next);
                assert(self@.emitted =~= before.emitted.push(before.next));
                if self.history.len() - self.prompt < self.max_new && self.pos < self.max_seq {
                    let room: usize = self.max_seq - self.pos - 1;
                    let want: usize = if self.width - 1 < room {
                        self.width - 1
                    } else {
                        room
                    };
                    let mut draft = propose(self.history.as_slice(), &self.cfg, want);
                    let mut inputs: Vec<u32> = Vec::new();
                    inputs.push(self.next);
                    inputs.append(&mut draft);
                    proof {
                        drafts_are_quotes(self@.history, self@.lo, self@.hi, want as int);
                        assert(inputs@ =~= next_inputs(before, self@.history, before.next));
                    }
                    self.phase = Phase::Run(inputs);
                }
                proof {
                    assert(self@ =~= after_kept(before, go_on));
                }
            },
        }
    }

    /// Takes the model's pick after each token of the pass that was asked for,
    /// and says what the pass left to be put right: the cache is to hold the
    /// confirmed tokens and nothing after them, and the rest of the pass was
    /// never part of the text.
    pub fn picked(&mut self, picks: &[u32]) -> (fix: Correction)
        requires
            old(self).wf(),
            old(self)@.phase matches PhaseView::Run(inputs) && picks@.len() == inputs.len(),
        ensures
            final(self).wf(),
            final(self)@ == after_picked(old(self)@, picks@),
            fix.position == final(self)@.pos,
            fix.forget == old(self)@.phase->Run_0.len() - (agreed(
                old(self)@.phase->Run_0,
                picks@,
            ) + 1),
    {
        let ghost before = self@;
        let mut phase = Phase::Done;
        std::mem::swap(&mut self.phase, &mut phase);
        match phase {
            Phase::Run(inputs) => {
                let m: usize = count_agreed(inputs.as_slice(), picks);
                let n: usize = inputs.len();
                proof {
                    let r = before.stats.rounds;
                    let w = before.width;
                    assert((r + 1) * w == r * w + w) by (nonlinear_arith);
                    assert((r + 1) * w <= before.max_seq * w) by (nonlinear_arith)
                        requires
                            r + 1 <= before.max_seq,
                            1 <= w,
                    ;
                }
                self.stats.rounds += 1;
                if n == 1 {
                    self.stats.empty_rounds += 1;
                }
                self.stats.proposed += n - 1;
                self.stats.accepted += m;
                self.pos = self.pos + m + 1;
                self.next = picks[m];
                self.phase = if n == 1 {
                    Phase::Offer
                } else if m == 0 {
                    Phase::Pend
                } else {
                    let ghost all = inputs@;
                    let mut list = inputs;
                    list.truncate(m + 1);
                    assert(list@.skip(1) =~= all.subrange(1, m + 1));
                    Phase::Settle(list, 1)
                };
                proof {
                    assert(self@ =~= after_picked(before, picks@));
                }
                Correction { position: self.pos, forget: n - (m + 1) }
            },
            _ => Correction { position: self.pos, forget: 0 },
        }
    }

    /// Notes that the next token was put in its place.
    pub fn pended(&mut self)
        requires
            old(self).wf(),
            old(self)@.phase is Pend,
        ensures
            final(self).wf(),
            final(self)@ == after_pended(old(self)@),
    {
        self.phase = Phase::Offer;
    }

    /// What the run did so far.
    pub fn stats(&self) -> (stats: SpecStats)
        ensures
            stats@ == self@.stats,
    {
        self.stats
    }

    /// How many tokens were generated so far.
    pub fn generated(&self) -> (n: usize)
        requires
            self.wf(),
        ensures
            n == self@.emitted.len(),
    {
        self.history.len() - self.prompt
    }
}

} // verus!
