//! What the engine keeps on the host: where the cache ends, which tokens were
//! seen lately, and which pass is allowed next.
//!
//! The device does the arithmetic. This module decides what it is asked to do
//! and refuses what would not fit.

use std::collections::VecDeque;

use vstd::prelude::*;

use crate::error::{Error, Lack, RunIssue, ShapeFault};
use crate::number::{decimal, parse_unsigned};
use crate::text::chars_of;

verus! {

/// How many recent tokens the repetition penalty can see.
///
/// The window a caller asks for is clamped to this. It bounds the memory a very
/// long chat session holds for a feature that only ever looks at the tail.
pub const RECENT_CAP: usize = 2048;

/// Candidates considered for nucleus sampling.
pub const NUCLEUS_POOL: usize = 512;

/// The last `n` tokens of a sequence, or all of it where it has fewer.
pub open spec fn last_of(s: Seq<u32>, n: int) -> Seq<u32> {
    if n <= s.len() {
        s.skip(s.len() - n)
    } else {
        s
    }
}

/// What the engine keeps on the host.
#[verifier::ext_equal]
pub struct EngineView {
    /// Tokens in the cache.
    pub pos: int,
    /// Tokens the cache can hold.
    pub max_seq: int,
    /// Tokens seen lately, oldest first.
    pub recent: Seq<u32>,
    /// The width of the scratch for several tokens, once there is one.
    pub chunk: Option<usize>,
}

/// The host's side of an engine.
pub struct Engine {
    pos: usize,
    max_seq: usize,
    recent: VecDeque<u32>,
    chunk: Option<usize>,
}

impl View for Engine {
    type V = EngineView;

    closed spec fn view(&self) -> EngineView {
        EngineView {
            pos: self.pos as int,
            max_seq: self.max_seq as int,
            recent: self.recent@,
            chunk: self.chunk,
        }
    }
}

/// Whether an error says that the context is full.
pub open spec fn says_full(e: Error, capacity: int) -> bool {
    e matches Error::Shape(ShapeFault::Run(RunIssue::ContextFull(n))) && n == capacity
}

impl Engine {
    /// What holds of an engine at all times.
    pub closed spec fn wf(&self) -> bool {
        self.pos <= self.max_seq && self.recent@.len() <= RECENT_CAP
    }

    /// An engine never holds more tokens than its cache has room for, nor
    /// remembers more than it keeps.
    pub proof fn stays_in_bounds(&self)
        requires
            self.wf(),
        ensures
            0 <= self@.pos <= self@.max_seq,
            self@.recent.len() <= RECENT_CAP,
    {
    }

    /// An engine with an empty cache of `max_seq` tokens.
    pub fn new(max_seq: usize) -> (engine: Engine)
        ensures
            engine.wf(),
            engine@ == (EngineView {
                pos: 0,
                max_seq: max_seq as int,
                recent: Seq::empty(),
                chunk: None,
            }),
    {
        Engine { pos: 0, max_seq, recent: VecDeque::new(), chunk: None }
    }

    /// Tokens currently in the cache.
    pub fn position(&self) -> (n: usize)
        ensures
            n == self@.pos,
    {
        self.pos
    }

    /// Cache capacity in tokens.
    pub fn max_seq(&self) -> (n: usize)
        ensures
            n == self@.max_seq,
    {
        self.max_seq
    }

    /// Discards the cache and returns to position zero.
    pub fn reset(&mut self)
        requires
            old(self).wf(),
        ensures
            final(self).wf(),
            final(self)@ == (EngineView { pos: 0, recent: Seq::empty(), ..old(self)@ }),
    {
        self.pos = 0;
        self.recent.clear();
    }

    /// Whether one more token may be run: there is room for it in the cache.
    pub fn step(&self) -> (ok: Result<(), Error>)
        requires
            self.wf(),
        ensures
            match ok {
                Ok(_) => self@.pos < self@.max_seq,
                Err(e) => self@.pos >= self@.max_seq && says_full(e, self@.max_seq),
            },
    {
        if self.pos >= self.max_seq {
            return Err(Error::Shape(ShapeFault::Run(RunIssue::ContextFull(self.max_seq))));
        }
        Ok(())
    }

    /// Notes that one token was run.
    pub fn stepped(&mut self)
        requires
            old(self).wf(),
            old(self)@.pos < old(self)@.max_seq,
        ensures
            final(self).wf(),
            final(self)@ == (EngineView { pos: old(self)@.pos + 1, ..old(self)@ }),
    {
        self.pos += 1;
    }

    /// Takes a token that is to be run, where there is room for it.
    pub fn forward(&mut self, token: u32) -> (ok: Result<(), Error>)
        requires
            old(self).wf(),
        ensures
            final(self).wf(),
            match ok {
                Ok(_) => {
                    &&& old(self)@.pos < old(self)@.max_seq
                    &&& final(self)@ == (EngineView {
                        recent: last_of(old(self)@.recent.push(token), RECENT_CAP as int),
                        ..old(self)@
                    })
                },
                Err(e) => {
                    &&& old(self)@.pos >= old(self)@.max_seq
                    &&& says_full(e, old(self)@.max_seq)
                    &&& final(self)@ == old(self)@
                },
            },
    {
        if self.pos >= self.max_seq {
            return Err(Error::Shape(ShapeFault::Run(RunIssue::ContextFull(self.max_seq))));
        }
        self.note(token);
        Ok(())
    }

    /// Records a token in the repetition-penalty window, which forgets its
    /// oldest where it is full.
    pub fn note(&mut self, token: u32)
        requires
            old(self).wf(),
        ensures
            final(self).wf(),
            final(self)@ == (EngineView {
                recent: last_of(old(self)@.recent.push(token), RECENT_CAP as int),
                ..old(self)@
            }),
    {
        let ghost before = self.recent@;
        if self.recent.len() == RECENT_CAP {
            self.recent.pop_front();
        }
        self.recent.push_back(token);
        assert(self.recent@ =~= last_of(before.push(token), RECENT_CAP as int));
    }

    /// Drops the last `k` tokens from the repetition-penalty window, or all of
    /// them where there are fewer.
    ///
    /// A speculative round runs the whole draft, which notes every token of it;
    /// the rejected tail has to come back out, or a token the model never said
    /// would be penalised.
    pub fn unnote(&mut self, k: usize)
        requires
            old(self).wf(),
        ensures
            final(self).wf(),
            final(self)@ == (EngineView { recent: dropped(old(self)@.recent, k as int), ..old(self)@
            }),
    {
        let ghost before = self.recent@;
        let keep: usize = if k <= self.recent.len() {
            self.recent.len() - k
        } else {
            0
        };
        while keep < self.recent.len()
            invariant
                keep <= self.recent@.len() <= before.len(),
                self.recent@ == before.take(self.recent@.len() as int),
                self.pos == old(self).pos,
                self.max_seq == old(self).max_seq,
                self.chunk == old(self).chunk,
            decreases self.recent@.len(),
        {
            self.recent.pop_back();
            assert(self.recent@ =~= before.take(self.recent@.len() as int));
        }
        assert(self.recent@ =~= dropped(before, k as int));
    }

    /// Whether these tokens may be run in one pass by a model that can or cannot
    /// do so, with passes of this width.
    ///
    /// A pass of no tokens is refused, then a model without a kernel for several
    /// tokens, then a pass that is too wide, then one that does not fit behind
    /// the current position. Past the second of these the scratch for passes of
    /// this width is there.
    pub fn forward_chunk(&mut self, n: usize, supported: bool, width: usize) -> (ok: Result<
        (),
        Error,
    >)
        requires
            old(self).wf(),
        ensures
            final(self).wf(),
            final(self)@ == (EngineView {
                chunk: if n == 0 || !supported {
                    old(self)@.chunk
                } else {
                    widened(old(self)@.chunk, width)
                },
                ..old(self)@
            }),
            match ok {
                Ok(_) => 0 < n <= width && supported && old(self)@.pos + n <= old(self)@.max_seq,
                Err(Error::Shape(ShapeFault::Run(why))) => match why {
                    RunIssue::EmptyChunk => n == 0,
                    RunIssue::TooWide { tokens, width: w } => 0 < n && supported && width < n
                        && tokens == n && w == width,
                    RunIssue::PastEnd { tokens, position, capacity } => {
                        &&& 0 < n <= width
                        &&& supported
                        &&& old(self)@.pos + n > old(self)@.max_seq
                        &&& tokens == n
                        &&& position == old(self)@.pos
                        &&& capacity == old(self)@.max_seq
                    },
                    _ => false,
                },
                Err(Error::Unsupported(what)) => 0 < n && !supported && what == Lack::ChunkKernel,
                Err(_) => false,
            },
    {
        if n == 0 {
            return Err(Error::Shape(ShapeFault::Run(RunIssue::EmptyChunk)));
        }
        if !supported {
            return Err(Error::Unsupported(Lack::ChunkKernel));
        }
        let enough: bool = match self.chunk {
            Some(w) => w >= width,
            None => false,
        };
        if !enough {
            self.chunk = Some(width);
        }
        if n > width {
            return Err(Error::Shape(ShapeFault::Run(RunIssue::TooWide { tokens: n, width })));
        }
        if n > self.max_seq - self.pos {
            return Err(
                Error::Shape(
                    ShapeFault::Run(
                        RunIssue::PastEnd {
                            tokens: n,
                            position: self.pos,
                            capacity: self.max_seq,
                        },
                    ),
                ),
            );
        }
        Ok(())
    }

    /// Notes that these tokens were run in one pass.
    pub fn chunk_done(&mut self, tokens: &[u32])
        requires
            old(self).wf(),
            old(self)@.pos + tokens@.len() <= old(self)@.max_seq,
        ensures
            final(self).wf(),
            final(self)@ == after_tokens(old(self)@, tokens@),
    {
        let ghost before = self@;
        self.pos += tokens.len();
        let mut i: usize = 0;
        assert(last_of(before.recent + tokens@.take(0), RECENT_CAP as int) =~= before.recent);
        while i < tokens.len()
            invariant
                i <= tokens@.len(),
                self.wf(),
                self@ == (EngineView {
                    pos: before.pos + tokens@.len(),
                    recent: last_of(before.recent + tokens@.take(i as int), RECENT_CAP as int),
                    ..before
                }),
            decreases tokens@.len() - i,
        {
            let ghost whole = before.recent + tokens@.take(i as int);
            self.note(tokens[i]);
            i += 1;
            proof {
                let longer = before.recent + tokens@.take(i as int);
                assert(longer =~= whole.push(tokens@[i - 1]));
                assert(last_of(longer, RECENT_CAP as int) =~= last_of(
                    last_of(whole, RECENT_CAP as int).push(tokens@[i - 1]),
                    RECENT_CAP as int,
                ));
            }
        }
        assert(tokens@.take(i as int) =~= tokens@);
    }

    /// The greedy choices at the first `n` places of the last pass over several
    /// tokens, of those the device reports. A negative report counts as zero.
    pub fn chunk_picks(&self, n: usize, reported: &[i32]) -> (picks: Result<Vec<u32>, Error>)
        requires
            self@.chunk matches Some(w) ==> w == reported@.len(),
        ensures
            match picks {
                Ok(picks) => {
                    &&& self@.chunk is Some
                    &&& n <= self@.chunk->0
                    &&& picks@ == Seq::new(n as nat, |i: int| pick_of(reported@[i]))
                },
                Err(Error::Shape(ShapeFault::Run(why))) => match why {
                    RunIssue::NoChunk => self@.chunk is None,
                    RunIssue::TooWide { tokens, width } => self@.chunk == Some(width) && width < n
                        && tokens == n,
                    _ => false,
                },
                Err(_) => false,
            },
    {
        match self.chunk {
            None => Err(Error::Shape(ShapeFault::Run(RunIssue::NoChunk))),
            Some(width) => {
                if n > width {
                    return Err(
                        Error::Shape(ShapeFault::Run(RunIssue::TooWide { tokens: n, width })),
                    );
                }
                let mut picks: Vec<u32> = Vec::new();
                let mut i: usize = 0;
                while i < n
                    invariant
                        i <= n <= reported@.len(),
                        picks@ == Seq::new(i as nat, |j: int| pick_of(reported@[j])),
                    decreases n - i,
                {
                    let r: i32 = reported[i];
                    picks.push(
                        if r < 0 {
                            0
                        } else {
                            r as u32
                        },
                    );
                    i += 1;
                    assert(picks@ =~= Seq::new(i as nat, |j: int| pick_of(reported@[j])));
                }
                Ok(picks)
            },
        }
    }

    /// Rewinds the cache to `pos`, discarding everything after it. A place ahead
    /// of the current one is refused.
    ///
    /// Nothing is erased: attention reads only below the cursor, so a rejected
    /// branch is overwritten by the next write.
    pub fn rewind(&mut self, pos: usize) -> (ok: Result<(), Error>)
        requires
            old(self).wf(),
        ensures
            final(self).wf(),
            match ok {
                Ok(_) => {
                    &&& pos <= old(self)@.pos
                    &&& final(self)@ == (EngineView { pos: pos as int, ..old(self)@ })
                },
                Err(e) => {
                    &&& pos > old(self)@.pos
                    &&& e matches Error::Shape(
                        ShapeFault::Run(RunIssue::RewindAhead { to, position }),
                    ) && to == pos && position == old(self)@.pos
                    &&& final(self)@ == old(self)@
                },
            },
    {
        if pos > self.pos {
            return Err(
                Error::Shape(
                    ShapeFault::Run(RunIssue::RewindAhead { to: pos, position: self.pos }),
                ),
            );
        }
        self.pos = pos;
        Ok(())
    }

    /// The last `n` tokens of the repetition-penalty window: those a penalty that
    /// looks back so far applies to.
    pub fn penalised(&self, n: usize) -> (tokens: Vec<u32>)
        ensures
            tokens@ == last_of(self@.recent, n as int),
    {
        let len: usize = self.recent.len();
        let from: usize = if n <= len {
            len - n
        } else {
            0
        };
        let mut tokens: Vec<u32> = Vec::new();
        let mut i: usize = from;
        while i < len
            invariant
                from <= i <= len,
                len == self.recent@.len(),
                tokens@ == self.recent@.subrange(from as int, i as int),
            decreases len - i,
        {
            tokens.push(self.recent[i]);
            i += 1;
            assert(tokens@ =~= self.recent@.subrange(from as int, i as int));
        }
        assert(tokens@ =~= last_of(self@.recent, n as int));
        tokens
    }
}

/// A window without its last `k` tokens, or without any where it has fewer.
pub open spec fn dropped(recent: Seq<u32>, k: int) -> Seq<u32> {
    if k <= recent.len() {
        recent.take(recent.len() - k)
    } else {
        Seq::empty()
    }
}

/// The scratch that is there once passes of a width were asked for.
pub open spec fn widened(chunk: Option<usize>, width: usize) -> Option<usize> {
    match chunk {
        Some(w) => if w >= width {
            Some(w)
        } else {
            Some(width)
        },
        None => Some(width),
    }
}

/// The token a reported choice stands for.
pub open spec fn pick_of(reported: i32) -> u32 {
    if reported < 0 {
        0
    } else {
        reported as u32
    }
}

/// An engine once some more tokens were run.
pub open spec fn after_tokens(e: EngineView, tokens: Seq<u32>) -> EngineView {
    EngineView {
        pos: e.pos + tokens.len(),
        recent: last_of(e.recent + tokens, RECENT_CAP as int),
        ..e
    }
}

/// An engine once some more tokens were run, each in a pass of its own.
pub open spec fn one_by_one(e: EngineView, tokens: Seq<u32>) -> EngineView
    decreases tokens.len(),
{
    if tokens.len() == 0 {
        e
    } else {
        let before = one_by_one(e, tokens.drop_last());
        EngineView {
            pos: before.pos + 1,
            recent: last_of(before.recent.push(tokens.last()), RECENT_CAP as int),
            ..before
        }
    }
}

/// Two passes leave the engine where one pass over both their tokens leaves it.
pub proof fn passes_compose(e: EngineView, a: Seq<u32>, b: Seq<u32>)
    ensures
        after_tokens(after_tokens(e, a), b) == after_tokens(e, a + b),
{
    let cap = RECENT_CAP as int;
    assert(last_of(last_of(e.recent + a, cap) + b, cap) =~= last_of(e.recent + (a + b), cap));
}

/// A pass over several tokens leaves the engine where running them one at a time
/// leaves it.
pub proof fn a_pass_is_its_tokens(e: EngineView, tokens: Seq<u32>)
    requires
        e.recent.len() <= RECENT_CAP,
    ensures
        after_tokens(e, tokens) == one_by_one(e, tokens),
    decreases tokens.len(),
{
    if tokens.len() == 0 {
        assert(last_of(e.recent + tokens, RECENT_CAP as int) =~= e.recent);
    } else {
        let most = tokens.drop_last();
        a_pass_is_its_tokens(e, most);
        passes_compose(e, most, seq![tokens.last()]);
        assert(most + seq![tokens.last()] =~= tokens);
        let before = one_by_one(e, most);
        assert(before.recent + seq![tokens.last()] =~= before.recent.push(tokens.last()));
    }
}

/// Running a draft, rewinding to its confirmed part and forgetting the rest
/// leaves the engine where running the confirmed part alone leaves it, unless the
/// draft pushed older tokens out of the window: those do not come back.
pub proof fn rejected_drafts_leave_no_trace(before: EngineView, inputs: Seq<u32>, kept: int)
    requires
        0 <= kept <= inputs.len(),
        ({
            ||| kept == inputs.len()
            ||| before.recent.len() + kept == 0
            ||| before.recent.len() + inputs.len() <= RECENT_CAP
        }),
    ensures
        ({
            let ran = after_tokens(before, inputs);
            EngineView {
                pos: before.pos + kept,
                recent: dropped(ran.recent, inputs.len() - kept),
                ..ran
            } == after_tokens(before, inputs.take(kept))
        }),
{
    let ran = before.recent + inputs;
    let alone = before.recent + inputs.take(kept);
    let cap = RECENT_CAP as int;
    assert(inputs.take(inputs.len() as int) =~= inputs);
    assert(dropped(last_of(ran, cap), inputs.len() - kept) =~= last_of(alone, cap));
}

/// One pass of a prompt: the tokens `from .. to`, and whether the model's choice
/// after them is wanted.
#[derive(Debug, Clone, Copy, PartialEq, Eq, Structural)]
pub struct PrefillPart {
    pub from: usize,
    pub to: usize,
    pub want_logits: bool,
}

/// The passes a prompt of `len` tokens takes, `width` tokens at a time. Only
/// after the last of them is the model's choice wanted.
pub open spec fn prefill_parts(len: int, width: int) -> Seq<PrefillPart> {
    let last = (len - 1) / width;
    Seq::new(
        (last + 1) as nat,
        |i: int|
            PrefillPart {
                from: (i * width) as usize,
                to: (if i == last {
                    len
                } else {
                    (i + 1) * width
                }) as usize,
                want_logits: i == last,
            },
    )
}

/// How a prompt is to be fed: in these passes, or where there is nothing to be
/// gained from passes over several tokens, one token at a time.
pub fn prefill(len: usize, supported: bool, enabled: bool, width: usize) -> (parts: Option<
    Vec<PrefillPart>,
>)
    requires
        1 <= width,
    ensures
        match parts {
            Some(parts) => len > 1 && supported && enabled && parts@ == prefill_parts(
                len as int,
                width as int,
            ),
            None => !(len > 1 && supported && enabled),
        },
{
    if !(len > 1 && supported && enabled) {
        return None;
    }
    let last: usize = (len - 1) / width;
    let ghost all = prefill_parts(len as int, width as int);
    let mut parts: Vec<PrefillPart> = Vec::new();
    let mut from: usize = 0;
    let mut i: usize = 0;
    proof {
        assert(last * width <= len - 1) by (nonlinear_arith)
            requires
                1 <= width,
                1 < len,
                last == (len - 1) / width as int,
        ;
        assert(0 * width == 0) by (nonlinear_arith);
    }
    while i < last
        invariant
            1 <= width,
            i <= last,
            last == (len - 1) / width as int,
            last * width <= len - 1,
            from == i * width,
            all == prefill_parts(len as int, width as int),
            parts@ == all.take(i as int),
        decreases last - i,
    {
        proof {
            assert((i + 1) * width == i * width + width) by (nonlinear_arith);
            assert((i + 1) * width <= last * width) by (nonlinear_arith)
                requires
                    i + 1 <= last,
            ;
        }
        let to: usize = from + width;
        parts.push(PrefillPart { from, to, want_logits: false });
        from = to;
        i += 1;
        assert(parts@ =~= all.take(i as int));
    }
    parts.push(PrefillPart { from, to: len, want_logits: true });
    assert(parts@ =~= all);
    Some(parts)
}

/// The passes of a prompt cover it from end to end, none of them is empty or
/// wider than a pass may be, and exactly the last asks for a choice.
pub proof fn prefill_covers_the_prompt(len: usize, width: usize)
    requires
        1 <= len,
        1 <= width,
    ensures
        ({
            let parts = prefill_parts(len as int, width as int);
            &&& parts.len() > 0
            &&& parts.first().from == 0
            &&& parts.last().to == len
            &&& forall|i: int|
                0 <= i < parts.len() ==> {
                    &&& (#[trigger] parts[i]).from < parts[i].to <= parts[i].from + width
                    &&& parts[i].want_logits == (i == parts.len() - 1)
                }
            &&& forall|i: int, j: int|
                0 <= i && j == i + 1 && j < parts.len() ==> (#[trigger] parts[i]).to == (
                #[trigger] parts[j]).from
        }),
{
    let parts = prefill_parts(len as int, width as int);
    let last = (len - 1) / width as int;
    assert(last * width <= len - 1 < last * width + width) by (nonlinear_arith)
        requires
            1 <= width,
            1 <= len,
            last == (len - 1) / width as int,
    ;
    assert(0 * width == 0) by (nonlinear_arith);
    assert(0 <= last) by (nonlinear_arith)
        requires
            1 <= width,
            1 <= len,
            last == (len - 1) / width as int,
    ;
    assert forall|i: int| 0 <= i < parts.len() implies {
        &&& (#[trigger] parts[i]).from < parts[i].to <= parts[i].from + width
        &&& parts[i].want_logits == (i == parts.len() - 1)
        &&& parts[i].from == i * width
        &&& i < last ==> parts[i].to == (i + 1) * width
    } by {
        assert((i + 1) * width == i * width + width) by (nonlinear_arith);
        assert(i * width >= 0) by (nonlinear_arith)
            requires
                0 <= i,
                1 <= width,
        ;
        assert(i * width <= last * width) by (nonlinear_arith)
            requires
                i <= last,
                1 <= width,
        ;
        if i < last {
            assert((i + 1) * width <= last * width) by (nonlinear_arith)
                requires
                    i + 1 <= last,
                    1 <= width,
            ;
        }
    }
}

/// An engine once the first `n` passes of a prompt were run.
pub open spec fn fed(e: EngineView, prompt: Seq<u32>, parts: Seq<PrefillPart>, n: int) -> EngineView
    decreases n,
{
    if n <= 0 {
        e
    } else {
        let p = parts[n - 1];
        after_tokens(fed(e, prompt, parts, n - 1), prompt.subrange(p.from as int, p.to as int))
    }
}

/// Feeding a prompt in passes leaves the engine where feeding it one token at a
/// time leaves it.
pub proof fn prefill_is_sequential(e: EngineView, prompt: Seq<u32>, width: usize)
    requires
        e.recent.len() <= RECENT_CAP,
        1 <= prompt.len() <= usize::MAX,
        1 <= width,
    ensures
        ({
            let parts = prefill_parts(prompt.len() as int, width as int);
            fed(e, prompt, parts, parts.len() as int) == one_by_one(e, prompt)
        }),
{
    let parts = prefill_parts(prompt.len() as int, width as int);
    prefill_covers_the_prompt(prompt.len() as usize, width);
    lemma_fed(e, prompt, width, parts.len() as int);
    assert(prompt.take(prompt.len() as int) =~= prompt);
    a_pass_is_its_tokens(e, prompt);
}

/// The first passes of a prompt feed what stands before the end of the last of
/// them.
proof fn lemma_fed(e: EngineView, prompt: Seq<u32>, width: usize, n: int)
    requires
        e.recent.len() <= RECENT_CAP,
        1 <= prompt.len() <= usize::MAX,
        1 <= width,
        1 <= n <= prefill_parts(prompt.len() as int, width as int).len(),
    ensures
        ({
            let parts = prefill_parts(prompt.len() as int, width as int);
            &&& parts[n - 1].to <= prompt.len()
            &&& fed(e, prompt, parts, n) == after_tokens(e, prompt.take(parts[n - 1].to as int))
        }),
    decreases n,
{
    let parts = prefill_parts(prompt.len() as int, width as int);
    prefill_covers_the_prompt(prompt.len() as usize, width);
    let p = parts[n - 1];
    assert(p.to <= prompt.len()) by {
        lemma_ends_inside(prompt.len() as usize, width, n - 1);
    }
    let own = prompt.subrange(p.from as int, p.to as int);
    if n == 1 {
        assert(own =~= prompt.take(p.to as int));
        assert(fed(e, prompt, parts, 0) == e);
    } else {
        lemma_fed(e, prompt, width, n - 1);
        let before = parts[n - 2];
        assert(before.to == p.from);
        passes_compose(e, prompt.take(before.to as int), own);
        assert(prompt.take(before.to as int) + own =~= prompt.take(p.to as int));
    }
}

/// A pass ends no later than its prompt.
proof fn lemma_ends_inside(len: usize, width: usize, i: int)
    requires
        1 <= len,
        1 <= width,
        0 <= i < prefill_parts(len as int, width as int).len(),
    ensures
        prefill_parts(len as int, width as int)[i].to <= len,
    decreases prefill_parts(len as int, width as int).len() - i,
{
    let parts = prefill_parts(len as int, width as int);
    prefill_covers_the_prompt(len, width);
    if i + 1 < parts.len() {
        lemma_ends_inside(len, width, i + 1);
        let next = parts[i + 1];
        assert(parts[i].to == next.from);
    }
}

/// How many windows of a token stream are scored, where windows of this size fit
/// a cache of `max_seq` tokens. A window of fewer than two tokens is refused, and
/// then one that exceeds the cache.
pub fn cross_entropy_windows(
    len: usize,
    window: usize,
    max_windows: usize,
    max_seq: usize,
) -> (n: Result<usize, Error>)
    ensures
        match n {
            Ok(n) => {
                &&& 2 <= window <= max_seq
                &&& n == window_count(len as int, window as int, max_windows as int)
            },
            Err(Error::Shape(ShapeFault::Run(why))) => match why {
                RunIssue::WindowTooSmall => window < 2,
                RunIssue::WindowTooLarge { window: w, capacity } => 2 <= window && max_seq
                    < window && w == window && capacity == max_seq,
                _ => false,
            },
            Err(_) => false,
        },
{
    if window < 2 {
        return Err(Error::Shape(ShapeFault::Run(RunIssue::WindowTooSmall)));
    }
    if window > max_seq {
        return Err(
            Error::Shape(
                ShapeFault::Run(RunIssue::WindowTooLarge { window, capacity: max_seq }),
            ),
        );
    }
    let n: usize = len / window;
    Ok(
        if n < max_windows {
            n
        } else {
            max_windows
        },
    )
}

/// How many whole windows a stream has, or how many of them are wanted.
pub open spec fn window_count(len: int, window: int, max_windows: int) -> int {
    if len / window < max_windows {
        len / window
    } else {
        max_windows
    }
}

/// What a window scores: each of its tokens but the last, and the one that
/// follows it.
pub open spec fn scored_pairs(tokens: Seq<u32>, window: int, w: int) -> Seq<(u32, u32)> {
    Seq::new(
        (window - 1) as nat,
        |i: int| (tokens[w * window + i], tokens[w * window + i + 1]),
    )
}

/// The tokens to run for a window, each with the one it should predict.
pub fn window_pairs(tokens: &[u32], window: usize, w: usize) -> (pairs: Vec<(u32, u32)>)
    requires
        2 <= window,
        (w + 1) * window <= tokens@.len(),
    ensures
        pairs@ == scored_pairs(tokens@, window as int, w as int),
{
    let len: usize = tokens.len();
    proof {
        assert((w + 1) * window == w * window + window) by (nonlinear_arith);
        assert(0 <= w * window) by (nonlinear_arith);
    }
    let base: usize = w * window;
    let mut pairs: Vec<(u32, u32)> = Vec::new();
    let mut i: usize = 0;
    while i + 1 < window
        invariant
            i < window,
            len == tokens@.len(),
            base == w * window,
            base + window <= len,
            pairs@ == scored_pairs(tokens@, window as int, w as int).take(i as int),
        decreases window - i,
    {
        pairs.push((tokens[base + i], tokens[base + i + 1]));
        i += 1;
        assert(pairs@ =~= scored_pairs(tokens@, window as int, w as int).take(i as int));
    }
    assert(pairs@ =~= scored_pairs(tokens@, window as int, w as int));
    pairs
}

/// Every window that is scored lies within the stream, behind the one before it.
pub proof fn windows_lie_in_the_stream(len: nat, window: nat, max_windows: nat, w: nat)
    requires
        2 <= window,
        w < window_count(len as int, window as int, max_windows as int),
    ensures
        (w + 1) * window <= len,
        w < max_windows,
{
    assert((w + 1) * window <= len) by (nonlinear_arith)
        requires
            2 <= window,
            w + 1 <= len / window,
    ;
}

/// The width of a pass: what is asked for, where that is a number from 1 to what
/// the kernel takes; the kernel's own width where it is more or nothing usable
/// is asked for.
pub open spec fn width_for(asked: Option<Seq<char>>, max: int) -> int {
    match asked {
        Some(text) => match decimal(text) {
            Some(k) => if 1 <= k <= max {
                k as int
            } else {
                max
            },
            None => max,
        },
        None => max,
    }
}

/// The width of a pass, where `asked` is what the environment says of it.
pub fn chunk_width(asked: Option<&str>, max: usize) -> (width: usize)
    ensures
        width == width_for(
            match asked {
                Some(text) => Some(text@),
                None => None,
            },
            max as int,
        ),
{
    match asked {
        None => max,
        Some(text) => {
            let chars = chars_of(text);
            match parse_unsigned(chars.as_slice(), 0, chars.len(), max as u64) {
                Some(k) => {
                    assert(chars@.subrange(0, chars@.len() as int) =~= text@);
                    if k >= 1 {
                        k as usize
                    } else {
                        max
                    }
                },
                None => {
                    assert(chars@.subrange(0, chars@.len() as int) =~= text@);
                    max
                },
            }
        },
    }
}

// -------------------------------------------------------- what is scored

/// The tokens that a window's pairs are made of: the first of each pair, and
/// then the one that the last of them should predict.
pub open spec fn tokens_of_pairs(pairs: Seq<(u32, u32)>) -> Seq<u32> {
    pairs.map_values(|p: (u32, u32)| p.0).push(pairs.last().1)
}

/// A window scores its own stretch of the stream, every token of it but the first
/// being predicted once from the one before it.
pub proof fn a_window_is_a_stretch_of_the_stream(tokens: Seq<u32>, window: int, w: int)
    requires
        2 <= window,
        0 <= w,
        (w + 1) * window <= tokens.len(),
    ensures
        scored_pairs(tokens, window, w).len() == window - 1,
        tokens_of_pairs(scored_pairs(tokens, window, w)) == tokens.subrange(
            w * window,
            (w + 1) * window,
        ),
        forall|i: int, j: int|
            0 <= i && j == i + 1 && j < window - 1 ==> (#[trigger] scored_pairs(tokens, window, w)[i]).1
                == (#[trigger] scored_pairs(tokens, window, w)[j]).0,
{
    assert((w + 1) * window == w * window + window) by (nonlinear_arith);
    assert(0 <= w * window) by (nonlinear_arith)
        requires
            0 <= w,
            0 <= window,
    ;
    let pairs = scored_pairs(tokens, window, w);
    assert(tokens_of_pairs(pairs) =~= tokens.subrange(w * window, (w + 1) * window));
}

/// The stretches of the first `n` windows.
pub open spec fn stretches(tokens: Seq<u32>, window: int, n: nat) -> Seq<Seq<u32>> {
    Seq::new(n, |w: int| tokens_of_pairs(scored_pairs(tokens, window, w)))
}

/// Windows neither overlap nor leave anything out: put end to end they are the
/// beginning of the stream.
pub proof fn windows_tile_the_stream(tokens: Seq<u32>, window: int, n: nat)
    requires
        2 <= window,
        n * window <= tokens.len(),
    ensures
        stretches(tokens, window, n).flatten() == tokens.take(n * window),
    decreases n,
{
    let all = stretches(tokens, window, n);
    if n == 0 {
        assert(all =~= Seq::empty());
        assert(0 * window == 0) by (nonlinear_arith);
        assert(tokens.take(0) =~= Seq::empty());
    } else {
        let m = (n - 1) as nat;
        assert(n * window == m * window + window) by (nonlinear_arith)
            requires
                n == m + 1,
        ;
        assert(0 <= m * window) by (nonlinear_arith)
            requires
                0 <= window,
        ;
        windows_tile_the_stream(tokens, window, m);
        a_window_is_a_stretch_of_the_stream(tokens, window, m as int);
        let before = stretches(tokens, window, m);
        let own = tokens_of_pairs(scored_pairs(tokens, window, m as int));
        assert(all =~= before.push(own));
        assert(all.drop_last() =~= before);
        all.lemma_flatten_and_flatten_alt_are_equivalent();
        before.lemma_flatten_and_flatten_alt_are_equivalent();
        assert(tokens.take(n * window) =~= tokens.take(m * window) + own);
    }
}

/// As many windows are scored as the stream has room for, unless fewer are
/// wanted: `n` of them fit, and where one more was wanted it would not have.
pub proof fn as_many_windows_as_there_are(len: nat, window: nat, max_windows: nat)
    requires
        2 <= window,
    ensures
        ({
            let n = window_count(len as int, window as int, max_windows as int);
            &&& 0 <= n <= max_windows
            &&& n * window <= len
            &&& n < max_windows ==> len < (n + 1) * window
        }),
{
    let n = window_count(len as int, window as int, max_windows as int);
    let q = len as int / window as int;
    assert(q * window <= len < (q + 1) * window && 0 <= q) by (nonlinear_arith)
        requires
            2 <= window,
            q == len as int / window as int,
    ;
    assert(n * window <= q * window) by (nonlinear_arith)
        requires
            n <= q,
            2 <= window,
    ;
}

} // verus!
