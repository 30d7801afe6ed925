//! Plain generation: one pass of the model for each token.
//!
//! Like speculation, this is a machine to be driven: [`Generation::action`] says
//! what is to be done next, and the answer is handed back through
//! [`Generation::shown`] or [`Generation::stepped`].

use vstd::prelude::*;

use crate::error::{Error, RunIssue, ShapeFault};

verus! {

/// What a generation wants done next.
#[derive(Debug, Clone, Copy, PartialEq, Eq, Structural)]
pub enum GenAction {
    /// Show this token to the caller, and say whether it is to go on.
    Offer(u32),
    /// Run the token that was just shown through the model and choose the next
    /// one; the number counts the choices made before.
    Step(usize),
    /// Nothing: the generation is over.
    Stop,
}

/// What a generation is in the middle of.
#[derive(Debug, Clone, Copy, PartialEq, Eq, Structural)]
pub enum GenPhase {
    /// A token is to be shown.
    Offer,
    /// A pass is to be run.
    Step,
    /// The generation is over.
    Done,
}

/// The state of a generation.
#[verifier::ext_equal]
pub struct GenView {
    /// Tokens to generate at most.
    pub max_new: int,
    /// Tokens the cache can hold.
    pub max_seq: int,
    /// What was shown and kept.
    pub emitted: Seq<u32>,
    /// The next token to be shown.
    pub next: u32,
    /// Tokens in the cache.
    pub pos: int,
    /// Whether the caller asked to stop.
    pub refused: bool,
    pub phase: GenPhase,
}

/// The state a generation starts in, with a prompt in the cache and the first
/// token chosen.
pub open spec fn gen_started(max_new: int, pos: int, max_seq: int, first: u32) -> GenView {
    GenView {
        max_new,
        max_seq,
        emitted: Seq::empty(),
        next: first,
        pos,
        refused: false,
        phase: if max_new == 0 {
            GenPhase::Done
        } else {
            GenPhase::Offer
        },
    }
}

/// The state after the caller was shown a token and said whether to go on.
pub open spec fn after_shown(s: GenView, go_on: bool) -> GenView {
    if !go_on {
        GenView { refused: true, phase: GenPhase::Done, ..s }
    } else {
        GenView {
            emitted: s.emitted.push(s.next),
            phase: if s.pos >= s.max_seq {
                GenPhase::Done
            } else {
                GenPhase::Step
            },
            ..s
        }
    }
}

/// The state after a pass and a choice.
pub open spec fn after_stepped(s: GenView, next: u32) -> GenView {
    GenView {
        pos: s.pos + 1,
        next,
        phase: if s.emitted.len() >= s.max_new {
            GenPhase::Done
        } else {
            GenPhase::Offer
        },
        ..s
    }
}

/// What every state of a generation keeps to.
pub open spec fn gen_sound(s: GenView) -> bool {
    &&& 0 <= s.pos <= s.max_seq
    &&& s.emitted.len() <= s.max_new
    &&& s.phase is Offer ==> s.emitted.len() < s.max_new
    &&& s.phase is Step ==> s.pos < s.max_seq && s.emitted.len() > 0
}

/// Generation with one pass for each token, as a machine to be driven.
pub struct Generation {
    max_new: usize,
    max_seq: usize,
    emitted: Vec<u32>,
    next: u32,
    pos: usize,
    refused: bool,
    phase: GenPhase,
}

impl View for Generation {
    type V = GenView;

    closed spec fn view(&self) -> GenView {
        GenView {
            max_new: self.max_new as int,
            max_seq: self.max_seq as int,
            emitted: self.emitted@,
            next: self.next,
            pos: self.pos as int,
            refused: self.refused,
            phase: self.phase,
        }
    }
}

impl Generation {
    /// What holds of a generation at all times.
    pub closed spec fn wf(&self) -> bool {
        gen_sound(self@)
    }

    /// Every state of a generation is sound: it neither leaves the cache nor
    /// emits more than was asked for.
    pub proof fn generations_are_sound(&self)
        requires
            self.wf(),
        ensures
            gen_sound(self@),
    {
    }

    /// Starts a generation. The prompt is in the cache, which holds `pos`
    /// tokens, and `first` was chosen after it. An empty prompt is refused.
    pub fn start(prompt: &[u32], max_new: usize, pos: usize, max_seq: usize, first: u32) -> (run:
        Result<Generation, Error>)
        requires
            pos <= max_seq,
        ensures
            match run {
                Ok(run) => {
                    &&& prompt@.len() > 0
                    &&& run.wf()
                    &&& run@ == gen_started(max_new as int, pos as int, max_seq as int, first)
                },
                Err(Error::Shape(ShapeFault::Run(why))) => prompt@.len() == 0 && why
                    == RunIssue::EmptyPrompt,
                Err(_) => false,
            },
    {
        if prompt.len() == 0 {
            return Err(Error::Shape(ShapeFault::Run(RunIssue::EmptyPrompt)));
        }
        let run = Generation {
            max_new,
            max_seq,
            emitted: Vec::new(),
            next: first,
            pos,
            refused: false,
            phase: if max_new == 0 {
                GenPhase::Done
            } else {
                GenPhase::Offer
            },
        };
        assert(run@ =~= gen_started(max_new as int, pos as int, max_seq as int, first));
        Ok(run)
    }

    /// What is to be done next.
    pub fn action(&self) -> (action: GenAction)
        ensures
            match self@.phase {
                GenPhase::Offer => action == GenAction::Offer(self@.next),
                GenPhase::Step => action matches GenAction::Step(n) && n == self@.emitted.len(),
                GenPhase::Done => action == GenAction::Stop,
            },
    {
        match self.phase {
            GenPhase::Offer => GenAction::Offer(self.next),
            GenPhase::Step => GenAction::Step(self.emitted.len()),
            GenPhase::Done => GenAction::Stop,
        }
    }

    /// Takes the caller's answer to a token it was shown: whether to go on.
    pub fn shown(&mut self, go_on: bool)
        requires
            old(self).wf(),
            old(self)@.phase is Offer,
        ensures
            final(self).wf(),
            final(self)@ == after_shown(old(self)@, go_on),
    {
        if !go_on {
            self.refused = true;
            self.phase = GenPhase::Done;
            return;
        }
        self.emitted.push(self.next);
        self.phase = if self.pos >= self.max_seq {
            GenPhase::Done
        } else {
            GenPhase::Step
        };
    }

    /// Takes the token that was chosen after the pass that was asked for.
    pub fn stepped(&mut self, next: u32)
        requires
            old(self).wf(),
            old(self)@.phase is Step,
        ensures
            final(self).wf(),
            final(self)@ == after_stepped(old(self)@, next),
    {
        self.pos += 1;
        self.next = next;
        self.phase = if self.emitted.len() >= self.max_new {
            GenPhase::Done
        } else {
            GenPhase::Offer
        };
    }

    /// How many tokens were generated so far.
    pub fn generated(&self) -> (n: usize)
        ensures
            n == self@.emitted.len(),
    {
        self.emitted.len()
    }
}

/// The first `n` tokens a model says by itself, where `model` gives its choice
/// after the tokens it has said so far.
pub open spec fn rollout(model: spec_fn(Seq<u32>) -> u32, n: nat) -> Seq<u32>
    decreases n,
{
    if n == 0 {
        Seq::empty()
    } else {
        let said = rollout(model, (n - 1) as nat);
        said.push(model(said))
    }
}

/// How many tokens a run says that nobody stops: as many as were asked for, or
/// one more than the cache has room for.
pub open spec fn full_count(max_new: int, pos: int, max_seq: int) -> int {
    if max_new <= max_seq - pos + 1 {
        max_new
    } else {
        max_seq - pos + 1
    }
}

/// An answer to what a generation wanted done.
pub enum GenEvent {
    Shown(bool),
    Stepped(u32),
}

/// The state after some answers.
pub open spec fn gen_after(s: GenView, events: Seq<GenEvent>) -> GenView
    decreases events.len(),
{
    if events.len() == 0 {
        s
    } else {
        match (gen_after(s, events.drop_last()), events.last()) {
            (t, GenEvent::Shown(go_on)) => after_shown(t, go_on),
            (t, GenEvent::Stepped(next)) => after_stepped(t, next),
        }
    }
}

/// Whether every answer was to what was asked, and every choice the model's.
pub open spec fn gen_honest(
    model: spec_fn(Seq<u32>) -> u32,
    s: GenView,
    events: Seq<GenEvent>,
) -> bool
    decreases events.len(),
{
    events.len() > 0 ==> {
        let t = gen_after(s, events.drop_last());
        &&& gen_honest(model, s, events.drop_last())
        &&& match events.last() {
            GenEvent::Shown(_) => t.phase is Offer,
            GenEvent::Stepped(next) => t.phase is Step && next == model(t.emitted),
        }
    }
}

/// A generation says what the model says by itself, and all of it unless the
/// caller stops it.
pub proof fn generation_is_a_rollout(
    model: spec_fn(Seq<u32>) -> u32,
    max_new: nat,
    pos: nat,
    max_seq: nat,
    events: Seq<GenEvent>,
)
    requires
        pos <= max_seq,
        gen_honest(
            model,
            gen_started(max_new as int, pos as int, max_seq as int, model(Seq::empty())),
            events,
        ),
    ensures
        ({
            let s = gen_after(
                gen_started(max_new as int, pos as int, max_seq as int, model(Seq::empty())),
                events,
            );
            &&& s.emitted == rollout(model, s.emitted.len())
            &&& s.phase is Done && !s.refused ==> s.emitted == rollout(
                model,
                full_count(max_new as int, pos as int, max_seq as int) as nat,
            )
        }),
{
    lemma_generation(model, max_new, pos, max_seq, events);
}

proof fn lemma_generation(
    model: spec_fn(Seq<u32>) -> u32,
    max_new: nat,
    pos: nat,
    max_seq: nat,
    events: Seq<GenEvent>,
)
    requires
        pos <= max_seq,
        gen_honest(
            model,
            gen_started(max_new as int, pos as int, max_seq as int, model(Seq::empty())),
            events,
        ),
    ensures
        ({
            let s = gen_after(
                gen_started(max_new as int, pos as int, max_seq as int, model(Seq::empty())),
                events,
            );
            &&& s.max_new == max_new
            &&& s.max_seq == max_seq
            &&& gen_sound(s)
            &&& s.emitted == rollout(model, s.emitted.len())
            &&& match s.phase {
                GenPhase::Offer => s.next == model(s.emitted) && s.pos == pos + s.emitted.len(),
                GenPhase::Step => s.pos + 1 == pos + s.emitted.len(),
                GenPhase::Done => s.refused || s.emitted.len() == full_count(
                    max_new as int,
                    pos as int,
                    max_seq as int,
                ),
            }
        }),
    decreases events.len(),
{
    let s0 = gen_started(max_new as int, pos as int, max_seq as int, model(Seq::empty()));
    if events.len() > 0 {
        lemma_generation(model, max_new, pos, max_seq, events.drop_last());
        let t = gen_after(s0, events.drop_last());
        let s = gen_after(s0, events);
        if let GenEvent::Shown(true) = events.last() {
            assert(s.emitted.len() == t.emitted.len() + 1);
            assert(rollout(model, s.emitted.len()) == t.emitted.push(model(t.emitted)));
        }
    }
}

/// Whether a caller who goes on after some tokens if `keep` says so gave every
/// answer to what a generation showed.
pub open spec fn gen_answered(
    keep: spec_fn(Seq<u32>) -> bool,
    s: GenView,
    events: Seq<GenEvent>,
) -> bool
    decreases events.len(),
{
    events.len() > 0 ==> {
        let t = gen_after(s, events.drop_last());
        &&& gen_answered(keep, s, events.drop_last())
        &&& events.last() matches GenEvent::Shown(go_on) ==> go_on == keep(t.emitted.push(t.next))
    }
}

/// The tokens that a generation showed its caller, one that was refused too.
pub open spec fn gen_shown(s: GenView, events: Seq<GenEvent>) -> Seq<u32>
    decreases events.len(),
{
    if events.len() == 0 {
        Seq::empty()
    } else {
        let before = gen_shown(s, events.drop_last());
        match events.last() {
            GenEvent::Shown(_) => before.push(gen_after(s, events.drop_last()).next),
            _ => before,
        }
    }
}

/// How many tokens a caller saw who kept `n`.
pub open spec fn seen(n: nat, refused: bool) -> nat {
    if refused {
        n + 1
    } else {
        n
    }
}

/// Whether a run that has kept `n` tokens of what a model says was stopped where
/// a caller would stop it, and nowhere else.
pub open spec fn stopped_in_place(
    model: spec_fn(Seq<u32>) -> u32,
    keep: spec_fn(Seq<u32>) -> bool,
    n: nat,
    refused: bool,
    full: int,
) -> bool {
    &&& forall|k: nat| 1 <= k <= n ==> keep(#[trigger] rollout(model, k))
    &&& refused ==> n < full && !keep(rollout(model, n + 1))
}

/// A generation is stopped where its caller would stop it, and what it has shown
/// until then is what the model says by itself.
pub proof fn generation_stops_in_place(
    model: spec_fn(Seq<u32>) -> u32,
    keep: spec_fn(Seq<u32>) -> bool,
    max_new: nat,
    pos: nat,
    max_seq: nat,
    events: Seq<GenEvent>,
)
    requires
        pos <= max_seq,
        gen_honest(
            model,
            gen_started(max_new as int, pos as int, max_seq as int, model(Seq::empty())),
            events,
        ),
        gen_answered(
            keep,
            gen_started(max_new as int, pos as int, max_seq as int, model(Seq::empty())),
            events,
        ),
    ensures
        ({
            let s = gen_after(
                gen_started(max_new as int, pos as int, max_seq as int, model(Seq::empty())),
                events,
            );
            &&& stopped_in_place(
                model,
                keep,
                s.emitted.len(),
                s.refused,
                full_count(max_new as int, pos as int, max_seq as int),
            )
            &&& s.refused ==> s.phase is Done
            &&& gen_shown(
                gen_started(max_new as int, pos as int, max_seq as int, model(Seq::empty())),
                events,
            ) == rollout(model, seen(s.emitted.len(), s.refused))
        }),
    decreases events.len(),
{
    let s0 = gen_started(max_new as int, pos as int, max_seq as int, model(Seq::empty()));
    if events.len() > 0 {
        generation_stops_in_place(model, keep, max_new, pos, max_seq, events.drop_last());
        lemma_generation(model, max_new, pos, max_seq, events.drop_last());
        let t = gen_after(s0, events.drop_last());
        if let GenEvent::Shown(_) = events.last() {
            assert(rollout(model, t.emitted.len() + 1) == t.emitted.push(t.next));
        }
    }
}

} // verus!
