//! Why speculation costs no accuracy.
//!
//! A drafted token is kept only where it is the model's own choice at its place,
//! so a speculative run shows what a plain greedy run shows: the same tokens,
//! and as many of them.

use vstd::prelude::*;

use crate::generate::{full_count, gen_after, gen_answered, gen_honest, gen_shown, gen_started, generation_is_a_rollout, generation_stops_in_place, rollout, seen, stopped_in_place, GenEvent};
use crate::speculate::{after_kept, after_pended, after_picked, agreed, agreed_in_range, drafts_are_quotes, next_inputs, started, PhaseView, RunView, SpecConfig};

verus! {

/// An answer to what a speculative run wanted done.
pub enum SpecEvent {
    Kept(bool),
    Picked(Seq<u32>),
    Pended,
}

/// The state after some answers.
pub open spec fn spec_after(s: RunView, events: Seq<SpecEvent>) -> RunView
    decreases events.len(),
{
    if events.len() == 0 {
        s
    } else {
        match (spec_after(s, events.drop_last()), events.last()) {
            (t, SpecEvent::Kept(go_on)) => after_kept(t, go_on),
            (t, SpecEvent::Picked(picks)) => after_picked(t, picks),
            (t, SpecEvent::Pended) => after_pended(t),
        }
    }
}

/// Whether these are the model's own choices after each token of a pass. The
/// first of the tokens is the last one that was shown.
pub open spec fn true_picks(
    model: spec_fn(Seq<u32>) -> u32,
    emitted: Seq<u32>,
    inputs: Seq<u32>,
    picks: Seq<u32>,
) -> bool {
    &&& picks.len() == inputs.len()
    &&& forall|j: int|
        0 <= j < inputs.len() ==> #[trigger] picks[j] == model(
            emitted.drop_last() + inputs.take(j + 1),
        )
}

/// Whether every answer was to what was asked, and every pick the model's.
pub open spec fn spec_honest(
    model: spec_fn(Seq<u32>) -> u32,
    s: RunView,
    events: Seq<SpecEvent>,
) -> bool
    decreases events.len(),
{
    events.len() > 0 ==> {
        let t = spec_after(s, events.drop_last());
        &&& spec_honest(model, s, events.drop_last())
        &&& match (events.last(), t.phase) {
            (SpecEvent::Kept(_), PhaseView::Offer) => true,
            (SpecEvent::Kept(_), PhaseView::Settle(_)) => true,
            (SpecEvent::Picked(picks), PhaseView::Run(inputs)) => true_picks(
                model,
                t.emitted,
                inputs,
                picks,
            ),
            (SpecEvent::Pended, PhaseView::Pend) => true,
            _ => false,
        }
    }
}

/// What is true of a run whose answers are honest, at any time. The cache held
/// `pos` tokens at its start.
spec fn on_course(model: spec_fn(Seq<u32>) -> u32, pos: int, s: RunView) -> bool {
    &&& 1 <= s.width
    &&& 0 <= s.pos <= s.max_seq
    &&& s.emitted.len() <= s.max_new
    &&& s.emitted == rollout(model, s.emitted.len())
    &&& match s.phase {
        PhaseView::Offer => {
            &&& s.emitted.len() < s.max_new
            &&& s.next == model(s.emitted)
            &&& s.pos == pos + s.emitted.len()
        },
        PhaseView::Pend => {
            &&& s.emitted.len() < s.max_new
            &&& s.next == model(s.emitted)
            &&& s.pos == pos + s.emitted.len()
        },
        PhaseView::Run(inputs) => {
            &&& s.emitted.len() < s.max_new
            &&& 1 <= inputs.len()
            &&& s.pos + inputs.len() <= s.max_seq
            &&& s.emitted.len() > 0
            &&& s.emitted.last() == inputs[0]
            &&& s.pos + 1 == pos + s.emitted.len()
        },
        PhaseView::Settle(rest) => {
            &&& 1 <= rest.len()
            &&& s.emitted.len() < s.max_new
            &&& s.emitted + rest == rollout(model, s.emitted.len() + rest.len())
            &&& s.next == model(s.emitted + rest)
            &&& s.pos == pos + s.emitted.len() + rest.len()
        },
        PhaseView::Done => s.refused || s.emitted.len() == full_count(s.max_new, pos, s.max_seq),
    }
}

/// A shorter rollout begins a longer one.
pub proof fn rollouts_are_prefixes(model: spec_fn(Seq<u32>) -> u32, n: nat, m: nat)
    requires
        n <= m,
    ensures
        rollout(model, n) == rollout(model, m).take(n as int),
        rollout(model, m).len() == m,
    decreases m,
{
    if n < m {
        rollouts_are_prefixes(model, n, (m - 1) as nat);
        assert(rollout(model, m).take(n as int) =~= rollout(model, (m - 1) as nat).take(n as int));
    } else {
        if m > 0 {
            rollouts_are_prefixes(model, (m - 1) as nat, (m - 1) as nat);
        }
        assert(rollout(model, m).take(m as int) =~= rollout(model, m));
    }
}

proof fn lemma_kept(model: spec_fn(Seq<u32>) -> u32, pos: int, s: RunView, go_on: bool)
    requires
        on_course(model, pos, s),
        s.phase is Offer || s.phase is Settle,
    ensures
        on_course(model, pos, after_kept(s, go_on)),
{
    let t = after_kept(s, go_on);
    if go_on {
        match s.phase {
            PhaseView::Offer => {
                assert(rollout(model, t.emitted.len()) == s.emitted.push(model(s.emitted)));
                if let PhaseView::Run(inputs) = t.phase {
                    let room = s.max_seq - s.pos - 1;
                    let want = if s.width - 1 < room {
                        s.width - 1
                    } else {
                        room
                    };
                    drafts_are_quotes(t.history, s.lo, s.hi, want);
                    assert(inputs == next_inputs(s, t.history, s.next));
                }
            },
            PhaseView::Settle(rest) => {
                let whole = s.emitted + rest;
                rollouts_are_prefixes(model, s.emitted.len() + 1, whole.len());
                assert(t.emitted =~= whole.take(s.emitted.len() as int + 1));
                assert(t.emitted + rest.skip(1) =~= whole);
                if rest.len() == 1 {
                    assert(t.emitted =~= whole);
                }
            },
            _ => {},
        }
    }
}

/// The confirmed part of a pass continues the rollout.
proof fn lemma_confirmed(
    model: spec_fn(Seq<u32>) -> u32,
    emitted: Seq<u32>,
    inputs: Seq<u32>,
    picks: Seq<u32>,
    k: int,
)
    requires
        emitted.len() > 0,
        emitted == rollout(model, emitted.len()),
        inputs.len() > 0,
        emitted.last() == inputs[0],
        true_picks(model, emitted, inputs, picks),
        0 <= k <= agreed(inputs, picks),
    ensures
        emitted + inputs.subrange(1, k + 1) == rollout(model, (emitted.len() + k) as nat),
        picks[k] == model(emitted + inputs.subrange(1, k + 1)),
    decreases k,
{
    agreed_in_range(inputs, picks);
    let said = emitted + inputs.subrange(1, k + 1);
    assert(emitted.drop_last() + inputs.take(k + 1) =~= said);
    if k == 0 {
        assert(said =~= emitted);
    } else {
        lemma_confirmed(model, emitted, inputs, picks, k - 1);
        lemma_agreed_at(inputs, picks, k - 1);
        let before = emitted + inputs.subrange(1, k);
        assert(said =~= before.push(inputs[k]));
    }
}

/// Below the number of confirmed tokens, picks and tokens agree.
proof fn lemma_agreed_at(inputs: Seq<u32>, picks: Seq<u32>, j: int)
    requires
        1 <= inputs.len(),
        0 <= j < agreed(inputs, picks),
    ensures
        j + 1 < inputs.len(),
        j < picks.len(),
        picks[j] == inputs[j + 1],
    decreases inputs.len(),
{
    agreed_in_range(inputs, picks);
    if j > 0 {
        lemma_agreed_at(inputs.skip(1), picks.skip(1), j - 1);
    }
}

proof fn lemma_picked(model: spec_fn(Seq<u32>) -> u32, pos: int, s: RunView, picks: Seq<u32>)
    requires
        on_course(model, pos, s),
        s.phase is Run,
        true_picks(model, s.emitted, s.phase->Run_0, picks),
    ensures
        on_course(model, pos, after_picked(s, picks)),
{
    let inputs = s.phase->Run_0;
    let m = agreed(inputs, picks);
    agreed_in_range(inputs, picks);
    lemma_confirmed(model, s.emitted, inputs, picks, m);
    if m == 0 {
        assert(s.emitted + inputs.subrange(1, 1) =~= s.emitted);
    }
}

proof fn lemma_on_course(
    model: spec_fn(Seq<u32>) -> u32,
    cfg: SpecConfig,
    chunk_width: nat,
    prompt: Seq<u32>,
    max_new: nat,
    pos: nat,
    max_seq: nat,
    events: Seq<SpecEvent>,
)
    requires
        1 <= chunk_width,
        pos <= max_seq,
        spec_honest(
            model,
            started(
                cfg,
                chunk_width as int,
                prompt,
                max_new as int,
                pos as int,
                max_seq as int,
                model(Seq::empty()),
            ),
            events,
        ),
    ensures
        ({
            let s = spec_after(
                started(
                    cfg,
                    chunk_width as int,
                    prompt,
                    max_new as int,
                    pos as int,
                    max_seq as int,
                    model(Seq::empty()),
                ),
                events,
            );
            &&& on_course(model, pos as int, s)
            &&& s.max_new == max_new
            &&& s.max_seq == max_seq
        }),
    decreases events.len(),
{
    let s0 = started(
        cfg,
        chunk_width as int,
        prompt,
        max_new as int,
        pos as int,
        max_seq as int,
        model(Seq::empty()),
    );
    if events.len() > 0 {
        lemma_on_course(
            model,
            cfg,
            chunk_width,
            prompt,
            max_new,
            pos,
            max_seq,
            events.drop_last(),
        );
        let t = spec_after(s0, events.drop_last());
        match events.last() {
            SpecEvent::Kept(go_on) => lemma_kept(model, pos as int, t, go_on),
            SpecEvent::Picked(picks) => lemma_picked(model, pos as int, t, picks),
            SpecEvent::Pended => {},
        }
    }
}

/// A speculative run whose passes report the model's own choices shows, at any
/// time, what the model says by itself; and when it ends without having been
/// stopped, it has shown as much of it as was asked for or as the cache allows.
pub proof fn speculation_is_a_rollout(
    model: spec_fn(Seq<u32>) -> u32,
    cfg: SpecConfig,
    chunk_width: nat,
    prompt: Seq<u32>,
    max_new: nat,
    pos: nat,
    max_seq: nat,
    events: Seq<SpecEvent>,
)
    requires
        1 <= chunk_width,
        pos <= max_seq,
        spec_honest(
            model,
            started(
                cfg,
                chunk_width as int,
                prompt,
                max_new as int,
                pos as int,
                max_seq as int,
                model(Seq::empty()),
            ),
            events,
        ),
    ensures
        ({
            let s = spec_after(
                started(
                    cfg,
                    chunk_width as int,
                    prompt,
                    max_new as int,
                    pos as int,
                    max_seq as int,
                    model(Seq::empty()),
                ),
                events,
            );
            &&& s.emitted == rollout(model, s.emitted.len())
            &&& s.phase is Done && !s.refused ==> s.emitted == rollout(
                model,
                full_count(max_new as int, pos as int, max_seq as int) as nat,
            )
        }),
{
    lemma_on_course(model, cfg, chunk_width, prompt, max_new, pos, max_seq, events);
}

/// The token that a run shows next.
pub open spec fn offered(s: RunView) -> u32 {
    match s.phase {
        PhaseView::Settle(rest) => rest[0],
        _ => s.next,
    }
}

/// Whether a caller who goes on after some tokens if `keep` says so gave every
/// answer to what a speculative run showed.
pub open spec fn spec_answered(
    keep: spec_fn(Seq<u32>) -> bool,
    s: RunView,
    events: Seq<SpecEvent>,
) -> bool
    decreases events.len(),
{
    events.len() > 0 ==> {
        let t = spec_after(s, events.drop_last());
        &&& spec_answered(keep, s, events.drop_last())
        &&& events.last() matches SpecEvent::Kept(go_on) ==> go_on == keep(
            t.emitted.push(offered(t)),
        )
    }
}

/// The tokens that a speculative run showed its caller, one that was refused too.
pub open spec fn spec_shown(s: RunView, events: Seq<SpecEvent>) -> Seq<u32>
    decreases events.len(),
{
    if events.len() == 0 {
        Seq::empty()
    } else {
        let before = spec_shown(s, events.drop_last());
        match events.last() {
            SpecEvent::Kept(_) => before.push(offered(spec_after(s, events.drop_last()))),
            _ => before,
        }
    }
}

/// A speculative run is stopped where its caller would stop it, and what it has
/// shown until then is what the model says by itself.
pub proof fn speculation_stops_in_place(
    model: spec_fn(Seq<u32>) -> u32,
    keep: spec_fn(Seq<u32>) -> bool,
    cfg: SpecConfig,
    chunk_width: nat,
    prompt: Seq<u32>,
    max_new: nat,
    pos: nat,
    max_seq: nat,
    events: Seq<SpecEvent>,
)
    requires
        1 <= chunk_width,
        pos <= max_seq,
        spec_honest(
            model,
            started(
                cfg,
                chunk_width as int,
                prompt,
                max_new as int,
                pos as int,
                max_seq as int,
                model(Seq::empty()),
            ),
            events,
        ),
        spec_answered(
            keep,
            started(
                cfg,
                chunk_width as int,
                prompt,
                max_new as int,
                pos as int,
                max_seq as int,
                model(Seq::empty()),
            ),
            events,
        ),
    ensures
        ({
            let s = spec_after(
                started(
                    cfg,
                    chunk_width as int,
                    prompt,
                    max_new as int,
                    pos as int,
                    max_seq as int,
                    model(Seq::empty()),
                ),
                events,
            );
            &&& stopped_in_place(
                model,
                keep,
                s.emitted.len(),
                s.refused,
                full_count(max_new as int, pos as int, max_seq as int),
            )
            &&& s.refused ==> s.phase is Done
            &&& spec_shown(
                started(
                    cfg,
                    chunk_width as int,
                    prompt,
                    max_new as int,
                    pos as int,
                    max_seq as int,
                    model(Seq::empty()),
                ),
                events,
            ) == rollout(model, seen(s.emitted.len(), s.refused))
        }),
    decreases events.len(),
{
    let s0 = started(
        cfg,
        chunk_width as int,
        prompt,
        max_new as int,
        pos as int,
        max_seq as int,
        model(Seq::empty()),
    );
    if events.len() > 0 {
        let before = events.drop_last();
        speculation_stops_in_place(
            model,
            keep,
            cfg,
            chunk_width,
            prompt,
            max_new,
            pos,
            max_seq,
            before,
        );
        lemma_on_course(model, cfg, chunk_width, prompt, max_new, pos, max_seq, before);
        let t = spec_after(s0, before);
        if let SpecEvent::Kept(_) = events.last() {
            let n = t.emitted.len();
            let shown = t.emitted.push(offered(t));
            assert(rollout(model, n + 1) == t.emitted.push(model(t.emitted)));
            if let PhaseView::Settle(rest) = t.phase {
                let whole = t.emitted + rest;
                rollouts_are_prefixes(model, n + 1, whole.len());
                assert(shown =~= whole.take(n as int + 1));
            }
            assert(shown == rollout(model, n + 1));
        }
    }
}

/// A speculative run and a plain greedy run of the same model, from the same
/// state of the cache, show the same tokens: as far as both have come, and
/// altogether where both end without having been stopped, or were stopped by a
/// caller who answers both alike. Such a caller is shown the same, the token that
/// they refuse too.
pub proof fn speculation_is_exact(
    model: spec_fn(Seq<u32>) -> u32,
    keep: spec_fn(Seq<u32>) -> bool,
    cfg: SpecConfig,
    chunk_width: nat,
    prompt: Seq<u32>,
    max_new: nat,
    pos: nat,
    max_seq: nat,
    spec_events: Seq<SpecEvent>,
    gen_events: Seq<GenEvent>,
)
    requires
        1 <= chunk_width,
        pos <= max_seq,
        spec_honest(
            model,
            started(
                cfg,
                chunk_width as int,
                prompt,
                max_new as int,
                pos as int,
                max_seq as int,
                model(Seq::empty()),
            ),
            spec_events,
        ),
        gen_honest(
            model,
            gen_started(max_new as int, pos as int, max_seq as int, model(Seq::empty())),
            gen_events,
        ),
    ensures
        ({
            let s = spec_after(
                started(
                    cfg,
                    chunk_width as int,
                    prompt,
                    max_new as int,
                    pos as int,
                    max_seq as int,
                    model(Seq::empty()),
                ),
                spec_events,
            );
            let g = gen_after(
                gen_started(max_new as int, pos as int, max_seq as int, model(Seq::empty())),
                gen_events,
            );
            &&& s.emitted.is_prefix_of(g.emitted) || g.emitted.is_prefix_of(s.emitted)
            &&& s.phase is Done && !s.refused && g.phase is Done && !g.refused ==> s.emitted
                == g.emitted
            &&& s.phase is Done && g.phase is Done && spec_answered(
                keep,
                started(
                    cfg,
                    chunk_width as int,
                    prompt,
                    max_new as int,
                    pos as int,
                    max_seq as int,
                    model(Seq::empty()),
                ),
                spec_events,
            ) && gen_answered(
                keep,
                gen_started(max_new as int, pos as int, max_seq as int, model(Seq::empty())),
                gen_events,
            ) ==> {
                &&& s.emitted == g.emitted
                &&& s.refused == g.refused
                &&& spec_shown(
                    started(
                        cfg,
                        chunk_width as int,
                        prompt,
                        max_new as int,
                        pos as int,
                        max_seq as int,
                        model(Seq::empty()),
                    ),
                    spec_events,
                ) == gen_shown(
                    gen_started(max_new as int, pos as int, max_seq as int, model(Seq::empty())),
                    gen_events,
                )
            }
        }),
{
    speculation_is_a_rollout(model, cfg, chunk_width, prompt, max_new, pos, max_seq, spec_events);
    generation_is_a_rollout(model, max_new, pos, max_seq, gen_events);
    let s0 = started(
        cfg,
        chunk_width as int,
        prompt,
        max_new as int,
        pos as int,
        max_seq as int,
        model(Seq::empty()),
    );
    let g0 = gen_started(max_new as int, pos as int, max_seq as int, model(Seq::empty()));
    let s = spec_after(s0, spec_events);
    let g = gen_after(g0, gen_events);
    if s.phase is Done && g.phase is Done && spec_answered(keep, s0, spec_events) && gen_answered(
        keep,
        g0,
        gen_events,
    ) {
        speculation_stops_in_place(
            model,
            keep,
            cfg,
            chunk_width,
            prompt,
            max_new,
            pos,
            max_seq,
            spec_events,
        );
        generation_stops_in_place(model, keep, max_new, pos, max_seq, gen_events);
        let full = full_count(max_new as int, pos as int, max_seq as int) as nat;
        rollouts_are_prefixes(model, full, full);
        if s.refused {
            let n = s.emitted.len() + 1;
            assert(g.emitted.len() >= n ==> keep(rollout(model, n)));
        }
        if g.refused {
            let n = g.emitted.len() + 1;
            assert(s.emitted.len() >= n ==> keep(rollout(model, n)));
        }
    }
    if s.emitted.len() <= g.emitted.len() {
        rollouts_are_prefixes(model, s.emitted.len(), g.emitted.len());
    } else {
        rollouts_are_prefixes(model, g.emitted.len(), s.emitted.len());
    }
}

} // verus!
