//! What a run does at each step.
//!
//! That a run says what the model says is shown elsewhere. Here is how it gets
//! there: what it remembers, what it drafts from, how it feeds a prompt, when it
//! ends, and what it counts.

use vstd::prelude::*;

use crate::engine::{
    after_tokens, dropped, last_of, pick_of, prefill_parts, widened, width_for, EngineView,
};
use crate::generate::{after_shown, after_stepped, full_count, gen_started, GenPhase, GenView};
use crate::number::{decimal, decimal_round_trip, decimal_text};
use crate::speculate::{
    after_kept, after_pended, after_picked, agreed, agreed_in_range, best_match, following,
    has_match, next_inputs, proposal, repeats_at, started, PhaseView, RunView, SpecConfig,
};

verus! {

// ------------------------------------------------------------------- engine

/// What is looked back at is the end of what was seen: its last `n` tokens in
/// their order, or all of them where there are fewer.
pub proof fn looking_back_sees_the_end(s: Seq<u32>, n: int)
    requires
        0 <= n,
    ensures
        last_of(s, n).is_suffix_of(s),
        last_of(s, n).len() == if n < s.len() {
            n
        } else {
            s.len() as int
        },
{
}

/// What is forgotten are the last `k` tokens, or all of them where there are
/// fewer; those before them stay as they were.
pub proof fn forgetting_takes_the_end(s: Seq<u32>, k: int)
    requires
        0 <= k,
    ensures
        dropped(s, k).is_prefix_of(s),
        dropped(s, k).len() == if k < s.len() {
            s.len() - k
        } else {
            0
        },
{
}

/// Tokens that are run move the cache on by as many, and are the last that are
/// remembered; no more than 2048 are, and neither the capacity nor the scratch
/// changes.
pub proof fn tokens_that_are_run_are_remembered(e: EngineView, tokens: Seq<u32>)
    ensures
        ({
            let after = after_tokens(e, tokens);
            &&& after.pos == e.pos + tokens.len()
            &&& after.max_seq == e.max_seq && after.chunk == e.chunk
            &&& after.recent.is_suffix_of(e.recent + tokens)
            &&& after.recent.len() <= 2048
            &&& e.recent.len() + tokens.len() <= 2048 ==> after.recent == e.recent + tokens
            &&& e.recent.len() + tokens.len() >= 2048 ==> after.recent.len() == 2048
        }),
{
    looking_back_sees_the_end(e.recent + tokens, 2048);
}

/// The scratch is as wide as the widest pass that was asked for.
pub proof fn the_scratch_is_as_wide_as_asked(chunk: Option<usize>, width: usize)
    ensures
        widened(chunk, width) matches Some(w) && w >= width && (chunk matches Some(old) ==> w >= old) && (w == width
            || chunk == Some(w)),
{
}

/// A choice that the device reports is the token of that number.
pub proof fn reported_choices_are_tokens(reported: i32)
    ensures
        0 <= reported ==> pick_of(reported) == reported,
        reported < 0 ==> pick_of(reported) == 0,
{
}

/// The width of a pass is what is asked for wherever the kernel can do it, and
/// what the kernel does at most otherwise.
pub proof fn passes_are_as_wide_as_asked(k: nat, max: int, text: Seq<char>)
    requires
        1 <= max,
    ensures
        width_for(None, max) == max,
        1 <= width_for(Some(text), max) <= max,
        1 <= k <= max ==> width_for(Some(decimal_text(k)), max) == k,
        k == 0 || k > max ==> width_for(Some(decimal_text(k)), max) == max,
        decimal(text) is None ==> width_for(Some(text), max) == max,
{
    decimal_round_trip(k);
}

/// A prompt is fed in whole passes: every pass begins where as many passes of the
/// full width end, and all but the last are of the full width.
pub proof fn prompts_are_fed_in_whole_passes(len: usize, width: usize, i: int)
    requires
        1 <= len,
        1 <= width,
        0 <= i < prefill_parts(len as int, width as int).len(),
    ensures
        ({
            let parts = prefill_parts(len as int, width as int);
            &&& parts[i].from == i * width
            &&& i + 1 < parts.len() ==> parts[i].to == parts[i].from + width && !parts[i].want_logits
            &&& i + 1 == parts.len() ==> parts[i].to == len && parts[i].want_logits
            &&& (parts.len() - 1) * width < len <= parts.len() * width
        }),
{
    let last = (len - 1) / width as int;
    assert(last * width <= len - 1 < last * width + width && 0 <= last) by (nonlinear_arith)
        requires
            1 <= width,
            1 <= len,
            last == (len - 1) / width as int,
    ;
    assert((last + 1) * width == last * width + width) by (nonlinear_arith);
    assert((i + 1) * width == i * width + width) by (nonlinear_arith);
    assert(0 <= i * width <= last * width) by (nonlinear_arith)
        requires
            0 <= i <= last,
            1 <= width,
    ;
    if i < last {
        assert((i + 1) * width <= last * width) by (nonlinear_arith)
            requires
                i + 1 <= last,
                1 <= width,
        ;
    }
}

// --------------------------------------------------------------- generation

/// A run that nobody stops says as much as it may: no more than was asked for, and
/// no more than fits the cache with one token beyond it.
pub proof fn a_run_says_as_much_as_it_may(max_new: int, pos: int, max_seq: int, n: int)
    requires
        0 <= max_new,
        0 <= pos <= max_seq,
    ensures
        n <= full_count(max_new, pos, max_seq) <==> n <= max_new && pos + n <= max_seq + 1,
{
}

/// A generation begins with nothing said and the first token to be shown. A token
/// that is kept is said; one that is refused is not, and ends it. After a pass the
/// next token is the one chosen, and the cache holds one more.
pub proof fn a_generation_goes_token_by_token(s: GenView, next: u32, max_new: int, pos: int, max_seq: int)
    ensures
        ({
            let begun = gen_started(max_new, pos, max_seq, next);
            &&& begun.emitted.len() == 0 && begun.next == next && begun.pos == pos && !begun.refused
            &&& begun.phase == GenPhase::Done <==> max_new == 0
            &&& begun.phase != GenPhase::Step
        }),
        after_shown(s, true).emitted == s.emitted.push(s.next),
        after_shown(s, true).pos == s.pos,
        after_shown(s, true).phase == GenPhase::Step <==> s.pos < s.max_seq,
        after_shown(s, true).phase != GenPhase::Offer,
        after_shown(s, false).emitted == s.emitted,
        after_shown(s, false).refused,
        after_shown(s, false).phase == GenPhase::Done,
        after_stepped(s, next).emitted == s.emitted,
        after_stepped(s, next).next == next,
        after_stepped(s, next).pos == s.pos + 1,
        after_stepped(s, next).phase == GenPhase::Offer <==> s.emitted.len() < s.max_new,
        after_stepped(s, next).phase != GenPhase::Step,
{
}

// -------------------------------------------------------------- speculation

/// A draft is what followed the latest earlier occurrence of the longest end of
/// the history that occurred before, within the lengths allowed.
pub proof fn drafts_follow_the_longest_latest_match(
    history: Seq<u32>,
    lo: int,
    hi: int,
    want: int,
    n: int,
    start: int,
)
    requires
        0 < want,
        lo <= n <= hi,
        0 <= n,
        0 <= start,
        start + n < history.len(),
        history.subrange(start, start + n) == history.skip(history.len() - n),
        forall|later: int|
            start < later && later + n < history.len() ==> #[trigger] history.subrange(later, later + n)
                != history.skip(history.len() - n),
        forall|longer: int, at: int|
            n < longer <= hi && 0 <= at && at + longer < history.len() ==> #[trigger] history.subrange(
                at,
                at + longer,
            ) != history.skip(history.len() - longer),
    ensures
        ({
            let draft = proposal(history, lo, hi, want);
            &&& draft.is_prefix_of(history.skip(start + n))
            &&& draft.len() == if want < history.len() - (start + n) {
                want
            } else {
                history.len() - (start + n)
            }
        }),
{
    assert forall|m: int| 0 <= m <= history.len() implies history.skip(history.len() - m)
        == #[trigger] history.subrange(history.len() - m, history.len() as int) by {}
    assert(repeats_at(history, n, start));
    assert forall|later: int| start < later implies !repeats_at(history, n, later) by {
        if repeats_at(history, n, later) {
            assert(history.subrange(later, later + n) == history.skip(history.len() - n));
        }
    }
    assert forall|longer: int, at: int| n < longer <= hi implies !repeats_at(history, longer, at) by {
        if repeats_at(history, longer, at) {
            assert(history.subrange(at, at + longer) == history.skip(history.len() - longer));
        }
    }
    assert(best_match(history, lo, hi, n, start));
    let (m, at) = choose|m: int, at: int| best_match(history, lo, hi, m, at);
    assert(best_match(history, lo, hi, m, at));
    assert(m == n && at == start);
    assert(proposal(history, lo, hi, want) == following(history, start + n, want));
    assert(proposal(history, lo, hi, want) =~= history.skip(start + n).take(
        proposal(history, lo, hi, want).len() as int,
    ));
}

/// Nothing is drafted where nothing is wanted, or where no end of the history of
/// an allowed length occurred before.
pub proof fn nothing_is_drafted_without_a_match(history: Seq<u32>, lo: int, hi: int, want: int)
    requires
        want == 0 || forall|n: int, start: int|
            lo <= n <= hi && 0 <= n && 0 <= start && start + n < history.len() ==> #[trigger] history.subrange(
                start,
                start + n,
            ) != history.skip(history.len() - n),
    ensures
        proposal(history, lo, hi, want).len() == 0,
{
    if want != 0 && has_match(history, lo, hi) {
        let (n, start) = choose|n: int, start: int| best_match(history, lo, hi, n, start);
        assert(best_match(history, lo, hi, n, start));
        assert(history.skip(history.len() - n) =~= history.subrange(history.len() - n, history.len() as int));
        assert(history.subrange(start, start + n) == history.skip(history.len() - n));
    }
}

/// A draft is confirmed exactly as far as the model's choices are its tokens.
pub proof fn drafts_are_confirmed_as_far_as_they_agree(inputs: Seq<u32>, picks: Seq<u32>, j: int)
    requires
        1 <= inputs.len() == picks.len(),
        0 <= j < inputs.len(),
    ensures
        j <= agreed(inputs, picks) <==> forall|i: int| 0 <= i < j ==> #[trigger] picks[i] == inputs[i + 1],
    decreases inputs.len(),
{
    agreed_in_range(inputs, picks);
    if j > 0 {
        let rest = inputs.skip(1);
        let tail = picks.skip(1);
        drafts_are_confirmed_as_far_as_they_agree(rest, tail, j - 1);
        if forall|i: int| 0 <= i < j ==> #[trigger] picks[i] == inputs[i + 1] {
            assert(picks[0] == inputs[1]);
            assert forall|i: int| 0 <= i < j - 1 implies #[trigger] tail[i] == rest[i + 1] by {
                assert(picks[i + 1] == inputs[i + 2]);
            }
        }
        if j <= agreed(inputs, picks) {
            assert(picks[0] == inputs[1]);
            assert forall|i: int| 0 <= i < j implies #[trigger] picks[i] == inputs[i + 1] by {
                if i > 0 {
                    assert(tail[i - 1] == rest[i]);
                }
            }
        }
    }
}

/// A pass runs the token that was just said, and behind it as long a draft as the
/// width of a pass and the room in the cache allow.
pub proof fn passes_are_as_wide_as_they_may(s: RunView, history: Seq<u32>, token: u32, want: int)
    requires
        1 <= s.width,
        s.pos < s.max_seq,
        forall|n: int| #[trigger] fits(s, n) <==> n <= want,
    ensures
        next_inputs(s, history, token) == seq![token] + proposal(history, s.lo, s.hi, want),
{
    let room = s.max_seq - s.pos - 1;
    assert(fits(s, want));
    assert(!fits(s, want + 1));
    assert(fits(s, 0));
}

/// Whether a pass may run `n` tokens behind the first.
pub open spec fn fits(s: RunView, n: int) -> bool {
    1 + n <= s.width && s.pos + 1 + n <= s.max_seq
}

/// A run begins after its prompt with nothing said and nothing counted, and its
/// passes are as wide as the draft that is asked for, but at least one token and
/// no more than a pass can take.
pub proof fn a_run_begins_after_its_prompt(
    cfg: SpecConfig,
    chunk_width: int,
    prompt: Seq<u32>,
    max_new: int,
    pos: int,
    max_seq: int,
    first: u32,
)
    requires
        1 <= chunk_width,
    ensures
        ({
            let s = started(cfg, chunk_width, prompt, max_new, pos, max_seq, first);
            &&& s.history == prompt && s.emitted.len() == 0 && s.next == first && s.pos == pos && !s.refused
            &&& s.lo == cfg.ngram_min && s.hi == cfg.ngram_max
            &&& 1 <= s.width <= chunk_width
            &&& 1 <= cfg.draft <= chunk_width ==> s.width == cfg.draft
            &&& cfg.draft > chunk_width ==> s.width == chunk_width
            &&& cfg.draft == 0 ==> s.width == 1
            &&& s.stats.rounds == 0 && s.stats.empty_rounds == 0 && s.stats.proposed == 0 && s.stats.accepted == 0
            &&& s.phase == PhaseView::Done <==> max_new == 0
        }),
{
}

/// Every pass is counted, with the tokens it drafted and those that were
/// confirmed, and as an empty one where it drafted none. The cache then holds the
/// known token and what was confirmed, and the model's choice after them is next.
pub proof fn every_pass_is_counted(s: RunView, inputs: Seq<u32>, picks: Seq<u32>)
    requires
        s.phase == PhaseView::Run(inputs),
        1 <= inputs.len() == picks.len(),
    ensures
        ({
            let m = agreed(inputs, picks);
            let after = after_picked(s, picks);
            &&& after.stats.rounds == s.stats.rounds + 1
            &&& after.stats.proposed + 1 == s.stats.proposed + inputs.len()
            &&& after.stats.accepted == s.stats.accepted + m
            &&& after.stats.empty_rounds == s.stats.empty_rounds + if inputs.len() == 1 {
                1int
            } else {
                0
            }
            &&& after.pos == s.pos + 1 + m
            &&& after.next == picks[m]
            &&& after.emitted == s.emitted && after.history == s.history
            &&& m > 0 ==> after.phase == PhaseView::Settle(inputs.subrange(1, m + 1))
            &&& m == 0 && inputs.len() > 1 ==> after.phase == PhaseView::Pend
            &&& inputs.len() == 1 ==> after.phase == PhaseView::Offer
        }),
{
    agreed_in_range(inputs, picks);
}

/// A token that is kept joins what was said and what is drafted from; one that is
/// refused joins neither, and ends the run. Putting a token in its place says
/// nothing.
pub proof fn kept_tokens_are_said(s: RunView, rest: Seq<u32>)
    ensures
        s.phase == PhaseView::Offer ==> after_kept(s, true).emitted == s.emitted.push(s.next) && after_kept(
            s,
            true,
        ).history == s.history.push(s.next),
        s.phase == PhaseView::Settle(rest) && rest.len() > 0 ==> after_kept(s, true).emitted == s.emitted.push(rest[0])
            && after_kept(s, true).history == s.history.push(rest[0]),
        after_kept(s, false).emitted == s.emitted,
        after_kept(s, false).history == s.history,
        after_kept(s, false).refused,
        after_kept(s, false).phase == PhaseView::Done,
        after_kept(s, true).pos == s.pos && after_kept(s, true).stats == s.stats,
        after_pended(s).emitted == s.emitted,
        after_pended(s).next == s.next,
        after_pended(s).pos == s.pos,
        after_pended(s).phase == PhaseView::Offer,
{
}

} // verus!
