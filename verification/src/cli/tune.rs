//! The kernel rules a tuning run tries.

use vstd::prelude::*;

verus! {

/// The kernel variants worth trying. Only those that ever won a shape are
/// candidates.
pub open spec fn candidates() -> Seq<usize> {
    seq![3, 4, 9]
}

/// The rule tried as number `i`: a variant for wide reductions, one for huge
/// outputs and one for everything else, the last changing fastest.
pub open spec fn rule_at(i: int) -> (usize, usize, usize) {
    (candidates()[i / 9], candidates()[i / 3 % 3], candidates()[i % 3])
}

/// The rules a tuning run tries, in order.
pub fn rules() -> (list: Vec<(usize, usize, usize)>)
    ensures
        list@ == Seq::new(27, |i: int| rule_at(i)),
{
    let variants: [usize; 3] = [3, 4, 9];
    assert(variants@ =~= candidates());
    let mut list: Vec<(usize, usize, usize)> = Vec::new();
    let mut i: usize = 0;
    while i < 27
        invariant
            i <= 27,
            variants@ == candidates(),
            candidates().len() == 3,
            list@ == Seq::new(i as nat, |k: int| rule_at(k)),
        decreases 27 - i,
    {
        list.push((variants[i / 9], variants[i / 3 % 3], variants[i % 3]));
        i += 1;
        assert(list@ =~= Seq::new(i as nat, |k: int| rule_at(k)));
    }
    list
}

/// No rule is tried twice, and every choice of candidates is tried.
pub proof fn every_rule_is_tried_once(a: int, b: int, c: int)
    requires
        0 <= a < 3,
        0 <= b < 3,
        0 <= c < 3,
    ensures
        rule_at(9 * a + 3 * b + c) == (candidates()[a], candidates()[b], candidates()[c]),
        forall|i: int, j: int| 0 <= i < j < 27 ==> #[trigger] rule_at(i) != #[trigger] rule_at(j),
{
}

/// The context a tuning run needs: the prompt, what is generated and one more,
/// but never fewer than 512 tokens.
pub fn context_for(prompt: usize, tokens: usize) -> (ctx: usize)
    requires
        prompt + tokens + 1 <= usize::MAX,
    ensures
        ctx == if prompt + tokens + 1 < 512 {
            512
        } else {
            prompt + tokens + 1
        },
{
    let ctx: usize = prompt + tokens + 1;
    if ctx < 512 {
        512
    } else {
        ctx
    }
}

/// The context a run needs: what was asked for, or what the prompt and its
/// continuation take.
pub fn context_at_least(asked: usize, prompt: usize, max_new: usize) -> (ctx: usize)
    requires
        prompt + max_new + 1 <= usize::MAX,
    ensures
        ctx == if asked < prompt + max_new + 1 {
            prompt + max_new + 1
        } else {
            asked as int
        },
{
    let need: usize = prompt + max_new + 1;
    if asked < need {
        need
    } else {
        asked
    }
}

} // verus!
