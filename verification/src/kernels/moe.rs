//! Routing tokens to experts.

use vstd::prelude::*;

use super::{answers, Error, Operand, ShapeRule};

verus! {

/// Experts one block of threads can route.
pub const MAX_EXPERTS: usize = 1024;

/// How many of how many experts are chosen for a token.
#[derive(Debug, Clone, Copy, PartialEq, Eq, Structural)]
pub struct ExpertChoice {
    /// Experts chosen.
    pub k: usize,
    /// Experts there are.
    pub n_experts: usize,
}

impl ExpertChoice {
    /// A choice of `k` of `n_experts` experts. There are 1 to 1024 experts, and
    /// at least one of them and at most all are chosen.
    pub fn new(n_experts: usize, k: usize) -> (choice: Result<ExpertChoice, Error>)
        ensures
            match choice {
                Ok(c) => {
                    &&& 1 <= n_experts <= MAX_EXPERTS
                    &&& 1 <= k <= n_experts
                    &&& c == (ExpertChoice { k, n_experts })
                },
                Err(e) => if n_experts == 0 || n_experts > MAX_EXPERTS {
                    e == Error::Shape(ShapeRule::Experts(n_experts))
                } else {
                    &&& k == 0 || k > n_experts
                    &&& e == Error::Shape(ShapeRule::Chosen { k, among: n_experts })
                },
            },
    {
        if n_experts == 0 || n_experts > MAX_EXPERTS {
            return Err(Error::Shape(ShapeRule::Experts(n_experts)));
        }
        if k == 0 || k > n_experts {
            return Err(Error::Shape(ShapeRule::Chosen { k, among: n_experts }));
        }
        Ok(ExpertChoice { k, n_experts })
    }
}

/// What is wrong with a routing, if anything.
pub open spec fn router_fault(logits: usize, choice: ExpertChoice) -> Option<ShapeRule> {
    if logits != choice.n_experts {
        Some(ShapeRule::Length { of: Operand::Logits, got: logits, expected: choice.n_experts })
    } else {
        None
    }
}

/// Checks a routing: there is one score for each expert.
pub fn router(logits: usize, choice: &ExpertChoice) -> (ok: Result<(), Error>)
    ensures
        answers(ok, router_fault(logits, *choice)),
{
    if logits != choice.n_experts {
        return Err(
            Error::Shape(
                ShapeRule::Length { of: Operand::Logits, got: logits, expected: choice.n_experts },
            ),
        );
    }
    Ok(())
}

/// What is wrong with adding an expert's output, if anything.
pub open spec fn accumulate_fault(
    dst: usize,
    src: usize,
    choice: ExpertChoice,
    slot: usize,
) -> Option<ShapeRule> {
    if dst != src {
        Some(ShapeRule::Length { of: Operand::Source, got: src, expected: dst })
    } else if slot >= choice.k {
        Some(ShapeRule::Slot { slot, k: choice.k })
    } else {
        None
    }
}

/// Checks adding an expert's output: it is as wide as what it is added to, and
/// its place is among those of the chosen experts.
pub fn accumulate(dst: usize, src: usize, choice: &ExpertChoice, slot: usize) -> (ok: Result<
    (),
    Error,
>)
    ensures
        answers(ok, accumulate_fault(dst, src, *choice, slot)),
{
    if dst != src {
        return Err(
            Error::Shape(ShapeRule::Length { of: Operand::Source, got: src, expected: dst }),
        );
    }
    if slot >= choice.k {
        return Err(Error::Shape(ShapeRule::Slot { slot, k: choice.k }));
    }
    Ok(())
}

} // verus!
