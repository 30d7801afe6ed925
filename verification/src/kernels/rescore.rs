//! Recomputing the leading scores from a dense copy of the output projection.

use vstd::prelude::*;

use super::{answers, exactly, Error, Operand, ShapeRule};

verus! {

/// The sizes of a rescoring.
#[derive(Debug, Clone, Copy, PartialEq, Eq, Structural)]
pub struct HeadRescore {
    /// Leaders that must be rescored.
    pub k: usize,
    /// Leaders that can be rescored.
    pub cap: usize,
    /// Blocks of the rescoring kernel.
    pub grid: usize,
    /// Blocks of the kernel that finds the threshold.
    pub nblocks: usize,
    /// Residual width.
    pub hidden: usize,
    /// Vocabulary size.
    pub vocab: usize,
}

/// How many leaders can be rescored where `k` must be: sixteen times as many,
/// but no more than there are.
pub open spec fn cap_for(k: int, vocab: int) -> int {
    if k * 16 < vocab {
        k * 16
    } else {
        vocab
    }
}

/// The blocks a vocabulary is searched by: one for each 256 scores, between 1 and
/// 512 of them.
pub open spec fn blocks_for(vocab: int) -> int {
    let n = (vocab + 255) / 256;
    if n < 1 {
        1
    } else if n > 512 {
        512
    } else {
        n
    }
}

impl HeadRescore {
    /// The sizes for a dense copy of `head` elements. At least one leader and at
    /// most all of the vocabulary must be rescored.
    pub fn new(head: usize, vocab: usize, hidden: usize, k: usize) -> (made: Result<
        HeadRescore,
        Error,
    >)
        ensures
            match made {
                Ok(r) => {
                    &&& head == vocab * hidden
                    &&& 1 <= k <= vocab
                    &&& r.k == k
                    &&& r.cap == cap_for(k as int, vocab as int)
                    &&& r.grid == if r.cap < 256 {
                        r.cap
                    } else {
                        256
                    }
                    &&& r.nblocks == blocks_for(vocab as int)
                    &&& r.hidden == hidden
                    &&& r.vocab == vocab
                },
                Err(e) => if head != vocab * hidden {
                    e == Error::Shape(
                        ShapeRule::Matrix {
                            of: Operand::Weights,
                            got: head,
                            rows: vocab,
                            width: hidden,
                        },
                    )
                } else {
                    &&& k == 0 || k > vocab
                    &&& e == Error::Shape(ShapeRule::Chosen { k, among: vocab })
                },
            },
    {
        if !exactly(head, vocab, hidden) {
            return Err(
                Error::Shape(
                    ShapeRule::Matrix {
                        of: Operand::Weights,
                        got: head,
                        rows: vocab,
                        width: hidden,
                    },
                ),
            );
        }
        if k == 0 || k > vocab {
            return Err(Error::Shape(ShapeRule::Chosen { k, among: vocab }));
        }
        let cap: usize = match k.checked_mul(16) {
            Some(n) => if n < vocab {
                n
            } else {
                vocab
            },
            None => vocab,
        };
        let grid: usize = if cap < 256 {
            cap
        } else {
            256
        };
        let whole: usize = vocab / 256;
        let nblocks: usize = if whole >= 512 {
            512
        } else if vocab % 256 == 0 {
            whole
        } else {
            whole + 1
        };
        Ok(HeadRescore { k, cap, grid, nblocks, hidden, vocab })
    }

    /// Leaders that can be rescored.
    pub fn cap(&self) -> (n: usize)
        ensures
            n == self.cap,
    {
        self.cap
    }

    /// Elements of the scratch of the search: a maximum of each block, the
    /// threshold, and twelve counters.
    pub fn scratch(&self) -> (n: usize)
        requires
            self.nblocks <= 512,
        ensures
            n == self.nblocks + 13,
    {
        self.nblocks + 13
    }

    /// Bytes resident on the device.
    pub fn bytes(&self) -> (n: usize)
        requires
            self.nblocks <= 512,
            self.vocab * self.hidden * 2 + self.cap * 4 + (self.nblocks + 13) * 4 + 8
                <= usize::MAX,
        ensures
            n == self.vocab * self.hidden * 2 + self.cap * 4 + (self.nblocks + 13) * 4 + 8,
    {
        proof {
            assert(0 <= self.vocab * self.hidden) by (nonlinear_arith);
        }
        self.vocab * self.hidden * 2 + self.cap * 4 + self.scratch() * 4 + 8
    }

    /// Checks a rescoring: there is a score for each token, and the activation is
    /// as wide as the projection expects.
    pub fn apply(&self, logits: usize, x: usize) -> (ok: Result<(), Error>)
        ensures
            answers(ok, apply_fault(*self, logits, x)),
    {
        if logits != self.vocab {
            return Err(
                Error::Shape(
                    ShapeRule::Length { of: Operand::Logits, got: logits, expected: self.vocab },
                ),
            );
        }
        if x != self.hidden {
            return Err(
                Error::Shape(ShapeRule::Length { of: Operand::X, got: x, expected: self.hidden }),
            );
        }
        Ok(())
    }
}

/// What is wrong with a rescoring, if anything.
pub open spec fn apply_fault(r: HeadRescore, logits: usize, x: usize) -> Option<ShapeRule> {
    if logits != r.vocab {
        Some(ShapeRule::Length { of: Operand::Logits, got: logits, expected: r.vocab })
    } else if x != r.hidden {
        Some(ShapeRule::Length { of: Operand::X, got: x, expected: r.hidden })
    } else {
        None
    }
}

/// There is always room for the leaders that must be rescored, and never more
/// room than there are scores.
pub proof fn leaders_fit(k: nat, vocab: nat)
    requires
        1 <= k <= vocab,
    ensures
        k <= cap_for(k as int, vocab as int) <= vocab,
        1 <= blocks_for(vocab as int) <= 512,
{
}

} // verus!
