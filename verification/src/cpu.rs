//! Which instruction set the packing loops run on.

use vstd::prelude::*;

verus! {

/// Host CPU features the packers care about, ordered by capability.
#[derive(Clone, Copy, PartialEq, Eq, PartialOrd, Ord, Debug, Structural)]
pub enum Isa {
    /// The compilation target's own baseline. On x86-64 that is SSE2, where
    /// rounding is a library call.
    Baseline,
    /// SSE4.1: rounding is one instruction.
    Sse41,
    /// AVX2, FMA and F16C. Every AVX2 part shipped with all three, but they are
    /// detected separately because nothing guarantees it.
    Avx2,
}

impl Isa {
    /// Short name for the banner, so that a slow conversion on an old machine is
    /// self-explanatory rather than mysterious.
    pub fn name(self, x86_64: bool) -> (name: &'static str)
        ensures
            name@ == match self {
                Isa::Baseline => if x86_64 {
                    "sse2 (baseline)"@
                } else {
                    "generic"@
                },
                Isa::Sse41 => "sse4.1"@,
                Isa::Avx2 => "avx2+fma+f16c"@,
            },
    {
        match self {
            Isa::Baseline => {
                if x86_64 {
                    "sse2 (baseline)"
                } else {
                    "generic"
                }
            },
            Isa::Sse41 => "sse4.1",
            Isa::Avx2 => "avx2+fma+f16c",
        }
    }
}

/// The best instruction set of a host with these features. One is never picked
/// that the host cannot execute.
pub fn detect(avx2: bool, fma: bool, f16c: bool, sse41: bool) -> (isa: Isa)
    ensures
        isa == Isa::Avx2 <==> avx2 && fma && f16c,
        isa == Isa::Sse41 <==> sse41 && !(avx2 && fma && f16c),
        isa == Isa::Baseline <==> !sse41 && !(avx2 && fma && f16c),
{
    if avx2 && fma && f16c {
        return Isa::Avx2;
    }
    if sse41 {
        return Isa::Sse41;
    }
    Isa::Baseline
}

} // verus!
