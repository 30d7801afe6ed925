//! Batch-1 projections: a matrix times a vector.

use vstd::prelude::*;

use super::{answers, exactly, holds, Error, Operand, ShapeRule};
use crate::number::{parse_i32, signed_decimal};
use crate::text::{chars_of, trim, trimmed};

verus! {

/// Weights per quantisation group.
pub const GROUP: usize = 128;

/// Weights per group of the hierarchical format.
pub const HGROUP: usize = 32;

/// What is wrong with the vectors of a projection, if anything: the input first,
/// then the output, then what is added.
pub open spec fn vectors_fault(
    in_features: usize,
    out_features: usize,
    x: usize,
    bias: Option<usize>,
    y: usize,
) -> Option<ShapeRule> {
    if x != in_features {
        Some(ShapeRule::Length { of: Operand::X, got: x, expected: in_features })
    } else if y != out_features {
        Some(ShapeRule::Length { of: Operand::Y, got: y, expected: out_features })
    } else {
        bias_fault(out_features, bias)
    }
}

/// What is wrong with what is added to a projection, if anything.
pub open spec fn bias_fault(out_features: usize, bias: Option<usize>) -> Option<ShapeRule> {
    match bias {
        Some(b) => if b != out_features {
            Some(ShapeRule::Length { of: Operand::Bias, got: b, expected: out_features })
        } else {
            None
        },
        None => None,
    }
}

/// Checks what is added to a projection.
pub(crate) fn check_bias(out_features: usize, bias: Option<usize>) -> (ok: Result<(), Error>)
    ensures
        answers(ok, bias_fault(out_features, bias)),
{
    match bias {
        Some(b) => {
            if b != out_features {
                return Err(
                    Error::Shape(
                        ShapeRule::Length { of: Operand::Bias, got: b, expected: out_features },
                    ),
                );
            }
            Ok(())
        },
        None => Ok(()),
    }
}

/// Checks the vectors of a projection.
fn check_vectors(
    in_features: usize,
    out_features: usize,
    x: usize,
    bias: Option<usize>,
    y: usize,
) -> (ok: Result<(), Error>)
    ensures
        answers(ok, vectors_fault(in_features, out_features, x, bias, y)),
{
    if x != in_features {
        return Err(
            Error::Shape(ShapeRule::Length { of: Operand::X, got: x, expected: in_features }),
        );
    }
    if y != out_features {
        return Err(
            Error::Shape(ShapeRule::Length { of: Operand::Y, got: y, expected: out_features }),
        );
    }
    check_bias(out_features, bias)
}

/// Checks the place a gathered row goes to.
fn check_row(in_features: usize, out: usize) -> (ok: Result<(), Error>)
    ensures
        answers(ok, row_fault(in_features, out)),
{
    if out != in_features {
        return Err(
            Error::Shape(
                ShapeRule::Length { of: Operand::Output, got: out, expected: in_features },
            ),
        );
    }
    Ok(())
}

/// What is wrong with the place a gathered row goes to, if anything.
pub open spec fn row_fault(in_features: usize, out: usize) -> Option<ShapeRule> {
    if out != in_features {
        Some(ShapeRule::Length { of: Operand::Output, got: out, expected: in_features })
    } else {
        None
    }
}

/// How many units a matrix takes, where each holds `per` of its weights.
pub open spec fn packed_len(out_features: usize, in_features: usize, per: usize) -> int {
    out_features * in_features / (per as int)
}

/// Whether an array has as many units as a matrix takes.
fn is_packed_len(len: usize, out_features: usize, in_features: usize, per: usize) -> (yes: bool)
    requires
        0 < per,
        in_features % per == 0,
    ensures
        yes == (len == packed_len(out_features, in_features, per)),
{
    let width: usize = in_features / per;
    assert(packed_len(out_features, in_features, per) == out_features * width) by {
        let a = out_features as int;
        let b = in_features as int;
        let d = per as int;
        let w = width as int;
        assert(b == w * d) by (nonlinear_arith)
            requires
                0 < d,
                b % d == 0,
                w == b / d,
        ;
        assert(a * b == (a * w) * d) by (nonlinear_arith)
            requires
                b == w * d,
        ;
        assert((a * w) * d / d == a * w) by (nonlinear_arith)
            requires
                0 < d,
        ;
    }
    exactly(len, out_features, width)
}

/// The sizes of a projection whose weights are packed in groups of 128.
#[derive(Debug, Clone, Copy, PartialEq, Eq, Structural)]
pub struct QuantLinear {
    qw: usize,
    sz: usize,
    in_features: usize,
    out_features: usize,
}

/// The sizes of a packed projection.
pub struct QuantView {
    pub qw: nat,
    pub sz: nat,
    pub in_features: nat,
    pub out_features: nat,
}

impl View for QuantLinear {
    type V = QuantView;

    closed spec fn view(&self) -> QuantView {
        QuantView {
            qw: self.qw as nat,
            sz: self.sz as nat,
            in_features: self.in_features as nat,
            out_features: self.out_features as nat,
        }
    }
}

impl QuantLinear {
    /// Takes packed weights of this shape: eight weights to a word, and one word
    /// of scale and zero for each group.
    pub fn from_packed(qw: &[u32], sz: &[u32], in_features: usize, out_features: usize) -> (made:
        Result<QuantLinear, Error>)
        ensures
            match made {
                Ok(q) => {
                    &&& in_features % GROUP == 0
                    &&& qw@.len() == packed_len(out_features, in_features, 8)
                    &&& sz@.len() == packed_len(out_features, in_features, GROUP)
                    &&& q@ == (QuantView {
                        qw: qw@.len(),
                        sz: sz@.len(),
                        in_features: in_features as nat,
                        out_features: out_features as nat,
                    })
                },
                Err(Error::Shape(ShapeRule::Width { width, multiple })) => in_features % GROUP != 0
                    && width == in_features && multiple == GROUP,
                Err(Error::Shape(ShapeRule::Matrix { of, got, rows, width })) => {
                    &&& in_features % GROUP == 0
                    &&& rows == out_features
                    &&& if qw@.len() != packed_len(out_features, in_features, 8) {
                        of == Operand::Packed && got == qw@.len() && width == in_features / 8
                    } else {
                        &&& of == Operand::Scales
                        &&& sz@.len() != packed_len(out_features, in_features, GROUP)
                        &&& got == sz@.len()
                        &&& width == in_features / GROUP
                    }
                },
                Err(_) => false,
            },
    {
        if in_features % GROUP != 0 {
            return Err(
                Error::Shape(ShapeRule::Width { width: in_features, multiple: GROUP }),
            );
        }
        if !is_packed_len(qw.len(), out_features, in_features, 8) {
            return Err(
                Error::Shape(
                    ShapeRule::Matrix {
                        of: Operand::Packed,
                        got: qw.len(),
                        rows: out_features,
                        width: in_features / 8,
                    },
                ),
            );
        }
        if !is_packed_len(sz.len(), out_features, in_features, GROUP) {
            return Err(
                Error::Shape(
                    ShapeRule::Matrix {
                        of: Operand::Scales,
                        got: sz.len(),
                        rows: out_features,
                        width: in_features / GROUP,
                    },
                ),
            );
        }
        Ok(QuantLinear { qw: qw.len(), sz: sz.len(), in_features, out_features })
    }

    /// Input width.
    pub fn in_features(&self) -> (n: usize)
        ensures
            n == self@.in_features,
    {
        self.in_features
    }

    /// Output width.
    pub fn out_features(&self) -> (n: usize)
        ensures
            n == self@.out_features,
    {
        self.out_features
    }

    /// Weight bytes streamed per invocation.
    pub fn bytes(&self) -> (n: usize)
        requires
            self@.qw * 4 + self@.sz * 4 <= usize::MAX,
        ensures
            n == self@.qw * 4 + self@.sz * 4,
    {
        self.qw * 4 + self.sz * 4
    }

    /// Checks a gather of one row.
    pub fn gather_row(&self, out: usize) -> (ok: Result<(), Error>)
        ensures
            answers(ok, row_fault(self@.in_features as usize, out)),
    {
        check_row(self.in_features, out)
    }

    /// Checks a projection.
    pub fn gemv_ex(&self, x: usize, bias: Option<usize>, y: usize) -> (ok: Result<(), Error>)
        ensures
            answers(
                ok,
                vectors_fault(
                    self@.in_features as usize,
                    self@.out_features as usize,
                    x,
                    bias,
                    y,
                ),
            ),
    {
        check_vectors(self.in_features, self.out_features, x, bias, y)
    }
}

/// The sizes of a projection whose weights are packed in the hierarchical format.
#[derive(Debug, Clone, Copy, PartialEq, Eq, Structural)]
pub struct QuantLinearHier {
    qw: usize,
    si: usize,
    sb: usize,
    in_features: usize,
    out_features: usize,
}

/// The sizes of a projection in the hierarchical format.
pub struct HierView {
    pub qw: nat,
    pub si: nat,
    pub sb: nat,
    pub in_features: nat,
    pub out_features: nat,
}

impl View for QuantLinearHier {
    type V = HierView;

    closed spec fn view(&self) -> HierView {
        HierView {
            qw: self.qw as nat,
            si: self.si as nat,
            sb: self.sb as nat,
            in_features: self.in_features as nat,
            out_features: self.out_features as nat,
        }
    }
}

impl QuantLinearHier {
    /// Takes packed weights of this shape: eight weights to a word, one byte of
    /// indices for each group, and one word of scales for each row.
    pub fn from_packed(
        qw: &[u32],
        si: &[u8],
        sb: &[u32],
        in_features: usize,
        out_features: usize,
    ) -> (made: Result<QuantLinearHier, Error>)
        ensures
            match made {
                Ok(q) => {
                    &&& in_features % HGROUP == 0
                    &&& qw@.len() == packed_len(out_features, in_features, 8)
                    &&& si@.len() == packed_len(out_features, in_features, HGROUP)
                    &&& sb@.len() == out_features
                    &&& q@ == (HierView {
                        qw: qw@.len(),
                        si: si@.len(),
                        sb: sb@.len(),
                        in_features: in_features as nat,
                        out_features: out_features as nat,
                    })
                },
                Err(Error::Shape(ShapeRule::Width { width, multiple })) => in_features % HGROUP
                    != 0 && width == in_features && multiple == HGROUP,
                Err(Error::Shape(ShapeRule::Arrays { in_features: i, out_features: o })) => {
                    &&& in_features % HGROUP == 0
                    &&& i == in_features
                    &&& o == out_features
                    &&& !(qw@.len() == packed_len(out_features, in_features, 8) && si@.len() == packed_len(out_features, in_features, HGROUP) && sb@.len() == out_features)
                },
                Err(_) => false,
            },
    {
        if in_features % HGROUP != 0 {
            return Err(
                Error::Shape(ShapeRule::Width { width: in_features, multiple: HGROUP }),
            );
        }
        if !is_packed_len(qw.len(), out_features, in_features, 8) || !is_packed_len(
            si.len(),
            out_features,
            in_features,
            HGROUP,
        ) || sb.len() != out_features {
            return Err(Error::Shape(ShapeRule::Arrays { in_features, out_features }));
        }
        Ok(
            QuantLinearHier {
                qw: qw.len(),
                si: si.len(),
                sb: sb.len(),
                in_features,
                out_features,
            },
        )
    }

    /// Input width.
    pub fn in_features(&self) -> (n: usize)
        ensures
            n == self@.in_features,
    {
        self.in_features
    }

    /// Output width.
    pub fn out_features(&self) -> (n: usize)
        ensures
            n == self@.out_features,
    {
        self.out_features
    }

    /// Weight bytes streamed per invocation.
    pub fn bytes(&self) -> (n: usize)
        requires
            self@.qw * 4 + self@.si + self@.sb * 4 <= usize::MAX,
        ensures
            n == self@.qw * 4 + self@.si + self@.sb * 4,
    {
        self.qw * 4 + self.si + self.sb * 4
    }

    /// Checks a gather of one row.
    pub fn gather_row(&self, out: usize) -> (ok: Result<(), Error>)
        ensures
            answers(ok, row_fault(self@.in_features as usize, out)),
    {
        check_row(self.in_features, out)
    }

    /// Checks a projection.
    pub fn gemv_ex(&self, x: usize, bias: Option<usize>, y: usize) -> (ok: Result<(), Error>)
        ensures
            answers(
                ok,
                vectors_fault(
                    self@.in_features as usize,
                    self@.out_features as usize,
                    x,
                    bias,
                    y,
                ),
            ),
    {
        check_vectors(self.in_features, self.out_features, x, bias, y)
    }

    /// Checks a projection of `n` rows at once. The buffers may be larger:
    /// scratch is allocated once, at the widest a pass can be.
    pub fn gemm_ex(&self, x: usize, bias: Option<usize>, y: usize, n: usize) -> (ok: Result<
        (),
        Error,
    >)
        ensures
            answers(
                ok,
                gemm_fault(
                    self@.in_features as usize,
                    self@.out_features as usize,
                    x,
                    bias,
                    y,
                    n,
                ),
            ),
    {
        if n == 0 {
            return Err(Error::Shape(ShapeRule::NoRows));
        }
        if !holds(x, n, self.in_features) {
            return Err(
                Error::Shape(
                    ShapeRule::Rows { of: Operand::X, got: x, rows: n, width: self.in_features },
                ),
            );
        }
        if !holds(y, n, self.out_features) {
            return Err(
                Error::Shape(
                    ShapeRule::Rows { of: Operand::Y, got: y, rows: n, width: self.out_features },
                ),
            );
        }
        check_bias(self.out_features, bias)
    }
}

/// What is wrong with a projection of several rows, if anything.
pub open spec fn gemm_fault(
    in_features: usize,
    out_features: usize,
    x: usize,
    bias: Option<usize>,
    y: usize,
    n: usize,
) -> Option<ShapeRule> {
    if n == 0 {
        Some(ShapeRule::NoRows)
    } else if x < n * in_features {
        Some(ShapeRule::Rows { of: Operand::X, got: x, rows: n, width: in_features })
    } else if y < n * out_features {
        Some(ShapeRule::Rows { of: Operand::Y, got: y, rows: n, width: out_features })
    } else {
        bias_fault(out_features, bias)
    }
}

/// What is wrong with a projection by a dense matrix, if anything.
pub open spec fn dense_fault(
    w: usize,
    x: usize,
    bias: Option<usize>,
    y: usize,
    in_features: usize,
    out_features: usize,
) -> Option<ShapeRule> {
    if w != in_features * out_features {
        Some(
            ShapeRule::Matrix {
                of: Operand::Weights,
                got: w,
                rows: out_features,
                width: in_features,
            },
        )
    } else {
        vectors_fault(in_features, out_features, x, bias, y)
    }
}

/// Checks a projection by a dense matrix.
pub fn gemv_fp16_ex(
    w: usize,
    x: usize,
    bias: Option<usize>,
    y: usize,
    in_features: usize,
    out_features: usize,
) -> (ok: Result<(), Error>)
    ensures
        answers(ok, dense_fault(w, x, bias, y, in_features, out_features)),
{
    if !exactly(w, in_features, out_features) {
        return Err(
            Error::Shape(
                ShapeRule::Matrix {
                    of: Operand::Weights,
                    got: w,
                    rows: out_features,
                    width: in_features,
                },
            ),
        );
    }
    check_vectors(in_features, out_features, x, bias, y)
}

/// Which of the kernels for packed weights is used. Nothing forced means that
/// the shape decides.
#[derive(Debug, Clone, Copy, PartialEq, Eq, Structural)]
pub struct Selection {
    code: i32,
}

/// What was chosen of the kernels.
pub enum Choice {
    /// The shape decides.
    Auto,
    /// The kernel without variants.
    Plain,
    /// This variant.
    Variant(int),
}

impl View for Selection {
    type V = Choice;

    closed spec fn view(&self) -> Choice {
        if self.code == i32::MIN {
            Choice::Auto
        } else if self.code < 0 {
            Choice::Plain
        } else {
            Choice::Variant(self.code as int)
        }
    }
}

impl Selection {
    /// Nothing forced.
    pub fn auto() -> (s: Selection)
        ensures
            s@ is Auto,
    {
        Selection { code: i32::MIN }
    }

    /// Forces a variant, or the kernel without variants.
    pub fn select(v: Option<usize>) -> (s: Selection)
        requires
            v matches Some(n) ==> n <= i32::MAX,
        ensures
            match v {
                Some(n) => s@ == Choice::Variant(n as int),
                None => s@ is Plain,
            },
    {
        match v {
            Some(n) => Selection { code: n as i32 },
            None => Selection { code: -1 },
        }
    }

    /// The variant in force, where `default` is the one for when nothing is
    /// forced. `None` is the kernel without variants.
    pub fn selected(&self, default: usize) -> (v: Option<usize>)
        ensures
            match self@ {
                Choice::Auto => v == Some(default),
                Choice::Plain => v is None,
                Choice::Variant(n) => v matches Some(k) && k == n,
            },
    {
        if self.code == i32::MIN {
            return Some(default);
        }
        if self.code < 0 {
            None
        } else {
            Some(self.code as usize)
        }
    }

    /// Whether nothing is forced.
    pub fn is_auto(&self) -> (yes: bool)
        ensures
            yes == (self@ is Auto),
    {
        self.code == i32::MIN
    }

    /// The variant a projection runs, where `for_shape` is the one its shape
    /// calls for. What is forced is honoured, so that a comparison is one flag.
    pub fn for_projection(&self, for_shape: usize) -> (v: Option<usize>)
        ensures
            match self@ {
                Choice::Auto => v == Some(for_shape),
                Choice::Plain => v is None,
                Choice::Variant(n) => v matches Some(k) && k == n,
            },
    {
        self.selected(for_shape)
    }
}

/// The variant a number on the command line stands for: a negative one is the
/// kernel without variants.
pub fn variant_of(v: i32) -> (choice: Option<usize>)
    ensures
        match choice {
            Some(n) => 0 <= v && n == v,
            None => v < 0,
        },
{
    if v < 0 {
        None
    } else {
        Some(v as usize)
    }
}

/// A reported index, where a negative report counts as zero.
pub fn reported_index(v: i32) -> (n: usize)
    ensures
        n == if v < 0 {
            0
        } else {
            v as int
        },
{
    if v < 0 {
        0
    } else {
        v as usize
    }
}

/// The parts of a text between commas.
pub open spec fn comma_parts(s: Seq<char>) -> Seq<Seq<char>>
    decreases s.len(),
{
    if s.len() == 0 {
        seq![Seq::empty()]
    } else {
        let parts = comma_parts(s.drop_last());
        if s.last() == ',' {
            parts.push(Seq::empty())
        } else {
            parts.drop_last().push(parts.last().push(s.last()))
        }
    }
}

/// The number a text states once the white space round it is gone, where it is
/// an `i32`.
pub open spec fn number_in(part: Seq<char>) -> Option<i32> {
    match signed_decimal(trimmed(part)) {
        Some(v) => if i32::MIN <= v <= i32::MAX {
            Some(v as i32)
        } else {
            None
        },
        None => None,
    }
}

/// The numbers among some texts, in order.
pub open spec fn numbers_among(parts: Seq<Seq<char>>) -> Seq<i32>
    decreases parts.len(),
{
    if parts.len() == 0 {
        Seq::empty()
    } else {
        let before = numbers_among(parts.drop_last());
        match number_in(parts.last()) {
            Some(v) => before.push(v),
            None => before,
        }
    }
}

/// The tile rule a text states: three numbers between commas. Parts that are no
/// number do not count, and any other number of numbers is no rule.
pub open spec fn rule_in(text: Seq<char>) -> Option<(i32, i32, i32)> {
    let v = numbers_among(comma_parts(text));
    if v.len() == 3 {
        Some((v[0], v[1], v[2]))
    } else {
        None
    }
}

/// Reads the number in a part of a text.
fn read_number(chars: &[char], from: usize, to: usize) -> (n: Option<i32>)
    requires
        from <= to <= chars@.len(),
    ensures
        n == number_in(chars@.subrange(from as int, to as int)),
{
    let (a, b) = trim(chars, from, to);
    parse_i32(chars, a, b)
}

/// Reads the tile rule the environment states for the hierarchical kernel.
pub fn hier_rule_from_env(text: &str) -> (rule: Option<(i32, i32, i32)>)
    ensures
        rule == rule_in(text@),
{
    let list = chars_of(text);
    let chars = list.as_slice();
    let mut found: Vec<i32> = Vec::new();
    let mut from: usize = 0;
    let mut i: usize = 0;
    let ghost mut done: Seq<Seq<char>> = Seq::empty();
    proof {
        assert(chars@.take(0) =~= Seq::<char>::empty());
        assert(done.push(chars@.subrange(0, 0)) =~= seq![Seq::<char>::empty()]);
    }
    while i < chars.len()
        invariant
            chars@ == text@,
            from <= i <= chars@.len(),
            comma_parts(chars@.take(i as int)) == done.push(
                chars@.subrange(from as int, i as int),
            ),
            found@ == numbers_among(done),
        decreases chars@.len() - i,
    {
        let ghost parts = comma_parts(chars@.take(i as int));
        let ghost part = chars@.subrange(from as int, i as int);
        proof {
            assert(chars@.take(i + 1).drop_last() =~= chars@.take(i as int));
            assert(parts.drop_last() =~= done);
        }
        if chars[i] == ',' {
            if let Some(v) = read_number(chars, from, i) {
                found.push(v);
            }
            proof {
                done = done.push(part);
                assert(done.drop_last() =~= parts.drop_last());
            }
            from = i + 1;
            assert(chars@.subrange(from as int, i + 1) =~= Seq::<char>::empty());
        } else {
            assert(chars@.subrange(from as int, i + 1) =~= part.push(chars@[i as int]));
        }
        i += 1;
    }
    assert(chars@.take(i as int) =~= text@);
    if let Some(v) = read_number(chars, from, i) {
        found.push(v);
    }
    proof {
        let parts = comma_parts(text@);
        assert(parts.drop_last() =~= done);
    }
    if found.len() == 3 {
        Some((found[0], found[1], found[2]))
    } else {
        None
    }
}

} // verus!
