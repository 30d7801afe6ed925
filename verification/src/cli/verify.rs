//! Summing up what a container holds.

use vstd::prelude::*;

use crate::error::{Error, ShapeFault};
use crate::format::{entry_len, lemma_tensors_len, product, product_fits, shape_fits, tensors_len, EntryView, Header, TensorEntry, TensorKind};

verus! {

/// What the tensors of one kind come to.
#[derive(Debug, Clone, Copy, PartialEq, Eq, Structural)]
pub struct KindTotal {
    pub kind: TensorKind,
    /// Tensors.
    pub count: usize,
    /// Stored bytes.
    pub bytes: u64,
    /// Elements.
    pub params: usize,
}

/// How many of the first `n` tensors are of a kind.
pub open spec fn count_of(tensors: Seq<EntryView>, kind: TensorKind, n: int) -> nat
    decreases n,
{
    if n <= 0 {
        0
    } else {
        count_of(tensors, kind, n - 1) + if tensors[n - 1].kind == kind {
            1nat
        } else {
            0nat
        }
    }
}

/// The bytes those of the first `n` tensors store that are of a kind.
pub open spec fn bytes_of(tensors: Seq<EntryView>, kind: TensorKind, n: int) -> nat
    decreases n,
{
    if n <= 0 {
        0
    } else {
        bytes_of(tensors, kind, n - 1) + if tensors[n - 1].kind == kind {
            entry_len(tensors[n - 1])
        } else {
            0nat
        }
    }
}

/// The elements of those of the first `n` tensors that are of a kind.
pub open spec fn params_of(tensors: Seq<EntryView>, kind: TensorKind, n: int) -> nat
    decreases n,
{
    if n <= 0 {
        0
    } else {
        params_of(tensors, kind, n - 1) + if tensors[n - 1].kind == kind {
            product(tensors[n - 1].shape, tensors[n - 1].shape.len() as int)
        } else {
            0nat
        }
    }
}

/// Whether the sums over a directory can be stated.
pub open spec fn sums_fit(tensors: Seq<EntryView>) -> bool {
    &&& forall|i: int| 0 <= i < tensors.len() ==> product_fits((#[trigger] tensors[i]).shape)
    &&& forall|kind: TensorKind|
        #[trigger] bytes_of(tensors, kind, tensors.len() as int) <= u64::MAX && params_of(
            tensors,
            kind,
            tensors.len() as int,
        ) <= usize::MAX
}

proof fn lemma_sums(tensors: Seq<EntryView>, kind: TensorKind, a: int, b: int)
    requires
        0 <= a <= b,
    ensures
        count_of(tensors, kind, a) <= count_of(tensors, kind, b),
        count_of(tensors, kind, b) <= b,
        bytes_of(tensors, kind, a) <= bytes_of(tensors, kind, b),
        params_of(tensors, kind, a) <= params_of(tensors, kind, b),
    decreases b,
{
    if a < b {
        lemma_sums(tensors, kind, a, b - 1);
    } else if b > 0 {
        lemma_sums(tensors, kind, b - 1, b - 1);
    }
}

/// The elements of the first `n` tensors.
pub open spec fn params_len(tensors: Seq<EntryView>, n: int) -> nat
    decreases n,
{
    if n <= 0 {
        0
    } else {
        params_len(tensors, n - 1) + product(tensors[n - 1].shape, tensors[n - 1].shape.len() as int)
    }
}

/// Whether the sums over a whole directory can be stated: its elements and its
/// bytes.
pub open spec fn countable(tensors: Seq<EntryView>) -> bool {
    &&& forall|i: int| 0 <= i < tensors.len() ==> product_fits((#[trigger] tensors[i]).shape)
    &&& params_len(tensors, tensors.len() as int) <= usize::MAX
    &&& tensors_len(tensors, tensors.len() as int, None) <= u64::MAX
}

proof fn lemma_params_len(tensors: Seq<EntryView>, a: int, b: int)
    requires
        a <= b,
    ensures
        params_len(tensors, a) <= params_len(tensors, b),
    decreases b - a,
{
    if a < b {
        lemma_params_len(tensors, a, b - 1);
    }
}

proof fn lemma_kind_is_part(tensors: Seq<EntryView>, kind: TensorKind, n: int)
    ensures
        bytes_of(tensors, kind, n) <= tensors_len(tensors, n, None),
        params_of(tensors, kind, n) <= params_len(tensors, n),
    decreases n,
{
    if n > 0 {
        lemma_kind_is_part(tensors, kind, n - 1);
    }
}

/// Where the sums over a whole directory can be stated, so can those over each
/// kind.
pub proof fn kinds_are_part_of_the_whole(tensors: Seq<EntryView>)
    requires
        countable(tensors),
    ensures
        sums_fit(tensors),
{
    let n = tensors.len() as int;
    assert forall|kind: TensorKind| #[trigger]
        bytes_of(tensors, kind, n) <= u64::MAX && params_of(tensors, kind, n) <= usize::MAX by {
        lemma_kind_is_part(tensors, kind, n);
    }
}

/// Counts the elements of a directory, where its elements and its bytes can be
/// counted.
pub fn count_params(h: &Header) -> (n: Option<usize>)
    ensures
        n is Some <==> countable(h@.tensors),
        n is Some ==> sums_fit(h@.tensors),
        n matches Some(n) ==> n == params_len(h@.tensors, h@.tensors.len() as int),
{
    let ghost all = h@.tensors;
    let mut params: usize = 0;
    let mut bytes: u64 = 0;
    let mut i: usize = 0;
    while i < h.tensors.len()
        invariant
            i <= h.tensors@.len(),
            all == h@.tensors,
            params == params_len(all, i as int),
            bytes == tensors_len(all, i as int, None),
            forall|k: int| 0 <= k < i ==> product_fits((#[trigger] all[k]).shape),
        decreases h.tensors@.len() - i,
    {
        assert(all[i as int] == h.tensors@[i as int]@);
        proof {
            lemma_params_len(all, i + 1, all.len() as int);
            lemma_tensors_len(all, i + 1, all.len() as int, None);
        }
        if !shape_fits(h.tensors[i].shape.as_slice()) {
            return None;
        }
        params = match params.checked_add(h.tensors[i].numel()) {
            Some(n) => n,
            None => {
                return None;
            },
        };
        let stored = match h.tensors[i].checked_bytes() {
            Some(n) => n,
            None => {
                return None;
            },
        };
        bytes = match bytes.checked_add(stored) {
            Some(n) => n,
            None => {
                return None;
            },
        };
        i += 1;
    }
    proof {
        kinds_are_part_of_the_whole(all);
    }
    Some(params)
}

/// What the tensors of a kind come to.
pub fn kind_total(h: &Header, kind: TensorKind) -> (t: KindTotal)
    requires
        sums_fit(h@.tensors),
    ensures
        t.kind == kind,
        t.count == count_of(h@.tensors, kind, h@.tensors.len() as int),
        t.bytes == bytes_of(h@.tensors, kind, h@.tensors.len() as int),
        t.params == params_of(h@.tensors, kind, h@.tensors.len() as int),
{
    let ghost all = h@.tensors;
    let mut t = KindTotal { kind, count: 0, bytes: 0, params: 0 };
    let mut i: usize = 0;
    while i < h.tensors.len()
        invariant
            i <= h.tensors@.len(),
            all == h@.tensors,
            sums_fit(all),
            t.kind == kind,
            t.count == count_of(all, kind, i as int),
            t.bytes == bytes_of(all, kind, i as int),
            t.params == params_of(all, kind, i as int),
        decreases h.tensors@.len() - i,
    {
        assert(all[i as int] == h.tensors@[i as int]@);
        proof {
            lemma_sums(all, kind, i + 1, all.len() as int);
            assert(bytes_of(all, kind, all.len() as int) <= u64::MAX);
        }
        if h.tensors[i].kind == kind {
            t.count += 1;
            t.bytes += h.tensors[i].stored_bytes();
            t.params += h.tensors[i].numel();
        }
        i += 1;
    }
    t
}

/// What the tensors of each kind come to, in the order of the kinds' names.
/// Kinds of which there is no tensor are left out.
pub fn kind_totals(h: &Header) -> (list: Vec<KindTotal>)
    requires
        sums_fit(h@.tensors),
    ensures
        list@ == totals_of(h@.tensors, 4),
{
    let kinds: [TensorKind; 4] = [
        TensorKind::Fp16,
        TensorKind::Fp32,
        TensorKind::Int4G128,
        TensorKind::Int4HierG32,
    ];
    assert(kinds@ =~= kind_order());
    let mut list: Vec<KindTotal> = Vec::new();
    let mut k: usize = 0;
    assert(list@ =~= totals_of(h@.tensors, 0));
    while k < 4
        invariant
            k <= 4,
            kinds@ == kind_order(),
            kind_order().len() == 4,
            sums_fit(h@.tensors),
            list@ == totals_of(h@.tensors, k as int),
        decreases 4 - k,
    {
        let t = kind_total(h, kinds[k]);
        proof {
            let n = h@.tensors.len() as int;
            assert(bytes_of(h@.tensors, kinds@[k as int], n) <= u64::MAX);
            lemma_sums(h@.tensors, kinds@[k as int], n, n);
        }
        if t.count > 0 {
            list.push(t);
        }
        k += 1;
    }
    list
}

/// The kinds, in the order of their names.
pub open spec fn kind_order() -> Seq<TensorKind> {
    seq![TensorKind::Fp16, TensorKind::Fp32, TensorKind::Int4G128, TensorKind::Int4HierG32]
}

/// What the tensors of each of the first `k` kinds come to.
pub open spec fn totals_of(tensors: Seq<EntryView>, k: int) -> Seq<KindTotal>
    decreases k,
{
    if k <= 0 {
        Seq::empty()
    } else {
        let before = totals_of(tensors, k - 1);
        let kind = kind_order()[k - 1];
        let n = tensors.len() as int;
        if count_of(tensors, kind, n) > 0 {
            before.push(
                KindTotal {
                    kind,
                    count: count_of(tensors, kind, n) as usize,
                    bytes: bytes_of(tensors, kind, n) as u64,
                    params: params_of(tensors, kind, n) as usize,
                },
            )
        } else {
            before
        }
    }
}

/// The rows and the width of a tensor that can be compared with its source: one
/// that is quantized. A quantized tensor that is not a matrix is an error; any
/// other tensor is left out.
pub fn comparable(t: &TensorEntry) -> (r: Result<Option<(usize, usize)>, Error>)
    ensures
        match r {
            Ok(None) => !(t@.kind is Int4G128 || t@.kind is Int4HierG32),
            Ok(Some(s)) => {
                &&& t@.kind is Int4G128 || t@.kind is Int4HierG32
                &&& t@.shape == seq![s.0, s.1]
            },
            Err(e) => {
                &&& t@.kind is Int4G128 || t@.kind is Int4HierG32
                &&& t@.shape.len() != 2
                &&& e matches Error::Shape(ShapeFault::NotMatrix(n, d)) && n@ == t@.name && d
                    == t@.shape.len()
            },
        },
{
    match t.kind {
        TensorKind::Int4G128 => {},
        TensorKind::Int4HierG32 => {},
        _ => {
            return Ok(None);
        },
    }
    if t.shape.len() != 2 {
        return Err(Error::Shape(ShapeFault::NotMatrix(t.name.clone(), t.shape.len())));
    }
    assert(t@.shape =~= seq![t.shape@[0], t.shape@[1]]);
    Ok(Some((t.shape[0], t.shape[1])))
}

} // verus!
