//! Reading what a quality gate is run on.

use vstd::prelude::*;

use crate::bytes::{read_u32, words_of};
use crate::json::{items_view, parsed_json, Json, JsonView};

verus! {

/// What is wrong with the input of a quality gate.
#[derive(Debug, Clone, Copy, PartialEq, Eq, Structural)]
pub enum EvalIssue {
    /// The file is not a whole number of tokens; it has this many bytes.
    Ragged(usize),
    /// This token is outside the vocabulary.
    Outside(u32),
    /// The text is not a JSON array of arrays of token ids.
    NotPrompts,
    /// There is no prompt.
    NoPrompts,
    /// The prompt at this place is empty.
    EmptyPrompt(usize),
}

/// Reads a file of little-endian `u32` token ids.
pub fn read_tokens(bytes: &[u8]) -> (tokens: Result<Vec<u32>, EvalIssue>)
    ensures
        match tokens {
            Ok(t) => bytes@.len() % 4 == 0 && t@ == words_of(bytes@),
            Err(e) => bytes@.len() % 4 != 0 && e == EvalIssue::Ragged(bytes@.len() as usize),
        },
{
    let n: usize = bytes.len();
    if n % 4 != 0 {
        return Err(EvalIssue::Ragged(n));
    }
    assert(bytes@.subrange(0, n as int) =~= bytes@);
    Ok(read_u32(bytes, 0, n as u64))
}

/// Whether the token at `i` is the first outside a vocabulary.
pub open spec fn first_outside(tokens: Seq<u32>, vocab: int, i: int) -> bool {
    &&& 0 <= i < tokens.len()
    &&& tokens[i] >= vocab
    &&& forall|k: int| 0 <= k < i ==> (#[trigger] tokens[k]) < vocab
}

/// Checks that every token is in the vocabulary; the first that is not is
/// reported.
pub fn check_vocabulary(tokens: &[u32], vocab: usize) -> (ok: Result<(), EvalIssue>)
    ensures
        match ok {
            Ok(_) => forall|k: int| 0 <= k < tokens@.len() ==> (#[trigger] tokens@[k]) < vocab,
            Err(e) => exists|i: int|
                #[trigger] first_outside(tokens@, vocab as int, i) && e == EvalIssue::Outside(
                    tokens@[i],
                ),
        },
{
    let mut i: usize = 0;
    while i < tokens.len()
        invariant
            i <= tokens@.len(),
            forall|k: int| 0 <= k < i ==> (#[trigger] tokens@[k]) < vocab,
        decreases tokens@.len() - i,
    {
        if tokens[i] as u64 >= vocab as u64 {
            assert(first_outside(tokens@, vocab as int, i as int));
            return Err(EvalIssue::Outside(tokens[i]));
        }
        i += 1;
    }
    Ok(())
}

/// The token ids of an array; nothing where an element is not one.
pub open spec fn ids_of(doc: JsonView) -> Option<Seq<u32>> {
    match doc.as_array() {
        Some(a) => if forall|i: int|
            0 <= i < a.len() ==> (#[trigger] a[i]).as_u64() is Some && a[i].as_u64()->0 <= u32::MAX {
            Some(Seq::new(a.len(), |i: int| a[i].as_u64()->0 as u32))
        } else {
            None
        },
        None => None,
    }
}

/// The prompts of an array of arrays of token ids; nothing where it is not one.
pub open spec fn prompts_of(doc: JsonView) -> Option<Seq<Seq<u32>>> {
    match doc.as_array() {
        Some(a) => if forall|i: int| 0 <= i < a.len() ==> ids_of(#[trigger] a[i]) is Some {
            Some(Seq::new(a.len(), |i: int| ids_of(a[i])->0))
        } else {
            None
        },
        None => None,
    }
}

/// Reads an array of token ids.
fn read_ids(doc: &Json) -> (r: Option<Vec<u32>>)
    ensures
        match (r, ids_of(doc@)) {
            (Some(v), Some(want)) => v@ == want,
            (None, None) => true,
            _ => false,
        },
{
    let items = match doc.as_array() {
        Some(a) => a,
        None => {
            return None;
        },
    };
    let ghost all = items_view(items@);
    let mut out: Vec<u32> = Vec::new();
    let mut i: usize = 0;
    while i < items.len()
        invariant
            i <= items@.len(),
            all == items_view(items@),
            doc@.as_array() == Some(all),
            out@.len() == i,
            forall|k: int|
                0 <= k < i ==> (#[trigger] all[k]).as_u64() is Some && all[k].as_u64()->0
                    <= u32::MAX,
            forall|k: int| 0 <= k < i ==> #[trigger] out@[k] == all[k].as_u64()->0 as u32,
        decreases items@.len() - i,
    {
        assert(all[i as int] == items@[i as int]@);
        match items[i].as_u64() {
            Some(n) => {
                if n > u32::MAX as u64 {
                    return None;
                }
                out.push(n as u32);
            },
            None => {
                return None;
            },
        }
        i += 1;
    }
    assert(out@ =~= ids_of(doc@)->0);
    Some(out)
}

/// What some prompts are.
pub open spec fn prompt_views(prompts: Seq<Vec<u32>>) -> Seq<Seq<u32>> {
    prompts.map_values(|ids: Vec<u32>| ids@)
}

/// What a text of prompts holds: nothing where it is not JSON, or not an array of
/// arrays of token ids.
pub open spec fn prompts_in(text: Seq<char>) -> Option<Seq<Seq<u32>>> {
    match parsed_json(text) {
        Some(doc) => prompts_of(doc),
        None => None,
    }
}

/// Takes prompts out of a parsed array of arrays of token ids. There has to be one
/// at least.
pub fn take_prompts(doc: &Json) -> (r: Result<Vec<Vec<u32>>, EvalIssue>)
    ensures
        match prompts_of(doc@) {
            None => r == Err::<Vec<Vec<u32>>, EvalIssue>(EvalIssue::NotPrompts),
            Some(want) => if want.len() == 0 {
                r == Err::<Vec<Vec<u32>>, EvalIssue>(EvalIssue::NoPrompts)
            } else {
                r matches Ok(p) && prompt_views(p@) == want
            },
        },
{
    let items = match doc.as_array() {
        Some(a) => a,
        None => {
            return Err(EvalIssue::NotPrompts);
        },
    };
    let ghost all = items_view(items@);
    let mut out: Vec<Vec<u32>> = Vec::new();
    let mut i: usize = 0;
    while i < items.len()
        invariant
            i <= items@.len(),
            all == items_view(items@),
            doc@.as_array() == Some(all),
            out@.len() == i,
            forall|k: int| 0 <= k < i ==> ids_of(#[trigger] all[k]) == Some(out@[k]@),
        decreases items@.len() - i,
    {
        assert(all[i as int] == items@[i as int]@);
        let ghost before = out@;
        match read_ids(&items[i]) {
            Some(ids) => {
                out.push(ids);
            },
            None => {
                return Err(EvalIssue::NotPrompts);
            },
        }
        assert forall|k: int| 0 <= k < i + 1 implies ids_of(#[trigger] all[k]) == Some(out@[k]@) by {
            if k < i {
                assert(out@[k] == before[k]);
            }
        }
        i += 1;
    }
    assert(prompt_views(out@) =~= prompts_of(doc@)->0);
    if out.len() == 0 {
        return Err(EvalIssue::NoPrompts);
    }
    Ok(out)
}

/// Reads prompts from a JSON array of arrays of token ids. There has to be one at
/// least.
pub fn read_prompts(text: &str) -> (r: Result<Vec<Vec<u32>>, EvalIssue>)
    ensures
        match prompts_in(text@) {
            None => r == Err::<Vec<Vec<u32>>, EvalIssue>(EvalIssue::NotPrompts),
            Some(want) => if want.len() == 0 {
                r == Err::<Vec<Vec<u32>>, EvalIssue>(EvalIssue::NoPrompts)
            } else {
                r matches Ok(p) && prompt_views(p@) == want
            },
        },
{
    match Json::parse(text) {
        Ok(doc) => take_prompts(&doc),
        Err(_) => Err(EvalIssue::NotPrompts),
    }
}

/// Checks that the prompt at a place is not empty.
pub fn check_prompt(ids: &[u32], place: usize) -> (ok: Result<(), EvalIssue>)
    ensures
        ok is Ok <==> ids@.len() > 0,
        ok matches Err(e) ==> e == EvalIssue::EmptyPrompt(place),
{
    if ids.len() == 0 {
        Err(EvalIssue::EmptyPrompt(place))
    } else {
        Ok(())
    }
}

/// How many predictions some windows make: one less than its size each.
pub fn predictions(windows: usize, window: usize) -> (n: usize)
    requires
        1 <= window,
        windows * (window - 1) <= usize::MAX,
    ensures
        n == windows * (window - 1),
{
    windows * (window - 1)
}

/// Prompts are read as they stand: as many as the array has, in its order, and
/// each with the numbers of its own array, all of which fit 32 bits. Anything else
/// in the place of an array or a number makes the text no list of prompts.
pub proof fn prompts_are_read_as_they_stand(
    doc: JsonView,
    lists: Seq<JsonView>,
    numbers: Seq<JsonView>,
    ids: Seq<u32>,
    prompts: Seq<Seq<u32>>,
)
    requires
        doc.as_array() == Some(lists),
    ensures
        prompts_of(doc) == Some(prompts) <==> prompts.len() == lists.len() && forall|i: int|
            0 <= i < lists.len() ==> ids_of(#[trigger] lists[i]) == Some(prompts[i]),
        prompts_of(doc) is None <==> exists|i: int|
            0 <= i < lists.len() && ids_of(#[trigger] lists[i]) is None,
        ids_of(JsonView::Array(numbers)) == Some(ids) <==> ids.len() == numbers.len() && forall|i: int|
            0 <= i < numbers.len() ==> (#[trigger] numbers[i]).as_u64() == Some(ids[i] as u64),
        ids_of(JsonView::Array(numbers)) is None <==> exists|i: int|
            0 <= i < numbers.len() && !((#[trigger] numbers[i]).as_u64() matches Some(n) && n
                <= 0xffff_ffff),
{
    let got = prompts_of(doc);
    if got is Some {
        assert forall|i: int| 0 <= i < lists.len() implies ids_of(#[trigger] lists[i]) == Some(got->0[i]) by {}
    }
    if prompts.len() == lists.len() && (forall|i: int|
        0 <= i < lists.len() ==> ids_of(#[trigger] lists[i]) == Some(prompts[i])) {
        assert(got is Some);
        assert(got->0 =~= prompts);
    }
    let read = ids_of(JsonView::Array(numbers));
    if read is Some {
        assert forall|i: int| 0 <= i < numbers.len() implies (#[trigger] numbers[i]).as_u64() == Some(
            read->0[i] as u64,
        ) by {}
    }
    if ids.len() == numbers.len() && (forall|i: int|
        0 <= i < numbers.len() ==> (#[trigger] numbers[i]).as_u64() == Some(ids[i] as u64)) {
        assert(read is Some);
        assert(read->0 =~= ids);
    }
}

/// What is not an array states no prompts, and no token ids.
pub proof fn only_arrays_state_prompts(doc: JsonView)
    requires
        doc.as_array() is None,
    ensures
        prompts_of(doc) is None,
        ids_of(doc) is None,
{
}

} // verus!
