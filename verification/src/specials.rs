//! Added tokens: their order, and finding them in a text.

use vstd::prelude::*;
use vstd::utf8::encode_utf8;

verus! {

/// The length of a text in bytes.
pub open spec fn byte_len(text: Seq<char>) -> nat {
    encode_utf8(text).len()
}

/// A list ordered by length, longest first, with one more text put behind those
/// that are at least as long.
pub open spec fn insert_by_length(list: Seq<(Seq<char>, u32)>, item: (Seq<char>, u32)) -> Seq<
    (Seq<char>, u32),
>
    decreases list.len(),
{
    if list.len() == 0 {
        seq![item]
    } else if byte_len(list.last().0) >= byte_len(item.0) {
        list.push(item)
    } else {
        insert_by_length(list.drop_last(), item).push(list.last())
    }
}

/// The texts in order of length in bytes, longest first; texts of one length
/// keep the order they had.
pub open spec fn longest_first(list: Seq<(Seq<char>, u32)>) -> Seq<(Seq<char>, u32)>
    decreases list.len(),
{
    if list.len() == 0 {
        seq![]
    } else {
        insert_by_length(longest_first(list.drop_last()), list.last())
    }
}

/// The texts and ids of a list of added tokens.
pub open spec fn special_views(list: Seq<(String, u32)>) -> Seq<(Seq<char>, u32)> {
    list.map_values(|s: (String, u32)| (s.0@, s.1))
}

/// Whether a pattern stands in a text at a position.
pub open spec fn occurs_at(text: Seq<char>, pattern: Seq<char>, at: int) -> bool {
    0 <= at && at + pattern.len() <= text.len() && text.subrange(at, at + pattern.len()) == pattern
}

/// The first of the added tokens from `k` on that stands at a position.
pub open spec fn special_at(specials: Seq<(Seq<char>, u32)>, text: Seq<char>, at: int, k: int) -> Option<int>
    decreases specials.len() - k,
    when 0 <= k
{
    if k >= specials.len() {
        None
    } else if occurs_at(text, specials[k].0, at) {
        Some(k)
    } else {
        special_at(specials, text, at, k + 1)
    }
}

/// The earliest position from `at` on where an added token stands, and the
/// first in the list of those that stand there.
pub open spec fn next_special(specials: Seq<(Seq<char>, u32)>, text: Seq<char>, at: int) -> Option<(int, int)>
    decreases text.len() - at,
    when 0 <= at
{
    if at >= text.len() {
        None
    } else {
        match special_at(specials, text, at, 0) {
            Some(k) => Some((at, k)),
            None => next_special(specials, text, at + 1),
        }
    }
}

pub proof fn lemma_special_at(specials: Seq<(Seq<char>, u32)>, text: Seq<char>, at: int, k: int)
    requires
        0 <= k,
    ensures
        special_at(specials, text, at, k) matches Some(j) ==> k <= j < specials.len() && occurs_at(
            text,
            specials[j].0,
            at,
        ),
    decreases specials.len() - k,
{
    if k < specials.len() && !occurs_at(text, specials[k].0, at) {
        lemma_special_at(specials, text, at, k + 1);
    }
}

pub proof fn lemma_next_special(specials: Seq<(Seq<char>, u32)>, text: Seq<char>, at: int)
    requires
        0 <= at,
    ensures
        next_special(specials, text, at) matches Some((p, k)) ==> at <= p < text.len() && 0 <= k
            < specials.len() && occurs_at(text, specials[k].0, p),
    decreases text.len() - at,
{
    if at < text.len() {
        lemma_special_at(specials, text, at, 0);
        if special_at(specials, text, at, 0) is None {
            lemma_next_special(specials, text, at + 1);
        }
    }
}

/// Whether reading a text token by token comes to an end. It does not where the
/// next added token is the empty one.
pub open spec fn scan_ends(specials: Seq<(Seq<char>, u32)>, text: Seq<char>) -> bool
    decreases text.len(),
{
    if text.len() == 0 {
        true
    } else {
        match next_special(specials, text, 0) {
            None => true,
            Some((p, k)) => specials[k].0.len() > 0 && {
                let rest = text.skip(p + specials[k].0.len());
                rest.len() < text.len() && scan_ends(specials, rest)
            },
        }
    }
}

/// Without an empty added token, reading always comes to an end.
pub proof fn scan_ends_without_empty(specials: Seq<(Seq<char>, u32)>, text: Seq<char>)
    requires
        forall|k: int| 0 <= k < specials.len() ==> (#[trigger] specials[k]).0.len() > 0,
    ensures
        scan_ends(specials, text),
    decreases text.len(),
{
    if text.len() > 0 {
        lemma_next_special(specials, text, 0);
        if let Some((p, k)) = next_special(specials, text, 0) {
            scan_ends_without_empty(specials, text.skip(p + specials[k].0.len()));
        }
    }
}

spec fn sorted_by_length(list: Seq<(Seq<char>, u32)>) -> bool {
    forall|i: int, j: int|
        #![trigger list[i], list[j]]
        0 <= i <= j < list.len() ==> byte_len(list[i].0) >= byte_len(list[j].0)
}

proof fn lemma_insert_sorted(list: Seq<(Seq<char>, u32)>, item: (Seq<char>, u32))
    requires
        sorted_by_length(list),
    ensures
        sorted_by_length(insert_by_length(list, item)),
        insert_by_length(list, item).to_multiset() == list.to_multiset().insert(item),
        insert_by_length(list, item).len() == list.len() + 1,
        list.len() > 0 ==> byte_len(insert_by_length(list, item).last().0) <= byte_len(list.last().0) || byte_len(
            insert_by_length(list, item).last().0,
        ) <= byte_len(item.0),
        forall|i: int|
            0 <= i < insert_by_length(list, item).len() ==> (#[trigger] insert_by_length(list, item)[i]) == item
                || list.contains(insert_by_length(list, item)[i]),
    decreases list.len(),
{
    broadcast use vstd::seq_lib::group_to_multiset_ensures;

    let out = insert_by_length(list, item);
    if list.len() == 0 {
        assert(list =~= seq![]);
        assert(seq![item] =~= Seq::<(Seq<char>, u32)>::empty().push(item));
    } else if byte_len(list.last().0) >= byte_len(item.0) {
        assert forall|i: int| 0 <= i < out.len() implies #[trigger] out[i] == item || list.contains(out[i]) by {
            if i < list.len() {
                assert(list[i] == out[i]);
            }
        }
    } else {
        let front = list.drop_last();
        lemma_insert_sorted(front, item);
        let mid = insert_by_length(front, item);
        assert(list =~= front.push(list.last()));
        assert forall|i: int| 0 <= i < out.len() implies #[trigger] out[i] == item || list.contains(out[i]) by {
            if i < mid.len() {
                assert(out[i] == mid[i]);
                if out[i] != item {
                    let j = choose|j: int| 0 <= j < front.len() && front[j] == out[i];
                    assert(list[j] == out[i]);
                }
            } else {
                assert(list[list.len() - 1] == out[i]);
            }
        }
        assert forall|i: int, j: int|
            #![trigger out[i], out[j]]
            0 <= i <= j < out.len() implies byte_len(out[i].0) >= byte_len(out[j].0) by {
            if j < mid.len() {
                assert(out[i] == mid[i] && out[j] == mid[j]);
            } else if i < mid.len() {
                assert(out[i] == mid[i]);
                if mid[i] != item {
                    let k = choose|k: int| 0 <= k < front.len() && front[k] == mid[i];
                    assert(list[k] == mid[i]);
                    assert(byte_len(list[k].0) >= byte_len(list[list.len() - 1].0));
                }
            }
        }
        assert(mid.push(list.last()).to_multiset() == mid.to_multiset().insert(list.last()));
        assert(front.push(list.last()).to_multiset() == front.to_multiset().insert(list.last()));
        assert(out.to_multiset() =~= list.to_multiset().insert(item));
    }
}

/// Ordering the added tokens loses none and adds none, and a longer one never
/// stands behind a shorter.
pub proof fn longest_first_is_a_sort(list: Seq<(Seq<char>, u32)>)
    ensures
        longest_first(list).to_multiset() == list.to_multiset(),
        forall|i: int, j: int|
            #![trigger longest_first(list)[i], longest_first(list)[j]]
            0 <= i <= j < longest_first(list).len() ==> byte_len(longest_first(list)[i].0) >= byte_len(
                longest_first(list)[j].0,
            ),
    decreases list.len(),
{
    broadcast use vstd::seq_lib::group_to_multiset_ensures;

    if list.len() == 0 {
        assert(list =~= seq![]);
    } else {
        longest_first_is_a_sort(list.drop_last());
        lemma_insert_sorted(longest_first(list.drop_last()), list.last());
        assert(list =~= list.drop_last().push(list.last()));
        assert(list.drop_last().push(list.last()).to_multiset() == list.drop_last().to_multiset().insert(
            list.last(),
        ));
    }
}

/// Orders added tokens by length, longest first.
pub fn sort_longest_first(list: Vec<(String, u32)>) -> (sorted: Vec<(String, u32)>)
    ensures
        special_views(sorted@) == longest_first(special_views(list@)),
{
    let ghost all = special_views(list@);
    let mut out: Vec<(String, u32)> = Vec::new();
    assert(all.take(0) =~= seq![]);
    for item in it: list
        invariant
            it.seq() == list@,
            all == special_views(list@),
            special_views(out@) == longest_first(all.take(it.index() as int)),
    {
        let ghost before = special_views(out@);
        let ghost one = (item.0@, item.1);
        let len: usize = item.0.as_str().as_bytes().len();
        let mut at: usize = out.len();
        proof {
            assert(before.take(at as int) =~= before);
            assert(insert_by_length(before, one) + before.skip(at as int) =~= insert_by_length(before, one));
        }
        while at > 0 && out[at - 1].0.as_str().as_bytes().len() < len
            invariant
                at <= out@.len(),
                before == special_views(out@),
                one == (item.0@, item.1),
                len == byte_len(item.0@),
                insert_by_length(before, one) == insert_by_length(before.take(at as int), one) + before.skip(
                    at as int,
                ),
            decreases at,
        {
            at = at - 1;
            proof {
                let upto = before.take(at + 1);
                assert(upto.last() == before[at as int]);
                assert(upto.drop_last() =~= before.take(at as int));
                let placed = insert_by_length(before.take(at as int), one);
                assert(placed.push(before[at as int]) + before.skip(at + 1) =~= placed + before.skip(at as int));
            }
        }
        out.insert(at, item);
        proof {
            let upto = before.take(at as int);
            assert(at > 0 ==> upto.last() == before[at - 1]);
            assert(insert_by_length(upto, one) =~= upto.push(one));
            assert(special_views(out@) =~= upto.push(one) + before.skip(at as int));
            let next = all.take(it.index() + 1);
            assert(next.drop_last() =~= all.take(it.index() as int));
            assert(next.last() == one);
        }
    }
    assert(all.take(all.len() as int) =~= all);
    out
}

/// Whether the pattern stands in the text at a position.
fn stands_at(text: &[char], pattern: &[char], at: usize) -> (r: bool)
    requires
        at <= text@.len(),
    ensures
        r == occurs_at(text@, pattern@, at as int),
{
    if pattern.len() > text.len() - at {
        return false;
    }
    let mut i: usize = 0;
    while i < pattern.len()
        invariant
            i <= pattern@.len(),
            at + pattern@.len() <= text.len(),
            forall|k: int| 0 <= k < i ==> text@[at + k] == pattern@[k],
        decreases pattern@.len() - i,
    {
        if text[at + i] != pattern[i] {
            assert(text@.subrange(at as int, at + pattern@.len())[i as int] != pattern@[i as int]);
            return false;
        }
        i = i + 1;
    }
    assert(text@.subrange(at as int, at + pattern@.len()) =~= pattern@);
    true
}

/// The added tokens with their characters laid out for searching.
pub open spec fn laid_out(patterns: Seq<Vec<char>>, specials: Seq<(Seq<char>, u32)>) -> bool {
    patterns.len() == specials.len() && forall|k: int|
        0 <= k < patterns.len() ==> (#[trigger] patterns[k])@ == specials[k].0
}

/// Finds the next added token from a position on.
pub(crate) fn find_special(
    patterns: &Vec<Vec<char>>,
    text: &[char],
    from: usize,
    Ghost(specials): Ghost<Seq<(Seq<char>, u32)>>,
) -> (found: Option<(usize, usize)>)
    requires
        laid_out(patterns@, specials),
        from <= text@.len(),
    ensures
        match (found, next_special(specials, text@, from as int)) {
            (Some((p, k)), Some((wp, wk))) => p == wp && k == wk,
            (None, None) => true,
            _ => false,
        },
{
    let mut at: usize = from;
    while at < text.len()
        invariant
            from <= at <= text@.len(),
            laid_out(patterns@, specials),
            next_special(specials, text@, from as int) == next_special(specials, text@, at as int),
        decreases text@.len() - at,
    {
        let mut k: usize = 0;
        while k < patterns.len()
            invariant
                k <= patterns@.len(),
                at < text@.len(),
                laid_out(patterns@, specials),
                next_special(specials, text@, from as int) == next_special(specials, text@, at as int),
                special_at(specials, text@, at as int, 0) == special_at(
                    specials,
                    text@,
                    at as int,
                    k as int,
                ),
            decreases patterns@.len() - k,
        {
            if stands_at(text, patterns[k].as_slice(), at) {
                return Some((at, k));
            }
            k = k + 1;
        }
        at = at + 1;
    }
    None
}

/// Texts of one length keep the order they had.
pub proof fn texts_of_one_length_keep_their_order(list: Seq<(Seq<char>, u32)>, n: nat)
    ensures
        longest_first(list).filter(|t: (Seq<char>, u32)| byte_len(t.0) == n) == list.filter(
            |t: (Seq<char>, u32)| byte_len(t.0) == n,
        ),
    decreases list.len(),
{
    reveal(Seq::filter);
    let keep = |t: (Seq<char>, u32)| byte_len(t.0) == n;
    if list.len() == 0 {
        assert(longest_first(list) =~= list);
    } else {
        let front = list.drop_last();
        texts_of_one_length_keep_their_order(front, n);
        longest_first_is_a_sort(front);
        lemma_insert_filter(longest_first(front), list.last(), n);
    }
}

proof fn lemma_insert_filter(list: Seq<(Seq<char>, u32)>, item: (Seq<char>, u32), n: nat)
    requires
        sorted_by_length(list),
    ensures
        insert_by_length(list, item).filter(|t: (Seq<char>, u32)| byte_len(t.0) == n) == if byte_len(item.0) == n {
            list.filter(|t: (Seq<char>, u32)| byte_len(t.0) == n).push(item)
        } else {
            list.filter(|t: (Seq<char>, u32)| byte_len(t.0) == n)
        },
    decreases list.len(),
{
    reveal(Seq::filter);
    let keep = |t: (Seq<char>, u32)| byte_len(t.0) == n;
    if list.len() == 0 {
        let one = seq![item];
        assert(one.drop_last() =~= list);
        assert(list.filter(keep) =~= Seq::empty());
    } else if byte_len(list.last().0) >= byte_len(item.0) {
        assert(list.push(item).drop_last() =~= list);
    } else {
        let front = list.drop_last();
        let before = insert_by_length(front, item);
        lemma_insert_filter(front, item, n);
        assert(before.push(list.last()).drop_last() =~= before);
        if byte_len(item.0) == n {
            assert(!keep(list.last()));
        }
    }
}

} // verus!
