//! The order of names, and lists that are kept in it.

use vstd::prelude::*;
use vstd::utf8::{encode_utf8, encode_utf8_decode_utf8};

use crate::text::str_eq;

verus! {

/// Whether one byte sequence comes before another, as a dictionary has it.
pub open spec fn bytes_before(a: Seq<u8>, b: Seq<u8>) -> bool
    decreases a.len(),
{
    if b.len() == 0 {
        false
    } else if a.len() == 0 {
        true
    } else if a[0] != b[0] {
        a[0] < b[0]
    } else {
        bytes_before(a.drop_first(), b.drop_first())
    }
}

/// Whether one name comes before another.
pub open spec fn name_before(a: Seq<char>, b: Seq<char>) -> bool {
    bytes_before(encode_utf8(a), encode_utf8(b))
}

/// Compares two names.
pub fn name_precedes(a: &str, b: &str) -> (r: bool)
    ensures
        r == name_before(a@, b@),
{
    let x = a.as_bytes();
    let y = b.as_bytes();
    let mut i: usize = 0;
    assert(x@.skip(0) =~= x@);
    assert(y@.skip(0) =~= y@);
    while i < x.len() && i < y.len() && x[i] == y[i]
        invariant
            i <= x@.len(),
            i <= y@.len(),
            bytes_before(x@, y@) == bytes_before(x@.skip(i as int), y@.skip(i as int)),
        decreases x@.len() - i,
    {
        assert(x@.skip(i as int).drop_first() =~= x@.skip(i + 1));
        assert(y@.skip(i as int).drop_first() =~= y@.skip(i + 1));
        i = i + 1;
    }
    if i >= y.len() {
        false
    } else if i >= x.len() {
        true
    } else {
        x[i] < y[i]
    }
}

/// A list ordered by name with one more member: in its place, or instead of the
/// member of the same name.
pub open spec fn put<V>(list: Seq<(Seq<char>, V)>, key: Seq<char>, value: V) -> Seq<(Seq<char>, V)>
    decreases list.len(),
{
    if list.len() == 0 {
        seq![(key, value)]
    } else if name_before(list[0].0, key) {
        seq![list[0]] + put(list.drop_first(), key, value)
    } else if list[0].0 == key {
        seq![(key, value)] + list.drop_first()
    } else {
        seq![(key, value)] + list
    }
}

/// The names and values of a list.
pub open spec fn named<V>(list: Seq<(String, V)>) -> Seq<(Seq<char>, V)> {
    list.map_values(|m: (String, V)| (m.0@, m.1))
}

/// Puts a member into a list ordered by name.
pub(crate) fn insert_named<V>(list: &mut Vec<(String, V)>, key: String, value: V)
    ensures
        named(final(list)@) == put(named(old(list)@), key@, value),
{
    let ghost all = named(list@);
    let ghost start = list@;
    let mut i: usize = 0;
    assert(all.take(0) + put(all.skip(0), key@, value) =~= put(all, key@, value)) by {
        assert(all.skip(0) =~= all);
    }
    while i < list.len() && name_precedes(list[i].0.as_str(), key.as_str())
        invariant
            i <= list@.len(),
            list@ == start,
            all == named(start),
            put(all, key@, value) == all.take(i as int) + put(all.skip(i as int), key@, value),
        decreases list@.len() - i,
    {
        proof {
            let tail = all.skip(i as int);
            assert(tail[0] == all[i as int]);
            assert(all[i as int].0 == list@[i as int].0@);
            assert(tail.drop_first() =~= all.skip(i + 1));
            assert(all.take(i as int) + (seq![tail[0]] + put(all.skip(i + 1), key@, value)) =~= all.take(
                i + 1,
            ) + put(all.skip(i + 1), key@, value));
        }
        i = i + 1;
    }
    let ghost name = key@;
    let ghost tail = all.skip(i as int);
    if i < list.len() {
        assert(tail[0] == all[i as int]);
        assert(all[i as int].0 == list@[i as int].0@);
        if str_eq(list[i].0.as_str(), key.as_str()) {
            list[i] = (key, value);
            assert(named(list@) =~= all.take(i as int) + (seq![(name, value)] + tail.drop_first()));
            return;
        }
    }
    list.insert(i, (key, value));
    assert(named(list@) =~= all.take(i as int) + (seq![(name, value)] + tail));
    assert(tail.len() == 0 ==> seq![(name, value)] + tail =~= seq![(name, value)]);
}

/// Changing the values of a list before or after putting one in is the same.
pub(crate) proof fn lemma_put_values<V, W>(
    list: Seq<(Seq<char>, V)>,
    key: Seq<char>,
    value: V,
    f: spec_fn(V) -> W,
)
    ensures
        put(list, key, value).map_values(|m: (Seq<char>, V)| (m.0, f(m.1))) == put(
            list.map_values(|m: (Seq<char>, V)| (m.0, f(m.1))),
            key,
            f(value),
        ),
    decreases list.len(),
{
    let g = |m: (Seq<char>, V)| (m.0, f(m.1));
    let said = list.map_values(g);
    if list.len() > 0 {
        assert(said[0].0 == list[0].0);
        assert(said.drop_first() =~= list.drop_first().map_values(g));
        if name_before(list[0].0, key) {
            lemma_put_values(list.drop_first(), key, value, f);
            assert(put(list, key, value).map_values(g) =~= seq![said[0]] + put(
                list.drop_first(),
                key,
                value,
            ).map_values(g));
        } else if list[0].0 == key {
            assert(put(list, key, value).map_values(g) =~= seq![(key, f(value))] + said.drop_first());
        } else {
            assert(put(list, key, value).map_values(g) =~= seq![(key, f(value))] + said);
        }
    } else {
        assert(put(list, key, value).map_values(g) =~= seq![(key, f(value))]);
    }
}

pub(crate) proof fn lemma_not_before(a: Seq<u8>, b: Seq<u8>, c: Seq<u8>)
    requires
        !bytes_before(b, a),
        !bytes_before(c, b),
    ensures
        !bytes_before(c, a),
    decreases a.len(),
{
    if a.len() > 0 && b.len() > 0 && c.len() > 0 && a[0] == b[0] && b[0] == c[0] {
        lemma_not_before(a.drop_first(), b.drop_first(), c.drop_first());
    }
}

pub(crate) proof fn lemma_before_once(a: Seq<u8>, b: Seq<u8>)
    requires
        bytes_before(a, b),
    ensures
        !bytes_before(b, a),
    decreases a.len(),
{
    if a.len() > 0 && b.len() > 0 && a[0] == b[0] {
        lemma_before_once(a.drop_first(), b.drop_first());
    }
}

proof fn lemma_before_through(a: Seq<u8>, b: Seq<u8>, c: Seq<u8>)
    requires
        bytes_before(a, b),
        bytes_before(b, c),
    ensures
        bytes_before(a, c),
    decreases a.len(),
{
    if a.len() > 0 && a[0] == b[0] && b[0] == c[0] {
        lemma_before_through(a.drop_first(), b.drop_first(), c.drop_first());
    }
}

proof fn lemma_before_or_after(a: Seq<u8>, b: Seq<u8>)
    ensures
        a == b || bytes_before(a, b) || bytes_before(b, a),
    decreases a.len(),
{
    if a.len() > 0 && b.len() > 0 && a[0] == b[0] {
        lemma_before_or_after(a.drop_first(), b.drop_first());
        if a.drop_first() == b.drop_first() {
            assert(a =~= seq![a[0]] + a.drop_first());
            assert(b =~= seq![b[0]] + b.drop_first());
        }
    } else if a.len() == 0 && b.len() == 0 {
        assert(a =~= b);
    }
}

/// The order of names is total: of two names that differ, exactly one comes
/// before the other; and what comes before a name comes before what it precedes.
pub proof fn names_are_ordered(a: Seq<char>, b: Seq<char>, c: Seq<char>)
    ensures
        !name_before(a, a),
        a != b ==> name_before(a, b) || name_before(b, a),
        !(name_before(a, b) && name_before(b, a)),
        name_before(a, b) && name_before(b, c) ==> name_before(a, c),
{
    let (x, y, z) = (encode_utf8(a), encode_utf8(b), encode_utf8(c));
    if bytes_before(x, x) {
        lemma_before_once(x, x);
    }
    if bytes_before(x, y) {
        lemma_before_once(x, y);
        if bytes_before(y, z) {
            lemma_before_through(x, y, z);
        }
    }
    lemma_before_or_after(x, y);
    encode_utf8_decode_utf8(a);
    encode_utf8_decode_utf8(b);
}

// ------------------------------------------------------------------- ordering

/// Whether the names of a list ascend, so that none of them stands there twice.
pub open spec fn ascending<V>(list: Seq<(Seq<char>, V)>) -> bool {
    forall|i: int, j: int|
        #![trigger list[i], list[j]]
        0 <= i < j < list.len() ==> name_before(list[i].0, list[j].0)
}

/// Whether names ascend, so that none of them stands there twice.
pub open spec fn names_ascend(names: Seq<String>) -> bool {
    forall|i: int, j: int|
        #![trigger names[i], names[j]]
        0 <= i < j < names.len() ==> name_before(names[i]@, names[j]@)
}

/// The members of a list in the order of their names. Of several of one name the
/// last counts.
pub open spec fn ordered<V>(list: Seq<(Seq<char>, V)>) -> Seq<(Seq<char>, V)>
    decreases list.len(),
{
    if list.len() == 0 {
        seq![]
    } else {
        put(ordered(list.drop_last()), list.last().0, list.last().1)
    }
}

/// What a list holds once a member was put into it: that member, and those of
/// other names.
proof fn lemma_put<V>(list: Seq<(Seq<char>, V)>, key: Seq<char>, value: V)
    requires
        ascending(list),
    ensures
        ascending(put(list, key, value)),
        forall|m: (Seq<char>, V)| #[trigger]
            put(list, key, value).contains(m) <==> m == (key, value) || (m.0 != key && list.contains(
                m,
            )),
    decreases list.len(),
{
    let out = put(list, key, value);
    let one = (key, value);
    if list.len() == 0 {
        assert(out[0] == one);
    } else {
        let head = list[0];
        let tail = list.drop_first();
        assert(list =~= seq![head] + tail);
        assert(ascending(tail)) by {
            assert forall|i: int, j: int|
                #![trigger tail[i], tail[j]]
                0 <= i < j < tail.len() implies name_before(tail[i].0, tail[j].0) by {
                assert(tail[i] == list[i + 1] && tail[j] == list[j + 1]);
            }
        }
        assert forall|k: int| 0 <= k < tail.len() implies name_before(
            head.0,
            (#[trigger] tail[k]).0,
        ) by {
            assert(tail[k] == list[k + 1]);
        }
        assert forall|m: (Seq<char>, V)| #[trigger] list.contains(m) <==> m == head
            || tail.contains(m) by {
            if tail.contains(m) {
                let k = choose|k: int| 0 <= k < tail.len() && tail[k] == m;
                assert(list[k + 1] == m);
            }
            if list.contains(m) && m != head {
                let k = choose|k: int| 0 <= k < list.len() && list[k] == m;
                assert(tail[k - 1] == m);
            }
            assert(list[0] == head);
        }
        names_are_ordered(head.0, key, key);
        names_are_ordered(key, head.0, key);
        let rest = if name_before(head.0, key) {
            put(tail, key, value)
        } else if head.0 == key {
            tail
        } else {
            list
        };
        let first = if name_before(head.0, key) {
            head
        } else {
            one
        };
        assert(out =~= seq![first] + rest);
        if name_before(head.0, key) {
            lemma_put(tail, key, value);
        }
        assert forall|k: int| 0 <= k < rest.len() implies name_before(
            first.0,
            (#[trigger] rest[k]).0,
        ) by {
            if name_before(head.0, key) {
                assert(rest.contains(rest[k]));
                if rest[k] != one {
                    let m = choose|m: int| 0 <= m < tail.len() && tail[m] == rest[k];
                    assert(name_before(head.0, tail[m].0));
                }
            } else if head.0 != key {
                if k > 0 {
                    assert(rest[k] == tail[k - 1]);
                    names_are_ordered(key, head.0, rest[k].0);
                }
            }
        }
        assert forall|i: int, j: int|
            #![trigger out[i], out[j]]
            0 <= i < j < out.len() implies name_before(out[i].0, out[j].0) by {
            assert(out[j] == rest[j - 1]);
            if i > 0 {
                assert(out[i] == rest[i - 1]);
            }
        }
        assert forall|m: (Seq<char>, V)| #[trigger] out.contains(m) <==> m == first
            || rest.contains(m) by {
            if rest.contains(m) {
                let k = choose|k: int| 0 <= k < rest.len() && rest[k] == m;
                assert(out[k + 1] == m);
            }
            if out.contains(m) && m != first {
                let k = choose|k: int| 0 <= k < out.len() && out[k] == m;
                assert(rest[k - 1] == m);
            }
            assert(out[0] == first);
        }
        assert forall|m: (Seq<char>, V)| #[trigger] out.contains(m) <==> m == one || (m.0 != key
            && list.contains(m)) by {
            if tail.contains(m) {
                let k = choose|k: int| 0 <= k < tail.len() && tail[k] == m;
                assert(name_before(head.0, tail[k].0));
                names_are_ordered(key, head.0, m.0);
                names_are_ordered(head.0, m.0, key);
            }
        }
    }
}

/// Ordering a list makes its names ascend. What comes out was there before, and
/// the last member of each name is kept.
pub proof fn ordering_keeps_the_last_of_each_name<V>(list: Seq<(Seq<char>, V)>)
    ensures
        ascending(ordered(list)),
        forall|m: (Seq<char>, V)| #[trigger] ordered(list).contains(m) ==> list.contains(m),
        forall|k: int|
            0 <= k < list.len() && (forall|j: int| k < j < list.len() ==> list[j].0 != list[k].0)
                ==> ordered(list).contains(#[trigger] list[k]),
    decreases list.len(),
{
    if list.len() > 0 {
        let front = list.drop_last();
        let last = list.last();
        ordering_keeps_the_last_of_each_name(front);
        lemma_put(ordered(front), last.0, last.1);
        assert forall|m: (Seq<char>, V)| #[trigger] ordered(list).contains(m) implies list.contains(
            m,
        ) by {
            if m == (last.0, last.1) {
                assert(list[list.len() - 1] == m);
            } else {
                let k = choose|k: int| 0 <= k < front.len() && front[k] == m;
                assert(list[k] == m);
            }
        }
        assert forall|k: int|
            0 <= k < list.len() && (forall|j: int| k < j < list.len() ==> list[j].0 != list[k].0)
            implies ordered(list).contains(#[trigger] list[k]) by {
            if k < front.len() {
                assert(front[k] == list[k]);
                assert(list[list.len() - 1].0 != list[k].0);
                assert forall|j: int| k < j < front.len() implies front[j].0 != front[k].0 by {
                    assert(front[j] == list[j]);
                }
            }
        }
    }
}

/// Ordering leaves a list as it is whose names ascend.
pub proof fn ordering_keeps_an_order<V>(list: Seq<(Seq<char>, V)>)
    requires
        ascending(list),
    ensures
        ordered(list) == list,
    decreases list.len(),
{
    if list.len() > 0 {
        let front = list.drop_last();
        assert forall|i: int, j: int|
            #![trigger front[i], front[j]]
            0 <= i < j < front.len() implies name_before(front[i].0, front[j].0) by {
            assert(front[i] == list[i] && front[j] == list[j]);
        }
        ordering_keeps_an_order(front);
        assert forall|k: int| 0 <= k < front.len() implies name_before(
            (#[trigger] front[k]).0,
            list.last().0,
        ) by {
            assert(name_before(list[k].0, list[list.len() - 1].0));
        }
        lemma_put_last(front, list.last().0, list.last().1);
        assert(front.push((list.last().0, list.last().1)) =~= list);
    } else {
        assert(ordered(list) =~= list);
    }
}

proof fn lemma_put_last<V>(list: Seq<(Seq<char>, V)>, key: Seq<char>, value: V)
    requires
        forall|k: int| 0 <= k < list.len() ==> name_before((#[trigger] list[k]).0, key),
    ensures
        put(list, key, value) == list.push((key, value)),
    decreases list.len(),
{
    if list.len() > 0 {
        let tail = list.drop_first();
        assert forall|k: int| 0 <= k < tail.len() implies name_before((#[trigger] tail[k]).0, key) by {
            assert(tail[k] == list[k + 1]);
        }
        lemma_put_last(tail, key, value);
        assert(seq![list[0]] + tail.push((key, value)) =~= list.push((key, value)));
    } else {
        assert(seq![(key, value)] =~= list.push((key, value)));
    }
}

/// Two lists whose names ascend are the same when they have the same members: an
/// ordered list depends on what it holds alone.
pub proof fn an_ordered_list_is_its_members<V>(a: Seq<(Seq<char>, V)>, b: Seq<(Seq<char>, V)>)
    requires
        ascending(a),
        ascending(b),
        forall|m: (Seq<char>, V)| #[trigger] a.contains(m) <==> b.contains(m),
    ensures
        a == b,
    decreases a.len(),
{
    if a.len() == 0 || b.len() == 0 {
        if a.len() > 0 {
            assert(a.contains(a[0]));
        }
        if b.len() > 0 {
            assert(b.contains(b[0]));
            assert(a.contains(b[0]));
        }
        assert(a =~= b);
    } else {
        assert(a.contains(a[0]) && a.contains(b[0])) by {
            assert(b.contains(b[0]));
        }
        let j = choose|j: int| 0 <= j < b.len() && b[j] == a[0];
        let i = choose|i: int| 0 <= i < a.len() && a[i] == b[0];
        names_are_ordered(a[0].0, b[0].0, a[0].0);
        assert(a[0] == b[0]);
        let (x, y) = (a.drop_first(), b.drop_first());
        lemma_rest(a);
        lemma_rest(b);
        assert forall|m: (Seq<char>, V)| #[trigger] x.contains(m) <==> y.contains(m) by {
            assert(a.contains(m) <==> b.contains(m));
        }
        an_ordered_list_is_its_members(x, y);
        assert(a =~= seq![a[0]] + x);
        assert(b =~= seq![b[0]] + y);
    }
}

/// Whether no name stands in a list twice.
pub open spec fn distinct<V>(list: Seq<(Seq<char>, V)>) -> bool {
    forall|i: int, j: int|
        #![trigger list[i], list[j]]
        0 <= i < j < list.len() ==> list[i].0 != list[j].0
}

/// In what order members of different names are given does not matter: the same
/// members come out in the same order.
pub proof fn ordering_forgets_the_order_given<V>(
    a: Seq<(Seq<char>, V)>,
    b: Seq<(Seq<char>, V)>,
)
    requires
        distinct(a),
        distinct(b),
        forall|m: (Seq<char>, V)| #[trigger] a.contains(m) <==> b.contains(m),
    ensures
        ordered(a) == ordered(b),
{
    lemma_ordered_members(a);
    lemma_ordered_members(b);
    assert forall|m: (Seq<char>, V)| #[trigger] ordered(a).contains(m) <==> ordered(b).contains(m) by {
        assert(a.contains(m) <==> b.contains(m));
    }
    an_ordered_list_is_its_members(ordered(a), ordered(b));
}

proof fn lemma_ordered_members<V>(list: Seq<(Seq<char>, V)>)
    requires
        distinct(list),
    ensures
        ascending(ordered(list)),
        forall|m: (Seq<char>, V)| #[trigger] ordered(list).contains(m) <==> list.contains(m),
{
    ordering_keeps_the_last_of_each_name(list);
    assert forall|m: (Seq<char>, V)| list.contains(m) implies #[trigger] ordered(list).contains(m) by {
        let k = choose|k: int| 0 <= k < list.len() && list[k] == m;
        assert(ordered(list).contains(list[k]));
    }
}

/// What an ordered list holds without its first member.
proof fn lemma_rest<V>(list: Seq<(Seq<char>, V)>)
    requires
        ascending(list),
        list.len() > 0,
    ensures
        ascending(list.drop_first()),
        forall|m: (Seq<char>, V)| #[trigger]
            list.drop_first().contains(m) <==> list.contains(m) && m != list[0],
{
    let tail = list.drop_first();
    assert forall|i: int, j: int|
        #![trigger tail[i], tail[j]]
        0 <= i < j < tail.len() implies name_before(tail[i].0, tail[j].0) by {
        assert(tail[i] == list[i + 1] && tail[j] == list[j + 1]);
    }
    assert forall|m: (Seq<char>, V)| #[trigger] tail.contains(m) <==> list.contains(m) && m
        != list[0] by {
        if tail.contains(m) {
            let k = choose|k: int| 0 <= k < tail.len() && tail[k] == m;
            assert(list[k + 1] == m);
            names_are_ordered(list[0].0, list[0].0, m.0);
        }
        if list.contains(m) && m != list[0] {
            let k = choose|k: int| 0 <= k < list.len() && list[k] == m;
            assert(tail[k - 1] == m);
        }
    }
}

/// Names stand in the order of their bytes, as a dictionary has it: the first byte
/// in which two names differ decides, the lower first, and a name stands before
/// those it begins.
pub proof fn names_stand_as_in_a_dictionary(a: Seq<char>, b: Seq<char>, i: int)
    requires
        ({
            let x = encode_utf8(a);
            let y = encode_utf8(b);
            &&& 0 <= i <= x.len() && i < y.len()
            &&& x.take(i) == y.take(i)
            &&& i < x.len() ==> x[i] != y[i]
        }),
    ensures
        name_before(a, b) <==> i == encode_utf8(a).len() || encode_utf8(a)[i] < encode_utf8(b)[i],
{
    lemma_decided_at(encode_utf8(a), encode_utf8(b), i);
}

proof fn lemma_decided_at(x: Seq<u8>, y: Seq<u8>, i: int)
    requires
        0 <= i <= x.len(),
        i < y.len(),
        x.take(i) == y.take(i),
        i < x.len() ==> x[i] != y[i],
    ensures
        bytes_before(x, y) <==> i == x.len() || x[i] < y[i],
    decreases i,
{
    if i > 0 {
        assert(x[0] == x.take(i)[0] && y[0] == y.take(i)[0]);
        let v = x.drop_first();
        let w = y.drop_first();
        assert(v.take(i - 1) =~= x.take(i).drop_first());
        assert(w.take(i - 1) =~= y.take(i).drop_first());
        lemma_decided_at(v, w, i - 1);
        assert(bytes_before(x, y) == bytes_before(v, w));
        assert(w[i - 1] == y[i]);
        if i < x.len() {
            assert(v[i - 1] == x[i]);
        }
    }
}

} // verus!
