//! Byte-pair merging by rank, and the ids of what it leaves.

use std::collections::HashMap;

use vstd::hash_map::StringHashMap;
use vstd::prelude::*;
use vstd::seq_lib::lemma_flatten_concat;

verus! {

/// A pair of adjacent parts, by its two texts.
pub type Pair = (Seq<char>, Seq<char>);

/// The ranks of the pairs that merge.
///
/// Every text that occurs in a pair gets a number; row `a` holds the ranks of
/// the pairs whose left text has number `a`, by the number of the right one.
pub struct MergeTable {
    names: StringHashMap<usize>,
    rows: Vec<HashMap<usize, u32>>,
}

impl MergeTable {
    /// Whether a pair has a rank.
    spec fn has(&self, p: Pair) -> bool {
        self.names@.contains_key(p.0) && self.names@.contains_key(p.1)
            && self.rows@[self.names@[p.0] as int]@.contains_key(self.names@[p.1])
    }

    /// The rank of each pair that merges.
    pub closed spec fn view(&self) -> Map<Pair, u32> {
        Map::new(
            |p: Pair| self.has(p),
            |p: Pair| self.rows@[self.names@[p.0] as int]@[self.names@[p.1]],
        )
    }

    /// Every text has a number of its own and a row, and rows hold only numbers
    /// that have been given out.
    pub closed spec fn wf(&self) -> bool {
        &&& forall|s: Seq<char>| #[trigger]
            self.names@.contains_key(s) ==> self.names@[s] < self.rows@.len()
        &&& forall|s: Seq<char>, t: Seq<char>|
            #![trigger self.names@.contains_key(s), self.names@.contains_key(t)]
            self.names@.contains_key(s) && self.names@.contains_key(t) && self.names@[s]
                == self.names@[t] ==> s == t
        &&& forall|a: int, b: usize|
            0 <= a < self.rows@.len() && #[trigger] self.rows@[a]@.contains_key(b) ==> b
                < self.rows@.len()
    }

    /// A table in which nothing merges.
    pub fn new() -> (t: MergeTable)
        ensures
            t.wf(),
            t@ == Map::<Pair, u32>::empty(),
    {
        let t = MergeTable { names: StringHashMap::new(), rows: Vec::new() };
        assert(t@ =~= Map::<Pair, u32>::empty());
        t
    }

    /// The number of a text, given out if it has none yet.
    fn number(&mut self, text: &String) -> (n: usize)
        requires
            old(self).wf(),
        ensures
            final(self).wf(),
            final(self)@ == old(self)@,
            final(self).names@.contains_key(text@),
            final(self).names@[text@] == n,
            forall|s: Seq<char>| #[trigger]
                old(self).names@.contains_key(s) ==> final(self).names@.contains_key(s)
                    && final(self).names@[s] == old(self).names@[s],
    {
        broadcast use vstd::std_specs::hash::group_hash_axioms;

        match self.names.get(text.as_str()) {
            Some(n) => *n,
            None => {
                let n: usize = self.rows.len();
                self.names.insert(text.clone(), n);
                self.rows.push(HashMap::new());
                proof {
                    let before = old(self).names@;
                    let after = self.names@;
                    assert(after == before.insert(text@, n));
                    assert forall|p: Pair| #[trigger] self@.contains_key(p) == old(self)@.contains_key(p) by {
                        if self.has(p) {
                            assert(p.0 != text@);
                            assert(before.contains_key(p.0));
                            assert(self.rows@[after[p.0] as int] == old(self).rows@[before[p.0] as int]);
                            assert(p.1 != text@);
                        }
                        if old(self).has(p) {
                            assert(before.contains_key(p.0) && before.contains_key(p.1));
                            assert(after.contains_key(p.0) && after.contains_key(p.1));
                            assert(self.rows@[after[p.0] as int] == old(self).rows@[before[p.0] as int]);
                        }
                    }
                    assert forall|p: Pair| #[trigger] self@.contains_key(p) implies self@[p] == old(self)@[p] by {
                        assert(old(self)@.contains_key(p));
                        assert(before.contains_key(p.0) && before.contains_key(p.1));
                    }
                    assert(self@ =~= old(self)@);
                }
                n
            },
        }
    }

    /// Gives a pair a rank, in place of the one it had.
    pub fn insert(&mut self, left: &String, right: &String, rank: u32)
        requires
            old(self).wf(),
        ensures
            final(self).wf(),
            final(self)@ == old(self)@.insert((left@, right@), rank),
    {
        broadcast use vstd::std_specs::hash::group_hash_axioms;

        let a: usize = self.number(left);
        let b: usize = self.number(right);
        assert(self.names@.contains_key(left@) && self.names@.contains_key(right@));
        let ghost mid = *self;
        self.rows[a].insert(b, rank);
        proof {
            let want = old(self)@.insert((left@, right@), rank);
            assert forall|p: Pair| #[trigger] self@.contains_key(p) == want.contains_key(p) by {
                if mid.names@.contains_key(p.0) && mid.names@.contains_key(p.1) {
                    assert(self.has(p) == (mid.has(p) || p == (left@, right@)));
                }
                assert(mid@.contains_key(p) == mid.has(p));
            }
            assert forall|p: Pair| #[trigger] self@.contains_key(p) implies self@[p] == want[p] by {
                assert(mid.names@.contains_key(p.0) && mid.names@.contains_key(p.1));
                if p != (left@, right@) {
                    assert(mid@.contains_key(p));
                    assert(mid@[p] == self@[p]);
                }
            }
            assert(self@ =~= want);
        }
    }

    /// The rank of a pair, if it merges.
    pub fn get(&self, left: &str, right: &str) -> (rank: Option<u32>)
        requires
            self.wf(),
        ensures
            rank matches Some(r) ==> self@.contains_key((left@, right@)) && self@[(left@, right@)] == r,
            rank is None ==> !self@.contains_key((left@, right@)),
    {
        broadcast use vstd::std_specs::hash::group_hash_axioms;

        match (self.names.get(left), self.names.get(right)) {
            (Some(a), Some(b)) => match self.rows[*a].get(b) {
                Some(r) => Some(*r),
                None => None,
            },
            _ => None,
        }
    }
}

/// Whether the pair that starts at part `i` merges.
pub open spec fn ranked(ranks: Map<Pair, u32>, parts: Seq<Seq<char>>, i: int) -> bool {
    0 <= i && i + 1 < parts.len() && ranks.contains_key((parts[i], parts[i + 1]))
}

/// The rank of the pair that starts at part `i`.
pub open spec fn rank_at(ranks: Map<Pair, u32>, parts: Seq<Seq<char>>, i: int) -> u32 {
    ranks[(parts[i], parts[i + 1])]
}

/// Whether the pair at `i` is the one to merge: no pair has a lower rank, and of
/// those that share its rank it is the leftmost.
pub open spec fn is_best(ranks: Map<Pair, u32>, parts: Seq<Seq<char>>, i: int) -> bool {
    &&& ranked(ranks, parts, i)
    &&& forall|j: int| #[trigger]
        ranked(ranks, parts, j) ==> rank_at(ranks, parts, i) < rank_at(ranks, parts, j) || (rank_at(
            ranks,
            parts,
            i,
        ) == rank_at(ranks, parts, j) && i <= j)
}

/// The pair to merge, if any does.
pub open spec fn best_pair(ranks: Map<Pair, u32>, parts: Seq<Seq<char>>) -> Option<int> {
    if exists|i: int| is_best(ranks, parts, i) {
        Some(choose|i: int| is_best(ranks, parts, i))
    } else {
        None
    }
}

/// The parts with the pair at `i` made one.
pub open spec fn merged_at(parts: Seq<Seq<char>>, i: int) -> Seq<Seq<char>> {
    parts.take(i) + seq![parts[i] + parts[i + 1]] + parts.skip(i + 2)
}

/// What is left when merging goes on until no pair merges.
pub open spec fn merge_all(ranks: Map<Pair, u32>, parts: Seq<Seq<char>>) -> Seq<Seq<char>>
    decreases parts.len(),
{
    match best_pair(ranks, parts) {
        Some(i) => if 0 <= i && i + 1 < parts.len() {
            merge_all(ranks, merged_at(parts, i))
        } else {
            parts
        },
        None => parts,
    }
}

/// The parts merging starts from: one for each character.
pub open spec fn singles(word: Seq<char>) -> Seq<Seq<char>> {
    word.map_values(|c: char| seq![c])
}

/// The ids of the characters of a text, those without one left out.
pub open spec fn char_ids(vocab: Map<Seq<char>, u32>, text: Seq<char>) -> Seq<u32>
    decreases text.len(),
{
    if text.len() == 0 {
        seq![]
    } else if vocab.contains_key(seq![text.last()]) {
        char_ids(vocab, text.drop_last()).push(vocab[seq![text.last()]])
    } else {
        char_ids(vocab, text.drop_last())
    }
}

/// The ids of one part: its own, or else those of its characters.
pub open spec fn part_ids(vocab: Map<Seq<char>, u32>, part: Seq<char>) -> Seq<u32> {
    if vocab.contains_key(part) {
        seq![vocab[part]]
    } else {
        char_ids(vocab, part)
    }
}

/// The ids of a list of parts.
pub open spec fn ids_of(vocab: Map<Seq<char>, u32>, parts: Seq<Seq<char>>) -> Seq<u32>
    decreases parts.len(),
{
    if parts.len() == 0 {
        seq![]
    } else {
        ids_of(vocab, parts.drop_last()) + part_ids(vocab, parts.last())
    }
}

/// The texts of a list of strings.
pub open spec fn texts(parts: Seq<String>) -> Seq<Seq<char>> {
    parts.map_values(|p: String| p@)
}

/// Finds the pair to merge.
fn find_best(table: &MergeTable, parts: &Vec<String>) -> (best: Option<usize>)
    requires
        table.wf(),
    ensures
        best matches Some(i) ==> is_best(table@, texts(parts@), i as int),
        best is None ==> forall|i: int| !ranked(table@, texts(parts@), i),
{
    let ghost ps = texts(parts@);
    let mut best: Option<(usize, u32)> = None;
    let mut i: usize = 0;
    while parts.len() > 1 && i < parts.len() - 1
        invariant
            table.wf(),
            ps == texts(parts@),
            i <= parts@.len(),
            best is None ==> forall|j: int| j < i ==> !ranked(table@, ps, j),
            best matches Some((k, r)) ==> {
                &&& k < i
                &&& ranked(table@, ps, k as int)
                &&& r == rank_at(table@, ps, k as int)
                &&& forall|j: int|
                    j < i && #[trigger] ranked(table@, ps, j) ==> r < rank_at(table@, ps, j) || (r
                        == rank_at(table@, ps, j) && k <= j)
            },
        decreases parts@.len() - i,
    {
        assert(ps[i as int] == parts@[i as int]@ && ps[i + 1] == parts@[i + 1]@);
        if let Some(r) = table.get(parts[i].as_str(), parts[i + 1].as_str()) {
            let better = match best {
                Some((_, low)) => r < low,
                None => true,
            };
            if better {
                best = Some((i, r));
            }
        }
        i = i + 1;
    }
    match best {
        Some((k, _)) => Some(k),
        None => None,
    }
}

/// Merges the parts of a word until no pair merges.
pub fn merge(table: &MergeTable, word: &[char]) -> (parts: Vec<String>)
    requires
        table.wf(),
    ensures
        texts(parts@) == merge_all(table@, singles(word@)),
{
    let mut parts: Vec<String> = Vec::new();
    let mut n: usize = 0;
    while n < word.len()
        invariant
            n <= word@.len(),
            parts@.len() == n,
            forall|k: int| 0 <= k < n ==> (#[trigger] parts@[k])@ == seq![word@[k]],
        decreases word@.len() - n,
    {
        let mut s = String::new();
        s.push(word[n]);
        assert(s@ =~= seq![word@[n as int]]);
        parts.push(s);
        n = n + 1;
    }
    assert(texts(parts@) =~= singles(word@));
    loop
        invariant
            table.wf(),
            merge_all(table@, texts(parts@)) == merge_all(table@, singles(word@)),
        ensures
            texts(parts@) == merge_all(table@, singles(word@)),
        decreases parts@.len(),
    {
        let ghost ps = texts(parts@);
        match find_best(table, &parts) {
            None => {
                assert(best_pair(table@, ps) is None);
                break ;
            },
            Some(i) => {
                proof {
                    let c = choose|k: int| is_best(table@, ps, k);
                    assert(is_best(table@, ps, c));
                    assert(ranked(table@, ps, c) && ranked(table@, ps, i as int));
                    assert(c == i);
                    assert(i + 1 < parts.len());
                }
                let mut joined = parts[i].clone();
                joined.append(parts[i + 1].as_str());
                let ghost pair = ps[i as int] + ps[i + 1];
                assert(joined@ =~= pair);
                let dropped = parts.remove(i + 1);
                parts[i] = joined;
                assert(texts(parts@) =~= merged_at(ps, i as int));
            },
        }
    }
    parts
}

/// Appends the ids of one part.
fn push_part(vocab: &StringHashMap<u32>, part: &String, out: &mut Vec<u32>)
    ensures
        final(out)@ == old(out)@ + part_ids(vocab@, part@),
{
    match vocab.get(part.as_str()) {
        Some(id) => {
            out.push(*id);
            assert(out@ =~= old(out)@ + seq![*id]);
        },
        None => {
            let chars = crate::text::chars_of(part.as_str());
            let mut i: usize = 0;
            assert(char_ids(vocab@, part@.take(0)) =~= seq![]);
            while i < chars.len()
                invariant
                    i <= chars@.len(),
                    chars@ == part@,
                    out@ == old(out)@ + char_ids(vocab@, part@.take(i as int)),
                decreases chars@.len() - i,
            {
                let mut one = String::new();
                one.push(chars[i]);
                assert(one@ =~= seq![part@[i as int]]);
                let ghost next = part@.take(i + 1);
                assert(next.drop_last() =~= part@.take(i as int));
                if let Some(id) = vocab.get(one.as_str()) {
                    out.push(*id);
                }
                i = i + 1;
                assert(out@ =~= old(out)@ + char_ids(vocab@, next));
            }
            assert(part@.take(i as int) =~= part@);
        },
    }
}

/// Appends the ids of a list of parts.
pub fn push_ids(vocab: &StringHashMap<u32>, parts: &Vec<String>, out: &mut Vec<u32>)
    ensures
        final(out)@ == old(out)@ + ids_of(vocab@, texts(parts@)),
{
    let ghost ps = texts(parts@);
    let mut i: usize = 0;
    assert(ids_of(vocab@, ps.take(0)) =~= seq![]);
    while i < parts.len()
        invariant
            i <= parts@.len(),
            ps == texts(parts@),
            out@ == old(out)@ + ids_of(vocab@, ps.take(i as int)),
        decreases parts@.len() - i,
    {
        let ghost next = ps.take(i + 1);
        assert(next.drop_last() =~= ps.take(i as int));
        push_part(vocab, &parts[i], out);
        i = i + 1;
        assert(out@ =~= old(out)@ + ids_of(vocab@, next));
    }
    assert(ps.take(i as int) =~= ps);
}

/// Merging keeps the text: the parts put end to end are the word.
pub proof fn merging_keeps_text(ranks: Map<Pair, u32>, parts: Seq<Seq<char>>)
    ensures
        merge_all(ranks, parts).flatten() == parts.flatten(),
    decreases parts.len(),
{
    if let Some(i) = best_pair(ranks, parts) {
        if 0 <= i && i + 1 < parts.len() {
            merging_keeps_text(ranks, merged_at(parts, i));
            let a = parts.take(i);
            let m = seq![parts[i] + parts[i + 1]];
            let z = parts.skip(i + 2);
            lemma_flatten_concat(a, m + z);
            lemma_flatten_concat(m, z);
            assert(a + (m + z) =~= merged_at(parts, i));
            let p = seq![parts[i], parts[i + 1]];
            lemma_flatten_concat(a, p + z);
            lemma_flatten_concat(p, z);
            assert(a + (p + z) =~= parts);
            lemma_flatten_one(parts[i] + parts[i + 1]);
            let p0 = seq![parts[i]];
            let p1 = seq![parts[i + 1]];
            lemma_flatten_concat(p0, p1);
            assert(p0 + p1 =~= p);
            lemma_flatten_one(parts[i]);
            lemma_flatten_one(parts[i + 1]);
        }
    }
}

proof fn lemma_flatten_one(s: Seq<char>)
    ensures
        seq![s].flatten() == s,
{
    seq![s].lemma_flatten_one_element();
}

/// The single characters of a word put end to end are the word.
pub proof fn singles_keep_text(word: Seq<char>)
    ensures
        singles(word).flatten() == word,
    decreases word.len(),
{
    if word.len() == 0 {
        assert(singles(word) =~= seq![]);
        assert(word =~= seq![]);
    } else {
        let front = word.drop_last();
        singles_keep_text(front);
        let last = seq![seq![word.last()]];
        assert(singles(word) =~= singles(front) + last);
        lemma_flatten_concat(singles(front), last);
        lemma_flatten_one(seq![word.last()]);
        assert(front + seq![word.last()] =~= word);
    }
}

} // verus!
