//! The Counter: folds a word list into a table from word to occurrence
//! count.
//!
//! Words are byte strings and are compared by exact byte equality. The
//! mathematical model is [`word_counts`]: the finite map that sends each
//! word of the list to the number of times it occurs. The table itself is a
//! `hashbrown::HashMap` behind a small trusted boundary; everything done
//! with it is verified against the contracts of that boundary.

use vstd::prelude::*;

verus! {

/// A table from word to occurrence count, backed by `hashbrown::HashMap`
/// with byte-string keys. Its abstract contents are [`table_counts`].
#[verifier::external_body]
pub struct CountTable {
    table: hashbrown::HashMap<Vec<u8>, u64>,
}

/// The abstract contents of a [`CountTable`]: the map from each key held in
/// the table to its count. The trusted methods of [`CountTable`] state how
/// each call moves these contents.
pub uninterp spec fn table_counts(t: CountTable) -> Map<Seq<u8>, nat>;

/// The contents of a table with nothing in it.
pub open spec fn empty_counts() -> Map<Seq<u8>, nat> {
    Map::empty()
}

impl CountTable {
    /// Relies on `hashbrown::HashMap::new`: the new table is empty.
    #[verifier::external_body]
    pub fn new() -> (t: CountTable)
        ensures
            table_counts(t) == empty_counts(),
    {
        CountTable { table: hashbrown::HashMap::new() }
    }

    /// Relies on `hashbrown::HashMap::get`: returns the value stored under
    /// the key, or nothing where the key is absent; `Vec<u8>` keys are
    /// compared by byte equality.
    #[verifier::external_body]
    pub fn get(&self, w: &Vec<u8>) -> (r: Option<u64>)
        ensures
            match r {
                Some(c) => table_counts(*self).dom().contains(w@) && c as nat == table_counts(
                    *self,
                )[w@],
                None => !table_counts(*self).dom().contains(w@),
            },
    {
        self.table.get(w).copied()
    }

    /// Relies on `hashbrown::HashMap::insert`: stores the value under the
    /// key, replacing any value stored there before and leaving every other
    /// key unchanged.
    #[verifier::external_body]
    pub fn set(&mut self, w: &Vec<u8>, c: u64)
        ensures
            table_counts(*final(self)) == table_counts(*old(self)).insert(w@, c as nat),
    {
        self.table.insert(w.clone(), c);
    }

    /// Relies on `hashbrown::HashMap::iter`: yields each stored key–value
    /// pair exactly once, in an unspecified order.
    #[verifier::external_body]
    pub fn pairs(&self) -> (r: Vec<(Vec<u8>, u64)>)
        ensures
            forall|i: int|
                0 <= i < r@.len() ==> table_counts(*self).contains_pair(
                    (#[trigger] r@[i]).0@,
                    r@[i].1 as nat,
                ),
            forall|k: Seq<u8>|
                #[trigger] table_counts(*self).dom().contains(k) ==> exists|i: int|
                    0 <= i < r@.len() && (#[trigger] r@[i]).0@ == k,
            forall|i: int, j: int|
                0 <= i < j < r@.len() ==> (#[trigger] r@[i]).0@ != (#[trigger] r@[j]).0@,
    {
        self.table.iter().map(|p| (p.0.clone(), *p.1)).collect()
    }
}

/// The occurrence-count map of a word list: each distinct word of `ws` is a
/// key, sent to the number of times it occurs.
pub open spec fn word_counts(ws: Seq<Seq<u8>>) -> Map<Seq<u8>, nat>
    decreases ws.len(),
{
    if ws.len() == 0 {
        Map::empty()
    } else {
        let m = word_counts(ws.drop_last());
        let w = ws.last();
        m.insert(
            w,
            if m.dom().contains(w) {
                m[w] + 1
            } else {
                1nat
            },
        )
    }
}

/// How often `w` occurs in `ws`.
pub open spec fn occurrences(ws: Seq<Seq<u8>>, w: Seq<u8>) -> nat
    decreases ws.len(),
{
    if ws.len() == 0 {
        0
    } else {
        occurrences(ws.drop_last(), w) + if ws.last() == w {
            1nat
        } else {
            0nat
        }
    }
}

/// Every count in `word_counts(ws)` is at most the length of `ws`.
proof fn lemma_counts_bounded(ws: Seq<Seq<u8>>)
    ensures
        forall|k: Seq<u8>|
            #[trigger] word_counts(ws).dom().contains(k) ==> word_counts(ws)[k] <= ws.len(),
    decreases ws.len(),
{
    if ws.len() > 0 {
        lemma_counts_bounded(ws.drop_last());
        let m = word_counts(ws.drop_last());
        assert forall|k: Seq<u8>| #[trigger]
            word_counts(ws).dom().contains(k) implies word_counts(ws)[k] <= ws.len() by {
            if k == ws.last() {
                if m.dom().contains(k) {
                    assert(m[k] <= ws.drop_last().len());
                }
            } else {
                assert(m.dom().contains(k));
            }
        }
    }
}

/// Count the words of a list: the table's contents are exactly
/// [`word_counts`] of the list.
pub fn count_list(words: &Vec<Vec<u8>>) -> (t: CountTable)
    ensures
        table_counts(t) == word_counts(words.deep_view()),
{
    let ghost dv = words.deep_view();
    let mut t = CountTable::new();
    let n = words.len();
    let mut i: usize = 0;
    proof {
        assert(dv.take(0) =~= Seq::<Seq<u8>>::empty());
    }
    while i < n
        invariant
            i <= n,
            n == dv.len(),
            table_counts(t) == word_counts(dv.take(i as int)),
        decreases n - i,
    {
        let w = &words[i];
        proof {
            assert(w@ == dv[i as int]);
            lemma_counts_bounded(dv.take(i as int));
        }
        match t.get(w) {
            Some(c) => {
                assert(c as nat <= i);
                t.set(w, c + 1);
            },
            None => {
                t.set(w, 1);
            },
        }
        proof {
            assert(dv.take(i + 1).drop_last() =~= dv.take(i as int));
            assert(dv.take(i + 1).last() == dv[i as int]);
        }
        i = i + 1;
    }
    proof {
        assert(dv.take(n as int) =~= dv);
    }
    t
}

/// A pair list represents a count map: every pair is in the map, every key
/// of the map appears, and no key appears twice. Nothing is said of the
/// order of the pairs.
pub open spec fn pairs_match(ps: Seq<(Seq<u8>, u64)>, m: Map<Seq<u8>, nat>) -> bool {
    &&& forall|i: int|
        0 <= i < ps.len() ==> m.contains_pair((#[trigger] ps[i]).0, ps[i].1 as nat)
    &&& forall|k: Seq<u8>|
        #[trigger] m.dom().contains(k) ==> exists|i: int|
            0 <= i < ps.len() && (#[trigger] ps[i]).0 == k
    &&& forall|i: int, j: int|
        0 <= i < j < ps.len() ==> (#[trigger] ps[i]).0 != (#[trigger] ps[j]).0
}

/// Count the words of a list and hand the counts out as key–count pairs,
/// in an unspecified order.
pub fn count_pairs(words: &Vec<Vec<u8>>) -> (r: Vec<(Vec<u8>, u64)>)
    ensures
        pairs_match(crate::encode::pairs_view(r@), word_counts(words.deep_view())),
{
    let t = count_list(words);
    let ps = t.pairs();
    proof {
        let pv = crate::encode::pairs_view(ps@);
        let m = table_counts(t);
        assert forall|i: int|
            0 <= i < pv.len() implies m.contains_pair((#[trigger] pv[i]).0, pv[i].1 as nat) by {
            assert(m.contains_pair(ps@[i].0@, ps@[i].1 as nat));
        }
        assert forall|k: Seq<u8>| #[trigger] m.dom().contains(k) implies exists|i: int|
            0 <= i < pv.len() && (#[trigger] pv[i]).0 == k by {
            let i = choose|i: int| 0 <= i < ps@.len() && (#[trigger] ps@[i]).0@ == k;
            assert(pv[i].0 == k);
        }
        assert forall|i: int, j: int|
            0 <= i < j < pv.len() implies (#[trigger] pv[i]).0 != (#[trigger] pv[j]).0 by {
            assert(ps@[i].0@ != ps@[j].0@);
        }
    }
    ps
}

/// A word is a key of the count map exactly where it occurs in the list.
pub proof fn lemma_count_bijection(ws: Seq<Seq<u8>>, w: Seq<u8>)
    ensures
        word_counts(ws).dom().contains(w) <==> ws.contains(w),
    decreases ws.len(),
{
    if ws.len() > 0 {
        let prev = ws.drop_last();
        lemma_count_bijection(prev, w);
        if prev.contains(w) {
            let i = choose|i: int| 0 <= i < prev.len() && prev[i] == w;
            assert(ws[i] == w);
        }
        if ws.last() == w {
            assert(ws[ws.len() - 1] == w);
        }
        if ws.contains(w) && ws.last() != w {
            let i = choose|i: int| 0 <= i < ws.len() && ws[i] == w;
            assert(prev[i] == w);
        }
    }
}

/// Each key's count is exactly how often the key occurs in the list, and an
/// absent key occurs not at all.
pub proof fn lemma_count_occurrences(ws: Seq<Seq<u8>>, w: Seq<u8>)
    ensures
        word_counts(ws).dom().contains(w) ==> word_counts(ws)[w] == occurrences(ws, w),
        !word_counts(ws).dom().contains(w) ==> occurrences(ws, w) == 0,
    decreases ws.len(),
{
    if ws.len() > 0 {
        lemma_count_occurrences(ws.drop_last(), w);
    }
}

/// Counting is deterministic: two tables that both hold the counts of one
/// word list hold the same contents, pair for pair.
pub proof fn lemma_count_deterministic(ws: Seq<Seq<u8>>, t1: CountTable, t2: CountTable)
    requires
        table_counts(t1) == word_counts(ws),
        table_counts(t2) == word_counts(ws),
    ensures
        table_counts(t1) == table_counts(t2),
{
}

/// The total of the counts in a pair list.
pub open spec fn total_count(ps: Seq<(Seq<u8>, u64)>) -> int
    decreases ps.len(),
{
    if ps.len() == 0 {
        0
    } else {
        total_count(ps.drop_last()) + ps.last().1
    }
}

proof fn lemma_total_update(ps: Seq<(Seq<u8>, u64)>, i: int, v: (Seq<u8>, u64))
    requires
        0 <= i < ps.len(),
    ensures
        total_count(ps.update(i, v)) == total_count(ps) - ps[i].1 + v.1,
    decreases ps.len(),
{
    let ps2 = ps.update(i, v);
    if i == ps.len() - 1 {
        assert(ps2.drop_last() =~= ps.drop_last());
        assert(ps2.last() == v);
    } else {
        lemma_total_update(ps.drop_last(), i, v);
        assert(ps2.drop_last() =~= ps.drop_last().update(i, v));
        assert(ps2.last() == ps.last());
    }
}

proof fn lemma_total_remove(ps: Seq<(Seq<u8>, u64)>, i: int)
    requires
        0 <= i < ps.len(),
    ensures
        total_count(ps.remove(i)) == total_count(ps) - ps[i].1,
    decreases ps.len(),
{
    if i == ps.len() - 1 {
        assert(ps.remove(i) =~= ps.drop_last());
    } else {
        lemma_total_remove(ps.drop_last(), i);
        assert(ps.remove(i).drop_last() =~= ps.drop_last().remove(i));
        assert(ps.remove(i).last() == ps.last());
    }
}

/// Count conservation: any pair list that represents the counts of a word
/// list sums to the length of that list.
pub proof fn lemma_count_conservation(ws: Seq<Seq<u8>>, ps: Seq<(Seq<u8>, u64)>)
    requires
        pairs_match(ps, word_counts(ws)),
    ensures
        total_count(ps) == ws.len(),
    decreases ws.len(),
{
    let m = word_counts(ws);
    if ws.len() == 0 {
        if ps.len() > 0 {
            assert(m.contains_pair(ps[0].0, ps[0].1 as nat));
        }
    } else {
        let prev = ws.drop_last();
        let mp = word_counts(prev);
        let w = ws.last();
        assert(m.dom().contains(w));
        let idx = choose|i: int| 0 <= i < ps.len() && (#[trigger] ps[i]).0 == w;
        assert(m.contains_pair(ps[idx].0, ps[idx].1 as nat));
        let c = ps[idx].1;
        assert(c as nat == m[w]);
        if mp.dom().contains(w) {
            // the last word was seen before: lower its count by one
            assert(c as nat == mp[w] + 1);
            let ps2 = ps.update(idx, (w, (c - 1) as u64));
            assert forall|i: int|
                0 <= i < ps2.len() implies mp.contains_pair(
                (#[trigger] ps2[i]).0,
                ps2[i].1 as nat,
            ) by {
                if i == idx {
                    assert(mp.contains_pair(w, mp[w]));
                } else {
                    assert(m.contains_pair(ps[i].0, ps[i].1 as nat));
                    assert(ps[i].0 != ps[idx].0);
                }
            }
            assert forall|k: Seq<u8>| #[trigger] mp.dom().contains(k) implies exists|i: int|
                0 <= i < ps2.len() && (#[trigger] ps2[i]).0 == k by {
                assert(m.dom().contains(k));
                let i = choose|i: int| 0 <= i < ps.len() && (#[trigger] ps[i]).0 == k;
                assert(ps2[i].0 == k);
            }
            assert(pairs_match(ps2, mp));
            lemma_count_conservation(prev, ps2);
            lemma_total_update(ps, idx, (w, (c - 1) as u64));
        } else {
            // the last word is fresh: its pair holds one and comes out
            assert(c as nat == 1);
            let ps2 = ps.remove(idx);
            assert forall|i: int|
                0 <= i < ps2.len() implies mp.contains_pair(
                (#[trigger] ps2[i]).0,
                ps2[i].1 as nat,
            ) by {
                let i0 = if i < idx {
                    i
                } else {
                    i + 1
                };
                assert(ps2[i] == ps[i0]);
                assert(m.contains_pair(ps[i0].0, ps[i0].1 as nat));
                assert(ps[i0].0 != ps[idx].0);
            }
            assert forall|k: Seq<u8>| #[trigger] mp.dom().contains(k) implies exists|i: int|
                0 <= i < ps2.len() && (#[trigger] ps2[i]).0 == k by {
                assert(m.dom().contains(k));
                let i = choose|i: int| 0 <= i < ps.len() && (#[trigger] ps[i]).0 == k;
                assert(k != w);
                if i < idx {
                    assert(ps2[i].0 == k);
                } else {
                    assert(ps2[i - 1].0 == k);
                }
            }
            assert forall|i: int, j: int|
                0 <= i < j < ps2.len() implies (#[trigger] ps2[i]).0 != (#[trigger] ps2[j]).0 by {
                let i0 = if i < idx {
                    i
                } else {
                    i + 1
                };
                let j0 = if j < idx {
                    j
                } else {
                    j + 1
                };
                assert(ps2[i] == ps[i0]);
                assert(ps2[j] == ps[j0]);
            }
            assert(pairs_match(ps2, mp));
            lemma_count_conservation(prev, ps2);
            lemma_total_remove(ps, idx);
        }
    }
}

} // verus!
