//! A map from texts to texts that keeps its entries in ascending key order.

use vstd::prelude::*;

use crate::text::{less_text, lemma_text_less_total, lemma_text_less_transitive, text_less};

verus! {

/// Key-value pairs of texts.
pub type Pairs = Seq<(Seq<char>, Seq<char>)>;

/// The keys of `p` ascend strictly.
pub open spec fn keys_ascending(p: Pairs) -> bool {
    forall|i: int, j: int| 0 <= i < j < p.len() ==> text_less(#[trigger] p[i].0, #[trigger] p[j].0)
}

/// Some pair of `p` has key `k`.
pub open spec fn has_key(p: Pairs, k: Seq<char>) -> bool {
    exists|i: int| 0 <= i < p.len() && (#[trigger] p[i]).0 == k
}

/// The map whose entries are the pairs of `p`.
pub open spec fn map_of(p: Pairs) -> Map<Seq<char>, Seq<char>> {
    Map::new(
        |k: Seq<char>| has_key(p, k),
        |k: Seq<char>| p[choose|i: int| 0 <= i < p.len() && (#[trigger] p[i]).0 == k].1,
    )
}

/// With ascending keys, each pair of `p` is the entry of its key in `map_of(p)`.
pub proof fn lemma_map_of_at(p: Pairs, i: int)
    requires
        keys_ascending(p),
        0 <= i < p.len(),
    ensures
        map_of(p).contains_key(p[i].0),
        map_of(p)[p[i].0] == p[i].1,
{
    assert(has_key(p, p[i].0));
    let j = choose|j: int| 0 <= j < p.len() && (#[trigger] p[j]).0 == p[i].0;
    lemma_text_less_total(p[i].0, p[i].0);
    if j < i {
        assert(text_less(p[j].0, p[i].0));
    } else if i < j {
        assert(text_less(p[i].0, p[j].0));
    }
}

/// The map that inserting the pairs of `p` in their order makes: a later pair
/// for the same key replaces an earlier one.
pub open spec fn fold_pairs(p: Pairs) -> Map<Seq<char>, Seq<char>>
    decreases p.len(),
{
    if p.len() == 0 {
        Map::empty()
    } else {
        fold_pairs(p.drop_last()).insert(p.last().0, p.last().1)
    }
}

/// With ascending keys, inserting the pairs in order makes `map_of(p)`.
pub proof fn lemma_fold_pairs_ascending(p: Pairs)
    requires
        keys_ascending(p),
    ensures
        fold_pairs(p) == map_of(p),
    decreases p.len(),
{
    if p.len() > 0 {
        let init = p.drop_last();
        assert(keys_ascending(init)) by {
            assert forall|i: int, j: int| 0 <= i < j < init.len() implies text_less(
                #[trigger] init[i].0,
                #[trigger] init[j].0,
            ) by {
                assert(text_less(p[i].0, p[j].0));
            }
        }
        lemma_fold_pairs_ascending(init);
        let k = p.last().0;
        assert forall|q: Seq<char>| #[trigger] map_of(p).contains_key(q)
            <==> map_of(init).insert(k, p.last().1).contains_key(q) by {
            if has_key(p, q) && q != k {
                let j = choose|j: int| 0 <= j < p.len() && (#[trigger] p[j]).0 == q;
                assert(j != p.len() - 1);
                assert(init[j].0 == q);
            }
            if has_key(init, q) {
                let j = choose|j: int| 0 <= j < init.len() && (#[trigger] init[j]).0 == q;
                assert(p[j].0 == q);
            }
            if q == k {
                assert(p[p.len() - 1].0 == k);
            }
        }
        assert forall|q: Seq<char>| #[trigger] map_of(p).contains_key(q) implies map_of(p)[q]
            == map_of(init).insert(k, p.last().1)[q] by {
            let j = choose|j: int| 0 <= j < p.len() && (#[trigger] p[j]).0 == q;
            lemma_map_of_at(p, j);
            if j < p.len() - 1 {
                assert(init[j] == p[j]);
                lemma_map_of_at(init, j);
                lemma_text_less_total(q, q);
                assert(text_less(p[j].0, p[p.len() - 1].0));
            }
        }
        assert(map_of(p) =~= map_of(init).insert(k, p.last().1));
    }
}

/// A map from texts to texts, its entries kept in ascending key order.
#[derive(Debug)]
pub struct TextMap {
    entries: Vec<(String, String)>,
}

impl TextMap {
    /// The entries, in their order, as pairs of texts.
    pub closed spec fn pairs(&self) -> Pairs {
        Seq::new(self.entries@.len(), |i: int| (self.entries@[i].0@, self.entries@[i].1@))
    }

    #[verifier::type_invariant]
    closed spec fn ascending(&self) -> bool {
        keys_ascending(self.pairs())
    }

    /// The map that the entries make up.
    pub closed spec fn view(&self) -> Map<Seq<char>, Seq<char>> {
        map_of(self.pairs())
    }

    /// An empty map.
    pub fn new() -> (m: Self)
        ensures
            m@ == Map::<Seq<char>, Seq<char>>::empty(),
    {
        let m = TextMap { entries: Vec::new() };
        assert(m@ =~= Map::<Seq<char>, Seq<char>>::empty());
        m
    }

    /// The position of the first entry whose key is not below `key`, and
    /// whether that entry's key is `key`.
    fn find(&self, key: &str) -> (r: (usize, bool))
        ensures
            r.0 <= self.pairs().len(),
            forall|i: int| 0 <= i < r.0 ==> text_less(#[trigger] self.pairs()[i].0, key@),
            r.0 < self.pairs().len() ==> !text_less(self.pairs()[r.0 as int].0, key@),
            r.1 <==> (r.0 < self.pairs().len() && self.pairs()[r.0 as int].0 == key@),
    {
        proof {
            use_type_invariant(self);
        }
        let n = self.entries.len();
        let mut i: usize = 0;
        while i < n && less_text(self.entries[i].0.as_str(), key)
            invariant
                n == self.pairs().len(),
                i <= n,
                forall|j: int| 0 <= j < i ==> text_less(#[trigger] self.pairs()[j].0, key@),
            decreases n - i,
        {
            assert(self.pairs()[i as int].0 == self.entries@[i as int].0@);
            i = i + 1;
        }
        if i < n {
            assert(self.pairs()[i as int].0 == self.entries@[i as int].0@);
            let found = !less_text(key, self.entries[i].0.as_str());
            proof {
                lemma_text_less_total(self.pairs()[i as int].0, key@);
            }
            (i, found)
        } else {
            (i, false)
        }
    }

    /// The value stored under `key`, if any.
    pub fn get(&self, key: &str) -> (r: Option<String>)
        ensures
            match r {
                Some(v) => self@.contains_key(key@) && v@ == self@[key@],
                None => !self@.contains_key(key@),
            },
    {
        proof {
            use_type_invariant(self);
        }
        let (i, found) = self.find(key);
        if found {
            proof {
                lemma_map_of_at(self.pairs(), i as int);
            }
            Some(self.entries[i].1.clone())
        } else {
            proof {
                self.lemma_absent(key@, i as int);
            }
            None
        }
    }

    /// A key that sorts between the entries before `pos` and those from `pos`
    /// on, and is not the key at `pos`, is absent.
    proof fn lemma_absent(&self, key: Seq<char>, pos: int)
        requires
            keys_ascending(self.pairs()),
            0 <= pos <= self.pairs().len(),
            forall|i: int| 0 <= i < pos ==> text_less(#[trigger] self.pairs()[i].0, key),
            pos < self.pairs().len() ==> !text_less(self.pairs()[pos].0, key),
            !(pos < self.pairs().len() && self.pairs()[pos].0 == key),
        ensures
            !self@.contains_key(key),
            forall|j: int| pos <= j < self.pairs().len() ==> text_less(key, #[trigger] self.pairs()[j].0),
    {
        let p = self.pairs();
        if pos < p.len() {
            lemma_text_less_total(p[pos].0, key);
        }
        assert forall|j: int| pos <= j < p.len() implies text_less(key, #[trigger] p[j].0) by {
            if j > pos {
                lemma_text_less_transitive(key, p[pos].0, p[j].0);
            }
        }
        if has_key(p, key) {
            let j = choose|j: int| 0 <= j < p.len() && (#[trigger] p[j]).0 == key;
            lemma_text_less_total(key, key);
            if j < pos {
                assert(text_less(p[j].0, key));
            } else {
                assert(text_less(key, p[j].0));
            }
        }
    }

    /// Stores `value` under `key`, replacing what was stored there.
    pub fn insert(&mut self, key: String, value: String)
        ensures
            final(self)@ == old(self)@.insert(key@, value@),
    {
        proof {
            use_type_invariant(&*self);
        }
        let (i, found) = self.find(key.as_str());
        let ghost p = self.pairs();
        let ghost k = key@;
        let ghost v = value@;
        if found {
            let mut entries: Vec<(String, String)> = Vec::new();
            std::mem::swap(&mut entries, &mut self.entries);
            entries.set(i, (key, value));
            proof {
                let q = Seq::new(entries@.len(), |j: int| (entries@[j].0@, entries@[j].1@));
                assert(q =~= p.update(i as int, (k, v)));
                assert(keys_ascending(q)) by {
                    assert forall|a: int, b: int| 0 <= a < b < q.len() implies text_less(
                        #[trigger] q[a].0,
                        #[trigger] q[b].0,
                    ) by {
                        assert(text_less(p[a].0, p[b].0));
                    }
                }
                assert forall|key2: Seq<char>| #[trigger] map_of(q).contains_key(key2)
                    <==> map_of(p).insert(k, v).contains_key(key2) by {
                    if has_key(q, key2) && key2 != k {
                        let j = choose|j: int| 0 <= j < q.len() && (#[trigger] q[j]).0 == key2;
                        assert(p[j].0 == key2);
                    }
                    if has_key(p, key2) {
                        let j = choose|j: int| 0 <= j < p.len() && (#[trigger] p[j]).0 == key2;
                        if j == i {
                            assert(q[i as int].0 == key2);
                        } else {
                            assert(q[j].0 == key2);
                        }
                    }
                    if key2 == k {
                        assert(q[i as int].0 == k);
                    }
                }
                assert forall|key2: Seq<char>| #[trigger] map_of(q).contains_key(key2) implies map_of(
                    q,
                )[key2] == map_of(p).insert(k, v)[key2] by {
                    let j = choose|j: int| 0 <= j < q.len() && (#[trigger] q[j]).0 == key2;
                    lemma_map_of_at(q, j);
                    if j != i {
                        lemma_map_of_at(p, j);
                    }
                }
                assert(map_of(q) =~= map_of(p).insert(k, v));
            }
            self.entries = entries;
        } else {
            proof {
                self.lemma_absent(k, i as int);
            }
            let mut entries: Vec<(String, String)> = Vec::new();
            std::mem::swap(&mut entries, &mut self.entries);
            entries.insert(i, (key, value));
            proof {
                let q = Seq::new(entries@.len(), |j: int| (entries@[j].0@, entries@[j].1@));
                assert(q =~= p.insert(i as int, (k, v)));
                assert(keys_ascending(q)) by {
                    assert forall|a: int, b: int| 0 <= a < b < q.len() implies text_less(
                        #[trigger] q[a].0,
                        #[trigger] q[b].0,
                    ) by {
                        if b < i {
                            assert(text_less(p[a].0, p[b].0));
                        } else if b == i {
                            assert(text_less(p[a].0, k));
                        } else if a < i {
                            assert(text_less(p[a].0, p[b - 1].0));
                        } else if a == i {
                            assert(text_less(k, p[b - 1].0));
                        } else {
                            assert(text_less(p[a - 1].0, p[b - 1].0));
                        }
                    }
                }
                assert forall|key2: Seq<char>| #[trigger] map_of(q).contains_key(key2)
                    <==> map_of(p).insert(k, v).contains_key(key2) by {
                    if has_key(q, key2) && key2 != k {
                        let j = choose|j: int| 0 <= j < q.len() && (#[trigger] q[j]).0 == key2;
                        if j < i {
                            assert(p[j].0 == key2);
                        } else {
                            assert(p[j - 1].0 == key2);
                        }
                    }
                    if has_key(p, key2) {
                        let j = choose|j: int| 0 <= j < p.len() && (#[trigger] p[j]).0 == key2;
                        if j < i {
                            assert(q[j].0 == key2);
                        } else {
                            assert(q[j + 1].0 == key2);
                        }
                    }
                    if key2 == k {
                        assert(q[i as int].0 == k);
                    }
                }
                assert forall|key2: Seq<char>| #[trigger] map_of(q).contains_key(key2) implies map_of(
                    q,
                )[key2] == map_of(p).insert(k, v)[key2] by {
                    let j = choose|j: int| 0 <= j < q.len() && (#[trigger] q[j]).0 == key2;
                    lemma_map_of_at(q, j);
                    if j < i {
                        lemma_map_of_at(p, j);
                    } else if j > i {
                        lemma_map_of_at(p, j - 1);
                    }
                }
                assert(map_of(q) =~= map_of(p).insert(k, v));
            }
            self.entries = entries;
        }
    }

    /// Removes what is stored under `key`.
    pub fn remove(&mut self, key: &str)
        ensures
            final(self)@ == old(self)@.remove(key@),
    {
        proof {
            use_type_invariant(&*self);
        }
        let (i, found) = self.find(key);
        let ghost p = self.pairs();
        let ghost k = key@;
        if found {
            let mut entries: Vec<(String, String)> = Vec::new();
            std::mem::swap(&mut entries, &mut self.entries);
            entries.remove(i);
            proof {
                let q = Seq::new(entries@.len(), |j: int| (entries@[j].0@, entries@[j].1@));
                assert(q =~= p.remove(i as int));
                assert(keys_ascending(q)) by {
                    assert forall|a: int, b: int| 0 <= a < b < q.len() implies text_less(
                        #[trigger] q[a].0,
                        #[trigger] q[b].0,
                    ) by {
                        if b < i {
                            assert(text_less(p[a].0, p[b].0));
                        } else if a < i {
                            assert(text_less(p[a].0, p[b + 1].0));
                        } else {
                            assert(text_less(p[a + 1].0, p[b + 1].0));
                        }
                    }
                }
                assert forall|key2: Seq<char>| #[trigger] map_of(q).contains_key(key2)
                    <==> map_of(p).remove(k).contains_key(key2) by {
                    if has_key(q, key2) {
                        let j = choose|j: int| 0 <= j < q.len() && (#[trigger] q[j]).0 == key2;
                        if j < i {
                            assert(p[j].0 == key2);
                            assert(text_less(p[j].0, p[i as int].0));
                        } else {
                            assert(p[j + 1].0 == key2);
                            assert(text_less(p[i as int].0, p[j + 1].0));
                        }
                        lemma_text_less_total(k, k);
                    }
                    if has_key(p, key2) && key2 != k {
                        let j = choose|j: int| 0 <= j < p.len() && (#[trigger] p[j]).0 == key2;
                        if j < i {
                            assert(q[j].0 == key2);
                        } else {
                            assert(j != i);
                            assert(q[j - 1].0 == key2);
                        }
                    }
                }
                assert forall|key2: Seq<char>| #[trigger] map_of(q).contains_key(key2) implies map_of(
                    q,
                )[key2] == map_of(p).remove(k)[key2] by {
                    let j = choose|j: int| 0 <= j < q.len() && (#[trigger] q[j]).0 == key2;
                    lemma_map_of_at(q, j);
                    if j < i {
                        lemma_map_of_at(p, j);
                    } else {
                        lemma_map_of_at(p, j + 1);
                    }
                }
                assert(map_of(q) =~= map_of(p).remove(k));
            }
            self.entries = entries;
        } else {
            proof {
                self.lemma_absent(k, i as int);
                assert(map_of(p) =~= map_of(p).remove(k));
            }
        }
    }

    /// The entries in ascending key order.
    pub fn entries(&self) -> (r: &Vec<(String, String)>)
        ensures
            r@.len() == self.pairs().len(),
            forall|i: int| 0 <= i < r@.len() ==> (#[trigger] r@[i]).0@ == self.pairs()[i].0 && r@[i].1@ == self.pairs()[i].1,
            keys_ascending(self.pairs()),
            self@ == map_of(self.pairs()),
    {
        proof {
            use_type_invariant(self);
        }
        &self.entries
    }
}

/// A read gives back what the last write to the same key wrote, and a write
/// leaves every other key as it was; after a removal the key is absent.
pub proof fn law_read_after_write(
    m: Map<Seq<char>, Seq<char>>,
    k: Seq<char>,
    v: Seq<char>,
    other: Seq<char>,
)
    requires
        other != k,
    ensures
        m.insert(k, v).contains_key(k),
        m.insert(k, v)[k] == v,
        m.insert(k, v).contains_key(other) == m.contains_key(other),
        m.contains_key(other) ==> m.insert(k, v)[other] == m[other],
        !m.remove(k).contains_key(k),
        m.remove(k).contains_key(other) == m.contains_key(other),
{
}

} // verus!
