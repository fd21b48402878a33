use vstd::prelude::*;

use crate::principal::Principal;

verus! {

/// Keys of an `AmountMap`: compared and copied by their view.
pub trait MapKey: View + Sized {
    fn same_key(&self, other: &Self) -> (r: bool)
        ensures
            r == (self@ == other@),
    ;

    fn copy_key(&self) -> (r: Self)
        ensures
            r@ == self@,
    ;
}

impl MapKey for Principal {
    fn same_key(&self, other: &Self) -> (r: bool) {
        self.same(other)
    }

    fn copy_key(&self) -> (r: Self) {
        self.duplicate()
    }
}

/// The key of an allowance: who owns the funds, and who may spend them.
#[derive(Debug)]
pub struct AllowanceKey {
    pub owner: Principal,
    pub spender: Principal,
}

impl View for AllowanceKey {
    type V = (Seq<u8>, Seq<u8>);

    open spec fn view(&self) -> (Seq<u8>, Seq<u8>) {
        (self.owner@, self.spender@)
    }
}

impl MapKey for AllowanceKey {
    fn same_key(&self, other: &Self) -> (r: bool) {
        self.owner.same(&other.owner) && self.spender.same(&other.spender)
    }

    fn copy_key(&self) -> (r: Self) {
        AllowanceKey { owner: self.owner.duplicate(), spender: self.spender.duplicate() }
    }
}

/// A finite map from keys to amounts, kept as a list of entries in which no
/// key occurs twice. Entries keep the order in which their keys first came in.
#[verifier::reject_recursive_types(K)]
pub struct AmountMap<K> {
    entries: Vec<(K, u128)>,
}

impl<K: MapKey> AmountMap<K> {
    /// The number of entries.
    pub closed spec fn size(&self) -> nat {
        self.entries@.len()
    }

    /// The key of entry `i`.
    pub closed spec fn key_at(&self, i: int) -> <K as View>::V {
        self.entries@[i].0@
    }

    /// The amount of entry `i`.
    pub closed spec fn amount_at(&self, i: int) -> u128 {
        self.entries@[i].1
    }

    /// Entry `i` exists and holds key `k`.
    pub closed spec fn holds_at(&self, i: int, k: <K as View>::V) -> bool {
        0 <= i < self.entries@.len() && self.entries@[i].0@ == k
    }

    /// The keys of the entries, in order.
    pub closed spec fn keys(&self) -> Seq<<K as View>::V> {
        self.entries@.map_values(|e: (K, u128)| e.0@)
    }

    /// No key occurs in two entries.
    pub closed spec fn wf(&self) -> bool {
        forall|i: int, j: int|
            #![trigger self.entries@[i], self.entries@[j]]
            0 <= i < j < self.entries@.len() ==> self.entries@[i].0@ != self.entries@[j].0@
    }
}

impl<K: MapKey> View for AmountMap<K> {
    type V = Map<<K as View>::V, u128>;

    closed spec fn view(&self) -> Map<<K as View>::V, u128> {
        Map::new(
            |k: <K as View>::V| exists|i: int| self.holds_at(i, k),
            |k: <K as View>::V| self.entries@[choose|i: int| self.holds_at(i, k)].1,
        )
    }
}

/// `m1` and `m2` agree on `key`.
pub open spec fn agree_at<A>(m1: Map<A, u128>, m2: Map<A, u128>, key: A) -> bool {
    &&& m1.contains_key(key) == m2.contains_key(key)
    &&& m1.contains_key(key) ==> m1[key] == m2[key]
}

/// Maps that agree on every key are equal.
proof fn lemma_agree_ext<A>(m1: Map<A, u128>, m2: Map<A, u128>)
    requires
        forall|key: A| #[trigger] agree_at(m1, m2, key),
    ensures
        m1 == m2,
{
    assert(m1.dom() =~= m2.dom()) by {
        assert forall|key: A| m1.dom().contains(key) <==> m2.dom().contains(key) by {
            assert(agree_at(m1, m2, key));
        }
    }
    assert forall|key: A| m1.dom().contains(key) implies m1[key] == m2[key] by {
        assert(agree_at(m1, m2, key));
    }
    assert(m1 =~= m2);
}

impl<K: MapKey> AmountMap<K> {
    /// Entry `i` is what the map holds for its key.
    pub proof fn lemma_at(&self, i: int)
        requires
            self.wf(),
            0 <= i < self.size(),
        ensures
            self@.contains_key(self.key_at(i)),
            self@[self.key_at(i)] == self.amount_at(i),
            self.holds_at(i, self.key_at(i)),
    {
        let k = self.entries@[i].0@;
        assert(self.holds_at(i, k));
        let j = choose|j: int| self.holds_at(j, k);
        assert(self.holds_at(j, k));
        if j < i {
            assert(self.entries@[j].0@ != self.entries@[i].0@);
        } else if i < j {
            assert(self.entries@[i].0@ != self.entries@[j].0@);
        }
    }

    /// Two entries hold different keys.
    pub proof fn lemma_keys_distinct(&self, i: int, j: int)
        requires
            self.wf(),
            0 <= i < self.size(),
            0 <= j < self.size(),
            i != j,
        ensures
            self.key_at(i) != self.key_at(j),
    {
        if i < j {
            assert(self.entries@[i].0@ != self.entries@[j].0@);
        } else {
            assert(self.entries@[j].0@ != self.entries@[i].0@);
        }
    }

    /// A key that the map holds has an entry.
    pub proof fn lemma_index_of(&self, k: <K as View>::V) -> (i: int)
        requires
            self@.contains_key(k),
        ensures
            self.holds_at(i, k),
            0 <= i < self.size(),
            self.key_at(i) == k,
    {
        choose|i: int| self.holds_at(i, k)
    }

    /// The map holds exactly the keys of its entries.
    pub proof fn lemma_dom(&self)
        requires
            self.wf(),
        ensures
            self@.dom() == self.keys().to_set(),
            self@.dom().finite(),
            self@.len() == self.size(),
    {
        assert forall|k: <K as View>::V| self@.contains_key(k) <==> self.keys().contains(k) by {
            if self@.contains_key(k) {
                let i = self.lemma_index_of(k);
                assert(self.keys()[i] == k);
            }
            if self.keys().contains(k) {
                let i = choose|i: int| 0 <= i < self.keys().len() && self.keys()[i] == k;
                assert(self.holds_at(i, k));
            }
        }
        assert(self@.dom() =~= self.keys().to_set());
        assert(self.keys().no_duplicates()) by {
            assert forall|i: int, j: int|
                0 <= i < self.keys().len() && 0 <= j < self.keys().len() && i != j implies
                self.keys()[i] != self.keys()[j] by {
                if i < j {
                    assert(self.entries@[i].0@ != self.entries@[j].0@);
                } else {
                    assert(self.entries@[j].0@ != self.entries@[i].0@);
                }
            }
        }
        self.keys().unique_seq_to_set();
    }

    /// The empty map.
    pub fn new() -> (m: Self)
        ensures
            m.wf(),
            m@ == Map::<<K as View>::V, u128>::empty(),
    {
        let m = AmountMap { entries: Vec::new() };
        assert(m@ =~= Map::<<K as View>::V, u128>::empty());
        m
    }

    /// The index of the entry that holds `k`, if there is one.
    fn find(&self, k: &K) -> (r: Option<usize>)
        requires
            self.wf(),
        ensures
            match r {
                Some(i) => self.holds_at(i as int, k@),
                None => !self@.contains_key(k@),
            },
    {
        let n: usize = self.entries.len();
        let mut i: usize = 0;
        while i < n
            invariant
                n == self.entries@.len(),
                i <= n,
                forall|j: int| 0 <= j < i ==> self.entries@[j].0@ != k@,
            decreases n - i,
        {
            if self.entries[i].0.same_key(k) {
                return Some(i);
            }
            i = i + 1;
        }
        proof {
            if self@.contains_key(k@) {
                let j = self.lemma_index_of(k@);
                assert(self.entries@[j].0@ == k@);
            }
        }
        None
    }

    /// The amount held for `k`, if any.
    pub fn get(&self, k: &K) -> (r: Option<u128>)
        requires
            self.wf(),
        ensures
            r == (if self@.contains_key(k@) {
                Some(self@[k@])
            } else {
                None
            }),
    {
        match self.find(k) {
            Some(i) => {
                proof {
                    self.lemma_at(i as int);
                }
                Some(self.entries[i].1)
            },
            None => None,
        }
    }

    /// The number of keys held.
    pub fn len(&self) -> (r: usize)
        requires
            self.wf(),
        ensures
            r == self@.len(),
            r == self.size(),
    {
        proof {
            self.lemma_dom();
        }
        self.entries.len()
    }

    /// The key of entry `i`.
    pub fn key_ref(&self, i: usize) -> (r: &K)
        requires
            i < self.size(),
        ensures
            r@ == self.key_at(i as int),
    {
        &self.entries[i].0
    }

    /// The amount of entry `i`.
    pub fn amount_ref(&self, i: usize) -> (r: u128)
        requires
            i < self.size(),
        ensures
            r == self.amount_at(i as int),
    {
        self.entries[i].1
    }

    /// Sets the amount held for `k` to `v`, adding `k` if it was not held.
    pub fn insert(&mut self, k: K, v: u128)
        requires
            old(self).wf(),
        ensures
            final(self).wf(),
            final(self)@ == old(self)@.insert(k@, v),
    {
        let ghost kv = k@;
        let ghost target = old(self)@.insert(kv, v);
        match self.find(&k) {
            Some(i) => {
                self.entries.set(i, (k, v));
                proof {
                    assert forall|a: int, b: int|
                        #![trigger self.entries@[a], self.entries@[b]]
                        0 <= a < b < self.entries@.len() implies self.entries@[a].0@
                        != self.entries@[b].0@ by {
                        assert(old(self).entries@[a].0@ != old(self).entries@[b].0@);
                    }
                    assert forall|key: <K as View>::V| #[trigger] agree_at(self@, target, key) by {
                        if key == kv {
                            self.lemma_at(i as int);
                        } else if self@.contains_key(key) {
                            let j = self.lemma_index_of(key);
                            self.lemma_at(j);
                            old(self).lemma_at(j);
                        } else if old(self)@.contains_key(key) {
                            let j = old(self).lemma_index_of(key);
                            assert(self.holds_at(j, key));
                        }
                    }
                    lemma_agree_ext(self@, target);
                }
            },
            None => {
                self.entries.push((k, v));
                proof {
                    let n = old(self).entries@.len() as int;
                    assert forall|a: int, b: int|
                        #![trigger self.entries@[a], self.entries@[b]]
                        0 <= a < b < self.entries@.len() implies self.entries@[a].0@
                        != self.entries@[b].0@ by {
                        if b < n {
                            assert(old(self).entries@[a].0@ != old(self).entries@[b].0@);
                        } else {
                            old(self).lemma_at(a);
                        }
                    }
                    assert forall|key: <K as View>::V| #[trigger] agree_at(self@, target, key) by {
                        if key == kv {
                            self.lemma_at(n);
                        } else if self@.contains_key(key) {
                            let j = self.lemma_index_of(key);
                            self.lemma_at(j);
                            old(self).lemma_at(j);
                        } else if old(self)@.contains_key(key) {
                            let j = old(self).lemma_index_of(key);
                            assert(self.holds_at(j, key));
                        }
                    }
                    lemma_agree_ext(self@, target);
                }
            },
        }
    }

    /// Drops `k` and its amount, if held.
    pub fn remove(&mut self, k: &K)
        requires
            old(self).wf(),
        ensures
            final(self).wf(),
            final(self)@ == old(self)@.remove(k@),
    {
        let ghost target = old(self)@.remove(k@);
        match self.find(k) {
            Some(i) => {
                let _ = self.entries.remove(i);
                proof {
                    let ii = i as int;
                    assert forall|a: int, b: int|
                        #![trigger self.entries@[a], self.entries@[b]]
                        0 <= a < b < self.entries@.len() implies self.entries@[a].0@
                        != self.entries@[b].0@ by {
                        let oa = if a < ii { a } else { a + 1 };
                        let ob = if b < ii { b } else { b + 1 };
                        assert(self.entries@[a] == old(self).entries@[oa]);
                        assert(self.entries@[b] == old(self).entries@[ob]);
                        assert(old(self).entries@[oa].0@ != old(self).entries@[ob].0@);
                    }
                    assert forall|key: <K as View>::V| #[trigger] agree_at(self@, target, key) by {
                        if self@.contains_key(key) {
                            let j = self.lemma_index_of(key);
                            let oj = if j < ii { j } else { j + 1 };
                            assert(self.entries@[j] == old(self).entries@[oj]);
                            self.lemma_at(j);
                            old(self).lemma_at(oj);
                            old(self).lemma_at(ii);
                        } else if old(self)@.contains_key(key) && key != k@ {
                            let j = old(self).lemma_index_of(key);
                            assert(j != ii);
                            let nj = if j < ii { j } else { j - 1 };
                            assert(self.entries@[nj] == old(self).entries@[j]);
                            assert(self.holds_at(nj, key));
                        }
                    }
                    lemma_agree_ext(self@, target);
                }
            },
            None => {
                assert(self@ =~= target);
            },
        }
    }
}

} // verus!
