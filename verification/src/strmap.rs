//! An insertion-ordered map from strings to values, the storage shape every keyed collection of
//! the contract uses. Removal swaps the last entry into the freed slot, so enumeration behaves
//! like an unordered map backed by a vector.

use vstd::prelude::*;

verus! {

/// The map described by a sequence of (key, value) pairs whose keys are distinct.
pub open spec fn pairs_map<W>(s: Seq<(Seq<char>, W)>) -> Map<Seq<char>, W>
    decreases s.len(),
{
    if s.len() == 0 {
        Map::empty()
    } else {
        pairs_map(s.drop_last()).insert(s.last().0, s.last().1)
    }
}

/// No key occurs twice in the sequence of pairs.
pub open spec fn distinct_keys<W>(s: Seq<(Seq<char>, W)>) -> bool {
    forall|i: int, j: int|
        0 <= i < s.len() && 0 <= j < s.len() && i != j ==> #[trigger] s[i].0 != #[trigger] s[j].0
}

/// The keys of a sequence of pairs, in order.
pub open spec fn pair_keys<W>(s: Seq<(Seq<char>, W)>) -> Seq<Seq<char>> {
    s.map_values(|p: (Seq<char>, W)| p.0)
}

/// Membership and lookup in the map of a sequence of pairs with distinct keys.
pub proof fn lemma_pairs_map<W>(s: Seq<(Seq<char>, W)>)
    requires
        distinct_keys(s),
    ensures
        forall|k: Seq<char>| #[trigger]
            pairs_map(s).contains_key(k) <==> exists|i: int| 0 <= i < s.len() && s[i].0 == k,
        forall|i: int| 0 <= i < s.len() ==> #[trigger] pairs_map(s)[s[i].0] == s[i].1,
    decreases s.len(),
{
    if s.len() > 0 {
        let t = s.drop_last();
        assert(distinct_keys(t));
        lemma_pairs_map(t);
        let n = s.len() - 1;
        assert(pairs_map(s) == pairs_map(t).insert(s[n].0, s[n].1));
        assert forall|k: Seq<char>| #[trigger] pairs_map(s).contains_key(k) implies exists|i: int|
            0 <= i < s.len() && s[i].0 == k by {
            if k == s[n].0 {
                assert(s[n].0 == k);
            } else {
                assert(pairs_map(t).contains_key(k));
                let i = choose|i: int| 0 <= i < t.len() && t[i].0 == k;
                assert(t[i] == s[i]);
                assert(s[i].0 == k);
            }
        }
        assert forall|k: Seq<char>| (exists|i: int| 0 <= i < s.len() && s[i].0 == k) implies #[trigger]
            pairs_map(s).contains_key(k) by {
            let i = choose|i: int| 0 <= i < s.len() && s[i].0 == k;
            if i < n {
                assert(t[i] == s[i]);
                assert(pairs_map(t).contains_key(t[i].0));
            }
        }
        assert forall|i: int| 0 <= i < s.len() implies #[trigger] pairs_map(s)[s[i].0] == s[i].1 by {
            if i < n {
                assert(s[i].0 != s[n].0);
                assert(t[i] == s[i]);
                assert(pairs_map(t)[t[i].0] == t[i].1);
            }
        }
    }
}

/// The key set of the map is the set of keys of the pairs, and its size their number.
pub proof fn lemma_pairs_map_len<W>(s: Seq<(Seq<char>, W)>)
    requires
        distinct_keys(s),
    ensures
        pairs_map(s).dom() == pair_keys(s).to_set(),
        pairs_map(s).dom().len() == s.len(),
        pairs_map(s).dom().finite(),
{
    lemma_pairs_map(s);
    let ks = pair_keys(s);
    assert forall|k: Seq<char>| pairs_map(s).dom().contains(k) <==> ks.to_set().contains(k) by {
        if pairs_map(s).dom().contains(k) {
            let i = choose|i: int| 0 <= i < s.len() && s[i].0 == k;
            assert(ks[i] == k);
        }
        if ks.to_set().contains(k) {
            let i = choose|i: int| 0 <= i < ks.len() && ks[i] == k;
            assert(s[i].0 == k);
        }
    }
    assert(pairs_map(s).dom() =~= ks.to_set());
    assert(ks.no_duplicates()) by {
        assert forall|i: int, j: int| 0 <= i < ks.len() && 0 <= j < ks.len() && i != j implies ks[i]
            != ks[j] by {
            assert(s[i].0 != s[j].0);
        }
    }
    ks.unique_seq_to_set();
}

/// A map from strings to values that keeps its keys in a sequence.
pub struct StrMap<V: View> {
    entries: Vec<(String, V)>,
}

/// Key and value views of a sequence of entries.
pub open spec fn entry_pairs<V: View>(e: Seq<(String, V)>) -> Seq<(Seq<char>, V::V)> {
    e.map_values(|x: (String, V)| (x.0@, x.1@))
}

/// The keys after removing `k` from `ks`: the last key takes `k`'s position.
pub open spec fn swap_removed(ks: Seq<Seq<char>>, k: Seq<char>) -> Seq<Seq<char>> {
    let i = ks.index_of(k);
    ks.update(i, ks.last()).drop_last()
}

impl<V: View> StrMap<V> {
    /// The entries as pairs of key and value views, in storage order.
    pub closed spec fn pairs(&self) -> Seq<(Seq<char>, V::V)> {
        entry_pairs(self.entries@)
    }

    /// The keys in storage order (the order enumeration follows).
    pub closed spec fn key_seq(&self) -> Seq<Seq<char>> {
        pair_keys(self.pairs())
    }

    /// The value stored under a key (the value itself, not its view).
    pub closed spec fn value_of(&self, k: Seq<char>) -> V {
        let i = choose|i: int| 0 <= i < self.entries@.len() && self.entries@[i].0@ == k;
        self.entries@[i].1
    }

    /// The value views in storage order.
    pub closed spec fn val_seq(&self) -> Seq<V::V> {
        self.pairs().map_values(|p: (Seq<char>, V::V)| p.1)
    }

    #[verifier::type_invariant]
    closed spec fn inv(&self) -> bool {
        distinct_keys(self.pairs())
    }

    proof fn lemma_view(&self)
        requires
            self.inv(),
        ensures
            forall|k: Seq<char>| #[trigger]
                self.view().contains_key(k) <==> self.key_seq().contains(k),
            forall|i: int|
                0 <= i < self.key_seq().len() ==> #[trigger] self.view()[self.key_seq()[i]]
                    == self.val_seq()[i],
            self.key_seq().no_duplicates(),
            self.key_seq().len() == self.entries@.len(),
            self.val_seq().len() == self.entries@.len(),
            self.view().dom().len() == self.entries@.len(),
            self.view().dom().finite(),
    {
        let s = self.pairs();
        lemma_pairs_map(s);
        lemma_pairs_map_len(s);
        assert forall|k: Seq<char>| #[trigger]
            self.view().contains_key(k) <==> self.key_seq().contains(k) by {
            if self.view().contains_key(k) {
                let i = choose|i: int| 0 <= i < s.len() && s[i].0 == k;
                assert(self.key_seq()[i] == k);
            }
            if self.key_seq().contains(k) {
                let i = choose|i: int| 0 <= i < self.key_seq().len() && self.key_seq()[i] == k;
                assert(s[i].0 == k);
            }
        }
        assert forall|i: int| 0 <= i < self.key_seq().len() implies #[trigger] self.view()[self.key_seq()[i]]
            == self.val_seq()[i] by {
            assert(s[i].0 == self.key_seq()[i]);
        }
        assert forall|i: int, j: int|
            0 <= i < self.key_seq().len() && 0 <= j < self.key_seq().len() && i != j implies self.key_seq()[i]
            != self.key_seq()[j] by {
            assert(s[i].0 != s[j].0);
        }
    }

    /// An empty map.
    pub fn new() -> (m: Self)
        ensures
            m@ == Map::<Seq<char>, V::V>::empty(),
            m.key_seq() == Seq::<Seq<char>>::empty(),
    {
        let m = StrMap { entries: Vec::new() };
        assert(m.pairs() =~= Seq::<(Seq<char>, V::V)>::empty());
        assert(m.key_seq() =~= Seq::<Seq<char>>::empty());
        m
    }

    /// Number of entries.
    pub fn len(&self) -> (n: usize)
        ensures
            n == self@.dom().len(),
            n == self.key_seq().len(),
    {
        proof {
            use_type_invariant(self);
            self.lemma_view();
        }
        self.entries.len()
    }

    /// Whether the map has no entries.
    pub fn is_empty(&self) -> (b: bool)
        ensures
            b == (self@.dom().len() == 0),
            b == (self@ == Map::<Seq<char>, V::V>::empty()),
    {
        proof {
            use_type_invariant(self);
            self.lemma_view();
        }
        let b = self.entries.len() == 0;
        proof {
            if b {
                assert(self@ =~= Map::<Seq<char>, V::V>::empty());
            } else {
                assert(self@.contains_key(self.key_seq()[0]));
            }
        }
        b
    }

    /// Move the entries out, leaving the map empty.
    fn take_entries(&mut self) -> (e: Vec<(String, V)>)
        ensures
            e@ == old(self).entries@,
    {
        let mut e: Vec<(String, V)> = Vec::new();
        std::mem::swap(&mut e, &mut self.entries);
        e
    }

    /// Position of a key in storage order, if present.
    fn find(&self, k: &String) -> (r: Option<usize>)
        ensures
            match r {
                Some(i) => i < self.entries@.len() && self.key_seq()[i as int] == k@,
                None => !self.key_seq().contains(k@),
            },
            self.key_seq().len() == self.entries@.len(),
    {
        let n = self.entries.len();
        let mut i: usize = 0;
        while i < n
            invariant
                n == self.entries@.len(),
                i <= n,
                forall|j: int| 0 <= j < i ==> self.key_seq()[j] != k@,
            decreases n - i,
        {
            if self.entries[i].0 == *k {
                return Some(i);
            }
            i = i + 1;
        }
        None
    }

    /// Whether a key is present.
    pub fn contains_key(&self, k: &String) -> (b: bool)
        ensures
            b == self@.contains_key(k@),
    {
        proof {
            use_type_invariant(self);
            self.lemma_view();
        }
        self.find(k).is_some()
    }

    /// The value stored under a key.
    pub fn get(&self, k: &String) -> (r: Option<&V>)
        ensures
            match r {
                Some(v) => self@.contains_key(k@) && v@ == self@[k@] && *v == self.value_of(k@),
                None => !self@.contains_key(k@),
            },
    {
        proof {
            use_type_invariant(self);
            self.lemma_view();
        }
        match self.find(k) {
            Some(i) => {
                assert(self.val_seq()[i as int] == self.entries@[i as int].1@);
                proof {
                    assert(self.entries@[i as int].0@ == self.key_seq()[i as int]);
                    let j = choose|j: int| 0 <= j < self.entries@.len() && self.entries@[j].0@ == k@;
                    assert(self.key_seq()[j] == self.entries@[j].0@);
                    assert(j == i);
                }
                Some(&self.entries[i].1)
            },
            None => None,
        }
    }

    /// The key stored at a position in storage order.
    pub fn key_at(&self, i: usize) -> (k: &String)
        requires
            i < self.key_seq().len(),
        ensures
            k@ == self.key_seq()[i as int],
            self@.contains_key(k@),
    {
        proof {
            use_type_invariant(self);
            self.lemma_view();
            assert(self.key_seq().contains(self.key_seq()[i as int]));
        }
        &self.entries[i].0
    }

    /// The value stored at a position in storage order.
    pub fn value_at(&self, i: usize) -> (v: &V)
        requires
            i < self.key_seq().len(),
        ensures
            v@ == self@[self.key_seq()[i as int]],
    {
        proof {
            use_type_invariant(self);
            self.lemma_view();
        }
        assert(self.val_seq()[i as int] == self.entries@[i as int].1@);
        &self.entries[i].1
    }

    /// Store a value under a key. An existing key keeps its position; a new key goes last.
    /// Returns the value that was replaced.
    pub fn insert(&mut self, k: String, v: V) -> (old_v: Option<V>)
        ensures
            final(self)@ == old(self)@.insert(k@, v@),
            match old_v {
                Some(o) => old(self)@.contains_key(k@) && o@ == old(self)@[k@],
                None => !old(self)@.contains_key(k@),
            },
            old(self)@.contains_key(k@) ==> final(self).key_seq() == old(self).key_seq(),
            !old(self)@.contains_key(k@) ==> final(self).key_seq() == old(self).key_seq().push(k@),
    {
        proof {
            use_type_invariant(&*self);
            self.lemma_view();
        }
        let ghost old_pairs = self.pairs();
        let ghost kv = k@;
        let ghost vv = v@;
        match self.find(&k) {
            Some(i) => {
                let mut e = self.take_entries();
                let (_k0, o) = e.remove(i);
                e.insert(i, (k, v));
                proof {
                    assert(entry_pairs(e@) =~= old_pairs.update(i as int, (kv, vv)));
                    assert forall|a: int, b: int|
                        0 <= a < e@.len() && 0 <= b < e@.len() && a != b implies #[trigger] entry_pairs(e@)[a].0
                        != #[trigger] entry_pairs(e@)[b].0 by {
                        if a != i && b != i {
                            assert(old_pairs[a].0 != old_pairs[b].0);
                        } else if a == i {
                            assert(old(self).key_seq()[b] == old_pairs[b].0);
                            assert(old(self).key_seq()[i as int] == kv);
                        } else {
                            assert(old(self).key_seq()[a] == old_pairs[a].0);
                            assert(old(self).key_seq()[i as int] == kv);
                        }
                    }
                }
                self.entries = e;
                proof {
                    assert(self.pairs() =~= old_pairs.update(i as int, (kv, vv)));
                    assert(distinct_keys(self.pairs()));
                    lemma_pairs_map(self.pairs());
                    lemma_pairs_map(old_pairs);
                    assert forall|q: Seq<char>|
                        self@.contains_key(q) == old(self)@.insert(kv, vv).contains_key(q) by {
                        if old(self)@.contains_key(q) {
                            let j = choose|j: int| 0 <= j < old_pairs.len() && old_pairs[j].0 == q;
                            assert(self.pairs()[j].0 == q);
                        }
                        if self@.contains_key(q) {
                            let j = choose|j: int| 0 <= j < self.pairs().len() && self.pairs()[j].0
                                == q;
                            if j != i {
                                assert(old_pairs[j].0 == q);
                            }
                        }
                    }
                    assert forall|q: Seq<char>| #[trigger]
                        self@.contains_key(q) implies self@[q] == old(self)@.insert(kv, vv)[q] by {
                        let j = choose|j: int| 0 <= j < self.pairs().len() && self.pairs()[j].0 == q;
                        assert(self@[self.pairs()[j].0] == self.pairs()[j].1);
                        if j != i {
                            assert(old(self)@[old_pairs[j].0] == old_pairs[j].1);
                        }
                    }
                    assert(self@ =~= old(self)@.insert(kv, vv));
                    assert(self.key_seq() =~= old(self).key_seq());
                    assert(o@ == old_pairs[i as int].1);
                }
                Some(o)
            },
            None => {
                let mut e = self.take_entries();
                e.push((k, v));
                proof {
                    assert(entry_pairs(e@) =~= old_pairs.push((kv, vv)));
                    assert forall|a: int, b: int|
                        0 <= a < e@.len() && 0 <= b < e@.len() && a != b implies #[trigger] entry_pairs(e@)[a].0
                        != #[trigger] entry_pairs(e@)[b].0 by {
                        if a < old_pairs.len() && b < old_pairs.len() {
                        } else if a < old_pairs.len() {
                            assert(old(self).key_seq()[a] == old_pairs[a].0);
                        } else {
                            assert(old(self).key_seq()[b] == old_pairs[b].0);
                        }
                    }
                }
                self.entries = e;
                proof {
                    assert(self.pairs() =~= old_pairs.push((kv, vv)));
                    assert(self.pairs().drop_last() =~= old_pairs);
                    assert(self.key_seq() =~= old(self).key_seq().push(kv));
                }
                None
            },
        }
    }

    /// Remove a key; the last entry takes the freed position (so the listing order changes as
    /// `swap_removed` says). Returns the removed value.
    pub fn remove(&mut self, k: &String) -> (old_v: Option<V>)
        ensures
            final(self)@ == old(self)@.remove(k@),
            match old_v {
                Some(o) => old(self)@.contains_key(k@) && o@ == old(self)@[k@] && final(self).key_seq()
                    == swap_removed(old(self).key_seq(), k@),
                None => !old(self)@.contains_key(k@) && final(self).key_seq() == old(
                    self,
                ).key_seq(),
            },
    {
        proof {
            use_type_invariant(&*self);
            self.lemma_view();
        }
        let ghost old_pairs = self.pairs();
        match self.find(k) {
            Some(i) => {
                let ghost n = old_pairs.len() - 1;
                let mut e = self.take_entries();
                let (_k0, o) = e.swap_remove(i);
                let ghost np = old_pairs.update(i as int, old_pairs[n]).drop_last();
                proof {
                    assert(entry_pairs(e@) =~= np);
                    assert forall|a: int, b: int|
                        0 <= a < np.len() && 0 <= b < np.len() && a != b implies #[trigger] np[a].0
                        != #[trigger] np[b].0 by {
                        let oa = if a == i { n } else { a };
                        let ob = if b == i { n } else { b };
                        assert(np[a] == old_pairs[oa]);
                        assert(np[b] == old_pairs[ob]);
                    }
                }
                self.entries = e;
                proof {
                    assert(self.pairs() =~= np);
                    lemma_pairs_map(old_pairs);
                    lemma_pairs_map(np);
                    assert forall|q: Seq<char>|
                        self@.contains_key(q) == old(self)@.remove(k@).contains_key(q) by {
                        if self@.contains_key(q) {
                            let j = choose|j: int| 0 <= j < np.len() && np[j].0 == q;
                            let oj = if j == i { n } else { j };
                            assert(old_pairs[oj].0 == q);
                            assert(oj != i);
                        }
                        if old(self)@.remove(k@).contains_key(q) {
                            let j = choose|j: int| 0 <= j < old_pairs.len() && old_pairs[j].0 == q;
                            assert(j != i);
                            if j == n {
                                assert(np[i as int].0 == q);
                            } else {
                                assert(np[j].0 == q);
                            }
                        }
                    }
                    assert forall|q: Seq<char>| #[trigger]
                        self@.contains_key(q) implies self@[q] == old(self)@.remove(k@)[q] by {
                        let j = choose|j: int| 0 <= j < np.len() && np[j].0 == q;
                        let oj = if j == i { n } else { j };
                        assert(self@[np[j].0] == np[j].1);
                        assert(old(self)@[old_pairs[oj].0] == old_pairs[oj].1);
                    }
                    assert(self@ =~= old(self)@.remove(k@));
                    assert(o@ == old_pairs[i as int].1);
                    let ks = pair_keys(old_pairs);
                    let j = ks.index_of(k@);
                    assert(ks[i as int] == k@);
                    assert(ks.contains(k@));
                    assert(0 <= j < ks.len() && ks[j] == k@);
                    assert(j == i);
                    assert(pair_keys(np) =~= ks.update(i as int, ks.last()).drop_last());
                }
                Some(o)
            },
            None => {
                proof {
                    assert(old(self)@.remove(k@) =~= old(self)@);
                }
                None
            },
        }
    }

    /// All keys in storage order.
    pub fn keys(&self) -> (ks: Vec<String>)
        ensures
            ks@.len() == self.key_seq().len(),
            forall|i: int| 0 <= i < ks@.len() ==> #[trigger] ks@[i]@ == self.key_seq()[i],
            forall|k: Seq<char>| #[trigger] self@.contains_key(k) <==> self.key_seq().contains(k),
            self.key_seq().no_duplicates(),
    {
        proof {
            use_type_invariant(self);
            self.lemma_view();
        }
        let n = self.entries.len();
        let mut ks: Vec<String> = Vec::new();
        let mut i: usize = 0;
        while i < n
            invariant
                n == self.entries@.len(),
                n == self.key_seq().len(),
                i <= n,
                ks@.len() == i,
                forall|j: int| 0 <= j < i ==> #[trigger] ks@[j]@ == self.key_seq()[j],
            decreases n - i,
        {
            let k = self.entries[i].0.clone();
            ks.push(k);
            i = i + 1;
        }
        ks
    }
}

impl<V: View> View for StrMap<V> {
    type V = Map<Seq<char>, V::V>;

    closed spec fn view(&self) -> Map<Seq<char>, V::V> {
        pairs_map(self.pairs())
    }
}

} // verus!
