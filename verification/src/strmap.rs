//! A map from strings to values that keeps its keys in the order of `str`,
//! as `BTreeMap<String, V>` does.
use vstd::prelude::*;

use crate::text::{chars_eq, chars_lt, lemma_seq_lt_irrefl, lemma_seq_lt_total, lemma_seq_lt_trans, seq_lt, str_chars};

verus! {

/// Keys strictly increasing, hence pairwise distinct.
pub open spec fn sorted_keys(ks: Seq<Seq<char>>) -> bool {
    forall|i: int, j: int| 0 <= i < j < ks.len() ==> seq_lt(ks[i], ks[j])
}

/// The elements of a finite set of strings in ascending order.
pub open spec fn sorted_dom(s: Set<Seq<char>>) -> Seq<Seq<char>> {
    choose|ks: Seq<Seq<char>>| sorted_keys(ks) && ks.to_set() == s
}

/// Two ascending sequences with the same elements are the same.
pub proof fn lemma_sorted_unique(a: Seq<Seq<char>>, b: Seq<Seq<char>>)
    requires
        sorted_keys(a),
        sorted_keys(b),
        a.to_set() == b.to_set(),
    ensures
        a == b,
    decreases a.len(),
{
    if a.len() == 0 {
        if b.len() > 0 {
            assert(b.to_set().contains(b[0]));
        }
        assert(a =~= b);
    } else {
        assert(a.to_set().contains(a[0]));
        assert(b.len() > 0);
        assert(b.to_set().contains(b[0]));
        let j = choose|j: int| 0 <= j < b.len() && b[j] == a[0];
        let i = choose|i: int| 0 <= i < a.len() && a[i] == b[0];
        if a[0] != b[0] {
            assert(j > 0 && i > 0);
            assert(seq_lt(b[0], b[j]));
            assert(seq_lt(a[0], a[i]));
            lemma_seq_lt_irrefl(a[0]);
            lemma_seq_lt_trans(a[0], b[0], a[0]);
        }
        let a1 = a.drop_first();
        let b1 = b.drop_first();
        assert forall|x: Seq<char>| #[trigger] a1.to_set().contains(x) == b1.to_set().contains(x) by {
            if a1.to_set().contains(x) {
                let k = choose|k: int| 0 <= k < a1.len() && a1[k] == x;
                assert(a[k + 1] == x);
                assert(seq_lt(a[0], x));
                assert(b.to_set().contains(x));
                let m = choose|m: int| 0 <= m < b.len() && b[m] == x;
                if m == 0 {
                    lemma_seq_lt_irrefl(x);
                }
                assert(b1[m - 1] == x);
            }
            if b1.to_set().contains(x) {
                let k = choose|k: int| 0 <= k < b1.len() && b1[k] == x;
                assert(b[k + 1] == x);
                assert(seq_lt(b[0], x));
                assert(a.to_set().contains(x));
                let m = choose|m: int| 0 <= m < a.len() && a[m] == x;
                if m == 0 {
                    lemma_seq_lt_irrefl(x);
                }
                assert(a1[m - 1] == x);
            }
        }
        assert(a1.to_set() =~= b1.to_set());
        lemma_sorted_unique(a1, b1);
        assert(a =~= seq![a[0]] + a1);
        assert(b =~= seq![b[0]] + b1);
    }
}

/// String-keyed map, iterated in ascending key order.
#[derive(Debug)]
pub struct StrMap<V> {
    entries: Vec<(String, V)>,
}

impl<V> View for StrMap<V> {
    type V = Map<Seq<char>, V>;

    open spec fn view(&self) -> Map<Seq<char>, V> {
        Map::new(
            |k: Seq<char>| self.keys().contains(k),
            |k: Seq<char>| self.values()[self.keys().index_of(k)],
        )
    }
}

impl<V> StrMap<V> {
    /// The keys, in ascending order.
    pub closed spec fn keys(&self) -> Seq<Seq<char>> {
        self.entries@.map_values(|e: (String, V)| e.0@)
    }

    /// The values, in the order of `keys`.
    pub closed spec fn values(&self) -> Seq<V> {
        self.entries@.map_values(|e: (String, V)| e.1)
    }

    #[verifier::type_invariant]
    closed spec fn inv(&self) -> bool {
        sorted_keys(self.keys())
    }

    /// The map holds its keys in ascending order.
    pub open spec fn well_ordered(&self) -> bool {
        sorted_keys(self.keys())
    }

    pub proof fn lemma_shape(&self)
        ensures
            self.keys().len() == self.values().len(),
    {
    }

    /// In a well-ordered map, position `i` holds the entry of key `keys()[i]`.
    pub proof fn lemma_index(&self, i: int)
        requires
            self.well_ordered(),
            0 <= i < self.keys().len(),
        ensures
            self@.contains_key(self.keys()[i]),
            self@[self.keys()[i]] == self.values()[i],
            self.keys().index_of(self.keys()[i]) == i,
    {
        let k = self.keys()[i];
        assert(self.keys().contains(k));
        let j = self.keys().index_of(k);
        if j != i {
            if j < i {
                lemma_seq_lt_irrefl(k);
            } else {
                lemma_seq_lt_irrefl(k);
            }
        }
    }

    /// The keys in ascending order are the sorted domain of the view.
    pub proof fn lemma_keys_sorted(&self)
        requires
            self.well_ordered(),
        ensures
            self.keys() == sorted_dom(self@.dom()),
            self.keys().to_set() == self@.dom(),
            self.keys().no_duplicates(),
            self.keys().len() == self@.dom().len(),
    {
        assert(self.keys().to_set() =~= self@.dom());
        assert forall|i: int, j: int|
            0 <= i < self.keys().len() && 0 <= j < self.keys().len() && i != j implies self.keys()[i]
            != self.keys()[j] by {
            if i < j {
                crate::text::lemma_seq_lt_asym(self.keys()[i], self.keys()[j]);
            } else {
                crate::text::lemma_seq_lt_asym(self.keys()[j], self.keys()[i]);
            }
        }
        self.keys().unique_seq_to_set();
        let ks = sorted_dom(self@.dom());
        assert(sorted_keys(ks) && ks.to_set() == self@.dom());
        lemma_sorted_unique(self.keys(), ks);
    }

    pub fn new() -> (m: Self)
        ensures
            m@ == Map::<Seq<char>, V>::empty(),
            m.keys() == Seq::<Seq<char>>::empty(),
            m.well_ordered(),
    {
        let m = StrMap { entries: Vec::new() };
        assert(m.keys() =~= Seq::<Seq<char>>::empty());
        assert(m@ =~= Map::<Seq<char>, V>::empty());
        m
    }

    pub fn len(&self) -> (n: usize)
        ensures
            n == self.keys().len(),
            self.well_ordered(),
    {
        proof {
            use_type_invariant(self);
        }
        self.entries.len()
    }

    pub fn is_empty(&self) -> (b: bool)
        ensures
            b == (self.keys().len() == 0),
            b == (self@ == Map::<Seq<char>, V>::empty()),
    {
        proof {
            if self.keys().len() > 0 {
                assert(self@.contains_key(self.keys()[0]));
            } else {
                assert(self@ =~= Map::<Seq<char>, V>::empty());
            }
        }
        self.entries.len() == 0
    }

    /// Key at position `i` in ascending order.
    pub fn key_at(&self, i: usize) -> (k: &String)
        requires
            i < self.keys().len(),
        ensures
            k@ == self.keys()[i as int],
    {
        &self.entries[i].0
    }

    /// Value at position `i` in ascending key order.
    pub fn value_at(&self, i: usize) -> (v: &V)
        requires
            i < self.keys().len(),
        ensures
            *v == self.values()[i as int],
    {
        &self.entries[i].1
    }

    /// Position of `k`, if present.
    pub fn position(&self, k: &Vec<char>) -> (r: Option<usize>)
        ensures
            r matches Some(i) ==> i < self.keys().len() && self.keys()[i as int] == k@,
            r is None ==> !self@.contains_key(k@),
    {
        let mut i: usize = 0;
        while i < self.entries.len()
            invariant
                i <= self.entries.len(),
                forall|j: int| 0 <= j < i ==> self.keys()[j] != k@,
            decreases self.entries.len() - i,
        {
            let ki = str_chars(self.entries[i].0.as_str());
            if chars_eq(&ki, k) {
                return Some(i);
            }
            i += 1;
        }
        None
    }

    /// `BTreeMap::get`.
    pub fn get(&self, k: &str) -> (r: Option<&V>)
        ensures
            r matches Some(v) ==> self@.contains_key(k@) && *v == self@[k@],
            r is None ==> !self@.contains_key(k@),
    {
        proof {
            use_type_invariant(self);
        }
        let kc = str_chars(k);
        match self.position(&kc) {
            Some(i) => {
                proof {
                    self.lemma_index(i as int);
                }
                Some(&self.entries[i].1)
            },
            None => None,
        }
    }

    /// `BTreeMap::contains_key`.
    pub fn contains_key(&self, k: &str) -> (b: bool)
        ensures
            b == self@.contains_key(k@),
    {
        let kc = str_chars(k);
        self.position(&kc).is_some()
    }

    proof fn lemma_view_after_update(old_m: &Self, new_m: &Self, i: int, k: Seq<char>, v: V)
        requires
            sorted_keys(old_m.keys()),
            0 <= i < old_m.keys().len(),
            old_m.keys()[i] == k,
            new_m.keys() == old_m.keys(),
            new_m.values() == old_m.values().update(i, v),
        ensures
            new_m@ == old_m@.insert(k, v),
    {
        assert forall|key: Seq<char>| #[trigger] new_m@.contains_key(key) == old_m@.insert(
            k,
            v,
        ).contains_key(key) by {
            if key == k {
                assert(old_m.keys()[i] == key);
            }
        }
        assert forall|key: Seq<char>| new_m@.contains_key(key) implies #[trigger] new_m@[key]
            == old_m@.insert(k, v)[key] by {
            let j = new_m.keys().index_of(key);
            assert(new_m.keys().contains(key));
            old_m.lemma_index(j);
            if key == k {
                old_m.lemma_index(i);
            }
        }
        assert(new_m@ =~= old_m@.insert(k, v));
    }

    /// `BTreeMap::insert`: sets the value of `k`, keeping the keys ordered.
    pub fn insert(&mut self, k: String, v: V)
        ensures
            final(self)@ == old(self)@.insert(k@, v),
            final(self).well_ordered(),
    {
        proof {
            use_type_invariant(&*self);
        }
        let kc = str_chars(k.as_str());
        let mut i: usize = 0;
        let n = self.entries.len();
        while i < n
            invariant
                n == self.entries.len(),
                i <= n,
                sorted_keys(self.keys()),
                forall|j: int| 0 <= j < i ==> seq_lt(#[trigger] self.keys()[j], kc@),
            ensures
                i <= n,
                forall|j: int| 0 <= j < i ==> seq_lt(#[trigger] self.keys()[j], kc@),
                i < n ==> !seq_lt(self.keys()[i as int], kc@),
            decreases n - i,
        {
            let ki = str_chars(self.entries[i].0.as_str());
            if !chars_lt(&ki, &kc) {
                break;
            }
            i += 1;
        }
        let ghost old_m = *self;
        let mut entries = Vec::new();
        std::mem::swap(&mut entries, &mut self.entries);
        if i < n && chars_eq(&str_chars(entries[i].0.as_str()), &kc) {
            entries.set(i, (k, v));
            let ghost new_m = StrMap { entries: entries };
            proof {
                assert(new_m.keys() =~= old_m.keys());
                assert(new_m.values() =~= old_m.values().update(i as int, v));
                Self::lemma_view_after_update(&old_m, &new_m, i as int, kc@, v);
            }
            self.entries = entries;
        } else {
            entries.insert(i, (k, v));
            let ghost new_m = StrMap { entries: entries };
            proof {
                assert(new_m.keys() =~= old_m.keys().insert(i as int, kc@));
                assert(new_m.values() =~= old_m.values().insert(i as int, v));
                if i < n {
                    lemma_seq_lt_total(old_m.keys()[i as int], kc@);
                    assert(seq_lt(kc@, old_m.keys()[i as int]));
                }
                assert forall|j: int| i <= j < n implies seq_lt(kc@, #[trigger] old_m.keys()[j]) by {
                    if j > i {
                        lemma_seq_lt_trans(kc@, old_m.keys()[i as int], old_m.keys()[j]);
                    }
                }
                assert forall|a: int, b: int|
                    0 <= a < b < new_m.keys().len() implies seq_lt(
                    new_m.keys()[a],
                    new_m.keys()[b],
                ) by {
                    if a < i && b > i {
                        assert(seq_lt(kc@, old_m.keys()[b - 1]));
                        lemma_seq_lt_trans(old_m.keys()[a], kc@, old_m.keys()[b - 1]);
                    }
                }
                assert forall|key: Seq<char>| #[trigger] new_m@.contains_key(key)
                    == old_m@.insert(kc@, v).contains_key(key) by {
                    if new_m.keys().contains(key) {
                        let j = new_m.keys().index_of(key);
                        if j < i {
                            assert(old_m.keys()[j] == key);
                        } else if j > i {
                            assert(old_m.keys()[j - 1] == key);
                        }
                    }
                    if old_m.keys().contains(key) {
                        let j = old_m.keys().index_of(key);
                        if j < i {
                            assert(new_m.keys()[j] == key);
                        } else {
                            assert(new_m.keys()[j + 1] == key);
                        }
                    }
                    if key == kc@ {
                        assert(new_m.keys()[i as int] == key);
                    }
                }
                assert forall|key: Seq<char>| new_m@.contains_key(key) implies #[trigger] new_m@[key]
                    == old_m@.insert(kc@, v)[key] by {
                    let j = new_m.keys().index_of(key);
                    new_m.lemma_index(j);
                    if j < i {
                        old_m.lemma_index(j);
                        lemma_seq_lt_irrefl(kc@);
                    } else if j > i {
                        old_m.lemma_index(j - 1);
                        assert(seq_lt(kc@, key));
                        lemma_seq_lt_irrefl(kc@);
                    }
                }
                assert(new_m@ =~= old_m@.insert(kc@, v));
            }
            self.entries = entries;
        }
    }
}

impl<V: Copy> StrMap<V> {
    /// A copy of the map.
    pub fn copied(&self) -> (r: Self)
        ensures
            r@ == self@,
            r.keys() == self.keys(),
    {
        proof {
            use_type_invariant(self);
        }
        let mut entries: Vec<(String, V)> = Vec::new();
        let mut i: usize = 0;
        while i < self.entries.len()
            invariant
                i <= self.entries.len(),
                entries@.len() == i,
                forall|j: int| 0 <= j < i ==> (#[trigger] entries@[j]).0@ == self.entries@[j].0@
                    && entries@[j].1 == self.entries@[j].1,
            decreases self.entries.len() - i,
        {
            let k = self.entries[i].0.clone();
            let v = self.entries[i].1;
            entries.push((k, v));
            i += 1;
        }
        proof {
            assert(entries@.map_values(|e: (String, V)| e.0@) =~= self.keys());
        }
        let r = StrMap { entries };
        proof {
            assert(r.keys() =~= self.keys());
            assert(r.values() =~= self.values());
            assert(r@ =~= self@);
        }
        r
    }
}

impl StrMap<String> {
    /// A copy of the map.
    pub fn duplicate(&self) -> (r: Self)
        ensures
            r@ == self@,
            r.keys() == self.keys(),
    {
        proof {
            use_type_invariant(self);
        }
        let mut entries: Vec<(String, String)> = Vec::new();
        let mut i: usize = 0;
        while i < self.entries.len()
            invariant
                i <= self.entries.len(),
                entries@.len() == i,
                forall|j: int| 0 <= j < i ==> (#[trigger] entries@[j]).0@ == self.entries@[j].0@
                    && entries@[j].1 == self.entries@[j].1,
            decreases self.entries.len() - i,
        {
            let k = self.entries[i].0.clone();
            let v = self.entries[i].1.clone();
            entries.push((k, v));
            i += 1;
        }
        proof {
            assert(entries@.map_values(|e: (String, String)| e.0@) =~= self.keys());
        }
        let r = StrMap { entries };
        proof {
            assert(r.keys() =~= self.keys());
            assert(r.values() =~= self.values());
            assert(r@ =~= self@);
        }
        r
    }
}

} // verus!
