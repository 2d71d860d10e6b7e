//! A map keyed by strings that remembers the order in which keys first
//! arrived; its view is a `Map` from character sequences to values.

use crate::text::str_eq;
use vstd::prelude::*;

verus! {

/// The map that a sequence of `(key, value)` entries denotes, later entries
/// taking precedence.
pub open spec fn map_of<V>(s: Seq<(String, V)>) -> Map<Seq<char>, V>
    decreases s.len(),
{
    if s.len() == 0 {
        Map::empty()
    } else {
        map_of(s.drop_last()).insert(s.last().0@, s.last().1)
    }
}

/// No key occurs twice among the entries.
pub open spec fn distinct_keys<V>(s: Seq<(String, V)>) -> bool {
    forall|i: int, j: int|
        0 <= i < s.len() && 0 <= j < s.len() && i != j ==> #[trigger] s[i].0@ != #[trigger] s[j].0@
}

/// A key is in the denoted map exactly when some entry has it.
pub proof fn lemma_map_of_dom<V>(s: Seq<(String, V)>, k: Seq<char>)
    ensures
        map_of(s).dom().contains(k) <==> exists|i: int| 0 <= i < s.len() && #[trigger] s[i].0@ == k,
    decreases s.len(),
{
    if s.len() > 0 {
        lemma_map_of_dom(s.drop_last(), k);
        if map_of(s.drop_last()).dom().contains(k) {
            let i = choose|i: int| 0 <= i < s.drop_last().len() && #[trigger] s.drop_last()[i].0@ == k;
            assert(s[i].0@ == k);
        }
        if exists|i: int| 0 <= i < s.len() && #[trigger] s[i].0@ == k {
            let i = choose|i: int| 0 <= i < s.len() && #[trigger] s[i].0@ == k;
            if i < s.len() - 1 {
                assert(s.drop_last()[i].0@ == k);
            }
        }
    }
}

/// With distinct keys, the value of a key is that of the one entry holding it.
pub proof fn lemma_map_of_value<V>(s: Seq<(String, V)>, i: int)
    requires
        distinct_keys(s),
        0 <= i < s.len(),
    ensures
        map_of(s).dom().contains(s[i].0@),
        map_of(s)[s[i].0@] == s[i].1,
    decreases s.len(),
{
    if i < s.len() - 1 {
        let t = s.drop_last();
        assert(t[i] == s[i]);
        assert(distinct_keys(t)) by {
            assert forall|a: int, b: int|
                0 <= a < t.len() && 0 <= b < t.len() && a != b implies #[trigger] t[a].0@
                != #[trigger] t[b].0@ by {
                assert(t[a] == s[a] && t[b] == s[b]);
            }
        }
        lemma_map_of_value(t, i);
        assert(s[i].0@ != s[s.len() - 1].0@);
    }
}

/// Replacing the value of the entry at `i` updates that key only.
pub proof fn lemma_map_of_update<V>(s: Seq<(String, V)>, i: int, v: V)
    requires
        0 <= i < s.len(),
        distinct_keys(s),
    ensures
        map_of(s.update(i, (s[i].0, v))) == map_of(s).insert(s[i].0@, v),
    decreases s.len(),
{
    let u = s.update(i, (s[i].0, v));
    if i == s.len() - 1 {
        assert(u.drop_last() =~= s.drop_last());
        assert(map_of(s).insert(s[i].0@, v) =~= map_of(s.drop_last()).insert(s[i].0@, v));
    } else {
        let t = s.drop_last();
        assert(distinct_keys(t)) by {
            assert forall|a: int, b: int|
                0 <= a < t.len() && 0 <= b < t.len() && a != b implies #[trigger] t[a].0@
                != #[trigger] t[b].0@ by {
                assert(t[a] == s[a] && t[b] == s[b]);
            }
        }
        lemma_map_of_update(t, i, v);
        assert(u.drop_last() =~= t.update(i, (t[i].0, v)));
        assert(s[i].0@ != s.last().0@);
        assert(map_of(u) =~= map_of(s).insert(s[i].0@, v));
    }
}

/// An ordered map from strings to values.
#[derive(Debug)]
pub struct StrMap<V> {
    entries: Vec<(String, V)>,
}

impl<V> View for StrMap<V> {
    type V = Map<Seq<char>, V>;

    closed spec fn view(&self) -> Map<Seq<char>, V> {
        map_of(self.entries@)
    }
}

impl<V> StrMap<V> {
    #[verifier::type_invariant]
    closed spec fn keys_are_distinct(self) -> bool {
        distinct_keys(self.entries@)
    }

    /// The key of the `i`-th entry, in arrival order.
    pub closed spec fn key_at_spec(&self, i: int) -> Seq<char> {
        self.entries@[i].0@
    }

    /// The number of entries.
    pub closed spec fn len_spec(&self) -> nat {
        self.entries@.len()
    }

    /// The keys in arrival order.
    pub closed spec fn keys(&self) -> Seq<Seq<char>> {
        Seq::new(self.entries@.len(), |i: int| self.entries@[i].0@)
    }

    /// The keys, in order, are exactly the keys of the view, each once.
    proof fn lemma_keys(&self)
        requires
            distinct_keys(self.entries@),
        ensures
            self.keys().len() == self.len_spec(),
            forall|i: int, j: int|
                0 <= i < self.keys().len() && 0 <= j < self.keys().len() && i != j
                    ==> #[trigger] self.keys()[i] != #[trigger] self.keys()[j],
            forall|i: int|
                0 <= i < self.keys().len() ==> self@.dom().contains(#[trigger] self.keys()[i]),
            forall|k: Seq<char>| #[trigger]
                self@.dom().contains(k) ==> exists|i: int|
                    0 <= i < self.keys().len() && #[trigger] self.keys()[i] == k,
            self@.dom().finite(),
            self@.dom().len() == self.len_spec(),
    {
        assert forall|i: int| 0 <= i < self.keys().len() implies self@.dom().contains(
            #[trigger] self.keys()[i],
        ) by {
            lemma_map_of_dom(self.entries@, self.keys()[i]);
            assert(self.entries@[i].0@ == self.keys()[i]);
        }
        assert forall|k: Seq<char>| #[trigger] self@.dom().contains(k) implies exists|i: int|
            0 <= i < self.keys().len() && #[trigger] self.keys()[i] == k by {
            lemma_map_of_dom(self.entries@, k);
            let i = choose|i: int| 0 <= i < self.entries@.len() && #[trigger] self.entries@[i].0@ == k;
            assert(self.keys()[i] == k);
        }
        lemma_dom_len(self.entries@);
    }

    /// An empty map.
    pub fn new() -> (m: Self)
        ensures
            m@ == Map::<Seq<char>, V>::empty(),
            m.len_spec() == 0,
    {
        StrMap { entries: Vec::new() }
    }

    /// The number of keys; the keys, in arrival order, are exactly the keys
    /// of the view, each once.
    pub fn len(&self) -> (n: usize)
        ensures
            n == self.len_spec(),
            n == self@.len(),
            self.keys().len() == self.len_spec(),
            forall|i: int, j: int|
                0 <= i < self.keys().len() && 0 <= j < self.keys().len() && i != j
                    ==> #[trigger] self.keys()[i] != #[trigger] self.keys()[j],
            forall|i: int|
                0 <= i < self.keys().len() ==> self@.dom().contains(#[trigger] self.keys()[i]),
            forall|k: Seq<char>| #[trigger]
                self@.dom().contains(k) ==> exists|i: int|
                    0 <= i < self.keys().len() && #[trigger] self.keys()[i] == k,
            self@.dom().finite(),
    {
        proof {
            use_type_invariant(self);
            self.lemma_keys();
        }
        self.entries.len()
    }

    /// `true` when the map holds no key.
    pub fn is_empty(&self) -> (b: bool)
        ensures
            b == (self@.len() == 0),
            b == (self.len_spec() == 0),
    {
        proof {
            use_type_invariant(self);
            self.lemma_keys();
        }
        self.entries.len() == 0
    }

    /// Position of key `k` among the entries, if present.
    fn position(&self, k: &str) -> (r: Option<usize>)
        ensures
            match r {
                Some(i) => i < self.entries@.len() && self.entries@[i as int].0@ == k@,
                None => forall|i: int| 0 <= i < self.entries@.len() ==> self.entries@[i].0@ != k@,
            },
    {
        let mut i: usize = 0;
        while i < self.entries.len()
            invariant
                i <= self.entries@.len(),
                forall|j: int| 0 <= j < i ==> self.entries@[j].0@ != k@,
            decreases self.entries@.len() - i,
        {
            if str_eq(self.entries[i].0.as_str(), k) {
                return Some(i);
            }
            i = i + 1;
        }
        None
    }

    /// The value of key `k`, if present.
    pub fn get(&self, k: &str) -> (r: Option<&V>)
        ensures
            match r {
                Some(v) => self@.contains_key(k@) && *v == self@[k@],
                None => !self@.contains_key(k@),
            },
    {
        proof {
            use_type_invariant(self);
            lemma_map_of_dom(self.entries@, k@);
        }
        match self.position(k) {
            Some(i) => {
                proof {
                    lemma_map_of_value(self.entries@, i as int);
                }
                Some(&self.entries[i].1)
            },
            None => None,
        }
    }

    /// `true` when key `k` is present.
    pub fn contains_key(&self, k: &str) -> (b: bool)
        ensures
            b == self@.contains_key(k@),
    {
        self.get(k).is_some()
    }

    /// The key of the `i`-th entry, in arrival order.
    pub fn key_at(&self, i: usize) -> (k: &String)
        requires
            i < self.len_spec(),
        ensures
            k@ == self.keys()[i as int],
    {
        &self.entries[i].0
    }

    /// The value of the `i`-th entry, in arrival order.
    pub fn value_at(&self, i: usize) -> (v: &V)
        requires
            i < self.len_spec(),
        ensures
            self@.contains_key(self.keys()[i as int]),
            *v == self@[self.keys()[i as int]],
    {
        proof {
            use_type_invariant(self);
            lemma_map_of_value(self.entries@, i as int);
        }
        &self.entries[i].1
    }

    /// Sets key `k` to `v`: a present key keeps its position, a new key goes
    /// last. Gives back the value that `k` had, if any.
    pub fn insert(&mut self, k: String, v: V) -> (r: Option<V>)
        ensures
            final(self)@ == old(self)@.insert(k@, v),
            old(self)@.contains_key(k@) ==> final(self).keys() == old(self).keys(),
            !old(self)@.contains_key(k@) ==> final(self).keys() == old(self).keys().push(k@),
            match r {
                Some(x) => old(self)@.contains_key(k@) && x == old(self)@[k@],
                None => !old(self)@.contains_key(k@),
            },
    {
        proof {
            use_type_invariant(&*self);
            lemma_map_of_dom(self.entries@, k@);
        }
        match self.position(k.as_str()) {
            Some(i) => {
                let ghost old_entries = self.entries@;
                let mut entries = Vec::new();
                std::mem::swap(&mut entries, &mut self.entries);
                let (key, previous) = entries.remove(i);
                entries.insert(i, (key, v));
                proof {
                    lemma_map_of_value(old_entries, i as int);
                    lemma_map_of_update(old_entries, i as int, v);
                    assert(entries@ =~= old_entries.update(i as int, (old_entries[i as int].0, v)));
                    assert(distinct_keys(entries@)) by {
                        assert forall|a: int, b: int|
                            0 <= a < entries@.len() && 0 <= b < entries@.len() && a
                                != b implies #[trigger] entries@[a].0@ != #[trigger] entries@[b].0@ by {
                            assert(old_entries[a].0@ == entries@[a].0@);
                            assert(old_entries[b].0@ == entries@[b].0@);
                        }
                    }
                }
                self.entries = entries;
                assert(self.keys() =~= old(self).keys());
                Some(previous)
            },
            None => {
                let ghost old_entries = self.entries@;
                let mut entries = Vec::new();
                std::mem::swap(&mut entries, &mut self.entries);
                entries.push((k, v));
                proof {
                    assert(entries@.drop_last() =~= old_entries);
                    assert(distinct_keys(entries@)) by {
                        assert forall|a: int, b: int|
                            0 <= a < entries@.len() && 0 <= b < entries@.len() && a
                                != b implies #[trigger] entries@[a].0@ != #[trigger] entries@[b].0@ by {
                            if a < old_entries.len() && b < old_entries.len() {
                                assert(old_entries[a] == entries@[a]);
                                assert(old_entries[b] == entries@[b]);
                            } else if a < old_entries.len() {
                                assert(old_entries[a] == entries@[a]);
                            } else {
                                assert(old_entries[b] == entries@[b]);
                            }
                        }
                    }
                }
                self.entries = entries;
                assert(self.keys() =~= old(self).keys().push(k@));
                None
            },
        }
    }
}

impl<V: Clone> Clone for StrMap<V> {
    /// A copy with the same keys, in the same order, each value cloned.
    fn clone(&self) -> (r: Self)
        ensures
            r.keys() == self.keys(),
            r@.dom() == self@.dom(),
            forall|k: Seq<char>| #[trigger] r@.contains_key(k) ==> cloned::<V>(self@[k], r@[k]),
    {
        proof {
            use_type_invariant(self);
        }
        let mut entries: Vec<(String, V)> = Vec::new();
        let mut i: usize = 0;
        while i < self.entries.len()
            invariant
                i <= self.entries@.len(),
                distinct_keys(self.entries@),
                entries@.len() == i,
                forall|j: int| 0 <= j < i ==> #[trigger] entries@[j].0@ == self.entries@[j].0@,
                forall|j: int| 0 <= j < i ==> cloned::<V>(self.entries@[j].1, #[trigger] entries@[j].1),
            decreases self.entries@.len() - i,
        {
            let k = self.entries[i].0.clone();
            let v = self.entries[i].1.clone();
            entries.push((k, v));
            i = i + 1;
        }
        assert(distinct_keys(entries@)) by {
            assert forall|a: int, b: int|
                0 <= a < entries@.len() && 0 <= b < entries@.len() && a != b implies #[trigger] entries@[a].0@
                != #[trigger] entries@[b].0@ by {
                assert(entries@[a].0@ == self.entries@[a].0@);
                assert(entries@[b].0@ == self.entries@[b].0@);
            }
        }
        let r = StrMap { entries };
        assert(r.keys() =~= self.keys());
        assert forall|k: Seq<char>| r@.dom().contains(k) <==> self@.dom().contains(k) by {
            lemma_map_of_dom(r.entries@, k);
            lemma_map_of_dom(self.entries@, k);
            if r@.dom().contains(k) {
                let j = choose|j: int| 0 <= j < r.entries@.len() && #[trigger] r.entries@[j].0@ == k;
                assert(self.entries@[j].0@ == k);
            }
            if self@.dom().contains(k) {
                let j = choose|j: int| 0 <= j < self.entries@.len() && #[trigger] self.entries@[j].0@ == k;
                assert(r.entries@[j].0@ == k);
            }
        }
        assert(r@.dom() =~= self@.dom());
        assert forall|k: Seq<char>| #[trigger] r@.contains_key(k) implies cloned::<V>(self@[k], r@[k]) by {
            lemma_map_of_dom(r.entries@, k);
            let j = choose|j: int| 0 <= j < r.entries@.len() && #[trigger] r.entries@[j].0@ == k;
            lemma_map_of_value(r.entries@, j);
            lemma_map_of_value(self.entries@, j);
        }
        r
    }
}

/// The denoted map has one key per entry when keys are distinct.
proof fn lemma_dom_len<V>(s: Seq<(String, V)>)
    requires
        distinct_keys(s),
    ensures
        map_of(s).dom().finite(),
        map_of(s).dom().len() == s.len(),
    decreases s.len(),
{
    if s.len() > 0 {
        let t = s.drop_last();
        assert(distinct_keys(t)) by {
            assert forall|a: int, b: int|
                0 <= a < t.len() && 0 <= b < t.len() && a != b implies #[trigger] t[a].0@
                != #[trigger] t[b].0@ by {
                assert(t[a] == s[a] && t[b] == s[b]);
            }
        }
        lemma_dom_len(t);
        lemma_map_of_dom(t, s.last().0@);
        if map_of(t).dom().contains(s.last().0@) {
            let i = choose|i: int| 0 <= i < t.len() && #[trigger] t[i].0@ == s.last().0@;
            assert(s[i].0@ == s[s.len() - 1].0@);
        }
    }
}

} // verus!
