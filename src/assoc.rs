//! A finite map kept as a list of entries with distinct keys.
//!
//! The keys used in logs are strings (paths and pile names), so the map is a
//! vector of pairs whose abstract value is a `Map` over the keys' views.

use vstd::prelude::*;

verus! {

/// A key that can be compared and copied by its view.
pub trait ViewKey: View + Sized {
    fn same_key(&self, other: &Self) -> (r: bool)
        ensures
            r == (self@ == other@),
    ;

    fn copy_key(&self) -> (r: Self)
        ensures
            r@ == self@,
    ;
}

/// A value that can be compared by its view.
pub trait ViewEq: View + Sized {
    fn view_eq(&self, other: &Self) -> (r: bool)
        ensures
            r == (self@ == other@),
    ;
}

impl ViewKey for String {
    fn same_key(&self, other: &Self) -> (r: bool) {
        self.eq(other)
    }

    fn copy_key(&self) -> (r: Self) {
        self.clone()
    }
}

/// The map that a list of entries stands for; a later entry wins.
pub open spec fn map_of<K: View, V: View>(s: Seq<(K, V)>) -> Map<K::V, V::V>
    decreases s.len(),
{
    if s.len() == 0 {
        Map::empty()
    } else {
        map_of(s.drop_last()).insert(s.last().0@, s.last().1@)
    }
}

/// No two entries share a key.
pub open spec fn keys_distinct<K: View, V>(s: Seq<(K, V)>) -> bool {
    forall|i: int, j: int| 0 <= i < j < s.len() ==> s[i].0@ != s[j].0@
}

/// Each entry of a list with distinct keys is in its map.
pub proof fn lemma_map_of_entry<K: View, V: View>(s: Seq<(K, V)>, i: int)
    requires
        keys_distinct(s),
        0 <= i < s.len(),
    ensures
        map_of(s).contains_key(s[i].0@),
        map_of(s)[s[i].0@] == s[i].1@,
    decreases s.len(),
{
    if i < s.len() - 1 {
        lemma_map_of_entry(s.drop_last(), i);
    }
}

/// Each key of the map comes from an entry of the list.
pub proof fn lemma_map_of_key<K: View, V: View>(s: Seq<(K, V)>, k: K::V) -> (i: int)
    requires
        map_of(s).contains_key(k),
    ensures
        0 <= i < s.len(),
        s[i].0@ == k,
    decreases s.len(),
{
    if s.last().0@ == k {
        s.len() - 1
    } else {
        lemma_map_of_key(s.drop_last(), k)
    }
}

/// Replacing the value of one entry updates that key of the map.
pub proof fn lemma_map_of_update<K: View, V: View>(s: Seq<(K, V)>, i: int, e: (K, V))
    requires
        keys_distinct(s),
        0 <= i < s.len(),
        e.0@ == s[i].0@,
    ensures
        keys_distinct(s.update(i, e)),
        map_of(s.update(i, e)) == map_of(s).insert(e.0@, e.1@),
    decreases s.len(),
{
    let t = s.update(i, e);
    if i == s.len() - 1 {
        assert(t.drop_last() == s.drop_last());
        if s.len() > 1 {
            assert(!map_of(s.drop_last()).contains_key(e.0@)) by {
                if map_of(s.drop_last()).contains_key(e.0@) {
                    let j = lemma_map_of_key(s.drop_last(), e.0@);
                }
            }
        }
        assert(map_of(t) =~= map_of(s).insert(e.0@, e.1@));
    } else {
        assert(t.drop_last() == s.drop_last().update(i, e));
        lemma_map_of_update(s.drop_last(), i, e);
        assert(map_of(t) =~= map_of(s).insert(e.0@, e.1@));
    }
}

/// A finite map from keys to values, kept as entries with distinct keys.
#[derive(Debug)]
pub struct AssocList<K: View, V: View> {
    items: Vec<(K, V)>,
}

impl<K: View, V: View> View for AssocList<K, V> {
    type V = Map<K::V, V::V>;

    closed spec fn view(&self) -> Map<K::V, V::V> {
        map_of(self.items@)
    }
}

impl<K: View, V: View> AssocList<K, V> {
    #[verifier::type_invariant]
    closed spec fn inv(&self) -> bool {
        keys_distinct(self.items@)
    }
}

impl<K: ViewKey, V: View> AssocList<K, V> {
    /// The entries in their stored order.
    pub closed spec fn entries(&self) -> Seq<(K, V)> {
        self.items@
    }

    /// An empty map.
    pub fn new() -> (r: Self)
        ensures
            r@ == Map::<K::V, V::V>::empty(),
    {
        AssocList { items: Vec::new() }
    }

    /// The number of keys.
    pub fn len(&self) -> (r: usize)
        ensures
            r == self.entries().len(),
            r == self@.dom().len(),
            keys_distinct(self.entries()),
            map_of(self.entries()) == self@,
            self@.dom().finite(),
    {
        proof {
            use_type_invariant(self);
            self.lemma_dom_len();
        }
        self.items.len()
    }

    proof fn lemma_dom_len(&self)
        requires
            keys_distinct(self.items@),
        ensures
            self@.dom().len() == self.items@.len(),
            self@.dom().finite(),
    {
        lemma_map_of_len(self.items@);
    }

    /// The entry at a position of the stored order.
    pub fn entry(&self, i: usize) -> (r: &(K, V))
        requires
            i < self.entries().len(),
        ensures
            *r == self.entries()[i as int],
    {
        &self.items[i]
    }

    /// The position of a key, if it has one.
    pub fn find(&self, k: &K) -> (r: Option<usize>)
        ensures
            r matches Some(i) ==> i < self.entries().len() && self.entries()[i as int].0@ == k@
                && self@.contains_key(k@) && self@[k@] == self.entries()[i as int].1@,
            r is None ==> !self@.contains_key(k@),
    {
        proof {
            use_type_invariant(self);
        }
        let mut i: usize = 0;
        while i < self.items.len()
            invariant
                i <= self.items@.len(),
                keys_distinct(self.items@),
                forall|j: int| 0 <= j < i ==> self.items@[j].0@ != k@,
            decreases self.items@.len() - i,
        {
            if self.items[i].0.same_key(k) {
                proof {
                    lemma_map_of_entry(self.items@, i as int);
                }
                return Some(i);
            }
            i = i + 1;
        }
        proof {
            if self@.contains_key(k@) {
                let j = lemma_map_of_key(self.items@, k@);
            }
        }
        None
    }

    /// The value of a key, if it has one.
    pub fn get(&self, k: &K) -> (r: Option<&V>)
        ensures
            r matches Some(v) ==> self@.contains_key(k@) && self@[k@] == v@,
            r is None ==> !self@.contains_key(k@),
    {
        match self.find(k) {
            Some(i) => Some(&self.items[i].1),
            None => None,
        }
    }

    /// Sets the value of a key, adding the key if it is new.
    pub fn insert(&mut self, k: K, v: V)
        ensures
            final(self)@ == old(self)@.insert(k@, v@),
    {
        proof {
            use_type_invariant(&*self);
        }
        let found = self.find(&k);
        let mut taken = AssocList { items: Vec::new() };
        std::mem::swap(self, &mut taken);
        let mut items = taken.items;
        match found {
            Some(i) => {
                proof {
                    lemma_map_of_update(items@, i as int, (k, v));
                }
                items.set(i, (k, v));
            },
            None => {
                proof {
                    assert(items@.push((k, v)).drop_last() == items@);
                    assert forall|a: int, b: int|
                        0 <= a < b < items@.len() + 1 implies items@.push((k, v))[a].0@
                        != items@.push((k, v))[b].0@ by {
                        if b == items@.len() {
                            lemma_map_of_entry(items@, a);
                        }
                    }
                }
                items.push((k, v));
            },
        }
        *self = AssocList { items };
    }

    /// Removes a key and hands back its value, if it had one.
    pub fn take(&mut self, k: &K) -> (r: Option<V>)
        ensures
            final(self)@ == old(self)@.remove(k@),
            r matches Some(v) ==> old(self)@.contains_key(k@) && v@ == old(self)@[k@],
            r is None ==> !old(self)@.contains_key(k@),
    {
        proof {
            use_type_invariant(&*self);
        }
        let found = self.find(k);
        let mut taken = AssocList { items: Vec::new() };
        std::mem::swap(self, &mut taken);
        let mut items = taken.items;
        let r = match found {
            Some(i) => {
                proof {
                    lemma_map_of_remove(items@, i as int);
                }
                let e = items.remove(i);
                Some(e.1)
            },
            None => {
                proof {
                    assert(map_of(items@) =~= map_of(items@).remove(k@));
                }
                None
            },
        };
        *self = AssocList { items };
        r
    }

    /// Takes the list apart into its entries.
    pub fn into_entries(self) -> (r: Vec<(K, V)>)
        ensures
            r@ == self.entries(),
            keys_distinct(r@),
            map_of(r@) == self@,
    {
        proof {
            use_type_invariant(&self);
        }
        self.items
    }
}

/// Removing an entry removes its key from the map.
pub proof fn lemma_map_of_remove<K: View, V: View>(s: Seq<(K, V)>, i: int)
    requires
        keys_distinct(s),
        0 <= i < s.len(),
    ensures
        keys_distinct(s.remove(i)),
        map_of(s.remove(i)) == map_of(s).remove(s[i].0@),
    decreases s.len(),
{
    let t = s.remove(i);
    assert forall|a: int, b: int| 0 <= a < b < t.len() implies t[a].0@ != t[b].0@ by {
        if a >= i {
            assert(t[a] == s[a + 1]);
        }
        if b >= i {
            assert(t[b] == s[b + 1]);
        }
    }
    if i == s.len() - 1 {
        assert(t == s.drop_last());
        assert(!map_of(s.drop_last()).contains_key(s[i].0@)) by {
            if map_of(s.drop_last()).contains_key(s[i].0@) {
                let j = lemma_map_of_key(s.drop_last(), s[i].0@);
            }
        }
        assert(map_of(t) =~= map_of(s).remove(s[i].0@));
    } else {
        assert(t.drop_last() == s.drop_last().remove(i));
        assert(t.last() == s.last());
        lemma_map_of_remove(s.drop_last(), i);
        assert(map_of(t) =~= map_of(s).remove(s[i].0@));
    }
}

/// Appending an entry with a new key adds that key to the map.
pub proof fn lemma_map_of_push<K: View, V: View>(s: Seq<(K, V)>, e: (K, V))
    requires
        keys_distinct(s),
        !map_of(s).contains_key(e.0@),
    ensures
        keys_distinct(s.push(e)),
        map_of(s.push(e)) == map_of(s).insert(e.0@, e.1@),
{
    assert(s.push(e).drop_last() == s);
    assert forall|a: int, b: int| 0 <= a < b < s.len() + 1 implies s.push(e)[a].0@ != s.push(e)[b].0@ by {
        if b == s.len() {
            lemma_map_of_entry(s, a);
        }
    }
}

/// A prefix one entry longer adds that entry's key, which the shorter prefix
/// does not hold.
pub proof fn lemma_map_of_take<K: View, V: View>(s: Seq<(K, V)>, i: int)
    requires
        keys_distinct(s),
        0 <= i < s.len(),
    ensures
        keys_distinct(s.take(i)),
        !map_of(s.take(i)).contains_key(s[i].0@),
        map_of(s.take(i + 1)) == map_of(s.take(i)).insert(s[i].0@, s[i].1@),
{
    assert(s.take(i + 1).drop_last() == s.take(i));
    if map_of(s.take(i)).contains_key(s[i].0@) {
        let j = lemma_map_of_key(s.take(i), s[i].0@);
        assert(s[j].0@ == s[i].0@);
    }
}

/// A list with distinct keys has as many keys as entries.
pub proof fn lemma_map_of_len<K: View, V: View>(s: Seq<(K, V)>)
    requires
        keys_distinct(s),
    ensures
        map_of(s).dom().finite(),
        map_of(s).dom().len() == s.len(),
    decreases s.len(),
{
    if s.len() > 0 {
        lemma_map_of_len(s.drop_last());
        assert(!map_of(s.drop_last()).contains_key(s.last().0@)) by {
            if map_of(s.drop_last()).contains_key(s.last().0@) {
                let j = lemma_map_of_key(s.drop_last(), s.last().0@);
            }
        }
    }
}

impl<K: ViewKey, V: ViewEq> AssocList<K, V> {
    /// Whether every entry of this map is in `other` with an equal value.
    fn included_in(&self, other: &Self) -> (r: bool)
        ensures
            r == (forall|k: K::V| #[trigger] self@.contains_key(k) ==> other@.contains_key(k)
                && other@[k] == self@[k]),
    {
        proof {
            use_type_invariant(self);
        }
        let mut i: usize = 0;
        while i < self.items.len()
            invariant
                i <= self.items@.len(),
                keys_distinct(self.items@),
                forall|j: int|
                    0 <= j < i ==> other@.contains_key(#[trigger] self.items@[j].0@) && other@[self.items@[j].0@]
                        == self.items@[j].1@,
            decreases self.items@.len() - i,
        {
            let entry = &self.items[i];
            match other.get(&entry.0) {
                Some(v) => {
                    if !v.view_eq(&entry.1) {
                        proof {
                            lemma_map_of_entry(self.items@, i as int);
                            assert(self@.contains_key(entry.0@));
                        }
                        return false;
                    }
                },
                None => {
                    proof {
                        lemma_map_of_entry(self.items@, i as int);
                        assert(self@.contains_key(entry.0@));
                    }
                    return false;
                },
            }
            i = i + 1;
        }
        proof {
            assert forall|k: K::V| #[trigger] self@.contains_key(k) implies other@.contains_key(k)
                && other@[k] == self@[k] by {
                let j = lemma_map_of_key(self.items@, k);
                lemma_map_of_entry(self.items@, j);
            }
        }
        true
    }

    /// Whether the two maps are equal.
    pub fn same_as(&self, other: &Self) -> (r: bool)
        ensures
            r == (self@ == other@),
    {
        let a = self.included_in(other);
        let b = other.included_in(self);
        proof {
            if a && b {
                assert(self@ =~= other@);
            }
        }
        a && b
    }
}

} // verus!
