//! An insertion-ordered association map from string-slice keys to values.
//!
//! The argument maps of this crate need exact-match keys, last-insertion-wins
//! updates, and lookup; this small vector-backed map provides them with a
//! `Map<Seq<char>, _>` view.

use crate::segments::str_eq;
use vstd::prelude::*;

verus! {

/// The finite map denoted by an entry sequence; a later entry for the same
/// key overrides an earlier one.
pub open spec fn entries_map<'a, V: View>(s: Seq<(&'a str, V)>) -> Map<Seq<char>, V::V>
    decreases s.len(),
{
    if s.len() == 0 {
        Map::<Seq<char>, V::V>::empty()
    } else {
        entries_map(s.drop_last()).insert(s.last().0@, s.last().1@)
    }
}

/// A key is in the denoted map exactly when some entry carries it.
pub proof fn lemma_entries_map_contains<'a, V: View>(s: Seq<(&'a str, V)>, k: Seq<char>)
    ensures
        entries_map(s).contains_key(k) <==> exists|i: int| 0 <= i < s.len() && s[i].0@ == k,
    decreases s.len(),
{
    if s.len() > 0 {
        lemma_entries_map_contains(s.drop_last(), k);
        if s.last().0@ == k {
            assert(s[s.len() - 1].0@ == k);
        } else if entries_map(s).contains_key(k) {
            let i = choose|i: int|
                0 <= i < s.drop_last().len() && s.drop_last()[i].0@ == k;
            assert(s[i].0@ == k);
        } else {
            if exists|i: int| 0 <= i < s.len() && s[i].0@ == k {
                let i = choose|i: int| 0 <= i < s.len() && s[i].0@ == k;
                assert(s.drop_last()[i].0@ == k);
            }
        }
    }
}

/// The denoted map sends a key to the value of its last entry.
pub proof fn lemma_entries_map_at<'a, V: View>(s: Seq<(&'a str, V)>, i: int, k: Seq<char>)
    requires
        0 <= i < s.len(),
        s[i].0@ == k,
        forall|j: int| i < j < s.len() ==> s[j].0@ != k,
    ensures
        entries_map(s).contains_key(k),
        entries_map(s)[k] == s[i].1@,
    decreases s.len(),
{
    if i == s.len() - 1 {
    } else {
        assert(s.drop_last()[i].0@ == k);
        lemma_entries_map_at(s.drop_last(), i, k);
    }
}

/// An association map from string-slice keys to values.
///
/// Keys match exactly (case-sensitively); inserting an existing key
/// overwrites its value.
#[derive(Debug, Clone)]
pub struct KeyMap<'a, V> {
    entries: Vec<(&'a str, V)>,
}

impl<'a, V: View> View for KeyMap<'a, V> {
    type V = Map<Seq<char>, V::V>;

    closed spec fn view(&self) -> Map<Seq<char>, V::V> {
        entries_map(self.entries@)
    }
}

impl<'a, V: View> KeyMap<'a, V> {
    /// Each key occurs in at most one entry.
    pub closed spec fn wf(&self) -> bool {
        forall|i: int, j: int|
            0 <= i < j < self.entries@.len() ==> self.entries@[i].0@ != self.entries@[j].0@
    }

    /// The entry sequence backing this map, in insertion order.
    pub closed spec fn entry_seq(&self) -> Seq<(&'a str, V)> {
        self.entries@
    }

    /// Creates an empty map.
    pub fn new() -> (r: Self)
        ensures
            r@ == Map::<Seq<char>, V::V>::empty(),
            r.wf(),
    {
        KeyMap { entries: Vec::new() }
    }

    /// The number of keys in the map.
    pub fn len(&self) -> (r: usize)
        requires
            self.wf(),
        ensures
            r == self@.dom().len(),
    {
        proof {
            self.lemma_len(self.entries@);
        }
        self.entries.len()
    }

    /// With distinct keys, the denoted map has one key per entry.
    proof fn lemma_len(&self, s: Seq<(&'a str, V)>)
        requires
            forall|i: int, j: int| 0 <= i < j < s.len() ==> s[i].0@ != s[j].0@,
        ensures
            entries_map(s).dom().len() == s.len(),
            entries_map(s).dom().finite(),
        decreases s.len(),
    {
        if s.len() > 0 {
            self.lemma_len(s.drop_last());
            lemma_entries_map_contains(s.drop_last(), s.last().0@);
            assert(forall|i: int|
                0 <= i < s.drop_last().len() ==> s.drop_last()[i].0@ != s.last().0@);
            assert(!entries_map(s.drop_last()).contains_key(s.last().0@));
        }
    }

    /// Looks up a key by exact match.
    pub fn get<'s>(&'s self, key: &str) -> (r: Option<&'s V>)
        requires
            self.wf(),
        ensures
            match r {
                Some(v) => self@.contains_key(key@) && v@ == self@[key@],
                None => !self@.contains_key(key@),
            },
    {
        let n = self.entries.len();
        let mut i: usize = 0;
        while i < n
            invariant
                i <= n,
                n == self.entries@.len(),
                self.wf(),
                forall|j: int| 0 <= j < i ==> self.entries@[j].0@ != key@,
            decreases n - i,
        {
            let k = self.entries[i].0;
            if str_eq(k, key) {
                proof {
                    lemma_entries_map_at(self.entries@, i as int, key@);
                }
                return Some(&self.entries[i].1);
            }
            i += 1;
        }
        proof {
            lemma_entries_map_contains(self.entries@, key@);
        }
        None
    }

    /// Inserts a key-value pair; an existing entry for the key is overwritten.
    pub fn insert(&mut self, key: &'a str, value: V)
        requires
            old(self).wf(),
        ensures
            final(self).wf(),
            final(self)@ == old(self)@.insert(key@, value@),
    {
        let ghost s0 = self.entries@;
        let n = self.entries.len();
        let mut i: usize = 0;
        while i < n
            invariant
                i <= n,
                n == self.entries@.len(),
                self.entries@ == s0,
                s0 == old(self).entries@,
                forall|i0: int, j0: int| 0 <= i0 < j0 < s0.len() ==> s0[i0].0@ != s0[j0].0@,
                forall|j: int| 0 <= j < i ==> s0[j].0@ != key@,
            decreases n - i,
        {
            let k = self.entries[i].0;
            if str_eq(k, key) {
                self.entries[i] = (key, value);
                proof {
                    let s1 = self.entries@;
                    assert(s1 =~= s0.update(i as int, (key, value)));
                    assert(forall|x: int| 0 <= x < s1.len() ==> s1[x].0@ == s0[x].0@);
                    assert forall|k2: Seq<char>|
                        entries_map(s1).contains_key(k2) == entries_map(s0).insert(
                            key@,
                            value@,
                        ).contains_key(k2) by {
                        lemma_entries_map_contains(s0, k2);
                        lemma_entries_map_contains(s1, k2);
                        if k2 == key@ {
                            assert(s1[i as int].0@ == k2);
                        } else {
                            if exists|j: int| 0 <= j < s0.len() && s0[j].0@ == k2 {
                                let j = choose|j: int| 0 <= j < s0.len() && s0[j].0@ == k2;
                                assert(s1[j].0@ == k2);
                            }
                            if exists|j: int| 0 <= j < s1.len() && s1[j].0@ == k2 {
                                let j = choose|j: int| 0 <= j < s1.len() && s1[j].0@ == k2;
                                assert(s0[j].0@ == k2);
                            }
                        }
                    }
                    assert forall|k2: Seq<char>|
                        entries_map(s1).contains_key(k2) implies entries_map(s1)[k2]
                        == entries_map(s0).insert(key@, value@)[k2] by {
                        if k2 == key@ {
                            lemma_entries_map_at(s1, i as int, k2);
                        } else {
                            lemma_entries_map_contains(s1, k2);
                            let j = choose|j: int| 0 <= j < s1.len() && s1[j].0@ == k2;
                            assert(s0[j].0@ == k2);
                            lemma_entries_map_at(s1, j, k2);
                            lemma_entries_map_at(s0, j, k2);
                        }
                    }
                    assert(entries_map(s1) =~= entries_map(s0).insert(key@, value@));
                }
                return;
            }
            i += 1;
        }
        self.entries.push((key, value));
        proof {
            lemma_entries_map_contains(s0, key@);
            assert(self.entries@.drop_last() =~= s0);
            assert(entries_map(self.entries@) == entries_map(s0).insert(key@, value@));
        }
    }

    /// The entries of the map, in insertion order; they denote exactly the
    /// map view.
    pub fn entries(&self) -> (r: &Vec<(&'a str, V)>)
        ensures
            r@ == self.entry_seq(),
            entries_map(r@) == self@,
    {
        &self.entries
    }
}

} // verus!
