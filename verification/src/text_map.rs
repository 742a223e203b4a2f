//! Maps from text, kept in the order of their keys.

use crate::text::{
    is_text_less, lemma_text_less_irreflexive, lemma_text_less_total, lemma_text_less_transitive,
    same_text, text_less,
};
use vstd::prelude::*;

verus! {

/// A map from text. Each key occurs once, and the entries are kept in ascending
/// order of their keys.
#[derive(Debug, PartialEq, Eq)]
pub struct TextMap<V> {
    entries: Vec<(String, V)>,
}

/// Whether the keys of some entries ascend, so that none occurs twice.
pub open spec fn ascending<V>(entries: Seq<(String, V)>) -> bool {
    forall|i: int, j: int|
        0 <= i < j < entries.len() ==> text_less(#[trigger] entries[i].0@, #[trigger] entries[j].0@)
}

/// Whether an entry has the key.
pub open spec fn has_key<V>(entries: Seq<(String, V)>, key: Seq<char>) -> bool {
    exists|i: int| 0 <= i < entries.len() && #[trigger] entries[i].0@ == key
}

/// The position of an entry with the key.
pub open spec fn key_index<V>(entries: Seq<(String, V)>, key: Seq<char>) -> int {
    choose|i: int| 0 <= i < entries.len() && #[trigger] entries[i].0@ == key
}

/// The map that some entries make up.
pub open spec fn entry_map<V>(entries: Seq<(String, V)>) -> Map<Seq<char>, V> {
    Map::new(
        |key: Seq<char>| has_key(entries, key),
        |key: Seq<char>| entries[key_index(entries, key)].1,
    )
}

impl<V> View for TextMap<V> {
    type V = Map<Seq<char>, V>;

    closed spec fn view(&self) -> Map<Seq<char>, V> {
        entry_map(self.entries@)
    }
}

/// Among ascending entries the key of each stands at one position only.
pub proof fn lemma_entry_at<V>(entries: Seq<(String, V)>, at: int)
    requires
        ascending(entries),
        0 <= at < entries.len(),
    ensures
        entry_map(entries).contains_key(entries[at].0@),
        entry_map(entries)[entries[at].0@] == entries[at].1,
        key_index(entries, entries[at].0@) == at,
{
    let key = entries[at].0@;
    assert(has_key(entries, key));
    let i = key_index(entries, key);
    assert(entries[i].0@ == key);
    lemma_text_less_irreflexive(key);
}

/// One entry more gives one key a value.
pub proof fn lemma_one_more<V>(entries: Seq<(String, V)>, n: int)
    requires
        ascending(entries),
        0 <= n < entries.len(),
    ensures
        entry_map(entries.take(n + 1)) == entry_map(entries.take(n)).insert(
            entries[n].0@,
            entries[n].1,
        ),
{
    let shorter = entries.take(n);
    let longer = entries.take(n + 1);
    assert forall|key: Seq<char>|
        has_key(longer, key) == (has_key(shorter, key) || key == entries[n].0@) by {
        if has_key(longer, key) {
            let i = key_index(longer, key);
            if i < n {
                assert(shorter[i].0@ == key);
            }
        }
        if has_key(shorter, key) {
            let i = key_index(shorter, key);
            assert(longer[i].0@ == key);
        }
        if key == entries[n].0@ {
            assert(longer[n].0@ == key);
        }
    }
    assert forall|key: Seq<char>| has_key(longer, key) implies entry_map(longer)[key] == (if key
        == entries[n].0@ {
        entries[n].1
    } else {
        entry_map(shorter)[key]
    }) by {
        let i = key_index(longer, key);
        assert(longer[i].0@ == key);
        lemma_entry_at(longer, i);
        lemma_entry_at(longer, n);
        if i < n {
            lemma_entry_at(shorter, i);
        }
    }
    assert(entry_map(longer) =~= entry_map(shorter).insert(entries[n].0@, entries[n].1));
}

/// What is left of a position with keys below a given one, and from there on keys
/// above it, has no entry with that key.
proof fn lemma_key_missing<V>(entries: Seq<(String, V)>, at: int, key: Seq<char>)
    requires
        ascending(entries),
        0 <= at <= entries.len(),
        forall|i: int| 0 <= i < at ==> text_less(#[trigger] entries[i].0@, key),
        at < entries.len() ==> text_less(key, entries[at].0@),
    ensures
        !has_key(entries, key),
        forall|i: int| at <= i < entries.len() ==> text_less(key, #[trigger] entries[i].0@),
{
    assert forall|i: int| at <= i < entries.len() implies text_less(
        key,
        #[trigger] entries[i].0@,
    ) by {
        if i > at {
            lemma_text_less_transitive(key, entries[at].0@, entries[i].0@);
        }
    }
    if has_key(entries, key) {
        lemma_text_less_irreflexive(key);
    }
}

/// Two ascending runs of entries with the same keys and values in all but one
/// place make up maps that differ in one key.
proof fn lemma_inserted<V>(entries: Seq<(String, V)>, at: int, key: String, value: V)
    requires
        ascending(entries),
        0 <= at <= entries.len(),
        forall|i: int| 0 <= i < at ==> text_less(#[trigger] entries[i].0@, key@),
        forall|i: int| at <= i < entries.len() ==> text_less(key@, #[trigger] entries[i].0@),
    ensures
        ascending(entries.insert(at, (key, value))),
        entry_map(entries.insert(at, (key, value))) == entry_map(entries).insert(key@, value),
{
    let longer = entries.insert(at, (key, value));
    assert(forall|i: int| 0 <= i < at ==> #[trigger] longer[i] == entries[i]);
    assert(forall|i: int| at < i < longer.len() ==> #[trigger] longer[i] == entries[i - 1]);
    assert(longer[at] == (key, value));
    assert(ascending(longer));
    assert forall|k: Seq<char>|
        entry_map(longer).contains_key(k) == entry_map(entries).insert(key@, value).contains_key(
            k,
        ) by {
        if has_key(longer, k) && k != key@ {
            let i = key_index(longer, k);
            if i < at {
                assert(entries[i].0@ == k);
            } else {
                assert(entries[i - 1].0@ == k);
            }
        }
        if has_key(entries, k) {
            let i = key_index(entries, k);
            if i < at {
                assert(longer[i].0@ == k);
            } else {
                assert(longer[i + 1].0@ == k);
            }
        }
        if k == key@ {
            assert(longer[at].0@ == k);
        }
    }
    assert forall|k: Seq<char>| entry_map(longer).contains_key(k) implies entry_map(longer)[k]
        == entry_map(entries).insert(key@, value)[k] by {
        let i = key_index(longer, k);
        assert(longer[i].0@ == k);
        lemma_entry_at(longer, i);
        if i < at {
            lemma_entry_at(entries, i);
            lemma_text_less_irreflexive(k);
        } else if i > at {
            lemma_entry_at(entries, i - 1);
            lemma_text_less_irreflexive(k);
        }
    }
    assert(entry_map(longer) =~= entry_map(entries).insert(key@, value));
}

/// Without one entry, ascending entries make up the map without its key.
proof fn lemma_removed<V>(entries: Seq<(String, V)>, at: int)
    requires
        ascending(entries),
        0 <= at < entries.len(),
    ensures
        ascending(entries.remove(at)),
        entry_map(entries.remove(at)) == entry_map(entries).remove(entries[at].0@),
        !has_key(entries.remove(at), entries[at].0@),
        forall|i: int|
            0 <= i < at ==> text_less(#[trigger] entries.remove(at)[i].0@, entries[at].0@),
        forall|i: int|
            at <= i < entries.len() - 1 ==> text_less(
                entries[at].0@,
                #[trigger] entries.remove(at)[i].0@,
            ),
{
    let shorter = entries.remove(at);
    let key = entries[at].0@;
    assert(forall|i: int| 0 <= i < at ==> #[trigger] shorter[i] == entries[i]);
    assert(forall|i: int| at <= i < shorter.len() ==> #[trigger] shorter[i] == entries[i + 1]);
    assert(ascending(shorter));
    assert forall|i: int| 0 <= i < shorter.len() implies #[trigger] shorter[i].0@ != key by {
        lemma_text_less_irreflexive(key);
    }
    assert forall|k: Seq<char>|
        entry_map(shorter).contains_key(k) == entry_map(entries).remove(key).contains_key(k) by {
        if has_key(shorter, k) {
            let i = key_index(shorter, k);
            if i < at {
                assert(entries[i].0@ == k);
            } else {
                assert(entries[i + 1].0@ == k);
            }
        }
        if has_key(entries, k) && k != key {
            let i = key_index(entries, k);
            if i < at {
                assert(shorter[i].0@ == k);
            } else {
                assert(shorter[i - 1].0@ == k);
            }
        }
    }
    assert forall|k: Seq<char>| entry_map(shorter).contains_key(k) implies entry_map(shorter)[k]
        == entry_map(entries).remove(key)[k] by {
        let i = key_index(shorter, k);
        assert(shorter[i].0@ == k);
        lemma_entry_at(shorter, i);
        if i < at {
            lemma_entry_at(entries, i);
        } else {
            lemma_entry_at(entries, i + 1);
        }
    }
    assert(entry_map(shorter) =~= entry_map(entries).remove(key));
}

impl<V> TextMap<V> {
    #[verifier::type_invariant]
    closed spec fn in_order(self) -> bool {
        ascending(self.entries@)
    }

    /// A value of the map is a smaller thing than the map.
    pub proof fn lemma_smaller(self, key: Seq<char>)
        requires
            self@.contains_key(key),
        ensures
            decreases_to!(self => self@[key]),
    {
        let i = key_index(self.entries@, key);
        assert(self.entries@[i].0@ == key);
        assert(decreases_to!(self => self.entries));
        assert(decreases_to!(self.entries => self.entries@));
        assert(decreases_to!(self.entries@ => self.entries@[i]));
        assert(decreases_to!(self.entries@[i] => self.entries@[i].1));
    }

    /// The empty map.
    pub fn new() -> (map: Self)
        ensures
            map@ == Map::<Seq<char>, V>::empty(),
    {
        let map = TextMap { entries: Vec::new() };
        assert(map@ =~= Map::<Seq<char>, V>::empty());
        map
    }

    /// The position of the first entry whose key is not below the given one, and
    /// whether it has that key.
    fn find(&self, key: &str) -> (found: (usize, bool))
        ensures
            found.0 <= self.entries@.len(),
            found.1 ==> found.0 < self.entries@.len() && self.entries@[found.0 as int].0@ == key@,
            !found.1 ==> !has_key(self.entries@, key@),
            forall|i: int|
                0 <= i < found.0 ==> text_less(#[trigger] self.entries@[i].0@, key@),
            !found.1 ==> forall|i: int|
                found.0 <= i < self.entries@.len() ==> text_less(
                    key@,
                    #[trigger] self.entries@[i].0@,
                ),
    {
        proof {
            use_type_invariant(self);
        }
        let mut at: usize = 0;
        while at < self.entries.len() && is_text_less(self.entries[at].0.as_str(), key)
            invariant
                at <= self.entries@.len(),
                forall|i: int| 0 <= i < at ==> text_less(#[trigger] self.entries@[i].0@, key@),
            decreases self.entries@.len() - at,
        {
            at = at + 1;
        }
        if at < self.entries.len() && same_text(self.entries[at].0.as_str(), key) {
            (at, true)
        } else {
            proof {
                if at < self.entries@.len() {
                    lemma_text_less_total(self.entries@[at as int].0@, key@);
                }
                lemma_key_missing(self.entries@, at as int, key@);
            }
            (at, false)
        }
    }

    /// The value of a key.
    pub fn get(&self, key: &str) -> (value: Option<&V>)
        ensures
            match value {
                Some(v) => self@.contains_key(key@) && self@[key@] == *v,
                None => !self@.contains_key(key@),
            },
    {
        let (at, present) = self.find(key);
        if present {
            proof {
                use_type_invariant(self);
                lemma_entry_at(self.entries@, at as int);
            }
            Some(&self.entries[at].1)
        } else {
            None
        }
    }

    /// Whether the map has a key.
    pub fn contains_key(&self, key: &str) -> (present: bool)
        ensures
            present == self@.contains_key(key@),
    {
        self.get(key).is_some()
    }

    /// Gives a key a value, and returns the value that it had.
    pub fn insert(&mut self, key: String, value: V) -> (before: Option<V>)
        ensures
            final(self)@ == old(self)@.insert(key@, value),
            match before {
                Some(v) => old(self)@.contains_key(key@) && old(self)@[key@] == v,
                None => !old(self)@.contains_key(key@),
            },
    {
        let (at, present) = self.find(key.as_str());
        proof {
            use_type_invariant(&*self);
        }
        let ghost start = self.entries@;
        let mut entries: Vec<(String, V)> = Vec::new();
        std::mem::swap(&mut entries, &mut self.entries);
        if present {
            proof {
                lemma_entry_at(start, at as int);
                lemma_removed(start, at as int);
            }
            let (_, old_value) = entries.remove(at);
            proof {
                lemma_inserted(entries@, at as int, key, value);
            }
            entries.insert(at, (key, value));
            assert(entry_map(start).remove(key@).insert(key@, value) =~= entry_map(start).insert(
                key@,
                value,
            ));
            self.entries = entries;
            Some(old_value)
        } else {
            proof {
                lemma_inserted(start, at as int, key, value);
            }
            entries.insert(at, (key, value));
            self.entries = entries;
            None
        }
    }

    /// Takes a key out of the map, and returns the value that it had.
    pub fn remove(&mut self, key: &str) -> (before: Option<V>)
        ensures
            final(self)@ == old(self)@.remove(key@),
            match before {
                Some(v) => old(self)@.contains_key(key@) && old(self)@[key@] == v,
                None => !old(self)@.contains_key(key@),
            },
    {
        let (at, present) = self.find(key);
        proof {
            use_type_invariant(&*self);
        }
        let ghost start = self.entries@;
        if present {
            proof {
                lemma_entry_at(start, at as int);
                lemma_removed(start, at as int);
            }
            let mut entries: Vec<(String, V)> = Vec::new();
            std::mem::swap(&mut entries, &mut self.entries);
            let (_, old_value) = entries.remove(at);
            self.entries = entries;
            Some(old_value)
        } else {
            assert(entry_map(start).remove(key@) =~= entry_map(start));
            None
        }
    }

    /// Whether the map has no key.
    pub fn is_empty(&self) -> (empty: bool)
        ensures
            empty == (self@ == Map::<Seq<char>, V>::empty()),
    {
        proof {
            use_type_invariant(self);
            if self.entries@.len() == 0 {
                assert(self@ =~= Map::<Seq<char>, V>::empty());
            } else {
                lemma_entry_at(self.entries@, 0);
            }
        }
        self.entries.len() == 0
    }

    /// The entries, in ascending order of their keys.
    pub fn entries(&self) -> (entries: &Vec<(String, V)>)
        ensures
            ascending(entries@),
            entry_map(entries@) == self@,
            decreases_to!(*self => entries@),
    {
        proof {
            use_type_invariant(self);
            assert(decreases_to!(*self => self.entries));
            assert(decreases_to!(self.entries => self.entries@));
        }
        &self.entries
    }

    /// The entries, in ascending order of their keys.
    pub fn into_entries(self) -> (entries: Vec<(String, V)>)
        ensures
            ascending(entries@),
            entry_map(entries@) == self@,
    {
        proof {
            use_type_invariant(&self);
        }
        self.entries
    }
}

} // verus!
