//! A small mapping from text keys to values that remembers insertion order.
//!
//! The mapping is stored as a list of entries in which no key occurs twice.
//! Its view is the mathematical map; `pairs` is the same content in order.

use crate::text::same_text;
use vstd::prelude::*;

verus! {

/// Whether some entry of `pairs` carries the key `key`.
pub open spec fn has_key<V>(pairs: Seq<(Seq<char>, V)>, key: Seq<char>) -> bool {
    exists|i: int| 0 <= i < pairs.len() && (#[trigger] pairs[i]).0 == key
}

/// The position of an entry of `pairs` that carries `key`, where there is one.
pub open spec fn position_of<V>(pairs: Seq<(Seq<char>, V)>, key: Seq<char>) -> int {
    choose|i: int| 0 <= i < pairs.len() && (#[trigger] pairs[i]).0 == key
}

/// Whether all keys of `pairs` differ from one another.
pub open spec fn keys_differ<V>(pairs: Seq<(Seq<char>, V)>) -> bool {
    forall|i: int, j: int|
        0 <= i < j < pairs.len() ==> (#[trigger] pairs[i]).0 != (#[trigger] pairs[j]).0
}

/// The map that a list of entries stands for.
pub open spec fn as_map<V>(pairs: Seq<(Seq<char>, V)>) -> Map<Seq<char>, V> {
    Map::new(|k: Seq<char>| has_key(pairs, k), |k: Seq<char>| pairs[position_of(pairs, k)].1)
}

/// With distinct keys, the entry at position `i` is what the map holds under its key.
pub proof fn lemma_entry_in_map<V>(pairs: Seq<(Seq<char>, V)>, i: int)
    requires
        keys_differ(pairs),
        0 <= i < pairs.len(),
    ensures
        as_map(pairs).contains_key(pairs[i].0),
        as_map(pairs)[pairs[i].0] == pairs[i].1,
        position_of(pairs, pairs[i].0) == i,
{
    let k = pairs[i].0;
    assert(has_key(pairs, k));
    let j = position_of(pairs, k);
    assert(0 <= j < pairs.len() && pairs[j].0 == k);
    if j < i {
        assert(pairs[j].0 != pairs[i].0);
    } else if i < j {
        assert(pairs[i].0 != pairs[j].0);
    }
}

/// Appending an entry under a fresh key inserts it into the map.
pub proof fn lemma_push_is_insert<V>(pairs: Seq<(Seq<char>, V)>, key: Seq<char>, value: V)
    requires
        keys_differ(pairs),
        !has_key(pairs, key),
    ensures
        keys_differ(pairs.push((key, value))),
        as_map(pairs.push((key, value))) == as_map(pairs).insert(key, value),
{
    let grown = pairs.push((key, value));
    assert forall|i: int, j: int| 0 <= i < j < grown.len() implies (#[trigger] grown[i]).0 != (
    #[trigger] grown[j]).0 by {
        if j == pairs.len() {
            assert(pairs[i].0 != key);
        } else {
            assert(pairs[i].0 != pairs[j].0);
        }
    }
    assert forall|k: Seq<char>| has_key(grown, k) <==> (k == key || has_key(pairs, k)) by {
        if has_key(pairs, k) {
            let i = position_of(pairs, k);
            assert(grown[i].0 == k);
        }
        if k == key {
            assert(grown[pairs.len() as int].0 == k);
        }
        if has_key(grown, k) {
            let i = position_of(grown, k);
            if i < pairs.len() {
                assert(pairs[i].0 == k);
            }
        }
    }
    assert forall|k: Seq<char>| has_key(grown, k) implies #[trigger] as_map(grown)[k] == as_map(
        pairs,
    ).insert(key, value)[k] by {
        let i = position_of(grown, k);
        lemma_entry_in_map(grown, i);
        if i < pairs.len() {
            assert(pairs[i].0 == k);
            lemma_entry_in_map(pairs, i);
        }
    }
    assert(as_map(grown) =~= as_map(pairs).insert(key, value));
}

/// With distinct keys, the map has as many entries as the list.
pub proof fn lemma_map_len<V>(pairs: Seq<(Seq<char>, V)>)
    requires
        keys_differ(pairs),
    ensures
        as_map(pairs).dom().finite(),
        as_map(pairs).len() == pairs.len(),
    decreases pairs.len(),
{
    if pairs.len() == 0 {
        assert(as_map(pairs) =~= Map::<Seq<char>, V>::empty());
    } else {
        let head = pairs.drop_last();
        let last = pairs.last();
        assert(pairs =~= head.push(last));
        assert forall|i: int, j: int| 0 <= i < j < head.len() implies (#[trigger] head[i]).0 != (
        #[trigger] head[j]).0 by {
            assert(pairs[i].0 != pairs[j].0);
        }
        assert(!has_key(head, last.0)) by {
            if has_key(head, last.0) {
                let i = position_of(head, last.0);
                assert(pairs[i].0 != pairs[pairs.len() - 1].0);
            }
        }
        lemma_map_len(head);
        lemma_push_is_insert(head, last.0, last.1);
        assert(!as_map(head).dom().contains(last.0));
        assert(as_map(pairs).dom() =~= as_map(head).dom().insert(last.0));
    }
}

/// Replacing the value of the entry at position `i` inserts under its key.
pub proof fn lemma_update_is_insert<V>(pairs: Seq<(Seq<char>, V)>, i: int, value: V)
    requires
        keys_differ(pairs),
        0 <= i < pairs.len(),
    ensures
        keys_differ(pairs.update(i, (pairs[i].0, value))),
        as_map(pairs.update(i, (pairs[i].0, value))) == as_map(pairs).insert(pairs[i].0, value),
{
    let key = pairs[i].0;
    let changed = pairs.update(i, (key, value));
    assert forall|a: int, b: int| 0 <= a < b < changed.len() implies (#[trigger] changed[a]).0 != (
    #[trigger] changed[b]).0 by {
        assert(changed[a].0 == pairs[a].0);
        assert(changed[b].0 == pairs[b].0);
        assert(pairs[a].0 != pairs[b].0);
    }
    assert forall|k: Seq<char>| has_key(changed, k) <==> has_key(pairs, k) by {
        if has_key(pairs, k) {
            let j = position_of(pairs, k);
            assert(changed[j].0 == k);
        }
        if has_key(changed, k) {
            let j = position_of(changed, k);
            assert(pairs[j].0 == k);
        }
    }
    assert(has_key(pairs, key)) by {
        assert(pairs[i].0 == key);
    }
    assert forall|k: Seq<char>| has_key(changed, k) implies #[trigger] as_map(changed)[k]
        == as_map(pairs).insert(key, value)[k] by {
        let j = position_of(changed, k);
        lemma_entry_in_map(changed, j);
        assert(pairs[j].0 == k);
        lemma_entry_in_map(pairs, j);
    }
    assert(as_map(changed) =~= as_map(pairs).insert(key, value));
}

/// The keys, as character sequences, and values of a list of stored entries.
pub open spec fn pairs_of<V>(entries: Seq<(String, V)>) -> Seq<(Seq<char>, V)> {
    Seq::new(entries.len(), |i: int| (entries[i].0@, entries[i].1))
}

/// A mapping from text keys to values of type `V`.
#[derive(Debug, PartialEq, Eq)]
pub struct TextMap<V> {
    entries: Vec<(String, V)>,
}

impl<V> View for TextMap<V> {
    type V = Map<Seq<char>, V>;

    open spec fn view(&self) -> Map<Seq<char>, V> {
        as_map(self.pairs())
    }
}

impl<V> TextMap<V> {
    /// What holds of every mapping, at all times: no key occurs twice.
    #[verifier::type_invariant]
    pub open spec fn keys_are_distinct(self) -> bool {
        keys_differ(self.pairs())
    }

    /// The entries in the order in which their keys were first inserted.
    pub closed spec fn pairs(self) -> Seq<(Seq<char>, V)> {
        pairs_of(self.entries@)
    }

    /// The empty mapping.
    pub fn new() -> (map: Self)
        ensures
            map.pairs() == Seq::<(Seq<char>, V)>::empty(),
            map@ == Map::<Seq<char>, V>::empty(),
    {
        let map = TextMap { entries: Vec::new() };
        assert(map.pairs() =~= Seq::<(Seq<char>, V)>::empty());
        assert(map@ =~= Map::<Seq<char>, V>::empty());
        map
    }

    /// The number of entries.
    pub fn len(&self) -> (n: usize)
        ensures
            n == self.pairs().len(),
            n == self@.len(),
            self@.dom().finite(),
            keys_differ(self.pairs()),
    {
        proof {
            use_type_invariant(self);
            lemma_map_len(self.pairs());
        }
        self.entries.len()
    }

    /// The entry at position `i`, where there is one.
    pub fn entry_at(&self, i: usize) -> (entry: Option<(&String, &V)>)
        ensures
            entry is Some <==> i < self.pairs().len(),
            entry matches Some((key, value)) ==> {
                &&& key@ == self.pairs()[i as int].0
                &&& *value == self.pairs()[i as int].1
                &&& self@.contains_key(key@)
                &&& self@[key@] == *value
            },
    {
        proof {
            use_type_invariant(self);
        }
        if i < self.entries.len() {
            proof {
                lemma_entry_in_map(self.pairs(), i as int);
            }
            let entry = &self.entries[i];
            Some((&entry.0, &entry.1))
        } else {
            None
        }
    }

    /// The position of the entry under `key`, where there is one.
    fn find(&self, key: &str) -> (found: Option<usize>)
        ensures
            keys_differ(self.pairs()),
            found is Some <==> has_key(self.pairs(), key@),
            found matches Some(i) ==> i < self.pairs().len() && self.pairs()[i as int].0 == key@,
    {
        proof {
            use_type_invariant(self);
        }
        let mut i: usize = 0;
        while i < self.entries.len()
            invariant
                i <= self.entries@.len(),
                self.pairs().len() == self.entries@.len(),
                keys_differ(self.pairs()),
                forall|k: int| 0 <= k < i ==> (#[trigger] self.pairs()[k]).0 != key@,
            decreases self.entries@.len() - i,
        {
            if same_text(self.entries[i].0.as_str(), key) {
                assert(self.pairs()[i as int].0 == key@);
                return Some(i);
            }
            i += 1;
        }
        None
    }

    /// The value stored under `key`, where there is one.
    pub fn get(&self, key: &str) -> (value: Option<&V>)
        ensures
            value is Some <==> self@.contains_key(key@),
            value matches Some(v) ==> *v == self@[key@],
    {
        match self.find(key) {
            Some(i) => {
                proof {
                    lemma_entry_in_map(self.pairs(), i as int);
                }
                Some(&self.entries[i].1)
            },
            None => None,
        }
    }

    /// Whether a value is stored under `key`.
    pub fn contains(&self, key: &str) -> (present: bool)
        ensures
            present == self@.contains_key(key@),
    {
        self.find(key).is_some()
    }

    /// Stores `value` under `key` and hands back the value it replaces, if any.
    /// A replaced entry keeps its position; a new key goes to the end.
    pub fn insert(&mut self, key: String, value: V) -> (replaced: Option<V>)
        ensures
            final(self)@ == old(self)@.insert(key@, value),
            replaced is Some <==> old(self)@.contains_key(key@),
            replaced matches Some(v) ==> v == old(self)@[key@],
            old(self)@.contains_key(key@) ==> final(self).pairs() == old(self).pairs().update(
                position_of(old(self).pairs(), key@),
                (key@, value),
            ),
            !old(self)@.contains_key(key@) ==> final(self).pairs() == old(self).pairs().push(
                (key@, value),
            ),
    {
        let ghost before = self.pairs();
        let found = self.find(key.as_str());
        let mut entries: Vec<(String, V)> = Vec::new();
        std::mem::swap(&mut self.entries, &mut entries);
        assert(self.pairs() =~= Seq::<(Seq<char>, V)>::empty());
        let replaced = match found {
            Some(i) => {
                proof {
                    lemma_entry_in_map(before, i as int);
                    lemma_update_is_insert(before, i as int, value);
                }
                entries.push((key, value));
                let previous = entries.swap_remove(i);
                Some(previous.1)
            },
            None => {
                proof {
                    lemma_push_is_insert(before, key@, value);
                }
                entries.push((key, value));
                None
            },
        };
        proof {
            if found is Some {
                assert(pairs_of(entries@) =~= before.update(found->0 as int, (key@, value)));
            } else {
                assert(pairs_of(entries@) =~= before.push((key@, value)));
            }
        }
        self.entries = entries;
        replaced
    }
}

} // verus!
