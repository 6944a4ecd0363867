//! A map keyed by text.
use vstd::prelude::*;

use crate::text::same_text;

verus! {

/// A map from text to `V`. No key occurs twice.
pub struct TextMap<V> {
    entries: Vec<(String, V)>,
}

/// A map of strings as a map of their characters.
pub open spec fn text_values(map: Map<Seq<char>, String>) -> Map<Seq<char>, Seq<char>> {
    map.map_values(|v: String| v@)
}

/// The place of `key` among the keys of `entries`, or their number.
spec fn place<V>(entries: Seq<(String, V)>, key: Seq<char>) -> nat
    decreases entries.len(),
{
    if entries.len() == 0 || entries[0].0@ == key {
        0
    } else {
        1 + place(entries.skip(1), key)
    }
}

/// No two entries have the same key.
spec fn distinct<V>(entries: Seq<(String, V)>) -> bool {
    forall|i: int, j: int|
        0 <= i < j < entries.len() ==> (#[trigger] entries[i]).0@ != (#[trigger] entries[j]).0@
}

proof fn lemma_place<V>(entries: Seq<(String, V)>, key: Seq<char>)
    ensures
        place(entries, key) <= entries.len(),
        place(entries, key) < entries.len() ==> entries[place(entries, key) as int].0@ == key,
        forall|i: int| 0 <= i < place(entries, key) ==> (#[trigger] entries[i]).0@ != key,
    decreases entries.len(),
{
    if entries.len() > 0 && entries[0].0@ != key {
        let rest = entries.skip(1);
        lemma_place(rest, key);
        assert forall|i: int| 0 <= i < place(entries, key) implies (
        #[trigger] entries[i]).0@ != key by {
            if i > 0 {
                assert(rest[i - 1] == entries[i]);
            }
        }
    }
}

proof fn lemma_place_is<V>(entries: Seq<(String, V)>, key: Seq<char>, k: int)
    requires
        0 <= k <= entries.len(),
        forall|i: int| 0 <= i < k ==> (#[trigger] entries[i]).0@ != key,
        k < entries.len() ==> entries[k].0@ == key,
    ensures
        place(entries, key) == k,
{
    lemma_place(entries, key);
    if place(entries, key) < k {
        assert(entries[place(entries, key) as int].0@ != key);
    } else if k < place(entries, key) {
        assert(entries[k].0@ != key);
    }
}

spec fn as_map<V>(entries: Seq<(String, V)>) -> Map<Seq<char>, V> {
    Map::new(
        |key: Seq<char>| place(entries, key) < entries.len(),
        |key: Seq<char>| entries[place(entries, key) as int].1,
    )
}

impl<V> View for TextMap<V> {
    type V = Map<Seq<char>, V>;

    closed spec fn view(&self) -> Map<Seq<char>, V> {
        as_map(self.entries@)
    }
}

impl<V> TextMap<V> {
    #[verifier::type_invariant]
    spec fn keys_distinct(self) -> bool {
        distinct(self.entries@)
    }

    /// The map without an entry.
    pub fn new() -> (r: TextMap<V>)
        ensures
            r@ == Map::<Seq<char>, V>::empty(),
    {
        let r = TextMap { entries: Vec::new() };
        assert(r@ =~= Map::empty());
        r
    }

    /// The place of `key` among the entries, or their number.
    fn position(&self, key: &str) -> (r: usize)
        ensures
            r == place(self.entries@, key@),
            r <= self.entries@.len(),
    {
        let mut i: usize = 0;
        while i < self.entries.len() && !same_text(self.entries[i].0.as_str(), key)
            invariant
                i <= self.entries@.len(),
                forall|j: int| 0 <= j < i ==> (#[trigger] self.entries@[j]).0@ != key@,
            decreases self.entries@.len() - i,
        {
            i += 1;
        }
        proof {
            lemma_place_is(self.entries@, key@, i as int);
        }
        i
    }

    /// What the map holds for `key`.
    pub fn get(&self, key: &str) -> (r: Option<&V>)
        ensures
            r == (if self@.contains_key(key@) {
                Some(&self@[key@])
            } else {
                None
            }),
    {
        let i: usize = self.position(key);
        if i < self.entries.len() {
            Some(&self.entries[i].1)
        } else {
            None
        }
    }

    /// Lets the map hold `value` for `key`.
    pub fn insert(&mut self, key: String, value: V)
        ensures
            final(self)@ == old(self)@.insert(key@, value),
    {
        proof {
            use_type_invariant(&*self);
        }
        let ghost before = self.entries@;
        let ghost name = key@;
        let i: usize = self.position(key.as_str());
        let mut entries: Vec<(String, V)> = Vec::new();
        std::mem::swap(&mut entries, &mut self.entries);
        proof {
            lemma_place(before, name);
        }
        if i < entries.len() {
            entries.set(i, (key, value));
        } else {
            entries.push((key, value));
        }
        proof {
            let after = entries@;
            assert(after =~= if i < before.len() { before.update(i as int, (key, value)) } else { before.push((key, value)) });
            assert forall|k: Seq<char>| k != name implies (place(after, k) < after.len() <==> place(before, k) < before.len())
                && (place(before, k) < before.len() ==> after[place(after, k) as int] == before[place(before, k) as int]) by {
                lemma_place(before, k);
                if place(before, k) < before.len() {
                    lemma_place_is(after, k, place(before, k) as int);
                } else {
                    lemma_place_is(after, k, after.len() as int);
                }
            }
            lemma_place_is(after, name, i as int);
            assert(as_map(after) =~= as_map(before).insert(name, value));
        }
        self.entries = entries;
    }

    /// Lets the map hold nothing for `key`.
    pub fn remove(&mut self, key: &str)
        ensures
            final(self)@ == old(self)@.remove(key@),
    {
        proof {
            use_type_invariant(&*self);
        }
        let ghost before = self.entries@;
        let i: usize = self.position(key);
        let mut entries: Vec<(String, V)> = Vec::new();
        std::mem::swap(&mut entries, &mut self.entries);
        proof {
            lemma_place(before, key@);
        }
        if i < entries.len() {
            entries.remove(i);
        }
        proof {
            let after = entries@;
            if i < before.len() {
                assert(after =~= before.remove(i as int));
                assert forall|k: Seq<char>| k != key@ implies (place(after, k) < after.len() <==> place(before, k) < before.len())
                    && (place(before, k) < before.len() ==> after[place(after, k) as int] == before[place(before, k) as int]) by {
                    lemma_place(before, k);
                    let p = place(before, k) as int;
                    if p < before.len() {
                        if p < i {
                            lemma_place_is(after, k, p);
                        } else {
                            assert(after[p - 1] == before[p]);
                            lemma_place_is(after, k, p - 1);
                        }
                    } else {
                        lemma_place_is(after, k, after.len() as int);
                    }
                }
                assert(before[i as int].0@ == key@);
                lemma_place_is(after, key@, after.len() as int);
            }
            assert(as_map(after) =~= as_map(before).remove(key@));
        }
        self.entries = entries;
    }
}

} // verus!
