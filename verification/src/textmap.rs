//! A small map keyed by text.

use vstd::prelude::*;

use crate::seqs::group_seqs;
use crate::seqs::take_next;
use crate::text::same;

verus! {

broadcast use group_seqs;

/// A map from texts to values. No key occurs twice; the entries keep the order
/// in which their keys first came.
#[derive(Debug)]
pub struct TextMap<V> {
    entries: Vec<(String, V)>,
}

/// What a list of entries maps: a later entry takes the place of an earlier
/// one with the same key.
pub open spec fn mapping<V>(entries: Seq<(String, V)>) -> Map<Seq<char>, V>
    decreases entries.len(),
{
    if entries.len() == 0 {
        Map::empty()
    } else {
        mapping(entries.drop_last()).insert(entries.last().0@, entries.last().1)
    }
}

/// No key occurs twice.
pub open spec fn distinct_keys<V>(entries: Seq<(String, V)>) -> bool {
    forall|i: int, j: int|
        0 <= i < j < entries.len() ==> (#[trigger] entries[i]).0@ != (#[trigger] entries[j]).0@
}

proof fn lemma_mapping<V>(entries: Seq<(String, V)>)
    requires
        distinct_keys(entries),
    ensures
        forall|i: int|
            0 <= i < entries.len() ==> mapping(entries).contains_key((#[trigger] entries[i]).0@)
                && mapping(entries)[entries[i].0@] == entries[i].1,
        forall|k: Seq<char>| #[trigger]
            mapping(entries).contains_key(k) ==> exists|i: int|
                0 <= i < entries.len() && (#[trigger] entries[i]).0@ == k,
    decreases entries.len(),
{
    if entries.len() > 0 {
        let front = entries.drop_last();
        assert forall|i: int, j: int| 0 <= i < j < front.len() implies (#[trigger] front[i]).0@ != (
        #[trigger] front[j]).0@ by {
            assert(entries[i].0@ != entries[j].0@);
        }
        lemma_mapping(front);
        assert forall|i: int| 0 <= i < entries.len() implies mapping(entries).contains_key(
            (#[trigger] entries[i]).0@,
        ) && mapping(entries)[entries[i].0@] == entries[i].1 by {
            if i < front.len() {
                assert(front[i] == entries[i]);
                assert(entries[i].0@ != entries[entries.len() - 1].0@);
            }
        }
        assert forall|k: Seq<char>| #[trigger] mapping(entries).contains_key(k) implies exists|i: int|
            0 <= i < entries.len() && (#[trigger] entries[i]).0@ == k by {
            if k == entries.last().0@ {
                assert(entries[entries.len() - 1].0@ == k);
            } else {
                assert(mapping(front).contains_key(k));
                let i = choose|i: int| 0 <= i < front.len() && (#[trigger] front[i]).0@ == k;
                assert(entries[i].0@ == k);
            }
        }
    }
}

impl<V> View for TextMap<V> {
    type V = Map<Seq<char>, V>;

    closed spec fn view(&self) -> Map<Seq<char>, V> {
        mapping(self.entries@)
    }
}

impl<V> TextMap<V> {
    #[verifier::type_invariant]
    spec fn distinct(self) -> bool {
        distinct_keys(self.entries@)
    }

    pub closed spec fn listed(&self) -> Seq<(String, V)> {
        self.entries@
    }

    pub fn new() -> (result: TextMap<V>)
        ensures
            result@ == Map::<Seq<char>, V>::empty(),
            result.listed() == Seq::<(String, V)>::empty(),
    {
        TextMap { entries: Vec::new() }
    }

    /// The entries, in the order in which their keys first came.
    pub fn entries(&self) -> (result: &Vec<(String, V)>)
        ensures
            result@ == self.listed(),
            mapping(result@) == self@,
            distinct_keys(result@),
            forall|i: int|
                0 <= i < result@.len() ==> self@.contains_key((#[trigger] result@[i]).0@)
                    && self@[result@[i].0@] == result@[i].1,
            forall|k: Seq<char>| #[trigger]
                self@.contains_key(k) ==> exists|i: int|
                    0 <= i < result@.len() && (#[trigger] result@[i]).0@ == k,
    {
        proof {
            use_type_invariant(self);
            lemma_mapping(self.entries@);
        }
        &self.entries
    }

    pub fn len(&self) -> (result: usize)
        ensures
            result == self.listed().len(),
    {
        self.entries.len()
    }

    fn find(&self, key: &str) -> (result: Option<usize>)
        ensures
            match result {
                Some(i) => i < self.entries@.len() && self.entries@[i as int].0@ == key@
                    && self@.contains_key(key@) && self@[key@] == self.entries@[i as int].1,
                None => !self@.contains_key(key@) && forall|i: int|
                    0 <= i < self.entries@.len() ==> (#[trigger] self.entries@[i]).0@ != key@,
            },
    {
        proof {
            use_type_invariant(self);
            lemma_mapping(self.entries@);
        }
        let mut i: usize = 0;
        while i < self.entries.len()
            invariant
                i <= self.entries@.len(),
                forall|j: int| 0 <= j < i ==> (#[trigger] self.entries@[j]).0@ != key@,
                forall|j: int|
                    0 <= j < self.entries@.len() ==> mapping(self.entries@).contains_key(
                        (#[trigger] self.entries@[j]).0@,
                    ) && mapping(self.entries@)[self.entries@[j].0@] == self.entries@[j].1,
            decreases self.entries@.len() - i,
        {
            if same(self.entries[i].0.as_str(), key) {
                return Some(i);
            }
            i = i + 1;
        }
        None
    }

    pub fn contains_key(&self, key: &str) -> (result: bool)
        ensures
            result == self@.contains_key(key@),
    {
        self.find(key).is_some()
    }

    pub fn get(&self, key: &str) -> (result: Option<&V>)
        ensures
            match result {
                Some(v) => self@.contains_key(key@) && *v == self@[key@],
                None => !self@.contains_key(key@),
            },
    {
        match self.find(key) {
            Some(i) => Some(&self.entries[i].1),
            None => None,
        }
    }

    /// Puts `value` under `key`, in place of what was there.
    pub fn insert(self, key: String, value: V) -> (result: TextMap<V>)
        ensures
            result@ == self@.insert(key@, value),
    {
        proof {
            use_type_invariant(&self);
        }
        let found = self.find(key.as_str());
        let ghost before = self.entries@;
        let mut entries = self.entries;
        match found {
            Some(i) => {
                entries.set(i, (key, value));
                proof {
                    lemma_replace(before, i as int, (key, value));
                }
            },
            None => {
                entries.push((key, value));
                assert(entries@.drop_last() =~= before);
            },
        }
        TextMap { entries }
    }
}

/// Replacing the value of the one entry with a key.
proof fn lemma_replace<V>(entries: Seq<(String, V)>, at: int, entry: (String, V))
    requires
        distinct_keys(entries),
        0 <= at < entries.len(),
        entries[at].0@ == entry.0@,
    ensures
        distinct_keys(entries.update(at, entry)),
        mapping(entries.update(at, entry)) == mapping(entries).insert(entry.0@, entry.1),
{
    let updated = entries.update(at, entry);
    assert forall|i: int, j: int| 0 <= i < j < updated.len() implies (#[trigger] updated[i]).0@ != (
    #[trigger] updated[j]).0@ by {
        assert(entries[i].0@ != entries[j].0@);
    }
    lemma_mapping(entries);
    lemma_mapping(updated);
    let wanted = mapping(entries).insert(entry.0@, entry.1);
    assert forall|k: Seq<char>| #[trigger] mapping(updated).contains_key(k)
        == wanted.contains_key(k) by {
        if mapping(updated).contains_key(k) {
            let i = choose|i: int| 0 <= i < updated.len() && (#[trigger] updated[i]).0@ == k;
            assert(updated[i].0@ == k);
            assert(entries[i].0@ == k);
        }
        if wanted.contains_key(k) {
            if k == entry.0@ {
                assert(updated[at].0@ == k);
            } else {
                let i = choose|i: int| 0 <= i < entries.len() && (#[trigger] entries[i]).0@ == k;
                assert(entries[i].0@ == k);
                assert(updated[i].0@ == k);
            }
        }
    }
    assert forall|k: Seq<char>| #[trigger] mapping(updated).contains_key(k) implies mapping(
        updated,
    )[k] == wanted[k] by {
        let i = choose|i: int| 0 <= i < updated.len() && (#[trigger] updated[i]).0@ == k;
        assert(updated[i].0@ == k);
        assert(entries[i].0@ == k);
        assert(entries[at].0@ == entry.0@);
        if i != at {
            assert(k != entry.0@);
        }
    }
    assert(mapping(updated) =~= wanted);
}

impl TextMap<String> {
    /// The map with its values as sequences.
    pub open spec fn deep(&self) -> Map<Seq<char>, Seq<char>> {
        self@.map_values(|s: String| s@)
    }

    /// Puts a text under a key, in place of what was there.
    pub fn put(self, key: String, value: String) -> (result: TextMap<String>)
        ensures
            result.deep() == self.deep().insert(key@, value@),
    {
        let ghost before = self.deep();
        let out = self.insert(key, value);
        assert(out.deep() =~= before.insert(key@, value@));
        out
    }

    /// A copy of the map.
    pub fn copied(&self) -> (result: TextMap<String>)
        ensures
            result@ == self@,
    {
        proof {
            use_type_invariant(self);
        }
        let mut entries: Vec<(String, String)> = Vec::new();
        let mut i: usize = 0;
        while i < self.entries.len()
            invariant
                i <= self.entries@.len(),
                entries@ == self.entries@.take(i as int),
            decreases self.entries@.len() - i,
        {
            entries.push((self.entries[i].0.clone(), self.entries[i].1.clone()));
            proof {
                take_next(self.entries@, i as int);
            }
            i = i + 1;
        }
        TextMap { entries }
    }
}

/// A count after one more; one at the largest number stays there.
pub open spec fn bumped(n: int) -> int {
    if n < usize::MAX {
        n + 1
    } else {
        n
    }
}

/// One more.
pub fn bump(n: usize) -> (result: usize)
    ensures
        result == bumped(n as int),
{
    if n < usize::MAX {
        n + 1
    } else {
        n
    }
}

/// A count after some more; it stops at the largest number.
pub open spec fn raised(n: int, by: int) -> int {
    if n + by <= usize::MAX {
        n + by
    } else {
        usize::MAX as int
    }
}

/// Some more.
pub fn raise(n: usize, by: usize) -> (result: usize)
    ensures
        result == raised(n as int, by as int),
{
    if by <= usize::MAX - n {
        n + by
    } else {
        usize::MAX
    }
}

/// How often a key was counted.
pub open spec fn tally(counts: Map<Seq<char>, usize>, key: Seq<char>) -> int {
    if counts.contains_key(key) {
        counts[key] as int
    } else {
        0
    }
}

/// The counts after one more of a key.
pub open spec fn tallied(counts: Map<Seq<char>, usize>, key: Seq<char>) -> Map<Seq<char>, usize> {
    counts.insert(key, bumped(tally(counts, key)) as usize)
}

impl TextMap<usize> {
    /// Counts `key` once more.
    pub fn count(self, key: &str) -> (result: TextMap<usize>)
        ensures
            result@ == tallied(self@, key@),
    {
        let current: usize = match self.get(key) {
            Some(n) => *n,
            None => 0,
        };
        self.insert(key.to_owned(), bump(current))
    }
}

} // verus!
