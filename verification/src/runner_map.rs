//! A snapshot of the fleet: the runners of one poll, each under its key.

use crate::structs::{Runner, RunnerView};
use vstd::prelude::*;

verus! {

/// The runners of one poll, each under its key. No key occurs twice.
///
/// Its view is the map from key to runner. The entries also have an order,
/// the one in which the keys first came in; `keys` gives it.
#[derive(Debug)]
pub struct RunnerMap {
    entries: Vec<(String, Runner)>,
}

/// The key of each entry, in order.
spec fn entry_keys(entries: Seq<(String, Runner)>) -> Seq<Seq<char>> {
    Seq::new(entries.len(), |i: int| entries[i].0@)
}

/// The map that a list of entries with distinct keys stands for.
spec fn entry_map(entries: Seq<(String, Runner)>) -> Map<Seq<char>, RunnerView> {
    Map::new(
        |key: Seq<char>| entry_keys(entries).contains(key),
        |key: Seq<char>| entries[entry_keys(entries).index_of(key)].1@,
    )
}

/// With distinct keys, each entry is what the map holds under its key.
proof fn lemma_entry_at(entries: Seq<(String, Runner)>, index: int)
    requires
        entry_keys(entries).no_duplicates(),
        0 <= index < entries.len(),
    ensures
        entry_map(entries).contains_key(entries[index].0@),
        entry_map(entries)[entries[index].0@] == entries[index].1@,
{
    let keys = entry_keys(entries);
    assert(keys[index] == entries[index].0@);
    assert(keys.contains(keys[index]));
    assert(keys.index_of(keys[index]) == index);
}

/// Replacing the runner of an entry is an insertion under its key.
proof fn lemma_entry_replaced(
    entries: Seq<(String, Runner)>,
    index: int,
    entry: (String, Runner),
)
    requires
        entry_keys(entries).no_duplicates(),
        0 <= index < entries.len(),
        entry.0@ == entries[index].0@,
    ensures
        entry_keys(entries.update(index, entry)) == entry_keys(entries),
        entry_map(entries.update(index, entry)) == entry_map(entries).insert(entry.0@, entry.1@),
{
    let after = entries.update(index, entry);
    assert(entry_keys(after) =~= entry_keys(entries));
    assert forall|key: Seq<char>| #[trigger] entry_map(after).contains_key(key) implies entry_map(
        after,
    )[key] == entry_map(entries).insert(entry.0@, entry.1@)[key] by {
        let i = entry_keys(after).index_of(key);
        assert(entry_keys(after)[i] == key);
        assert(after[i].0@ == key);
        lemma_entry_at(after, i);
        if i != index {
            assert(entry_keys(entries)[i] == key);
            assert(entry_keys(entries)[index] == entry.0@);
            lemma_entry_at(entries, i);
        }
    }
    assert(entry_map(after).dom() =~= entry_map(entries).insert(entry.0@, entry.1@).dom()) by {
        assert(entry_keys(entries)[index] == entry.0@);
    }
    assert(entry_map(after) =~= entry_map(entries).insert(entry.0@, entry.1@));
}

/// Appending an entry under a fresh key is an insertion under that key.
proof fn lemma_entry_appended(entries: Seq<(String, Runner)>, entry: (String, Runner))
    requires
        entry_keys(entries).no_duplicates(),
        !entry_keys(entries).contains(entry.0@),
    ensures
        entry_keys(entries.push(entry)) == entry_keys(entries).push(entry.0@),
        entry_keys(entries.push(entry)).no_duplicates(),
        entry_map(entries.push(entry)) == entry_map(entries).insert(entry.0@, entry.1@),
{
    let after = entries.push(entry);
    let keys = entry_keys(entries);
    assert(entry_keys(after) =~= keys.push(entry.0@));
    assert forall|i: int, j: int|
        0 <= i < after.len() && 0 <= j < after.len() && i != j implies entry_keys(after)[i]
        != entry_keys(after)[j] by {
        if i < entries.len() {
            assert(keys.contains(keys[i]));
        }
        if j < entries.len() {
            assert(keys.contains(keys[j]));
        }
    }
    assert forall|key: Seq<char>| #[trigger] entry_map(after).contains_key(key) implies entry_map(
        after,
    )[key] == entry_map(entries).insert(entry.0@, entry.1@)[key] by {
        let i = entry_keys(after).index_of(key);
        assert(entry_keys(after)[i] == key);
        assert(after[i].0@ == key);
        lemma_entry_at(after, i);
        if i < entries.len() {
            assert(keys[i] == key);
            lemma_entry_at(entries, i);
            assert(keys.contains(keys[i]));
        }
    }
    assert forall|key: Seq<char>|
        entry_map(entries).insert(entry.0@, entry.1@).contains_key(key) implies #[trigger] entry_map(
        after,
    ).contains_key(key) by {
        if key == entry.0@ {
            assert(entry_keys(after)[entries.len() as int] == key);
        } else {
            let i = keys.index_of(key);
            assert(entry_keys(after)[i] == key);
        }
    }
    assert(entry_map(after) =~= entry_map(entries).insert(entry.0@, entry.1@));
}

/// The map that a list of entries builds up when each is inserted in
/// turn, so that of two entries under one key the later one stays.
pub open spec fn inserted_in_turn(entries: Seq<(String, Runner)>) -> Map<Seq<char>, RunnerView>
    decreases entries.len(),
{
    if entries.len() == 0 {
        Map::empty()
    } else {
        inserted_in_turn(entries.drop_last()).insert(entries.last().0@, entries.last().1@)
    }
}

impl View for RunnerMap {
    type V = Map<Seq<char>, RunnerView>;

    closed spec fn view(&self) -> Map<Seq<char>, RunnerView> {
        entry_map(self.entries@)
    }
}

impl RunnerMap {
    #[verifier::type_invariant]
    spec fn distinct(&self) -> bool {
        entry_keys(self.entries@).no_duplicates()
    }

    /// The keys in the order of the entries.
    pub closed spec fn keys(&self) -> Seq<Seq<char>> {
        entry_keys(self.entries@)
    }

    /// A snapshot without runners.
    pub fn new() -> (map: RunnerMap)
        ensures
            map@ == Map::<Seq<char>, RunnerView>::empty(),
            map.keys() == Seq::<Seq<char>>::empty(),
    {
        let map = RunnerMap { entries: Vec::new() };
        assert(map@ =~= Map::<Seq<char>, RunnerView>::empty());
        assert(map.keys() =~= Seq::<Seq<char>>::empty());
        map
    }

    /// The snapshot that holds `entries`. Of two entries under one key
    /// the later one stays.
    pub fn from_entries(entries: Vec<(String, Runner)>) -> (map: RunnerMap)
        ensures
            map@ == inserted_in_turn(entries@),
    {
        let mut map = RunnerMap::new();
        let ghost all = entries@;
        for entry in iter: entries
            invariant
                iter.seq() == all,
                map@ == inserted_in_turn(all.subrange(0, iter.index() as int)),
        {
            let ghost done = iter.index() as int;
            proof {
                assert(all.subrange(0, done + 1).drop_last() =~= all.subrange(0, done));
            }
            map.insert(entry.0, entry.1);
        }
        proof {
            assert(all.subrange(0, all.len() as int) =~= all);
        }
        map
    }

    /// The number of runners. It is the number of keys, which are
    /// distinct and are the keys of the map.
    pub fn len(&self) -> (n: usize)
        ensures
            n == self.keys().len(),
            n == self@.len(),
            self.keys().no_duplicates(),
            self@.dom() == self.keys().to_set(),
    {
        proof {
            use_type_invariant(self);
            self.keys().unique_seq_to_set();
            assert(self@.dom() =~= self.keys().to_set());
        }
        self.entries.len()
    }

    /// The key of the entry at `index`.
    pub fn key(&self, index: usize) -> (key: &String)
        requires
            index < self.keys().len(),
        ensures
            key@ == self.keys()[index as int],
    {
        &self.entries[index].0
    }

    /// The runner of the entry at `index`.
    pub fn runner(&self, index: usize) -> (runner: &Runner)
        requires
            index < self.keys().len(),
        ensures
            self@.contains_key(self.keys()[index as int]),
            runner@ == self@[self.keys()[index as int]],
    {
        proof {
            use_type_invariant(self);
            lemma_entry_at(self.entries@, index as int);
        }
        &self.entries[index].1
    }

    /// True if there is no runner.
    pub fn is_empty(&self) -> (empty: bool)
        ensures
            empty == (self@.len() == 0),
    {
        self.len() == 0
    }

    /// True if a runner stands under `key`.
    pub fn contains_key(&self, key: &String) -> (found: bool)
        ensures
            found == self@.contains_key(key@),
    {
        self.position(key).is_some()
    }

    /// The runner under `key`, if there is one.
    pub fn get(&self, key: &String) -> (found: Option<&Runner>)
        ensures
            match found {
                Some(runner) => self@.contains_key(key@) && runner@ == self@[key@],
                None => !self@.contains_key(key@),
            },
    {
        match self.position(key) {
            Some(index) => Some(self.runner(index)),
            None => None,
        }
    }

    /// Puts `runner` in place of the runner of the entry at `index`.
    pub fn set_runner(&mut self, index: usize, runner: Runner)
        requires
            index < old(self).keys().len(),
        ensures
            final(self).keys() == old(self).keys(),
            final(self)@ == old(self)@.insert(old(self).keys()[index as int], runner@),
    {
        proof {
            use_type_invariant(&*self);
        }
        let key = self.entries[index].0.clone();
        proof {
            lemma_entry_replaced(self.entries@, index as int, (key, runner));
        }
        let mut entries = self.take_entries();
        entries.set(index, (key, runner));
        self.put_entries(entries);
    }

    /// Puts `runner` under `key`, in place of the runner that stood there
    /// or, under a new key, behind the other entries.
    pub fn insert(&mut self, key: String, runner: Runner)
        ensures
            final(self)@ == old(self)@.insert(key@, runner@),
            final(self).keys() == if old(self)@.contains_key(key@) {
                old(self).keys()
            } else {
                old(self).keys().push(key@)
            },
    {
        proof {
            use_type_invariant(&*self);
        }
        let found = self.position(&key);
        proof {
            match found {
                Some(index) => lemma_entry_replaced(self.entries@, index as int, (key, runner)),
                None => lemma_entry_appended(self.entries@, (key, runner)),
            }
        }
        let mut entries = self.take_entries();
        match found {
            Some(index) => entries.set(index, (key, runner)),
            None => entries.push((key, runner)),
        }
        self.put_entries(entries);
    }

    /// Puts every runner of `other` into this snapshot. Where both have a
    /// runner under one key, that of `other` stays.
    pub fn extend(&mut self, other: RunnerMap)
        ensures
            final(self)@ == old(self)@.union_prefer_right(other@),
    {
        proof {
            use_type_invariant(&other);
        }
        let ghost all = other.entries@;
        let ghost start = self@;
        assert(self@ =~= start.union_prefer_right(entry_map(all.subrange(0, 0))));
        for entry in iter: other.entries
            invariant
                iter.seq() == all,
                entry_keys(all).no_duplicates(),
                self@ == start.union_prefer_right(
                    entry_map(all.subrange(0, iter.index() as int)),
                ),
        {
            proof {
                let done = iter.index() as int;
                let short = all.subrange(0, done);
                assert(all.subrange(0, done + 1) =~= short.push(entry));
                assert(entry_keys(short) =~= entry_keys(all).subrange(0, done));
                if entry_keys(short).contains(entry.0@) {
                    let i = entry_keys(short).index_of(entry.0@);
                    assert(entry_keys(all)[i] == entry_keys(all)[done]);
                }
                lemma_entry_appended(short, entry);
                assert(start.union_prefer_right(entry_map(short)).insert(entry.0@, entry.1@)
                    =~= start.union_prefer_right(entry_map(short).insert(entry.0@, entry.1@)));
            }
            self.insert(entry.0, entry.1);
        }
        proof {
            assert(all.subrange(0, all.len() as int) =~= all);
        }
    }

    /// Takes the entries out and leaves the snapshot empty.
    fn take_entries(&mut self) -> (entries: Vec<(String, Runner)>)
        ensures
            entries == old(self).entries,
            final(self).entries@.len() == 0,
    {
        let mut entries: Vec<(String, Runner)> = Vec::new();
        assert(entry_keys(entries@) =~= Seq::<Seq<char>>::empty());
        core::mem::swap(&mut self.entries, &mut entries);
        entries
    }

    /// Makes `entries` the entries of the snapshot.
    fn put_entries(&mut self, entries: Vec<(String, Runner)>)
        requires
            entry_keys(entries@).no_duplicates(),
        ensures
            final(self).entries == entries,
    {
        let mut entries = entries;
        core::mem::swap(&mut self.entries, &mut entries);
    }

    /// Where the entry under `key` stands, if there is one.
    pub fn position(&self, key: &String) -> (found: Option<usize>)
        ensures
            match found {
                Some(index) => index < self.keys().len() && self.keys()[index as int] == key@
                    && self@.contains_key(key@),
                None => !self@.contains_key(key@),
            },
    {
        let mut index: usize = 0;
        while index < self.entries.len()
            invariant
                index <= self.entries@.len(),
                forall|i: int| 0 <= i < index ==> self.keys()[i] != key@,
            decreases self.entries@.len() - index,
        {
            if self.entries[index].0 == *key {
                assert(self.keys()[index as int] == key@);
                return Some(index);
            }
            index += 1;
        }
        assert(!self.keys().contains(key@));
        None
    }
}

impl PartialEq for RunnerMap {
    /// Two snapshots are equal if they hold equal runners under the same
    /// keys, in whatever order.
    fn eq(&self, other: &RunnerMap) -> (equal: bool) {
        let count = self.len();
        if count != other.len() {
            return false;
        }
        let mut index: usize = 0;
        while index < count
            invariant
                index <= count,
                count == self.keys().len(),
                forall|i: int|
                    0 <= i < index ==> other@.contains_key(#[trigger] self.keys()[i])
                        && other@[self.keys()[i]] == self@[self.keys()[i]],
            decreases count - index,
        {
            let runner = self.runner(index);
            match other.get(self.key(index)) {
                Some(other_runner) => {
                    if !(*runner == *other_runner) {
                        return false;
                    }
                },
                None => {
                    return false;
                },
            }
            index += 1;
        }
        proof {
            broadcast use vstd::seq_lib::seq_to_set_is_finite;

            assert forall|key: Seq<char>| self@.dom().contains(key) implies other@.dom().contains(
                key,
            ) by {
                assert(self.keys().to_set().contains(key));
                let i = self.keys().index_of(key);
                assert(self.keys()[i] == key);
            }
            vstd::set_lib::lemma_subset_equality(self@.dom(), other@.dom());
            assert forall|key: Seq<char>| self@.dom().contains(key) implies self@[key]
                == other@[key] by {
                assert(self.keys().to_set().contains(key));
                let i = self.keys().index_of(key);
                assert(self.keys()[i] == key);
            }
            assert(self@ =~= other@);
        }
        true
    }
}

impl vstd::std_specs::cmp::PartialEqSpecImpl for RunnerMap {
    open spec fn obeys_eq_spec() -> bool {
        true
    }

    open spec fn eq_spec(&self, other: &RunnerMap) -> bool {
        self@ == other@
    }
}

} // verus!
