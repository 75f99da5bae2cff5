//! Variable bindings: a map from variable names to values that can be copied
//! and merged.

use crate::value::{FactValue, FactValueView};
use vstd::prelude::*;

verus! {

/// A map from variable names to values. The last value written under a name is
/// the one that is read.
#[derive(Debug)]
pub struct Bindings {
    entries: Vec<(String, FactValue)>,
}

/// The map that a list of entries stands for: each entry is written over what
/// the entries before it say of its name.
pub open spec fn map_of(entries: Seq<(Seq<char>, FactValueView)>) -> Map<Seq<char>, FactValueView>
    decreases entries.len(),
{
    if entries.len() == 0 {
        Map::empty()
    } else {
        map_of(entries.drop_last()).insert(entries.last().0, entries.last().1)
    }
}

/// What a list of entries holds.
pub open spec fn entry_views(entries: Seq<(String, FactValue)>) -> Seq<(Seq<char>, FactValueView)> {
    entries.map_values(|entry: (String, FactValue)| (entry.0@, entry.1@))
}

/// A name that no entry carries is not in the map; otherwise the map has what
/// the last entry of that name holds.
proof fn lemma_map_of_reads_last(entries: Seq<(Seq<char>, FactValueView)>, name: Seq<char>, last: int)
    requires
        -1 <= last < entries.len(),
        last >= 0 ==> entries[last].0 == name,
        forall|j: int| last < j < entries.len() ==> (#[trigger] entries[j]).0 != name,
    ensures
        map_of(entries).contains_key(name) <==> last >= 0,
        last >= 0 ==> map_of(entries)[name] == entries[last].1,
    decreases entries.len(),
{
    if entries.len() > 0 && last < entries.len() - 1 {
        lemma_map_of_reads_last(entries.drop_last(), name, last);
    }
}

/// Writing over the last entry of a name is an insertion into the map.
proof fn lemma_map_of_overwrite(
    entries: Seq<(Seq<char>, FactValueView)>,
    at: int,
    entry: (Seq<char>, FactValueView),
)
    requires
        0 <= at < entries.len(),
        entries[at].0 == entry.0,
        forall|j: int| at < j < entries.len() ==> (#[trigger] entries[j]).0 != entry.0,
    ensures
        map_of(entries.update(at, entry)) == map_of(entries).insert(entry.0, entry.1),
    decreases entries.len(),
{
    let updated = entries.update(at, entry);
    if at == entries.len() - 1 {
        assert(updated.drop_last() == entries.drop_last());
    } else {
        lemma_map_of_overwrite(entries.drop_last(), at, entry);
        assert(updated.drop_last() == entries.drop_last().update(at, entry));
        assert(updated.last() == entries.last());
    }
}

impl View for Bindings {
    type V = Map<Seq<char>, FactValueView>;

    closed spec fn view(&self) -> Map<Seq<char>, FactValueView> {
        map_of(entry_views(self.entries@))
    }
}

impl Bindings {
    /// The empty map.
    pub fn new() -> (bindings: Self)
        ensures
            bindings@ == Map::<Seq<char>, FactValueView>::empty(),
    {
        Bindings { entries: Vec::new() }
    }

    /// The place of the last entry that carries `name`.
    fn find(&self, name: &String) -> (place: Option<usize>)
        ensures
            match place {
                Some(at) => at < self.entries.len() && self.entries[at as int].0@ == name@,
                None => true,
            },
            forall|j: int|
                (match place {
                    Some(at) => at as int,
                    None => -1,
                }) < j < self.entries.len() ==> (#[trigger] self.entries[j]).0@ != name@,
    {
        let mut i: usize = self.entries.len();
        while i > 0
            invariant
                i <= self.entries.len(),
                forall|j: int| i <= j < self.entries.len() ==> (#[trigger] self.entries[j]).0@ != name@,
            decreases i,
        {
            i -= 1;
            if self.entries[i].0 == *name {
                return Some(i);
            }
        }
        None
    }

    /// Whether a value is bound to `name`.
    pub fn contains_key(&self, name: &str) -> (found: bool)
        ensures
            found == self@.contains_key(name@),
    {
        self.get(name).is_some()
    }

    /// The value bound to `name`.
    pub fn get(&self, name: &str) -> (value: Option<&FactValue>)
        ensures
            match value {
                Some(v) => self@.contains_key(name@) && v@ == self@[name@],
                None => !self@.contains_key(name@),
            },
    {
        let key = name.to_string();
        let place = self.find(&key);
        proof {
            let last = match place {
                Some(at) => at as int,
                None => -1,
            };
            lemma_map_of_reads_last(entry_views(self.entries@), name@, last);
        }
        match place {
            Some(at) => Some(&self.entries[at].1),
            None => None,
        }
    }

    /// Binds `value` to `name`, in place of what was bound to it.
    pub fn insert(&mut self, name: String, value: FactValue)
        ensures
            final(self)@ == old(self)@.insert(name@, value@),
    {
        let ghost before = entry_views(self.entries@);
        let ghost entry = (name@, value@);
        match self.find(&name) {
            Some(at) => {
                self.entries[at] = (name, value);
                proof {
                    lemma_map_of_overwrite(before, at as int, entry);
                    assert(entry_views(self.entries@) == before.update(at as int, entry));
                }
            },
            None => {
                self.entries.push((name, value));
                proof {
                    assert(entry_views(self.entries@) == before.push(entry));
                    assert(before.push(entry).drop_last() == before);
                }
            },
        }
    }

    /// Writes every binding of `other` into this map.
    pub fn extend(&mut self, other: &Bindings)
        ensures
            final(self)@ == old(self)@.union_prefer_right(other@),
    {
        let ghost incoming = entry_views(other.entries@);
        let mut i: usize = 0;
        assert(incoming.take(0) == Seq::<(Seq<char>, FactValueView)>::empty());
        while i < other.entries.len()
            invariant
                i <= other.entries.len(),
                incoming == entry_views(other.entries@),
                self@ == old(self)@.union_prefer_right(map_of(incoming.take(i as int))),
            decreases other.entries.len() - i,
        {
            let name = other.entries[i].0.clone();
            let value = other.entries[i].1.clone();
            proof {
                assert(incoming.take(i + 1).drop_last() == incoming.take(i as int));
                assert(incoming.take(i + 1).last() == (name@, value@));
            }
            self.insert(name, value);
            i += 1;
        }
        assert(incoming.take(i as int) == incoming);
    }
}

impl Clone for Bindings {
    fn clone(&self) -> (copy: Self)
        ensures
            copy@ == self@,
    {
        let mut entries: Vec<(String, FactValue)> = Vec::new();
        let mut i: usize = 0;
        while i < self.entries.len()
            invariant
                i <= self.entries.len(),
                entry_views(entries@) == entry_views(self.entries@).take(i as int),
            decreases self.entries.len() - i,
        {
            let ghost before = entry_views(entries@);
            entries.push((self.entries[i].0.clone(), self.entries[i].1.clone()));
            i += 1;
            assert(entry_views(entries@) == before.push(entry_views(self.entries@)[i - 1]));
        }
        assert(entry_views(self.entries@).take(i as int) == entry_views(self.entries@));
        Bindings { entries }
    }
}

} // verus!
