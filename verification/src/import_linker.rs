//! What the host offers to a module, by name.

use crate::module::ImportName;
use vstd::prelude::*;

verus! {

/// Host functions by the names under which modules import them, each with its index.
pub struct ImportLinker {
    entries: Vec<(ImportName, u32)>,
}

impl View for ImportLinker {
    type V = Map<(Seq<char>, Seq<char>), u32>;

    closed spec fn view(&self) -> Map<(Seq<char>, Seq<char>), u32> {
        entries_map(self.entries@)
    }
}

/// The map that entries make, where a later entry of a name takes the place of an earlier.
spec fn entries_map(entries: Seq<(ImportName, u32)>) -> Map<(Seq<char>, Seq<char>), u32>
    decreases entries.len(),
{
    if entries.len() == 0 {
        Map::empty()
    } else {
        entries_map(entries.drop_last()).insert(entries.last().0@, entries.last().1)
    }
}

impl ImportLinker {
    pub fn new() -> (linker: ImportLinker)
        ensures
            linker@ == Map::<(Seq<char>, Seq<char>), u32>::empty(),
    {
        ImportLinker { entries: Vec::new() }
    }

    /// Offers a host function under a name.
    pub fn insert_function(&mut self, name: ImportName, index: u32)
        ensures
            final(self)@ == old(self)@.insert(name@, index),
    {
        self.entries.push((name, index));
        assert(self.entries@.drop_last() =~= old(self).entries@);
    }

    /// The index of the host function with a name.
    pub fn get(&self, name: &ImportName) -> (index: Option<u32>)
        ensures
            index == if self@.contains_key(name@) {
                Some(self@[name@])
            } else {
                None
            },
    {
        let mut left: usize = self.entries.len();
        assert(self.entries@.take(left as int) =~= self.entries@);
        while left > 0
            invariant
                left <= self.entries@.len(),
                ({
                    let map = entries_map(self.entries@.take(left as int));
                    &&& map.contains_key(name@) == self@.contains_key(name@)
                    &&& map.contains_key(name@) ==> map[name@] == self@[name@]
                }),
            decreases left,
        {
            assert(self.entries@.take(left as int).drop_last() =~= self.entries@.take(left - 1));
            left -= 1;
            if self.entries[left].0.same(name) {
                return Some(self.entries[left].1);
            }
        }
        None
    }
}

} // verus!
