//! The assembler's symbol table: label names bound to code offsets.

use vstd::prelude::*;
use crate::text::str_eq;

verus! {

/// The mapping an entry list denotes: later entries overwrite earlier ones.
pub open spec fn table_map(entries: Seq<(String, usize)>) -> Map<Seq<char>, usize>
    decreases entries.len(),
{
    if entries.len() == 0 {
        Map::empty()
    } else {
        table_map(entries.drop_last()).insert(entries.last().0@, entries.last().1)
    }
}

/// A mapping from label names to resolved byte offsets in the code buffer.
/// Re-declaring a name overwrites its address: the last write wins.
pub struct SymbolTable {
    pub entries: Vec<(String, usize)>,
}

impl View for SymbolTable {
    type V = Map<Seq<char>, usize>;

    open spec fn view(&self) -> Map<Seq<char>, usize> {
        table_map(self.entries@)
    }
}

impl SymbolTable {
    /// An empty table.
    pub fn new() -> (r: SymbolTable)
        ensures
            r@ == Map::<Seq<char>, usize>::empty(),
    {
        SymbolTable { entries: Vec::new() }
    }

    /// Bind `name` to `addr`, overwriting any earlier binding.
    pub fn insert(&mut self, name: String, addr: usize)
        ensures
            final(self)@ == old(self)@.insert(name@, addr),
    {
        let ghost old_entries = self.entries@;
        self.entries.push((name, addr));
        proof {
            assert(self.entries@.drop_last() =~= old_entries);
        }
    }

    /// Look `name` up: its latest binding, or `None` if it was never bound.
    pub fn get(&self, name: &str) -> (r: Option<usize>)
        ensures
            match r {
                Some(a) => self@.contains_key(name@) && self@[name@] == a,
                None => !self@.contains_key(name@),
            },
    {
        let mut i: usize = self.entries.len();
        proof {
            assert(self.entries@.take(i as int) =~= self.entries@);
        }
        while i > 0
            invariant_except_break
                self@.contains_key(name@) == table_map(self.entries@.take(i as int)).contains_key(
                    name@,
                ),
                self@.contains_key(name@) ==> self@[name@] == table_map(
                    self.entries@.take(i as int),
                )[name@],
            invariant
                i <= self.entries@.len(),
            ensures
                match (if i > 0 {
                    Some(self.entries@[i - 1].1)
                } else {
                    None
                }) {
                    Some(a) => self@.contains_key(name@) && self@[name@] == a,
                    None => !self@.contains_key(name@),
                },
            decreases i,
        {
            let entry_name: &String = &self.entries[i - 1].0;
            proof {
                assert(self.entries@.take(i as int).drop_last() =~= self.entries@.take(i - 1));
                assert(self.entries@.take(i as int).last() == self.entries@[i - 1]);
            }
            if str_eq(entry_name.as_str(), name) {
                break ;
            }
            i -= 1;
        }
        if i > 0 {
            Some(self.entries[i - 1].1)
        } else {
            proof {
                assert(self.entries@.take(0) =~= Seq::<(String, usize)>::empty());
            }
            None
        }
    }

    /// Whether `name` is bound.
    pub fn contains_key(&self, name: &str) -> (r: bool)
        ensures
            r == self@.contains_key(name@),
    {
        self.get(name).is_some()
    }
}

} // verus!
