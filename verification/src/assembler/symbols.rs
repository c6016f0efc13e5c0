//! The symbol table: each label with its address and the token that defined
//! it.
use super::token::{Token, TokenView};
use crate::text::{chars_eq, chars_of};
use vstd::prelude::*;

verus! {

/// A table from label names to addresses and defining tokens. A name occurs
/// at most once; names differ by case.
pub struct SymbolTable {
    entries: Vec<(String, (i32, Token))>,
}

/// The place of `name` among the entries, if it has one.
spec fn position(entries: Seq<(String, (i32, Token))>, name: Seq<char>) -> Option<
    int,
> {
    if exists|i: int| 0 <= i < entries.len() && entries[i].0@ == name {
        Some(choose|i: int| 0 <= i < entries.len() && entries[i].0@ == name)
    } else {
        None
    }
}

/// No two entries have the same name.
spec fn distinct(entries: Seq<(String, (i32, Token))>) -> bool {
    forall|i: int, j: int| 0 <= i < j < entries.len() ==> entries[i].0@ != entries[j].0@
}

/// The entries as a map from names.
spec fn table_of(entries: Seq<(String, (i32, Token))>) -> Map<
    Seq<char>,
    (int, TokenView),
> {
    Map::new(
        |name: Seq<char>| position(entries, name) is Some,
        |name: Seq<char>|
            (
                entries[position(entries, name).unwrap()].1.0 as int,
                entries[position(entries, name).unwrap()].1.1@,
            ),
    )
}

proof fn position_is(entries: Seq<(String, (i32, Token))>, i: int)
    requires
        distinct(entries),
        0 <= i < entries.len(),
    ensures
        position(entries, entries[i].0@) == Some(i),
{
    let k = choose|k: int| 0 <= k < entries.len() && entries[k].0@ == entries[i].0@;
    if k < i {
        assert(entries[k].0@ != entries[i].0@);
    }
    if i < k {
        assert(entries[i].0@ != entries[k].0@);
    }
}

proof fn replaced(
    entries: Seq<(String, (i32, Token))>,
    i: int,
    entry: (String, (i32, Token)),
)
    requires
        distinct(entries),
        0 <= i < entries.len(),
        entries[i].0@ == entry.0@,
    ensures
        distinct(entries.update(i, entry)),
        table_of(entries.update(i, entry)) == table_of(entries).insert(
            entry.0@,
            (entry.1.0 as int, entry.1.1@),
        ),
        table_of(entries.update(i, entry)).dom() == table_of(entries).dom(),
{
    let after = entries.update(i, entry);
    assert forall|a: int, b: int| 0 <= a < b < after.len() implies after[a].0@ != after[b].0@ by {
        assert(entries[a].0@ != entries[b].0@);
    }
    assert forall|n: Seq<char>| position(entries, n) == position(after, n) by {
        if position(entries, n) is Some {
            let k = position(entries, n).unwrap();
            assert(after[k].0@ == n);
            position_is(entries, k);
            position_is(after, k);
        }
        if position(after, n) is Some {
            let k = position(after, n).unwrap();
            assert(entries[k].0@ == n);
            position_is(entries, k);
            position_is(after, k);
        }
    }
    position_is(after, i);
    assert(table_of(after) =~= table_of(entries).insert(entry.0@, (entry.1.0 as int, entry.1.1@)));
    assert(table_of(after).dom() =~= table_of(entries).dom());
}

proof fn appended(entries: Seq<(String, (i32, Token))>, entry: (String, (i32, Token)))
    requires
        distinct(entries),
        position(entries, entry.0@) is None,
    ensures
        distinct(entries.push(entry)),
        table_of(entries.push(entry)) == table_of(entries).insert(
            entry.0@,
            (entry.1.0 as int, entry.1.1@),
        ),
        !table_of(entries).dom().contains(entry.0@),
{
    let after = entries.push(entry);
    assert forall|a: int, b: int| 0 <= a < b < after.len() implies after[a].0@ != after[b].0@ by {
        if b == entries.len() {
            assert(entries[a].0@ == after[a].0@);
        } else {
            assert(entries[a].0@ != entries[b].0@);
        }
    }
    assert forall|n: Seq<char>| n != entry.0@ implies position(entries, n) == position(
        after,
        n,
    ) by {
        if position(entries, n) is Some {
            let k = position(entries, n).unwrap();
            assert(after[k].0@ == n);
            position_is(entries, k);
            position_is(after, k);
        }
        if position(after, n) is Some {
            let k = position(after, n).unwrap();
            assert(entries[k].0@ == n);
            position_is(entries, k);
            position_is(after, k);
        }
    }
    position_is(after, entries.len() as int);
    assert(table_of(after) =~= table_of(entries).insert(entry.0@, (entry.1.0 as int, entry.1.1@)));
}

impl View for SymbolTable {
    type V = Map<Seq<char>, (int, TokenView)>;

    closed spec fn view(&self) -> Map<Seq<char>, (int, TokenView)> {
        table_of(self.entries@)
    }
}

impl SymbolTable {
    #[verifier::type_invariant]
    spec fn names_are_distinct(&self) -> bool {
        &&& distinct(self.entries@)
        &&& table_of(self.entries@).dom().finite()
        &&& table_of(self.entries@).dom().len() == self.entries@.len()
    }

    /// An empty table.
    pub fn new() -> (table: SymbolTable)
        ensures
            table@ == Map::<Seq<char>, (int, TokenView)>::empty(),
    {
        let entries: Vec<(String, (i32, Token))> = Vec::new();
        assert(table_of(entries@) =~= Map::<Seq<char>, (int, TokenView)>::empty());
        assert(table_of(entries@).dom() =~= Set::<Seq<char>>::empty());
        SymbolTable { entries: entries }
    }

    fn find(&self, name: &str) -> (found: Option<usize>)
        ensures
            found matches Some(i) ==> i < self.entries@.len() && self.entries@[i as int].0@
                == name@ && position(self.entries@, name@) == Some(i as int),
            found is None ==> position(self.entries@, name@) is None,
    {
        proof {
            use_type_invariant(self);
        }
        let key = chars_of(name);
        let mut i: usize = 0;
        while i < self.entries.len()
            invariant
                i <= self.entries@.len(),
                key@ == name@,
                distinct(self.entries@),
                forall|k: int| 0 <= k < i ==> self.entries@[k].0@ != name@,
            decreases self.entries@.len() - i,
        {
            if chars_eq(&key, self.entries[i].0.as_str()) {
                proof {
                    position_is(self.entries@, i as int);
                }
                return Some(i);
            }
            i += 1;
        }
        None
    }

    /// The number of labels in the table.
    pub fn len(&self) -> (n: usize)
        ensures
            n == self@.dom().len(),
            self@.dom().finite(),
    {
        proof {
            use_type_invariant(self);
        }
        self.entries.len()
    }

    /// Whether the table has `name`.
    pub fn contains_key(&self, name: &str) -> (b: bool)
        ensures
            b == self@.contains_key(name@),
    {
        self.find(name).is_some()
    }

    /// The address and defining token of `name`, if the table has it.
    pub fn get(&self, name: &str) -> (entry: Option<&(i32, Token)>)
        ensures
            entry is Some == self@.contains_key(name@),
            entry matches Some(e) ==> self@[name@] == (e.0 as int, e.1@),
    {
        match self.find(name) {
            Some(i) => Some(&self.entries[i].1),
            None => None,
        }
    }

    /// The address of `name`, if the table has it.
    pub fn address_of(&self, name: &str) -> (address: Option<i32>)
        ensures
            address is Some == self@.contains_key(name@),
            address matches Some(a) ==> self@[name@].0 == a,
    {
        match self.find(name) {
            Some(i) => Some(self.entries[i].1.0),
            None => None,
        }
    }

    /// Puts `name` in the table with the given address and token, in place of
    /// what the table held for it.
    pub fn insert(&mut self, name: String, entry: (i32, Token))
        ensures
            final(self)@ == old(self)@.insert(name@, (entry.0 as int, entry.1@)),
    {
        proof {
            use_type_invariant(&*self);
        }
        let ghost before = self.entries@;
        let found = self.find(name.as_str());
        let mut taken = SymbolTable::new();
        std::mem::swap(self, &mut taken);
        let mut entries = taken.entries;
        match found {
            Some(i) => {
                proof {
                    replaced(before, i as int, (name, entry));
                }
                entries[i] = (name, entry);
                *self = SymbolTable { entries: entries };
            },
            None => {
                proof {
                    appended(before, (name, entry));
                }
                entries.push((name, entry));
                *self = SymbolTable { entries: entries };
            },
        }
    }
}

} // verus!
