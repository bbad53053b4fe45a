//! A table from names to texts, kept in the order of insertion.

use vstd::prelude::*;
use vstd::string::*;

verus! {

/// One entry of a table.
#[derive(Clone, PartialEq, Eq, Debug, Default)]
pub struct Entry {
    pub key: String,
    pub value: String,
}

/// A table from names to texts. Where a name was entered more than once,
/// the last entry counts.
#[derive(Clone, PartialEq, Eq, Debug, Default)]
pub struct Table {
    pub entries: Vec<Entry>,
}

/// The text that the entries give for `key`: that of the last entry with
/// this key.
pub open spec fn lookup(entries: Seq<(Seq<char>, Seq<char>)>, key: Seq<char>) -> Option<Seq<char>>
    decreases entries.len(),
{
    if entries.len() == 0 {
        None
    } else if entries.last().0 == key {
        Some(entries.last().1)
    } else {
        lookup(entries.drop_last(), key)
    }
}

impl View for Table {
    type V = Seq<(Seq<char>, Seq<char>)>;

    open spec fn view(&self) -> Seq<(Seq<char>, Seq<char>)> {
        Seq::new(self.entries@.len(), |i: int| (self.entries@[i].key@, self.entries@[i].value@))
    }
}

impl Table {
    /// The empty table.
    pub fn new() -> (t: Table)
        ensures
            t@ == Seq::<(Seq<char>, Seq<char>)>::empty(),
    {
        let t = Table { entries: Vec::new() };
        assert(t@ =~= Seq::empty());
        t
    }

    /// Enters `value` under `key`; an earlier entry of the key no longer
    /// counts.
    pub fn insert(&mut self, key: &str, value: &str)
        ensures
            final(self)@ == old(self)@.push((key@, value@)),
            lookup(final(self)@, key@) == Some(value@),
    {
        self.entries.push(Entry { key: String::from_str(key), value: String::from_str(value) });
        assert(self@ =~= old(self)@.push((key@, value@)));
    }

    /// The text entered under `key`, if there is one.
    pub fn get(&self, key: &str) -> (found: Option<String>)
        ensures
            match found {
                Some(text) => lookup(self@, key@) == Some(text@),
                None => lookup(self@, key@) is None,
            },
    {
        let wanted = String::from_str(key);
        let mut i: usize = self.entries.len();
        assert(self@.take(i as int) =~= self@);
        while i > 0
            invariant
                i <= self.entries.len(),
                wanted@ == key@,
                lookup(self@, key@) == lookup(self@.take(i as int), key@),
            decreases i,
        {
            proof {
                assert(self@.take(i as int).drop_last() =~= self@.take(i - 1));
            }
            if self.entries[i - 1].key == wanted {
                return Some(self.entries[i - 1].value.clone());
            }
            i -= 1;
        }
        None
    }
}

} // verus!
