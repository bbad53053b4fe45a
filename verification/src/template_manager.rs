//! The templates that a rendering may draw on, by path.

use crate::table::{lookup, Table};
use vstd::prelude::*;

verus! {

/// Holds the source of each template under its path. It is filled before a
/// rendering and only read during it.
#[derive(Clone, PartialEq, Eq, Debug, Default)]
pub struct TemplateManager {
    pub sources: Table,
}

impl View for TemplateManager {
    type V = Seq<(Seq<char>, Seq<char>)>;

    open spec fn view(&self) -> Seq<(Seq<char>, Seq<char>)> {
        self.sources@
    }
}

impl TemplateManager {
    /// A manager that holds no template.
    pub fn new() -> (tm: TemplateManager)
        ensures
            tm@ == Seq::<(Seq<char>, Seq<char>)>::empty(),
    {
        TemplateManager { sources: Table::new() }
    }

    /// Enters the source of the template at `path`, in place of an earlier
    /// one.
    pub fn insert(&mut self, path: &str, source: &str)
        ensures
            final(self)@ == old(self)@.push((path@, source@)),
            lookup(final(self)@, path@) == Some(source@),
    {
        self.sources.insert(path, source);
    }

    /// The number of sources entered.
    pub fn len(&self) -> (n: usize)
        ensures
            n == self@.len(),
    {
        self.sources.entries.len()
    }

    /// The source of the template at `path`, if the manager holds it.
    pub fn get(&self, path: &str) -> (found: Option<String>)
        ensures
            match found {
                Some(text) => lookup(self@, path@) == Some(text@),
                None => lookup(self@, path@) is None,
            },
    {
        self.sources.get(path)
    }
}

} // verus!
