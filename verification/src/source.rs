//! A forward-only cursor over a sequence of fallible inventory records.

use crate::model::Item;
use vstd::prelude::*;

verus! {

/// An error reported by the record source for one malformed record.
/// The aggregator never inspects it: it is handed back to the caller
/// unchanged by the first call that meets it.
#[derive(Debug)]
pub struct SourceError {
    pub message: String,
}

/// A forward-only, single-pass handle over a sequence of fallible records.
/// Entries can only be taken off the front, one at a time: once an entry
/// has been handed out the cursor cannot be rewound to it.
#[derive(Debug)]
pub struct Cursor {
    entries: Vec<Result<Item, SourceError>>,
}

impl View for Cursor {
    type V = Seq<Result<Item, SourceError>>;

    closed spec fn view(&self) -> Seq<Result<Item, SourceError>> {
        self.entries@
    }
}

impl Cursor {
    /// Wraps a materialized sequence of fallible records as a cursor.
    pub fn new(entries: Vec<Result<Item, SourceError>>) -> (c: Cursor)
        ensures
            c@ == entries@,
    {
        Cursor { entries }
    }

    /// Hands out the next record, or `None` once the source is exhausted.
    pub fn next(&mut self) -> (r: Option<Result<Item, SourceError>>)
        ensures
            old(self)@.len() == 0 ==> r is None && final(self)@ == old(self)@,
            old(self)@.len() > 0 ==> r == Some(old(self)@[0]) && final(self)@ == old(self)@.skip(1),
    {
        if self.entries.len() > 0 {
            let e = self.entries.remove(0);
            proof {
                assert(self.entries@ =~= old(self)@.skip(1));
            }
            Some(e)
        } else {
            None
        }
    }

    /// How many entries are still ahead of the cursor.
    pub fn remaining(&self) -> (n: usize)
        ensures
            n == self@.len(),
    {
        self.entries.len()
    }
}

} // verus!
