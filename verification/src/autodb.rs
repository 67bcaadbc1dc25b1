//! A transactional in-memory cell for a value mirrored on disk.
//!
//! The cell owns the current value and the path it is mirrored under.
//! `edit` opens a draft; changes stay in the draft until `commit` writes
//! them back to the cell, and an uncommitted draft changes nothing.
//! Writing the mirrored file is I/O and belongs to the caller, who saves
//! the committed value under the cell's path.

use vstd::prelude::*;

verus! {

/// A value with a path it is mirrored under.
#[derive(Debug)]
pub struct AutoSerialize<T> {
    obj: T,
    path: String,
}

/// A draft of a new value for a cell.
#[derive(Debug)]
pub struct Transaction<T> {
    temp: T,
    mutated: bool,
}

impl<T: Copy> AutoSerialize<T> {
    /// The value the cell holds.
    pub closed spec fn value(&self) -> T {
        self.obj
    }

    /// The path the value is mirrored under.
    pub closed spec fn path_view(&self) -> Seq<char> {
        self.path@
    }

    pub fn new(path: &str, t: T) -> (s: AutoSerialize<T>)
        ensures
            s.value() == t,
            s.path_view() == path@,
    {
        AutoSerialize { obj: t, path: String::from_str(path) }
    }

    /// Read the current value.
    pub fn get(&self) -> (r: T)
        ensures
            r == self.value(),
    {
        self.obj
    }

    /// The path the value is mirrored under.
    pub fn path(&self) -> (r: &str)
        ensures
            r@ == self.path_view(),
    {
        self.path.as_str()
    }

    /// Open a draft holding the current value; nothing changes until the
    /// draft is committed.
    pub fn edit(&self) -> (tx: Transaction<T>)
        ensures
            tx.current() == self.value(),
            !tx.is_mutated(),
    {
        Transaction { temp: self.obj, mutated: false }
    }
}

impl<T: Copy> Transaction<T> {
    /// The draft's value.
    pub closed spec fn current(&self) -> T {
        self.temp
    }

    /// Whether the draft was changed since it was opened.
    pub closed spec fn is_mutated(&self) -> bool {
        self.mutated
    }

    /// Read the draft's value.
    pub fn get(&self) -> (r: T)
        ensures
            r == self.current(),
    {
        self.temp
    }

    /// Change the draft's value.
    pub fn set(&mut self, t: T)
        ensures
            final(self).current() == t,
            final(self).is_mutated(),
    {
        self.temp = t;
        self.mutated = true;
    }

    /// Apply the draft to its cell: the cell takes the draft's value
    /// only if the draft was changed.  Returns whether the cell changed,
    /// so the caller knows to rewrite the mirrored file.
    pub fn commit(self, target: &mut AutoSerialize<T>) -> (changed: bool)
        ensures
            changed == self.is_mutated(),
            final(target).path_view() == old(target).path_view(),
            final(target).value() == (if self.is_mutated() {
                self.current()
            } else {
                old(target).value()
            }),
    {
        if self.mutated {
            target.obj = self.temp;
            true
        } else {
            false
        }
    }
}

} // verus!
