//! The tri-state cell that makes up the map's backing array.

use vstd::prelude::*;

verus! {

/// One cell of the backing array: either a live value, the index of the
/// next free cell, or a free cell that ends the free list.
#[derive(Debug, PartialEq, Eq, PartialOrd, Ord, Clone, Copy)]
pub enum OptionIndex<T> {
    /// The cell holds a live value.
    Inner(T),
    /// The cell is free and links to the next free cell.
    Index(usize),
    /// The cell is free and terminates the free list.
    NoIndex,
}

impl<T> OptionIndex<T> {
    /// True exactly on cells that hold a live value.
    pub fn is_inner(&self) -> (r: bool)
        ensures
            r == (self is Inner),
    {
        match self {
            OptionIndex::Inner(_) => true,
            _ => false,
        }
    }

    /// A same-shaped cell exposing a reference to the value in the live case.
    pub fn as_ref(&self) -> (r: OptionIndex<&T>)
        ensures
            self is Inner ==> (r matches OptionIndex::Inner(t) && *t == self->Inner_0),
            self is Index ==> r == OptionIndex::<&T>::Index(self->Index_0),
            self is NoIndex ==> r is NoIndex,
    {
        match self {
            OptionIndex::Inner(t) => OptionIndex::Inner(t),
            OptionIndex::Index(i) => OptionIndex::Index(*i),
            OptionIndex::NoIndex => OptionIndex::NoIndex,
        }
    }

    /// A same-shaped cell exposing a mutable reference to the value in the
    /// live case.  Writing through the reference replaces the cell's value.
    pub fn as_mut(&mut self) -> (r: OptionIndex<&mut T>)
        ensures
            *old(self) is Inner ==> (r is Inner && *(r->Inner_0) == old(self)->Inner_0
                && *final(self) == OptionIndex::Inner(*final(r->Inner_0))),
            *old(self) is Index ==> (r == OptionIndex::<&mut T>::Index(old(self)->Index_0)
                && *final(self) == *old(self)),
            *old(self) is NoIndex ==> (r is NoIndex && *final(self) == *old(self)),
    {
        match self {
            OptionIndex::Inner(t) => OptionIndex::Inner(t),
            OptionIndex::Index(i) => OptionIndex::Index(*i),
            OptionIndex::NoIndex => OptionIndex::NoIndex,
        }
    }

    /// Swaps the cell to `NoIndex` and hands back its previous state.
    pub fn take(&mut self) -> (r: OptionIndex<T>)
        ensures
            r == *old(self),
            *final(self) is NoIndex,
    {
        let mut val = OptionIndex::NoIndex;
        core::mem::swap(self, &mut val);
        val
    }

    /// Consumes the cell, yielding the value only if it was live.
    pub fn into_inner(self) -> (r: Option<T>)
        ensures
            r == (match self {
                OptionIndex::Inner(t) => Option::Some(t),
                _ => Option::<T>::None,
            }),
    {
        match self {
            OptionIndex::Inner(t) => Option::Some(t),
            _ => Option::None,
        }
    }

    /// Consumes the cell, yielding the link target only if it was a link.
    pub fn into_index(self) -> (r: Option<usize>)
        ensures
            r == (match self {
                OptionIndex::Index(i) => Option::Some(i),
                _ => Option::<usize>::None,
            }),
    {
        match self {
            OptionIndex::Index(i) => Option::Some(i),
            _ => Option::None,
        }
    }
}

} // verus!
