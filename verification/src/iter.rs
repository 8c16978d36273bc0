//! The iteration family: read, mutate, consume and drain views that all
//! scan the backing array in ascending key order and skip free cells.
//!
//! None of these types implements `Iterator`; each offers an inherent
//! `next` together with `size_hint` and `len`, whose contracts promise the
//! exact sequence of entries still to come ([`Iter::remaining`] and its
//! siblings) and the exact remaining count.

use vstd::prelude::*;

use crate::IndexMap;
use crate::OptionIndex;
use crate::counting;
use crate::free_list_ok;
use crate::live_entries_from;

verus! {

/// An iterator over the entries of an `IndexMap`, yielding each live key
/// with a reference to its value.
pub struct Iter<'a, T> {
    /// The map's backing array.
    pub data: &'a Vec<OptionIndex<T>>,
    /// The next cell to look at.
    pub pos: usize,
    /// The number of live cells not yet yielded.
    pub rem: usize,
}

impl<'a, T> Iter<'a, T> {
    /// The entries still to be yielded, in order.
    pub open spec fn remaining(&self) -> Seq<(usize, T)> {
        live_entries_from(self.data@, self.pos as int)
    }

    /// The cursor is in range and `rem` counts the remaining entries.
    pub open spec fn wf(&self) -> bool {
        self.pos <= self.data@.len() && self.rem == self.remaining().len()
    }

    /// The next entry, or `None` when the scan is done.
    pub fn next(&mut self) -> (r: Option<(usize, &'a T)>)
        requires
            old(self).wf(),
        ensures
            final(self).wf(),
            final(self).data == old(self).data,
            old(self).remaining().len() > 0 ==> (r matches Option::Some(kv) && kv.0 == old(
                self,
            ).remaining()[0].0 && *kv.1 == old(self).remaining()[0].1 && final(self).remaining()
                == old(self).remaining().drop_first()),
            old(self).remaining().len() == 0 ==> (r is None && final(self).remaining() == old(
                self,
            ).remaining()),
    {
        while self.pos < self.data.len() && !(self.data[self.pos].is_inner())
            invariant
                self.data == old(self).data,
                self.rem == old(self).rem,
                old(self).pos <= self.pos <= self.data@.len(),
                live_entries_from(self.data@, self.pos as int) == old(self).remaining(),
            decreases self.data@.len() - self.pos,
        {
            proof {
                assert(live_entries_from(self.data@, self.pos as int) == live_entries_from(
                    self.data@,
                    self.pos + 1,
                ));
            }
            self.pos = self.pos + 1;
        }
        if self.pos < self.data.len() {
            let i = self.pos;
            match &self.data[i] {
                OptionIndex::Inner(v) => {
                    self.pos = i + 1;
                    proof {
                        assert(old(self).remaining() == seq![(i, *v)] + live_entries_from(
                            self.data@,
                            i + 1,
                        ));
                        assert(old(self).remaining().drop_first() =~= live_entries_from(
                            self.data@,
                            i + 1,
                        ));
                    }
                    self.rem = self.rem - 1;
                    Option::Some((i, v))
                },
                _ => {
                    proof {
                        assert(false);
                    }
                    Option::None
                },
            }
        } else {
            Option::None
        }
    }

    /// The exact number of remaining entries, as both bounds of a size
    /// hint.
    pub fn size_hint(&self) -> (r: (usize, Option<usize>))
        requires
            self.wf(),
        ensures
            r.0 == self.remaining().len(),
            r.1 == Option::Some(r.0),
    {
        (self.rem, Option::Some(self.rem))
    }

    /// The exact number of remaining entries.
    pub fn len(&self) -> (r: usize)
        requires
            self.wf(),
        ensures
            r == self.remaining().len(),
    {
        self.rem
    }
}

/// An iterator over the keys of an `IndexMap`, in ascending order.
pub struct Keys<'a, T> {
    /// The underlying entry iterator.
    pub inner: Iter<'a, T>,
}

impl<'a, T> Keys<'a, T> {
    /// The entries whose keys are still to be yielded, in order.
    pub open spec fn remaining(&self) -> Seq<(usize, T)> {
        self.inner.remaining()
    }

    /// The underlying iterator is well formed.
    pub open spec fn wf(&self) -> bool {
        self.inner.wf()
    }

    /// The next key, or `None` when the scan is done.
    pub fn next(&mut self) -> (r: Option<usize>)
        requires
            old(self).wf(),
        ensures
            final(self).wf(),
            final(self).inner.data == old(self).inner.data,
            old(self).remaining().len() > 0 ==> (r == Option::Some(old(self).remaining()[0].0)
                && final(self).remaining() == old(self).remaining().drop_first()),
            old(self).remaining().len() == 0 ==> (r is None && final(self).remaining() == old(
                self,
            ).remaining()),
    {
        match self.inner.next() {
            Option::Some(kv) => Option::Some(kv.0),
            Option::None => Option::None,
        }
    }

    /// The exact number of remaining keys, as both bounds of a size hint.
    pub fn size_hint(&self) -> (r: (usize, Option<usize>))
        requires
            self.wf(),
        ensures
            r.0 == self.remaining().len(),
            r.1 == Option::Some(r.0),
    {
        self.inner.size_hint()
    }

    /// The exact number of remaining keys.
    pub fn len(&self) -> (r: usize)
        requires
            self.wf(),
        ensures
            r == self.remaining().len(),
    {
        self.inner.len()
    }
}

/// An iterator over the values of an `IndexMap`, in ascending key order.
pub struct Values<'a, T> {
    /// The underlying entry iterator.
    pub inner: Iter<'a, T>,
}

impl<'a, T> Values<'a, T> {
    /// The entries whose values are still to be yielded, in order.
    pub open spec fn remaining(&self) -> Seq<(usize, T)> {
        self.inner.remaining()
    }

    /// The underlying iterator is well formed.
    pub open spec fn wf(&self) -> bool {
        self.inner.wf()
    }

    /// A reference to the next value, or `None` when the scan is done.
    pub fn next(&mut self) -> (r: Option<&'a T>)
        requires
            old(self).wf(),
        ensures
            final(self).wf(),
            final(self).inner.data == old(self).inner.data,
            old(self).remaining().len() > 0 ==> (r matches Option::Some(v) && *v == old(
                self,
            ).remaining()[0].1 && final(self).remaining() == old(self).remaining().drop_first()),
            old(self).remaining().len() == 0 ==> (r is None && final(self).remaining() == old(
                self,
            ).remaining()),
    {
        match self.inner.next() {
            Option::Some(kv) => Option::Some(kv.1),
            Option::None => Option::None,
        }
    }

    /// The exact number of remaining values, as both bounds of a size hint.
    pub fn size_hint(&self) -> (r: (usize, Option<usize>))
        requires
            self.wf(),
        ensures
            r.0 == self.remaining().len(),
            r.1 == Option::Some(r.0),
    {
        self.inner.size_hint()
    }

    /// The exact number of remaining values.
    pub fn len(&self) -> (r: usize)
        requires
            self.wf(),
        ensures
            r == self.remaining().len(),
    {
        self.inner.len()
    }
}

/// A mutable iterator over the entries of an `IndexMap`, yielding each
/// live key with a mutable reference to its value.
///
/// Each reference is valid until the next call; writing through it
/// replaces the value inside the cell and nothing else.
pub struct IterMut<'a, T> {
    /// The map's backing array, borrowed for the iterator's lifetime.
    pub data: &'a mut Vec<OptionIndex<T>>,
    /// The next cell to look at.
    pub pos: usize,
    /// The number of live cells not yet yielded.
    pub rem: usize,
}

impl<'a, T> IterMut<'a, T> {
    /// The entries still to be yielded, in order, with their current
    /// values.
    pub open spec fn remaining(&self) -> Seq<(usize, T)> {
        live_entries_from(self.data@, self.pos as int)
    }

    /// The cursor is in range and `rem` counts the remaining entries.
    pub open spec fn wf(&self) -> bool {
        self.pos <= self.data@.len() && self.rem == self.remaining().len()
    }

    /// The next entry, or `None` when the scan is done.
    pub fn next<'b>(&'b mut self) -> (r: Option<(usize, &'b mut T)>)
        requires
            old(self).wf(),
        ensures
            final(self).wf(),
            old(self).remaining().len() > 0 ==> (r matches Option::Some(kv) && kv.0 == old(
                self,
            ).remaining()[0].0 && *kv.1 == old(self).remaining()[0].1 && final(self).data@ == old(
                self,
            ).data@.update(kv.0 as int, OptionIndex::Inner(*final(kv.1))) && final(self).remaining() == old(self).remaining().drop_first()),
            old(self).remaining().len() == 0 ==> (r is None && final(self).data@ == old(
                self,
            ).data@ && final(self).remaining() == old(self).remaining()),
    {
        while self.pos < self.data.len() && !(self.data[self.pos].is_inner())
            invariant
                self.data@ == old(self).data@,
                self.rem == old(self).rem,
                old(self).pos <= self.pos <= self.data@.len(),
                live_entries_from(self.data@, self.pos as int) == old(self).remaining(),
            decreases self.data@.len() - self.pos,
        {
            proof {
                assert(live_entries_from(self.data@, self.pos as int) == live_entries_from(
                    self.data@,
                    self.pos + 1,
                ));
            }
            self.pos = self.pos + 1;
        }
        if self.pos < self.data.len() {
            let i = self.pos;
            proof {
                assert(old(self).remaining() == seq![(i, self.data@[i as int]->Inner_0)]
                    + live_entries_from(self.data@, i + 1));
                assert(old(self).remaining().drop_first() =~= live_entries_from(
                    self.data@,
                    i + 1,
                ));
            }
            self.pos = i + 1;
            self.rem = self.rem - 1;
            match &mut self.data[i] {
                OptionIndex::Inner(v) => {
                    proof {
                        counting::lemma_live_entries_update(
                            old(self).data@,
                            i + 1,
                            i as int,
                            OptionIndex::Inner(*final(v)),
                        );
                    }
                    Option::Some((i, v))
                },
                _ => {
                    proof {
                        assert(false);
                    }
                    Option::None
                },
            }
        } else {
            Option::None
        }
    }

    /// The exact number of remaining entries, as both bounds of a size
    /// hint.
    pub fn size_hint(&self) -> (r: (usize, Option<usize>))
        requires
            self.wf(),
        ensures
            r.0 == self.remaining().len(),
            r.1 == Option::Some(r.0),
    {
        (self.rem, Option::Some(self.rem))
    }

    /// The exact number of remaining entries.
    pub fn len(&self) -> (r: usize)
        requires
            self.wf(),
        ensures
            r == self.remaining().len(),
    {
        self.rem
    }
}

/// A mutable iterator over the values of an `IndexMap`, in ascending key
/// order.
pub struct ValuesMut<'a, T> {
    /// The underlying mutable entry iterator.
    pub inner: IterMut<'a, T>,
}

impl<'a, T> ValuesMut<'a, T> {
    /// The entries whose values are still to be yielded, in order.
    pub open spec fn remaining(&self) -> Seq<(usize, T)> {
        self.inner.remaining()
    }

    /// The underlying iterator is well formed.
    pub open spec fn wf(&self) -> bool {
        self.inner.wf()
    }

    /// A mutable reference to the next value, or `None` when the scan is
    /// done.
    pub fn next<'b>(&'b mut self) -> (r: Option<&'b mut T>)
        requires
            old(self).wf(),
        ensures
            final(self).wf(),
            old(self).remaining().len() > 0 ==> (r matches Option::Some(v) && *v == old(
                self,
            ).remaining()[0].1 && final(self).inner.data@ == old(self).inner.data@.update(
                old(self).remaining()[0].0 as int,
                OptionIndex::Inner(*final(v)),
            ) && final(self).remaining() == old(self).remaining().drop_first()),
            old(self).remaining().len() == 0 ==> (r is None && final(self).inner.data@ == old(
                self,
            ).inner.data@ && final(self).remaining() == old(self).remaining()),
    {
        match self.inner.next() {
            Option::Some(kv) => Option::Some(kv.1),
            Option::None => Option::None,
        }
    }

    /// The exact number of remaining values, as both bounds of a size hint.
    pub fn size_hint(&self) -> (r: (usize, Option<usize>))
        requires
            self.wf(),
        ensures
            r.0 == self.remaining().len(),
            r.1 == Option::Some(r.0),
    {
        self.inner.size_hint()
    }

    /// The exact number of remaining values.
    pub fn len(&self) -> (r: usize)
        requires
            self.wf(),
        ensures
            r == self.remaining().len(),
    {
        self.inner.len()
    }
}

/// An owning iterator over the entries of an `IndexMap`, yielding each
/// live key with its value.
pub struct IntoIter<T> {
    /// The map's backing array, taken over by the iterator.
    pub data: Vec<OptionIndex<T>>,
    /// The next cell to look at.
    pub pos: usize,
    /// The number of live cells not yet yielded.
    pub rem: usize,
}

impl<T> IntoIter<T> {
    /// The entries still to be yielded, in order.
    pub open spec fn remaining(&self) -> Seq<(usize, T)> {
        live_entries_from(self.data@, self.pos as int)
    }

    /// The cursor is in range and `rem` counts the remaining entries.
    pub open spec fn wf(&self) -> bool {
        self.pos <= self.data@.len() && self.rem == self.remaining().len()
    }

    /// The next entry, or `None` when the scan is done.
    pub fn next(&mut self) -> (r: Option<(usize, T)>)
        requires
            old(self).wf(),
        ensures
            final(self).wf(),
            old(self).remaining().len() > 0 ==> (r == Option::Some(old(self).remaining()[0])
                && final(self).remaining() == old(self).remaining().drop_first()),
            old(self).remaining().len() == 0 ==> (r is None && final(self).remaining() == old(
                self,
            ).remaining()),
    {
        while self.pos < self.data.len() && !(self.data[self.pos].is_inner())
            invariant
                self.data@ == old(self).data@,
                self.rem == old(self).rem,
                old(self).pos <= self.pos <= self.data@.len(),
                live_entries_from(self.data@, self.pos as int) == old(self).remaining(),
            decreases self.data@.len() - self.pos,
        {
            proof {
                assert(live_entries_from(self.data@, self.pos as int) == live_entries_from(
                    self.data@,
                    self.pos + 1,
                ));
            }
            self.pos = self.pos + 1;
        }
        if self.pos < self.data.len() {
            let i = self.pos;
            proof {
                assert(old(self).remaining() == seq![(i, self.data@[i as int]->Inner_0)]
                    + live_entries_from(self.data@, i + 1));
                assert(old(self).remaining().drop_first() =~= live_entries_from(
                    self.data@,
                    i + 1,
                ));
            }
            let mut slot = OptionIndex::NoIndex;
            self.data.set_and_swap(i, &mut slot);
            self.pos = i + 1;
            self.rem = self.rem - 1;
            proof {
                counting::lemma_live_entries_update(
                    old(self).data@,
                    i + 1,
                    i as int,
                    OptionIndex::NoIndex,
                );
            }
            match slot {
                OptionIndex::Inner(v) => Option::Some((i, v)),
                _ => {
                    proof {
                        assert(false);
                    }
                    Option::None
                },
            }
        } else {
            Option::None
        }
    }

    /// The exact number of remaining entries, as both bounds of a size
    /// hint.
    pub fn size_hint(&self) -> (r: (usize, Option<usize>))
        requires
            self.wf(),
        ensures
            r.0 == self.remaining().len(),
            r.1 == Option::Some(r.0),
    {
        (self.rem, Option::Some(self.rem))
    }

    /// The exact number of remaining entries.
    pub fn len(&self) -> (r: usize)
        requires
            self.wf(),
        ensures
            r == self.remaining().len(),
    {
        self.rem
    }
}

/// A draining iterator over the entries of an `IndexMap`.  Creating it
/// empties the map; the entries are yielded like `IntoIter`'s.
pub struct Drain<T> {
    /// The cells taken out of the map.
    pub data: Vec<OptionIndex<T>>,
    /// The next cell to look at.
    pub pos: usize,
    /// The number of live cells not yet yielded.
    pub rem: usize,
}

impl<T> Drain<T> {
    /// The entries still to be yielded, in order.
    pub open spec fn remaining(&self) -> Seq<(usize, T)> {
        live_entries_from(self.data@, self.pos as int)
    }

    /// The cursor is in range and `rem` counts the remaining entries.
    pub open spec fn wf(&self) -> bool {
        self.pos <= self.data@.len() && self.rem == self.remaining().len()
    }

    /// The next entry, or `None` when the drain is done.
    pub fn next(&mut self) -> (r: Option<(usize, T)>)
        requires
            old(self).wf(),
        ensures
            final(self).wf(),
            old(self).remaining().len() > 0 ==> (r == Option::Some(old(self).remaining()[0])
                && final(self).remaining() == old(self).remaining().drop_first()),
            old(self).remaining().len() == 0 ==> (r is None && final(self).remaining() == old(
                self,
            ).remaining()),
    {
        while self.pos < self.data.len() && !(self.data[self.pos].is_inner())
            invariant
                self.data@ == old(self).data@,
                self.rem == old(self).rem,
                old(self).pos <= self.pos <= self.data@.len(),
                live_entries_from(self.data@, self.pos as int) == old(self).remaining(),
            decreases self.data@.len() - self.pos,
        {
            proof {
                assert(live_entries_from(self.data@, self.pos as int) == live_entries_from(
                    self.data@,
                    self.pos + 1,
                ));
            }
            self.pos = self.pos + 1;
        }
        if self.pos < self.data.len() {
            let i = self.pos;
            proof {
                assert(old(self).remaining() == seq![(i, self.data@[i as int]->Inner_0)]
                    + live_entries_from(self.data@, i + 1));
                assert(old(self).remaining().drop_first() =~= live_entries_from(
                    self.data@,
                    i + 1,
                ));
            }
            let mut slot = OptionIndex::NoIndex;
            self.data.set_and_swap(i, &mut slot);
            self.pos = i + 1;
            self.rem = self.rem - 1;
            proof {
                counting::lemma_live_entries_update(
                    old(self).data@,
                    i + 1,
                    i as int,
                    OptionIndex::NoIndex,
                );
            }
            match slot {
                OptionIndex::Inner(v) => Option::Some((i, v)),
                _ => {
                    proof {
                        assert(false);
                    }
                    Option::None
                },
            }
        } else {
            Option::None
        }
    }

    /// The exact number of remaining entries, as both bounds of a size
    /// hint.
    pub fn size_hint(&self) -> (r: (usize, Option<usize>))
        requires
            self.wf(),
        ensures
            r.0 == self.remaining().len(),
            r.1 == Option::Some(r.0),
    {
        (self.rem, Option::Some(self.rem))
    }

    /// The exact number of remaining entries.
    pub fn len(&self) -> (r: usize)
        requires
            self.wf(),
        ensures
            r == self.remaining().len(),
    {
        self.rem
    }
}

impl<T> IndexMap<T> {
    /// A mutable iterator over all key-value pairs, in ascending key
    /// order.  The map's cells are borrowed by the iterator and reflect
    /// every write made through it.
    pub fn iter_mut(&mut self) -> (r: IterMut<'_, T>)
        requires
            old(self).wf(),
        ensures
            r.wf(),
            r.pos == 0,
            r.data@ == old(self)@,
            r.remaining() == live_entries_from(old(self)@, 0),
            r.remaining().len() == old(self).len,
            final(self).data == *final(r.data),
            final(self).head == old(self).head,
            final(self).len == old(self).len,
    {
        let rem = self.len;
        IterMut { data: &mut self.data, pos: 0, rem }
    }

    /// A mutable iterator over all values, in ascending key order.
    pub fn values_mut(&mut self) -> (r: ValuesMut<'_, T>)
        requires
            old(self).wf(),
        ensures
            r.wf(),
            r.inner.pos == 0,
            r.inner.data@ == old(self)@,
            r.remaining() == live_entries_from(old(self)@, 0),
            r.remaining().len() == old(self).len,
            final(self).data == *final(r.inner.data),
            final(self).head == old(self).head,
            final(self).len == old(self).len,
    {
        ValuesMut { inner: self.iter_mut() }
    }

    /// Consumes the map into an iterator over all key-value pairs, in
    /// ascending key order.
    pub fn into_iter(self) -> (r: IntoIter<T>)
        requires
            self.wf(),
        ensures
            r.wf(),
            r.pos == 0,
            r.data@ == self@,
            r.remaining() == live_entries_from(self@, 0),
            r.remaining().len() == self.len,
    {
        IntoIter { pos: 0, rem: self.len, data: self.data }
    }

    /// Clears the map, returning an iterator over all key-value pairs it
    /// held, in ascending key order.
    pub fn drain(&mut self) -> (r: Drain<T>)
        requires
            old(self).wf(),
        ensures
            final(self).wf(),
            final(self)@ == Seq::<OptionIndex<T>>::empty(),
            final(self).head is None,
            final(self).len == 0,
            r.wf(),
            r.pos == 0,
            r.data@ == old(self)@,
            r.remaining() == live_entries_from(old(self)@, 0),
            r.remaining().len() == old(self).len,
    {
        let rem = self.len;
        let mut data: Vec<OptionIndex<T>> = Vec::new();
        core::mem::swap(&mut self.data, &mut data);
        self.head = Option::None;
        self.len = 0;
        proof {
            assert(free_list_ok(self.data@, self.head, Seq::<usize>::empty()));
        }
        Drain { data, pos: 0, rem }
    }
}

impl<T> IndexMap<T> {
    /// An iterator over all key-value pairs, in ascending key order.
    pub fn iter(&self) -> (r: Iter<'_, T>)
        requires
            self.wf(),
        ensures
            r.wf(),
            r.data == &self.data,
            r.pos == 0,
            r.remaining() == live_entries_from(self@, 0),
            r.remaining().len() == self.len,
    {
        Iter { data: &self.data, pos: 0, rem: self.len }
    }

    /// An iterator over all keys, in ascending order.
    pub fn keys(&self) -> (r: Keys<'_, T>)
        requires
            self.wf(),
        ensures
            r.wf(),
            r.inner.data == &self.data,
            r.inner.pos == 0,
            r.remaining() == live_entries_from(self@, 0),
            r.remaining().len() == self.len,
    {
        Keys { inner: self.iter() }
    }

    /// An iterator over all values, in ascending key order.
    pub fn values(&self) -> (r: Values<'_, T>)
        requires
            self.wf(),
        ensures
            r.wf(),
            r.inner.data == &self.data,
            r.inner.pos == 0,
            r.remaining() == live_entries_from(self@, 0),
            r.remaining().len() == self.len,
    {
        Values { inner: self.iter() }
    }
}

} // verus!
