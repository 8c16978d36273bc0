//! A map with automatically generated `usize` keys.
//!
//! The map hands out a fresh integer key for every inserted value and offers
//! O(1) insertion, O(1) lookup and O(1) removal by key.  It is backed by a
//! single growable array whose cells either hold a live value or are free;
//! the free cells are threaded into a singly linked list by storing, in each
//! free cell, the index of the next free cell.  Insertion pops the head of
//! that list (most recently freed first) and only appends a new cell when no
//! free cell exists.
//!
//! Every operation carries a contract: the well-formedness predicate
//! [`IndexMap::wf`] states the free-list invariant, and each method's
//! `ensures` pins the new backing array, free-list head and length exactly.

use vstd::prelude::*;

mod counting;
mod iter;
pub mod laws;
mod option_index;
mod render;

pub use iter::{Drain, IntoIter, Iter, IterMut, Keys, Values, ValuesMut};
pub use option_index::OptionIndex;

verus! {

/// A map of `usize` to value with O(1) insertion, lookup and removal.
///
/// `data` is the backing array, `head` the index of the most recently freed
/// cell (or `None` when no cell is free), and `len` the number of live cells.
/// The fields are public so that specifications and tests can speak of them
/// directly; every method's contract takes the well-formedness predicate
/// [`IndexMap::wf`] as its premise and re-establishes it.
#[derive(Debug, PartialEq, Eq, PartialOrd, Ord, Clone)]
pub struct IndexMap<T> {
    /// The backing array of tri-state cells.
    pub data: Vec<OptionIndex<T>>,
    /// The head of the free list, if any cell is free.
    pub head: Option<usize>,
    /// The number of live cells.
    pub len: usize,
}

impl<T> View for IndexMap<T> {
    type V = Seq<OptionIndex<T>>;

    /// The mathematical model of the map is its sequence of cells.
    open spec fn view(&self) -> Seq<OptionIndex<T>> {
        self.data@
    }
}

/// The link a free cell stores: the next free index, or `None` at the end
/// of the free list.
pub open spec fn link_of<T>(slot: OptionIndex<T>) -> Option<usize> {
    match slot {
        OptionIndex::Index(n) => Option::Some(n),
        _ => Option::None,
    }
}

/// `fl` is exactly the free list of `s` rooted at `head`: it starts at
/// `head`, visits only free cells, follows each cell's link, ends at a
/// terminator, never repeats a cell, and covers every free cell of `s`.
pub open spec fn free_list_ok<T>(s: Seq<OptionIndex<T>>, head: Option<usize>, fl: Seq<usize>) -> bool {
    &&& (match head {
        Option::Some(h) => fl.len() > 0 && fl[0] == h,
        Option::None => fl.len() == 0,
    })
    &&& (forall|j: int|
        0 <= j < fl.len() ==> (#[trigger] fl[j]) < s.len() && !(s[fl[j] as int] is Inner))
    &&& (forall|j: int|
        0 <= j < fl.len() - 1 ==> s[(#[trigger] fl[j]) as int] == OptionIndex::<T>::Index(
            #[trigger] fl[j + 1],
        ))
    &&& (fl.len() > 0 ==> s[fl.last() as int] is NoIndex)
    &&& (forall|j: int, k: int|
        0 <= j < fl.len() && 0 <= k < fl.len() && j != k ==> #[trigger] fl[j] != #[trigger] fl[k])
    &&& (forall|i: usize| i < s.len() && !(s[i as int] is Inner) ==> #[trigger] fl.contains(i))
}

/// One step of the free list's link structure: each cell but the last
/// links to its successor.
pub proof fn lemma_free_list_link<T>(
    s: Seq<OptionIndex<T>>,
    head: Option<usize>,
    fl: Seq<usize>,
    j: int,
)
    requires
        free_list_ok(s, head, fl),
        0 <= j < fl.len() - 1,
    ensures
        s[fl[j] as int] == OptionIndex::<T>::Index(fl[j + 1]),
{
}

/// Overwriting the value inside a live cell leaves the free list intact.
pub proof fn lemma_free_list_value_update<T>(
    s: Seq<OptionIndex<T>>,
    head: Option<usize>,
    fl: Seq<usize>,
    i: int,
    x: T,
)
    requires
        free_list_ok(s, head, fl),
        0 <= i < s.len(),
        s[i] is Inner,
    ensures
        free_list_ok(s.update(i, OptionIndex::Inner(x)), head, fl),
{
    let su = s.update(i, OptionIndex::Inner(x));
    assert forall|j: int| 0 <= j < fl.len() implies (#[trigger] fl[j]) as int != i by {
        assert(!(s[fl[j] as int] is Inner));
    }
    assert forall|j: int|
        0 <= j < fl.len() - 1 implies su[(#[trigger] fl[j]) as int] == OptionIndex::<T>::Index(
        #[trigger] fl[j + 1],
    ) by {
        lemma_free_list_link(s, head, fl, j);
    }
    assert forall|k: usize| k < su.len() && !(su[k as int] is Inner) implies fl.contains(k) by {
        assert(!(s[k as int] is Inner));
    }
}

/// The live entries of `s` at positions `i` and beyond, in ascending order
/// of index, each paired with its index.
pub open spec fn live_entries_from<T>(s: Seq<OptionIndex<T>>, i: int) -> Seq<(usize, T)>
    decreases s.len() - i,
{
    if i < 0 || i >= s.len() {
        Seq::empty()
    } else {
        match s[i] {
            OptionIndex::Inner(v) => seq![(i as usize, v)] + live_entries_from(s, i + 1),
            _ => live_entries_from(s, i + 1),
        }
    }
}

/// The number of live cells of `s`.
pub open spec fn live_count<T>(s: Seq<OptionIndex<T>>) -> nat {
    live_entries_from(s, 0).len()
}

/// The index of the last live cell of `s`, or `-1` when no cell is live.
pub open spec fn last_live<T>(s: Seq<OptionIndex<T>>) -> int
    decreases s.len(),
{
    if s.len() == 0 {
        -1
    } else if s.last() is Inner {
        s.len() - 1
    } else {
        last_live(s.drop_last())
    }
}

/// `last_live` names a live cell when one exists, and every cell beyond it
/// is free.
pub proof fn lemma_last_live<T>(s: Seq<OptionIndex<T>>)
    ensures
        -1 <= last_live(s) < s.len(),
        last_live(s) >= 0 ==> s[last_live(s)] is Inner,
        forall|j: int| last_live(s) < j < s.len() ==> !((#[trigger] s[j]) is Inner),
    decreases s.len(),
{
    if s.len() == 0 {
    } else if s.last() is Inner {
    } else {
        lemma_last_live(s.drop_last());
        assert forall|j: int| last_live(s) < j < s.len() implies !((#[trigger] s[j]) is Inner) by {
            if j < s.len() - 1 {
                assert(s.drop_last()[j] == s[j]);
            }
        }
    }
}

/// The subsequence of `fl` made of the indices at most `l`, in order.
pub open spec fn keep_at_most(fl: Seq<usize>, l: int) -> Seq<usize>
    decreases fl.len(),
{
    if fl.len() == 0 {
        Seq::empty()
    } else if fl.last() as int <= l {
        keep_at_most(fl.drop_last(), l).push(fl.last())
    } else {
        keep_at_most(fl.drop_last(), l)
    }
}

/// Extending the walked prefix by one index extends the kept subsequence
/// exactly when that index is small enough.
pub proof fn lemma_keep_at_most_push(fl: Seq<usize>, l: int, x: usize)
    ensures
        keep_at_most(fl.push(x), l) == if x as int <= l {
            keep_at_most(fl, l).push(x)
        } else {
            keep_at_most(fl, l)
        },
{
    assert(fl.push(x).drop_last() =~= fl);
    assert(fl.push(x).last() == x);
}

/// An index of `fl` that is at most `l` appears in the kept subsequence.
pub proof fn lemma_keep_at_most_contains(fl: Seq<usize>, l: int, q: int)
    requires
        0 <= q < fl.len(),
        fl[q] as int <= l,
    ensures
        keep_at_most(fl, l).contains(fl[q]),
    decreases fl.len(),
{
    if q == fl.len() - 1 {
        let k = keep_at_most(fl, l);
        assert(k[k.len() - 1] == fl.last());
    } else {
        lemma_keep_at_most_contains(fl.drop_last(), l, q);
        assert(fl.drop_last()[q] == fl[q]);
        let k = keep_at_most(fl.drop_last(), l);
        let j = choose|j: int| 0 <= j < k.len() && k[j] == fl[q];
        if fl.last() as int <= l {
            assert(keep_at_most(fl, l)[j] == fl[q]);
        }
    }
}

/// When every index of `fl` is at most `l`, everything is kept.
pub proof fn lemma_keep_at_most_all(fl: Seq<usize>, l: int)
    requires
        forall|j: int| 0 <= j < fl.len() ==> (#[trigger] fl[j]) as int <= l,
    ensures
        keep_at_most(fl, l) == fl,
    decreases fl.len(),
{
    if fl.len() > 0 {
        assert(fl[fl.len() - 1] == fl.last());
        lemma_keep_at_most_all(fl.drop_last(), l);
        assert(keep_at_most(fl, l) =~= fl);
    }
}

/// When every index of `fl` exceeds `l`, nothing is kept.
pub proof fn lemma_keep_at_most_none(fl: Seq<usize>, l: int)
    requires
        forall|j: int| 0 <= j < fl.len() ==> (#[trigger] fl[j]) as int > l,
    ensures
        keep_at_most(fl, l) == Seq::<usize>::empty(),
    decreases fl.len(),
{
    if fl.len() > 0 {
        assert(fl[fl.len() - 1] == fl.last());
        lemma_keep_at_most_none(fl.drop_last(), l);
    }
}

/// The key the next insertion will use: the head of the free list, or the
/// index one past the current cells when no cell is free.
pub open spec fn next_key_of<T>(s: Seq<OptionIndex<T>>, head: Option<usize>) -> int {
    match head {
        Option::Some(h) => h as int,
        Option::None => s.len() as int,
    }
}

/// The backing array after inserting `v`: the head cell is overwritten when
/// a free cell exists, a new cell is appended otherwise.
pub open spec fn inserted_slots<T>(s: Seq<OptionIndex<T>>, head: Option<usize>, v: T) -> Seq<
    OptionIndex<T>,
> {
    match head {
        Option::Some(h) => s.update(h as int, OptionIndex::Inner(v)),
        Option::None => s.push(OptionIndex::Inner(v)),
    }
}

/// The free-list head after an insertion: the link the popped head cell held,
/// or still `None` when the free list was empty.
pub open spec fn inserted_head<T>(s: Seq<OptionIndex<T>>, head: Option<usize>) -> Option<usize> {
    match head {
        Option::Some(h) => link_of(s[h as int]),
        Option::None => Option::None,
    }
}

/// The backing array after removing the live cell `i`: that cell now links
/// to the old free-list head, or terminates the list when there was none.
pub open spec fn removed_slots<T>(s: Seq<OptionIndex<T>>, head: Option<usize>, i: usize) -> Seq<
    OptionIndex<T>,
> {
    s.update(
        i as int,
        match head {
            Option::Some(h) => OptionIndex::Index(h),
            Option::None => OptionIndex::NoIndex,
        },
    )
}

impl<T> IndexMap<T> {
    /// Well-formedness: the free cells form exactly one linked list rooted
    /// at `head`, and `len` counts the live cells.
    pub open spec fn wf(&self) -> bool {
        &&& exists|fl: Seq<usize>| free_list_ok(self.data@, self.head, fl)
        &&& self.len == live_count(self.data@)
    }

    /// The free list of a well-formed map, as the sequence of indices
    /// visited from `head`.
    pub open spec fn free_seq(&self) -> Seq<usize> {
        choose|fl: Seq<usize>| free_list_ok(self.data@, self.head, fl)
    }

    /// Key `i` is present: it names a cell and that cell is live.
    pub open spec fn spec_contains_key(&self, i: int) -> bool {
        0 <= i < self.data@.len() && self.data@[i] is Inner
    }

    /// Creates a new `IndexMap`.  It does not allocate until first inserted
    /// into.
    pub fn new() -> (r: Self)
        ensures
            r.wf(),
            r@ == Seq::<OptionIndex<T>>::empty(),
            r.head is None,
            r.len == 0,
    {
        let r = Self { data: Vec::new(), head: Option::None, len: 0 };
        proof {
            assert(free_list_ok(r.data@, r.head, Seq::<usize>::empty()));
        }
        r
    }

    /// Creates an empty `IndexMap` able to hold at least `capacity` values
    /// without reallocating.
    pub fn with_capacity(capacity: usize) -> (r: Self)
        ensures
            r.wf(),
            r@ == Seq::<OptionIndex<T>>::empty(),
            r.head is None,
            r.len == 0,
    {
        let r = Self { data: Vec::with_capacity(capacity), head: Option::None, len: 0 };
        proof {
            assert(free_list_ok(r.data@, r.head, Seq::<usize>::empty()));
        }
        r
    }

    /// The number of values the map can hold without reallocating.
    ///
    /// The capacity is never less than the number of cells, and so never
    /// less than the number of live values of a well-formed map.
    pub fn capacity(&self) -> (r: usize)
        ensures
            r >= self@.len(),
            self.wf() ==> r >= self.len,
    {
        proof {
            if self.wf() {
                counting::lemma_live_entries_bound(self.data@, 0);
            }
        }
        vec_capacity(&self.data)
    }

    /// The number of values present in the map.
    pub fn len(&self) -> (r: usize)
        ensures
            r == self.len,
    {
        self.len
    }

    /// True if the map holds no value.
    pub fn is_empty(&self) -> (r: bool)
        ensures
            r == (self.len == 0),
    {
        self.len == 0
    }

    /// Clears the map, dropping every value and emptying the free list.
    /// The backing allocation is kept for reuse.
    pub fn clear(&mut self)
        ensures
            final(self).wf(),
            final(self)@ == Seq::<OptionIndex<T>>::empty(),
            final(self).head is None,
            final(self).len == 0,
    {
        self.len = 0;
        self.head = Option::None;
        self.data.clear();
        proof {
            assert(free_list_ok(self.data@, self.head, Seq::<usize>::empty()));
        }
    }

    /// Reserves room for at least `additional` further insertions.
    /// The cells, the free list and the length are unchanged.
    pub fn reserve(&mut self, additional: usize)
        ensures
            final(self)@ == old(self)@,
            final(self).head == old(self).head,
            final(self).len == old(self).len,
            old(self).wf() ==> final(self).wf(),
    {
        self.data.reserve(additional);
    }

    /// Shrinks the backing allocation as much as possible while keeping
    /// every live key valid.
    ///
    /// Cells beyond the last live cell are discarded; the free list is
    /// rebuilt to hold exactly the surviving free cells, in their old
    /// order; live cells keep their index and value.
    pub fn shrink_to_fit(&mut self)
        requires
            old(self).wf(),
        ensures
            final(self).wf(),
            final(self).len == old(self).len,
            old(self).len == 0 ==> final(self)@.len() == 0 && final(self).head is None,
            old(self).len > 0 ==> final(self)@.len() == last_live(old(self)@) + 1,
            forall|i: int|
                0 <= i < final(self)@.len() && (#[trigger] old(self)@[i]) is Inner
                    ==> final(self)@[i] == old(self)@[i],
            forall|i: int|
                0 <= i < final(self)@.len()
                    ==> ((#[trigger] final(self)@[i]) is Inner <==> old(self)@[i] is Inner),
            free_list_ok(
                final(self)@,
                final(self).head,
                keep_at_most(old(self).free_seq(), last_live(old(self)@)),
            ),
    {
        let ghost s0 = self.data@;
        let ghost fl = self.free_seq();
        let ghost ll = last_live(s0);
        proof {
            assert(free_list_ok(s0, self.head, fl));
            lemma_last_live(s0);
        }
        let n = self.data.len();

        // Fast paths: with no free cell, or with the last cell live, the
        // free list needs no surgery.
        let no_free = match self.head {
            Option::None => true,
            Option::Some(_) => false,
        };
        if no_free || self.data[n - 1].is_inner() {
            vec_shrink_to_fit(&mut self.data);
            proof {
                assert forall|j: int|
                    0 <= j < fl.len() implies (#[trigger] fl[j]) as int <= ll by {
                    if no_free {
                        assert(fl.len() == 0);
                    } else {
                        assert(fl[j] < s0.len());
                        assert(ll == s0.len() - 1);
                    }
                }
                lemma_keep_at_most_all(fl, ll);
                if no_free {
                    assert forall|j: int|
                        0 <= j < s0.len() implies (#[trigger] s0[j]) is Inner by {
                        if !(s0[j] is Inner) {
                            assert(fl.contains(j as usize));
                        }
                    }
                }
                if self.len > 0 {
                    counting::lemma_live_entries_bound(s0, 0);
                    assert(s0.len() > 0);
                    assert(s0[s0.len() - 1] is Inner);
                    assert(ll == s0.len() - 1);
                } else {
                    if s0.len() > 0 {
                        assert(s0[s0.len() - 1] is Inner);
                        counting::lemma_live_entries_pos(s0, 0, s0.len() - 1);
                    }
                    assert(s0.len() == 0);
                    assert(self.head is None);
                }
            }
            return;
        }

        // An empty map with free cells is reset wholesale.
        if self.len == 0 {
            self.head = Option::None;
            self.data.clear();
            vec_shrink_to_fit(&mut self.data);
            proof {
                if ll >= 0 {
                    counting::lemma_live_entries_pos(s0, 0, ll);
                }
                assert forall|j: int|
                    0 <= j < fl.len() implies (#[trigger] fl[j]) as int > ll by {}
                lemma_keep_at_most_none(fl, ll);
                assert(free_list_ok(self.data@, self.head, Seq::<usize>::empty()));
            }
            return;
        }

        proof {
            if ll < 0 {
                counting::lemma_live_entries_none(s0, 0);
            }
        }

        // Find the last live cell by scanning backwards from the end.
        let mut last: usize = n - 1;
        while !self.data[last].is_inner()
            invariant
                n == s0.len(),
                self.data@ == s0,
                ll == last_live(s0),
                0 <= ll <= last < n,
            decreases last,
        {
            proof {
                lemma_last_live(s0);
            }
            last = last - 1;
        }
        proof {
            lemma_last_live(s0);
            assert(last as int == ll);
        }

        // Walk the free list once, keeping exactly the cells at or below
        // `last` and chaining them in their old order.
        let ghost mut p: int = 0;
        let ghost mut kept: Seq<usize> = Seq::empty();
        let mut new_head: Option<usize> = Option::None;
        let mut prev: Option<usize> = Option::None;
        let mut cur: Option<usize> = self.head;
        proof {
            assert(fl.subrange(0, 0) =~= Seq::<usize>::empty());
        }
        while cur.is_some()
            invariant
                self.head == old(self).head,
                self.len == old(self).len,
                n == s0.len(),
                self.data@.len() == n,
                free_list_ok(s0, old(self).head, fl),
                last < n,
                0 <= p <= fl.len(),
                cur == (if p < fl.len() {
                    Option::Some(fl[p])
                } else {
                    Option::<usize>::None
                }),
                kept == keep_at_most(fl.subrange(0, p), last as int),
                new_head == (if kept.len() > 0 {
                    Option::Some(kept[0])
                } else {
                    Option::<usize>::None
                }),
                prev == (if kept.len() > 0 {
                    Option::Some(kept.last())
                } else {
                    Option::<usize>::None
                }),
                forall|j: int| 0 <= j < kept.len() ==> (#[trigger] kept[j]) <= last,
                forall|j: int, k: int|
                    0 <= j < kept.len() && 0 <= k < kept.len() && j != k ==> #[trigger] kept[j]
                        != #[trigger] kept[k],
                forall|j: int|
                    0 <= j < kept.len() ==> exists|q: int|
                        0 <= q < p && fl[q] == #[trigger] kept[j],
                forall|i: int|
                    0 <= i < n && (#[trigger] s0[i]) is Inner ==> self.data@[i] == s0[i],
                forall|i: int|
                    0 <= i < n && !((#[trigger] s0[i]) is Inner) ==> !(self.data@[i] is Inner),
                forall|q: int|
                    p <= q < fl.len() ==> self.data@[(#[trigger] fl[q]) as int] == s0[fl[q] as int],
                kept.len() > 0 ==> self.data@[kept.last() as int] == s0[kept.last() as int],
                forall|j: int|
                    0 <= j < kept.len() - 1 ==> self.data@[(#[trigger] kept[j]) as int]
                        == OptionIndex::<T>::Index(#[trigger] kept[j + 1]),
                live_entries_from(self.data@, 0).len() == live_entries_from(s0, 0).len(),
            decreases fl.len() - p,
        {
            let c = cur.unwrap();
            proof {
                assert(c == fl[p]);
                assert(fl[p] < s0.len() && !(s0[fl[p] as int] is Inner));
            }
            let link = match &self.data[c] {
                OptionIndex::Index(nx) => Option::Some(*nx),
                OptionIndex::NoIndex => Option::<usize>::None,
                OptionIndex::Inner(_) => {
                    proof {
                        assert(false);
                    }
                    Option::None
                },
            };
            proof {
                if p < fl.len() - 1 {
                    lemma_free_list_link(s0, old(self).head, fl, p);
                    assert(link == Option::Some(fl[p + 1]));
                } else {
                    assert(fl[p] == fl.last());
                    assert(link is None);
                }
            }
            if c <= last {
                proof {
                    assert forall|j: int|
                        0 <= j < kept.len() implies #[trigger] kept[j] != c by {
                        let q = choose|q: int| 0 <= q < p && fl[q] == kept[j];
                        assert(fl[q] != fl[p]);
                    }
                }
                match prev {
                    Option::Some(pr) => {
                        proof {
                            assert(pr == kept.last());
                            assert(!(self.data@[pr as int] is Inner));
                            counting::lemma_live_entries_update(
                                self.data@,
                                0,
                                pr as int,
                                OptionIndex::Index(c),
                            );
                        }
                        self.data.set(pr, OptionIndex::Index(c));
                    },
                    Option::None => {
                        new_head = Option::Some(c);
                    },
                }
                prev = Option::Some(c);
                proof {
                    let kept0 = kept;
                    kept = kept.push(c);
                    assert(fl.subrange(0, p + 1) =~= fl.subrange(0, p).push(fl[p]));
                    lemma_keep_at_most_push(fl.subrange(0, p), last as int, c);
                    assert(kept.last() == c);
                    assert(kept[0] == if kept0.len() > 0 {
                        kept0[0]
                    } else {
                        c
                    });
                    assert forall|j: int|
                        0 <= j < kept.len() implies exists|q: int|
                            0 <= q < p + 1 && fl[q] == #[trigger] kept[j] by {
                        if j < kept0.len() {
                            assert(kept[j] == kept0[j]);
                            let q = choose|q: int| 0 <= q < p && fl[q] == kept0[j];
                            assert(0 <= q < p + 1 && fl[q] == kept[j]);
                        } else {
                            assert(fl[p] == kept[j]);
                        }
                    }
                }
            } else {
                proof {
                    assert(fl.subrange(0, p + 1) =~= fl.subrange(0, p).push(fl[p]));
                    lemma_keep_at_most_push(fl.subrange(0, p), last as int, c);
                }
            }
            cur = link;
            proof {
                p = p + 1;
            }
        }
        proof {
            assert(p == fl.len());
            assert(fl.subrange(0, p) =~= fl);
        }

        // Terminate the rebuilt list, cut the array after the last live
        // cell, and return the spare capacity.
        match prev {
            Option::Some(pr) => {
                proof {
                    assert(!(self.data@[pr as int] is Inner));
                    counting::lemma_live_entries_update(
                        self.data@,
                        0,
                        pr as int,
                        OptionIndex::NoIndex,
                    );
                }
                self.data.set(pr, OptionIndex::NoIndex);
            },
            Option::None => {},
        }
        self.head = new_head;
        let ghost sw = self.data@;
        proof {
            lemma_last_live(s0);
            assert forall|j: int|
                (last + 1) <= j < n implies !((#[trigger] sw[j]) is Inner) by {
                assert(!(s0[j] is Inner));
            }
            counting::lemma_live_entries_prefix(sw, last as int + 1, 0);
        }
        self.data.truncate(last + 1);
        vec_shrink_to_fit(&mut self.data);
        proof {
            let sf = self.data@;
            assert(sf =~= sw.subrange(0, last as int + 1));
            assert forall|i: usize|
                i < sf.len() && !(sf[i as int] is Inner) implies kept.contains(i) by {
                assert(sf[i as int] == sw[i as int]);
                assert(!(s0[i as int] is Inner));
                assert(fl.contains(i));
                let q = choose|q: int| 0 <= q < fl.len() && fl[q] == i;
                lemma_keep_at_most_contains(fl, last as int, q);
            }
            assert(free_list_ok(sf, self.head, kept));
        }
    }

    /// True if the map holds a value for the key `index`.
    pub fn contains_key(&self, index: usize) -> (r: bool)
        ensures
            r == self.spec_contains_key(index as int),
    {
        if index >= self.data.len() {
            return false;
        }
        self.data[index].is_inner()
    }

    /// Inserts a value into the map and returns the key generated for it.
    ///
    /// The key is the most recently freed cell when one exists; otherwise a
    /// new cell is appended and its index returned.
    pub fn insert(&mut self, value: T) -> (r: usize)
        requires
            old(self).wf(),
        ensures
            final(self).wf(),
            r as int == next_key_of(old(self)@, old(self).head),
            final(self)@ == inserted_slots(old(self)@, old(self).head, value),
            final(self).head == inserted_head(old(self)@, old(self).head),
            final(self).len == old(self).len + 1,
    {
        let ghost fl = choose|fl: Seq<usize>| free_list_ok(self.data@, self.head, fl);
        match self.head {
            Option::Some(h) => {
                proof {
                    assert(fl[0] == h);
                    assert(fl[0] < self.data@.len() && !(self.data@[fl[0] as int] is Inner));
                    counting::lemma_live_entries_bound_strict(self.data@, 0, h as int);
                }
                let link = match &self.data[h] {
                    OptionIndex::Index(n) => Option::Some(*n),
                    OptionIndex::NoIndex => Option::None,
                    OptionIndex::Inner(_) => {
                        proof {
                            assert(false);
                        }
                        Option::None
                    },
                };
                self.head = link;
                let n = self.data.len();
                self.data.set(h, OptionIndex::Inner(value));
                proof {
                    assert(self.len < n);
                }
                self.len = self.len + 1;
                proof {
                    let su = self.data@;
                    let fl2 = fl.subrange(1, fl.len() as int);
                    counting::lemma_live_entries_update(
                        old(self).data@,
                        0,
                        h as int,
                        OptionIndex::Inner(value),
                    );
                    if fl.len() > 1 {
                        assert(old(self).data@[fl[0] as int] == OptionIndex::<T>::Index(fl[1]));
                        assert(self.head == Option::Some(fl[1]));
                    } else {
                        assert(old(self).data@[fl.last() as int] is NoIndex);
                        assert(self.head is None);
                    }
                    assert forall|j: int|
                        0 <= j < fl2.len() implies (#[trigger] fl2[j]) < su.len() && !(su[fl2[j] as int]
                        is Inner) by {
                        assert(fl2[j] == fl[j + 1]);
                        assert(fl[j + 1] != fl[0]);
                    }
                    assert forall|j: int|
                        0 <= j < fl2.len() - 1 implies su[(#[trigger] fl2[j]) as int]
                        == OptionIndex::<T>::Index(fl2[j + 1]) by {
                        assert(fl2[j] == fl[j + 1]);
                        assert(fl2[j + 1] == fl[j + 2]);
                        assert(fl[j + 1] != fl[0]);
                        lemma_free_list_link(old(self).data@, old(self).head, fl, j + 1);
                    }
                    if fl2.len() > 0 {
                        assert(fl2.last() == fl.last());
                        assert(fl.last() != fl[0]);
                        assert(su[fl2.last() as int] is NoIndex);
                    }
                    assert forall|j: int, k: int|
                        0 <= j < fl2.len() && 0 <= k < fl2.len() && j != k implies #[trigger] fl2[j]
                        != #[trigger] fl2[k] by {
                        assert(fl2[j] == fl[j + 1]);
                        assert(fl2[k] == fl[k + 1]);
                    }
                    assert forall|i: usize|
                        i < su.len() && !(su[i as int] is Inner) implies fl2.contains(i) by {
                        assert(!(old(self).data@[i as int] is Inner));
                        assert(fl.contains(i));
                        let p = choose|p: int| 0 <= p < fl.len() && fl[p] == i;
                        assert(p != 0);
                        assert(fl2[p - 1] == i);
                    }
                    assert(free_list_ok(su, self.head, fl2));
                }
                h
            },
            Option::None => {
                proof {
                    counting::lemma_live_entries_bound(self.data@, 0);
                    counting::lemma_live_entries_push(
                        self.data@,
                        0,
                        OptionIndex::Inner(value),
                    );
                }
                self.data.push(OptionIndex::Inner(value));
                let n = self.data.len();
                proof {
                    assert(self.len < n);
                }
                self.len = self.len + 1;
                proof {
                    let su = self.data@;
                    assert(fl.len() == 0);
                    assert forall|i: usize|
                        i < su.len() && !(su[i as int] is Inner) implies fl.contains(i) by {
                        assert(i < old(self).data@.len());
                        assert(su[i as int] == old(self).data@[i as int]);
                        assert(fl.contains(i));
                    }
                    assert(free_list_ok(su, self.head, fl));
                }
                n - 1
            },
        }
    }

    /// Removes the key `index` from the map, returning its value when the
    /// key was present and `None` otherwise.
    ///
    /// A removed cell becomes the new head of the free list.
    pub fn remove(&mut self, index: usize) -> (r: Option<T>)
        requires
            old(self).wf(),
        ensures
            final(self).wf(),
            old(self).spec_contains_key(index as int) ==> (r matches Option::Some(v) && v
                == old(self)@[index as int]->Inner_0 && final(self)@ == removed_slots(
                old(self)@,
                old(self).head,
                index,
            ) && final(self).head == Option::Some(index) && final(self).len == old(self).len - 1),
            !old(self).spec_contains_key(index as int) ==> (r is None && *final(self) == *old(
                self,
            )),
    {
        if index >= self.data.len() {
            return Option::None;
        }
        if !self.data[index].is_inner() {
            return Option::None;
        }
        let ghost fl = choose|fl: Seq<usize>| free_list_ok(self.data@, self.head, fl);
        proof {
            counting::lemma_live_entries_pos(self.data@, 0, index as int);
        }
        let mut slot = match self.head {
            Option::Some(h) => OptionIndex::Index(h),
            Option::None => OptionIndex::NoIndex,
        };
        self.data.set_and_swap(index, &mut slot);
        self.head = Option::Some(index);
        self.len = self.len - 1;
        proof {
            let su = self.data@;
            let fl2 = seq![index] + fl;
            counting::lemma_live_entries_update(old(self).data@, 0, index as int, su[index as int]);
            assert forall|j: int| 0 <= j < fl.len() implies #[trigger] fl[j] != index by {
                assert(!(old(self).data@[fl[j] as int] is Inner));
            }
            assert forall|j: int|
                0 <= j < fl2.len() implies (#[trigger] fl2[j]) < su.len() && !(su[fl2[j] as int]
                    is Inner) by {
                if j == 0 {
                    assert(fl2[0] == index);
                } else {
                    assert(fl2[j] == fl[j - 1]);
                }
            }
            assert forall|j: int|
                0 <= j < fl2.len() - 1 implies su[(#[trigger] fl2[j]) as int]
                == OptionIndex::<T>::Index(fl2[j + 1]) by {
                if j == 0 {
                    assert(fl2[0] == index);
                    assert(fl2[1] == fl[0]);
                } else {
                    assert(fl2[j] == fl[j - 1]);
                    assert(fl2[j + 1] == fl[j]);
                    lemma_free_list_link(old(self).data@, old(self).head, fl, j - 1);
                }
            }
            assert forall|i: usize|
                i < su.len() && !(su[i as int] is Inner) implies fl2.contains(i) by {
                if i == index {
                    assert(fl2[0] == index);
                } else {
                    assert(fl.contains(i));
                    let p = choose|p: int| 0 <= p < fl.len() && fl[p] == i;
                    assert(fl2[p + 1] == i);
                }
            }
            assert(free_list_ok(su, self.head, fl2));
        }
        match slot {
            OptionIndex::Inner(v) => Option::Some(v),
            _ => {
                proof {
                    assert(false);
                }
                Option::None
            },
        }
    }

    /// Removes the key `index` from the map, returning the key paired with
    /// its value when the key was present.
    pub fn remove_entry(&mut self, index: usize) -> (r: Option<(usize, T)>)
        requires
            old(self).wf(),
        ensures
            final(self).wf(),
            old(self).spec_contains_key(index as int) ==> (r matches Option::Some(kv) && kv.0
                == index && kv.1 == old(self)@[index as int]->Inner_0 && final(self)@
                == removed_slots(old(self)@, old(self).head, index) && final(self).head
                == Option::Some(index) && final(self).len == old(self).len - 1),
            !old(self).spec_contains_key(index as int) ==> (r is None && *final(self) == *old(
                self,
            )),
    {
        match self.remove(index) {
            Option::Some(v) => Option::Some((index, v)),
            Option::None => Option::None,
        }
    }

    /// A reference to the value for the key `index`, or `None` when the key
    /// is out of range or names a free cell.
    pub fn get(&self, index: usize) -> (r: Option<&T>)
        ensures
            self.spec_contains_key(index as int) ==> (r matches Option::Some(v) && *v
                == self.data@[index as int]->Inner_0),
            !self.spec_contains_key(index as int) ==> r is None,
    {
        if index >= self.data.len() {
            return Option::None;
        }
        match &self.data[index] {
            OptionIndex::Inner(v) => Option::Some(v),
            _ => Option::None,
        }
    }

    /// The key paired with the value it maps to, or `None` when the key is
    /// absent.
    pub fn get_key_value(&self, index: usize) -> (r: Option<(usize, &T)>)
        ensures
            self.spec_contains_key(index as int) ==> (r matches Option::Some(kv) && kv.0 == index
                && *kv.1 == self.data@[index as int]->Inner_0),
            !self.spec_contains_key(index as int) ==> r is None,
    {
        match self.get(index) {
            Option::Some(v) => Option::Some((index, v)),
            Option::None => Option::None,
        }
    }

    /// A mutable reference to the value for the key `index`, or `None`
    /// when the key is absent.
    ///
    /// Writing through the reference replaces the value inside the cell;
    /// the free list, the head and the length are unchanged.
    pub fn get_mut(&mut self, index: usize) -> (r: Option<&mut T>)
        requires
            old(self).wf(),
        ensures
            final(self).wf(),
            old(self).spec_contains_key(index as int) ==> (r is Some && *r.unwrap()
                == old(self)@[index as int]->Inner_0 && final(self)@ == old(self)@.update(
                index as int,
                OptionIndex::Inner(*final(r.unwrap())),
            ) && final(self).head == old(self).head && final(self).len == old(self).len),
            !old(self).spec_contains_key(index as int) ==> (r is None && *final(self) == *old(
                self,
            )),
    {
        if index >= self.data.len() {
            return Option::None;
        }
        if !self.data[index].is_inner() {
            return Option::None;
        }
        let slot = &mut self.data[index];
        match slot {
            OptionIndex::Inner(v) => {
                proof {
                    let fl = choose|fl: Seq<usize>|
                        free_list_ok(old(self).data@, old(self).head, fl);
                    lemma_free_list_value_update(
                        old(self).data@,
                        old(self).head,
                        fl,
                        index as int,
                        *final(v),
                    );
                    counting::lemma_live_entries_update(
                        old(self).data@,
                        0,
                        index as int,
                        OptionIndex::Inner(*final(v)),
                    );
                }
                Option::Some(v)
            },
            _ => {
                proof {
                    assert(false);
                }
                Option::None
            },
        }
    }


    /// Frees the live cell `index` exactly as `remove` would, dropping its
    /// value instead of returning it.
    fn free_cell(&mut self, index: usize)
        requires
            old(self).wf(),
            old(self).spec_contains_key(index as int),
        ensures
            final(self).wf(),
            final(self)@ == removed_slots(old(self)@, old(self).head, index),
            final(self).head == Option::Some(index),
            final(self).len == old(self).len - 1,
    {
        let ghost fl = choose|fl: Seq<usize>| free_list_ok(self.data@, self.head, fl);
        proof {
            counting::lemma_live_entries_pos(self.data@, 0, index as int);
        }
        let slot = match self.head {
            Option::Some(h) => OptionIndex::Index(h),
            Option::None => OptionIndex::NoIndex,
        };
        self.data.set(index, slot);
        self.head = Option::Some(index);
        self.len = self.len - 1;
        proof {
            let su = self.data@;
            let fl2 = seq![index] + fl;
            counting::lemma_live_entries_update(old(self).data@, 0, index as int, su[index as int]);
            assert forall|j: int| 0 <= j < fl.len() implies #[trigger] fl[j] != index by {
                assert(!(old(self).data@[fl[j] as int] is Inner));
            }
            assert forall|j: int|
                0 <= j < fl2.len() implies (#[trigger] fl2[j]) < su.len() && !(su[fl2[j] as int]
                    is Inner) by {
                if j == 0 {
                    assert(fl2[0] == index);
                } else {
                    assert(fl2[j] == fl[j - 1]);
                }
            }
            assert forall|j: int|
                0 <= j < fl2.len() - 1 implies su[(#[trigger] fl2[j]) as int]
                == OptionIndex::<T>::Index(fl2[j + 1]) by {
                if j == 0 {
                    assert(fl2[0] == index);
                    assert(fl2[1] == fl[0]);
                } else {
                    assert(fl2[j] == fl[j - 1]);
                    assert(fl2[j + 1] == fl[j]);
                    lemma_free_list_link(old(self).data@, old(self).head, fl, j - 1);
                }
            }
            assert forall|i: usize|
                i < su.len() && !(su[i as int] is Inner) implies fl2.contains(i) by {
                if i == index {
                    assert(fl2[0] == index);
                } else {
                    assert(fl.contains(i));
                    let p = choose|p: int| 0 <= p < fl.len() && fl[p] == i;
                    assert(fl2[p + 1] == i);
                }
            }
            assert(free_list_ok(su, self.head, fl2));
        }
    }

    /// Retains only the entries the predicate approves.
    ///
    /// The predicate is called once for each live entry, in ascending key
    /// order; every entry it rejects is freed exactly as `remove` would
    /// free it.
    pub fn retain<P: Fn(usize, &T) -> bool>(&mut self, predicate: P)
        requires
            old(self).wf(),
            forall|i: usize, v: &T| #[trigger] call_requires(predicate, (i, v)),
        ensures
            final(self).wf(),
            final(self)@.len() == old(self)@.len(),
            forall|j: int|
                0 <= j < old(self)@.len() ==> {
                    ||| ((#[trigger] final(self)@[j]) == old(self)@[j] && old(self)@[j] is Inner
                        && call_ensures(
                        predicate,
                        (j as usize, &old(self)@[j]->Inner_0),
                        true,
                    ))
                    ||| (old(self)@[j] is Inner && !(final(self)@[j] is Inner) && call_ensures(
                        predicate,
                        (j as usize, &old(self)@[j]->Inner_0),
                        false,
                    ))
                    ||| (!(old(self)@[j] is Inner) && !(final(self)@[j] is Inner))
                },
    {
        let n = self.data.len();
        let mut i: usize = 0;
        while i < n
            invariant
                self.wf(),
                n == old(self)@.len(),
                self@.len() == n,
                i <= n,
                forall|i2: usize, v: &T| #[trigger] call_requires(predicate, (i2, v)),
                forall|j: int| i <= j < n ==> (#[trigger] self@[j]) == old(self)@[j],
                forall|j: int|
                    0 <= j < i ==> {
                        ||| ((#[trigger] self@[j]) == old(self)@[j] && old(self)@[j] is Inner
                            && call_ensures(
                            predicate,
                            (j as usize, &old(self)@[j]->Inner_0),
                            true,
                        ))
                        ||| (old(self)@[j] is Inner && !(self@[j] is Inner) && call_ensures(
                            predicate,
                            (j as usize, &old(self)@[j]->Inner_0),
                            false,
                        ))
                        ||| (!(old(self)@[j] is Inner) && !(self@[j] is Inner))
                    },
            decreases n - i,
        {
            let keep = match &self.data[i] {
                OptionIndex::Inner(v) => predicate(i, v),
                _ => true,
            };
            if !keep {
                self.free_cell(i);
            }
            i = i + 1;
        }
    }}

impl<T> Default for IndexMap<T> {
    /// An empty map, exactly as `new` returns it.
    fn default() -> (r: Self)
        ensures
            r.wf(),
            r@ == Seq::<OptionIndex<T>>::empty(),
            r.head is None,
            r.len == 0,
    {
        Self::new()
    }
}

/// Relies on `Vec::capacity`: the allocated capacity is at least the length.
#[verifier::external_body]
fn vec_capacity<T>(v: &Vec<T>) -> (r: usize)
    ensures
        r >= v@.len(),
{
    v.capacity()
}

/// Relies on `Vec::shrink_to_fit`: it only drops spare capacity and leaves
/// the elements unchanged.
#[verifier::external_body]
fn vec_shrink_to_fit<T>(v: &mut Vec<T>)
    ensures
        final(v)@ == old(v)@,
{
    v.shrink_to_fit()
}

} // verus!
