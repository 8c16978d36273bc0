//! Lemmas about the live-entry sequence of a backing array.

use vstd::prelude::*;

use crate::OptionIndex;
use crate::live_entries_from;

verus! {

/// One when the cell is live, zero otherwise.
pub open spec fn live_one<T>(slot: OptionIndex<T>) -> int {
    if slot is Inner {
        1
    } else {
        0
    }
}

/// There are at most as many live entries as cells.
pub proof fn lemma_live_entries_bound<T>(s: Seq<OptionIndex<T>>, i: int)
    requires
        0 <= i <= s.len(),
    ensures
        live_entries_from(s, i).len() <= s.len() - i,
    decreases s.len() - i,
{
    if i < s.len() {
        lemma_live_entries_bound(s, i + 1);
    }
}

/// A free cell at or past `i` makes the live-entry count strictly smaller
/// than the number of cells at or past `i`.
pub proof fn lemma_live_entries_bound_strict<T>(s: Seq<OptionIndex<T>>, i: int, h: int)
    requires
        0 <= i <= h < s.len(),
        !(s[h] is Inner),
    ensures
        live_entries_from(s, i).len() < s.len() - i,
    decreases s.len() - i,
{
    if i == h {
        lemma_live_entries_bound(s, i + 1);
    } else {
        lemma_live_entries_bound_strict(s, i + 1, h);
    }
}

/// A live cell at or past `i` makes the live-entry count positive.
pub proof fn lemma_live_entries_pos<T>(s: Seq<OptionIndex<T>>, i: int, h: int)
    requires
        0 <= i <= h < s.len(),
        s[h] is Inner,
    ensures
        live_entries_from(s, i).len() >= 1,
    decreases s.len() - i,
{
    if i < h {
        lemma_live_entries_pos(s, i + 1, h);
    }
}

/// Overwriting cell `h` changes the live-entry count by the difference of
/// the two cells' liveness, and not at all when `h` lies before `i`.
pub proof fn lemma_live_entries_update<T>(
    s: Seq<OptionIndex<T>>,
    i: int,
    h: int,
    x: OptionIndex<T>,
)
    requires
        0 <= i <= s.len(),
        0 <= h < s.len(),
    ensures
        h < i ==> live_entries_from(s.update(h, x), i) == live_entries_from(s, i),
        h >= i ==> live_entries_from(s.update(h, x), i).len() == live_entries_from(s, i).len()
            + live_one(x) - live_one(s[h]),
    decreases s.len() - i,
{
    if i < s.len() {
        lemma_live_entries_update(s, i + 1, h, x);
    } else {
        assert(live_entries_from(s.update(h, x), i) =~= live_entries_from(s, i));
    }
}

/// A region of free cells holds no live entry.
pub proof fn lemma_live_entries_none<T>(s: Seq<OptionIndex<T>>, i: int)
    requires
        0 <= i <= s.len(),
        forall|j: int| i <= j < s.len() ==> !((#[trigger] s[j]) is Inner),
    ensures
        live_entries_from(s, i).len() == 0,
    decreases s.len() - i,
{
    if i < s.len() {
        lemma_live_entries_none(s, i + 1);
    }
}

/// Cutting the array after `k` keeps every live entry when all cells at
/// `k` and beyond are free.
pub proof fn lemma_live_entries_prefix<T>(s: Seq<OptionIndex<T>>, k: int, i: int)
    requires
        0 <= i <= k <= s.len(),
        forall|j: int| k <= j < s.len() ==> !((#[trigger] s[j]) is Inner),
    ensures
        live_entries_from(s.subrange(0, k), i).len() == live_entries_from(s, i).len(),
    decreases k - i,
{
    if i == k {
        lemma_live_entries_none(s, i);
    } else {
        assert(s.subrange(0, k)[i] == s[i]);
        lemma_live_entries_prefix(s, k, i + 1);
    }
}

/// Appending a cell adds its liveness to the live-entry count.
pub proof fn lemma_live_entries_push<T>(s: Seq<OptionIndex<T>>, i: int, x: OptionIndex<T>)
    requires
        0 <= i <= s.len(),
    ensures
        live_entries_from(s.push(x), i).len() == live_entries_from(s, i).len() + live_one(x),
    decreases s.len() - i,
{
    if i < s.len() {
        assert(s.push(x)[i] == s[i]);
        lemma_live_entries_push(s, i + 1, x);
    } else {
        assert(s.push(x)[i] == x);
        assert(live_entries_from(s.push(x), i + 1) =~= Seq::empty());
    }
}

} // verus!
