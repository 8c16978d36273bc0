//! The laws of the container, stated over the same spec functions the
//! methods' contracts use and proved once and for all.

use vstd::prelude::*;

use crate::IndexMap;
use crate::OptionIndex;
use crate::counting;
use crate::free_list_ok;
use crate::inserted_head;
use crate::inserted_slots;
use crate::lemma_free_list_link;
use crate::live_count;
use crate::live_entries_from;
use crate::next_key_of;
use crate::removed_slots;

verus! {

/// Two free lists of the same array and head are the same list: the head
/// and the links determine every position.
pub proof fn lemma_free_list_unique<T>(
    s: Seq<OptionIndex<T>>,
    head: Option<usize>,
    fl1: Seq<usize>,
    fl2: Seq<usize>,
)
    requires
        free_list_ok(s, head, fl1),
        free_list_ok(s, head, fl2),
    ensures
        fl1 == fl2,
{
    // A strictly shorter list would end in a terminator where the longer
    // one still links onward, so the lengths must agree.
    if fl1.len() != fl2.len() {
        let (a, b) = if fl1.len() < fl2.len() {
            (fl1, fl2)
        } else {
            (fl2, fl1)
        };
        if a.len() == 0 {
            assert(head is None);
            assert(b.len() == 0);
        } else {
            let j = a.len() - 1;
            lemma_free_list_prefix(s, head, a, b, j);
            assert(s[a.last() as int] is NoIndex);
            lemma_free_list_link(s, head, b, j);
        }
    }
    assert forall|j: int| 0 <= j < fl1.len() implies #[trigger] fl1[j] == fl2[j] by {
        lemma_free_list_prefix(s, head, fl1, fl2, j);
    }
    assert(fl1 =~= fl2);
}

/// The first `j + 1` cells of two free lists of the same array agree.
proof fn lemma_free_list_prefix<T>(
    s: Seq<OptionIndex<T>>,
    head: Option<usize>,
    fl1: Seq<usize>,
    fl2: Seq<usize>,
    j: int,
)
    requires
        free_list_ok(s, head, fl1),
        free_list_ok(s, head, fl2),
        0 <= j < fl1.len(),
        j < fl2.len(),
    ensures
        fl1[j] == fl2[j],
    decreases j,
{
    if j == 0 {
        assert(head is Some);
    } else {
        lemma_free_list_prefix(s, head, fl1, fl2, j - 1);
        lemma_free_list_link(s, head, fl1, j - 1);
        lemma_free_list_link(s, head, fl2, j - 1);
    }
}

/// A well-formed map's `free_seq` is its free list, and it stays inside
/// the array, repeats no cell, and ends at the list's terminator.
pub proof fn lemma_free_seq<T>(m: &IndexMap<T>)
    requires
        m.wf(),
    ensures
        free_list_ok(m@, m.head, m.free_seq()),
        forall|j: int| 0 <= j < m.free_seq().len() ==> (#[trigger] m.free_seq()[j]) < m@.len(),
        forall|j: int, k: int|
            0 <= j < m.free_seq().len() && 0 <= k < m.free_seq().len() && j != k
                ==> #[trigger] m.free_seq()[j] != #[trigger] m.free_seq()[k],
{
}

/// Key stability under insertion: an insertion never touches a live key,
/// so every live key still maps to its value afterwards.
pub proof fn lemma_insert_preserves_live<T>(
    s: Seq<OptionIndex<T>>,
    head: Option<usize>,
    fl: Seq<usize>,
    v: T,
    k: int,
)
    requires
        free_list_ok(s, head, fl),
        0 <= k < s.len(),
        s[k] is Inner,
    ensures
        next_key_of(s, head) != k,
        inserted_slots(s, head, v).len() >= s.len(),
        inserted_slots(s, head, v)[k] == s[k],
{
    match head {
        Option::Some(h) => {
            assert(fl[0] == h);
            assert(!(s[fl[0] as int] is Inner));
        },
        Option::None => {
            assert(s.push(OptionIndex::Inner(v))[k] == s[k]);
        },
    }
}

/// The key an insertion returns is immediately valid: its cell holds
/// exactly the inserted value.
pub proof fn lemma_insert_new_key<T>(
    s: Seq<OptionIndex<T>>,
    head: Option<usize>,
    fl: Seq<usize>,
    v: T,
)
    requires
        free_list_ok(s, head, fl),
    ensures
        inserted_slots(s, head, v)[next_key_of(s, head)] == OptionIndex::Inner(v),
{
    match head {
        Option::Some(h) => {
            assert(fl[0] == h);
            assert(fl[0] < s.len());
        },
        Option::None => {},
    }
}

/// Key stability under removal: removing one key leaves every other live
/// key and its value in place.
pub proof fn lemma_remove_preserves_live<T>(
    s: Seq<OptionIndex<T>>,
    head: Option<usize>,
    j: usize,
    k: int,
)
    requires
        j < s.len(),
        0 <= k < s.len(),
        k != j,
    ensures
        removed_slots(s, head, j)[k] == s[k],
{
}

/// Free-list LIFO reuse: after removing the live keys `k1` and then `k2`,
/// the next insertion reuses `k2`, and the one after it reuses `k1`.
pub proof fn lemma_lifo_reuse<T>(
    s: Seq<OptionIndex<T>>,
    head: Option<usize>,
    k1: usize,
    k2: usize,
    v1: T,
)
    requires
        k1 < s.len(),
        k2 < s.len(),
        s[k1 as int] is Inner,
        s[k2 as int] is Inner,
        k1 != k2,
    ensures
        ({
            let s1 = removed_slots(s, head, k1);
            let s2 = removed_slots(s1, Option::Some(k1), k2);
            &&& next_key_of(s2, Option::Some(k2)) == k2
            &&& inserted_head(s2, Option::Some(k2)) == Option::<usize>::Some(k1)
            &&& next_key_of(
                inserted_slots(s2, Option::Some(k2), v1),
                inserted_head(s2, Option::Some(k2)),
            ) == k1
        }),
{
}

/// Density: as long as no key was ever removed the free list is empty, so
/// each insertion appends and the keys come out as 0, 1, 2, ... in order.
pub proof fn lemma_dense_keys<T>(s: Seq<OptionIndex<T>>, v: T)
    ensures
        next_key_of(s, Option::None) == s.len(),
        inserted_slots(s, Option::None, v).len() == s.len() + 1,
        inserted_head::<T>(s, Option::None) is None,
        next_key_of(inserted_slots(s, Option::None, v), inserted_head::<T>(s, Option::None))
            == s.len() + 1,
{
}

/// The set of keys for which `contains_key` holds, from position `i` on.
pub open spec fn live_key_set_from<T>(s: Seq<OptionIndex<T>>, i: int) -> Set<int> {
    Set::new(|j: int| i <= j < s.len() && s[j] is Inner)
}

/// The live keys of `s`: exactly those `contains_key` accepts.
pub open spec fn live_key_set<T>(s: Seq<OptionIndex<T>>) -> Set<int> {
    live_key_set_from(s, 0)
}

/// The live-entry count is the cardinality of the live key set.
proof fn lemma_live_count_is_card_from<T>(s: Seq<OptionIndex<T>>, i: int)
    requires
        0 <= i <= s.len(),
    ensures
        live_key_set_from(s, i).finite(),
        live_key_set_from(s, i).len() == live_entries_from(s, i).len(),
    decreases s.len() - i,
{
    if i >= s.len() {
        assert(live_key_set_from(s, i) =~= Set::<int>::empty());
    } else {
        lemma_live_count_is_card_from(s, i + 1);
        if s[i] is Inner {
            assert(live_key_set_from(s, i) =~= live_key_set_from(s, i + 1).insert(i));
            assert(!live_key_set_from(s, i + 1).contains(i));
        } else {
            assert(live_key_set_from(s, i) =~= live_key_set_from(s, i + 1));
        }
    }
}

/// Count consistency: a well-formed map's `len` is exactly the number of
/// keys for which `contains_key` is true.
pub proof fn lemma_len_counts_keys<T>(m: &IndexMap<T>)
    requires
        m.wf(),
    ensures
        live_key_set(m@).finite(),
        m.len == live_key_set(m@).len(),
        forall|k: int| #[trigger] live_key_set(m@).contains(k) <==> m.spec_contains_key(k),
{
    lemma_live_count_is_card_from(m@, 0);
}

/// Round trip: removing a live key frees its cell, so a second removal of
/// the same key finds nothing.
pub proof fn lemma_remove_round_trip<T>(s: Seq<OptionIndex<T>>, head: Option<usize>, k: usize)
    requires
        k < s.len(),
        s[k as int] is Inner,
    ensures
        removed_slots(s, head, k).len() == s.len(),
        !(removed_slots(s, head, k)[k as int] is Inner),
{
}

/// A well-formed map never holds more live keys than cells.
pub proof fn lemma_len_le_cells<T>(m: &IndexMap<T>)
    requires
        m.wf(),
    ensures
        m.len <= m@.len(),
{
    counting::lemma_live_entries_bound(m@, 0);
}

} // verus!
