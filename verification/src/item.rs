use vstd::multiset::Multiset;
use vstd::prelude::*;

use crate::order::TotalOrder;

verus! {

/// A user value paired with the sequence counter assigned at insertion.
///
/// Entries are ordered by the user's order on `inner`; entries whose inner
/// values compare equal are ordered by the *reversed* counter, so in a
/// max-heap the entry inserted earliest sorts highest among its ties.
pub struct HeapItem<T> {
    pub inner: T,
    pub counter: usize,
}

impl<T> HeapItem<T> {
    /// Wraps `inner` with the sequence number `pos`.
    pub fn new(inner: T, pos: usize) -> (r: Self)
        ensures
            r == (HeapItem { inner, counter: pos }),
    {
        HeapItem { inner, counter: pos }
    }

    /// A reference to the wrapped value.
    pub fn inner(&self) -> (r: &T)
        ensures
            *r == self.inner,
    {
        &self.inner
    }

    /// A mutable reference to the wrapped value.
    pub fn inner_mut(&mut self) -> (r: &mut T)
        ensures
            *r == old(self).inner,
            *final(self) == (HeapItem { inner: *final(r), counter: old(self).counter }),
    {
        &mut self.inner
    }

    /// Unwraps the value, discarding the counter.
    pub fn into_inner(self) -> (r: T)
        ensures
            r == self.inner,
    {
        self.inner
    }

    /// A mutable reference to the sequence counter.
    pub fn counter_mut(&mut self) -> (r: &mut usize)
        ensures
            *r == old(self).counter,
            *final(self) == (HeapItem { inner: old(self).inner, counter: *final(r) }),
    {
        &mut self.counter
    }
}

/// The two values compare equal under the user's order.
pub open spec fn user_equiv<T: TotalOrder>(a: T, b: T) -> bool {
    a.le_spec(b) && b.le_spec(a)
}

/// The entry order: the user's order on the inner values, with ties broken
/// by the reversed sequence counter, so the earlier entry sorts higher.
pub open spec fn entry_le<T: TotalOrder>(a: HeapItem<T>, b: HeapItem<T>) -> bool {
    if user_equiv(a.inner, b.inner) {
        b.counter <= a.counter
    } else {
        a.inner.le_spec(b.inner)
    }
}

/// Executable form of [`entry_le`].
pub fn entry_le_check<T: TotalOrder>(a: &HeapItem<T>, b: &HeapItem<T>) -> (r: bool)
    ensures
        r == entry_le(*a, *b),
{
    let ab = a.inner.le(&b.inner);
    let ba = b.inner.le(&a.inner);
    if ab && ba {
        b.counter <= a.counter
    } else {
        ab
    }
}

/// The entries produced by wrapping `items` in order, numbering them
/// consecutively from `c`.
pub open spec fn numbered_from<T>(items: Seq<T>, c: usize) -> Seq<HeapItem<T>> {
    Seq::new(items.len(), |i: int| HeapItem { inner: items[i], counter: (c + i) as usize })
}

/// Every entry of the collection carries a counter strictly below `c`.
pub open spec fn counters_below<T>(m: Multiset<HeapItem<T>>, c: usize) -> bool {
    forall|e: HeapItem<T>| #[trigger] m.count(e) > 0 ==> e.counter < c
}

/// The entry order relates every pair of entries.
pub proof fn lemma_entry_le_total<T: TotalOrder>(a: HeapItem<T>, b: HeapItem<T>)
    ensures
        entry_le(a, b) || entry_le(b, a),
{
    T::lemma_total(a.inner, b.inner);
}

/// The entry order is transitive.
pub proof fn lemma_entry_le_transitive<T: TotalOrder>(
    a: HeapItem<T>,
    b: HeapItem<T>,
    c: HeapItem<T>,
)
    requires
        entry_le(a, b),
        entry_le(b, c),
    ensures
        entry_le(a, c),
{
    let ai = a.inner;
    let bi = b.inner;
    let ci = c.inner;
    if user_equiv(ai, bi) && user_equiv(bi, ci) {
        T::lemma_transitive(ai, bi, ci);
        T::lemma_transitive(ci, bi, ai);
    } else if user_equiv(ai, bi) {
        T::lemma_transitive(ai, bi, ci);
        if ci.le_spec(ai) {
            T::lemma_transitive(ci, ai, bi);
        }
    } else if user_equiv(bi, ci) {
        T::lemma_transitive(ai, bi, ci);
        if ci.le_spec(ai) {
            T::lemma_transitive(bi, ci, ai);
        }
    } else {
        T::lemma_transitive(ai, bi, ci);
        if ci.le_spec(ai) {
            T::lemma_transitive(bi, ci, ai);
        }
    }
}

/// The entry order is antisymmetric up to user equivalence: two entries at
/// or below each other have equivalent inner values and equal counters.
pub proof fn lemma_entry_le_antisymmetric<T: TotalOrder>(a: HeapItem<T>, b: HeapItem<T>)
    requires
        entry_le(a, b),
        entry_le(b, a),
    ensures
        user_equiv(a.inner, b.inner),
        a.counter == b.counter,
{
}

/// Entries with equivalent inner values compare strictly by their counters:
/// the entry with the smaller counter sorts higher.
pub proof fn lemma_entry_le_ties<T: TotalOrder>(a: HeapItem<T>, b: HeapItem<T>)
    requires
        user_equiv(a.inner, b.inner),
    ensures
        entry_le(a, b) <==> b.counter <= a.counter,
{
}

/// The sequence of entries is sorted in descending entry order.
pub open spec fn sorted_desc<T: TotalOrder>(s: Seq<HeapItem<T>>) -> bool {
    forall|i: int, j: int|
        #![trigger s[i], s[j]]
        0 <= i <= j < s.len() ==> entry_le(s[j], s[i])
}

/// In a descending-sorted sequence of entries, the inner values are
/// non-increasing under the user's order.
pub proof fn lemma_sorted_desc_values<T: TotalOrder>(s: Seq<HeapItem<T>>)
    requires
        sorted_desc(s),
    ensures
        forall|i: int, j: int|
            #![trigger s[i], s[j]]
            0 <= i <= j < s.len() ==> s[j].inner.le_spec(s[i].inner),
{
    assert forall|i: int, j: int| #![trigger s[i], s[j]] 0 <= i <= j < s.len() implies s[j].inner.le_spec(
        s[i].inner,
    ) by {
        assert(entry_le(s[j], s[i]));
    }
}

/// In a descending-sorted sequence of entries, any two entries with
/// equivalent inner values appear in increasing counter order: among equal
/// elements, insertion order is preserved.
pub proof fn lemma_sorted_desc_stable<T: TotalOrder>(s: Seq<HeapItem<T>>)
    requires
        sorted_desc(s),
    ensures
        forall|i: int, j: int|
            #![trigger s[i], s[j]]
            0 <= i < j < s.len() && user_equiv(s[i].inner, s[j].inner) ==> s[i].counter
                <= s[j].counter,
{
    assert forall|i: int, j: int|
        #![trigger s[i], s[j]]
        0 <= i < j < s.len() && user_equiv(s[i].inner, s[j].inner) implies s[i].counter
        <= s[j].counter by {
        assert(entry_le(s[j], s[i]));
    }
}

} // verus!
