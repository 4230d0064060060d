//! A binary max-heap that extracts elements comparing equal in their
//! insertion order.
//!
//! An ordinary binary heap resolves ties between equal elements by its
//! internal layout, so the extraction order of equal elements is
//! unpredictable. This crate wraps every element in a [`HeapItem`] carrying
//! a monotonically increasing sequence counter and orders entries by the
//! user's order first, then by the reversed counter, so the earliest
//! inserted of any run of equal elements is extracted first.

pub mod item;
pub mod order;
pub mod sift;

use vstd::multiset::Multiset;
use vstd::prelude::*;

use crate::item::HeapItem;
use crate::order::TotalOrder;

verus! {

/// Reports the capacity of the vector.
///
/// Relies on `Vec::capacity`: the number of elements the vector can hold
/// without reallocating, which is never below its length.
#[verifier::external_body]
fn vec_capacity<T>(v: &Vec<T>) -> (r: usize)
    ensures
        r >= v@.len(),
{
    v.capacity()
}

/// Lets the vector shed capacity down to the given lower bound.
///
/// Relies on `Vec::shrink_to`: it only adjusts capacity and keeps the
/// elements intact.
#[verifier::external_body]
fn vec_shrink_to<T>(v: &mut Vec<T>, min_capacity: usize)
    ensures
        final(v)@ == old(v)@,
{
    v.shrink_to(min_capacity)
}

/// Lets the vector shed all spare capacity.
///
/// Relies on `Vec::shrink_to_fit`: it only adjusts capacity and keeps the
/// elements intact.
#[verifier::external_body]
fn vec_shrink_to_fit<T>(v: &mut Vec<T>)
    ensures
        final(v)@ == old(v)@,
{
    v.shrink_to_fit()
}

/// A binary max-heap over `T` that returns equal elements in insertion order.
pub struct StableBinaryHeap<T: TotalOrder> {
    storage: Vec<HeapItem<T>>,
    counter: usize,
}

impl<T: TotalOrder> View for StableBinaryHeap<T> {
    type V = Seq<HeapItem<T>>;

    closed spec fn view(&self) -> Seq<HeapItem<T>> {
        self.storage@
    }
}

impl<T: TotalOrder> StableBinaryHeap<T> {
    /// The next sequence number to be handed to a pushed element.
    pub closed spec fn counter_spec(&self) -> usize {
        self.counter
    }

    /// Well-formed: the storage is heap-ordered and every held entry's
    /// counter lies strictly below the next sequence number.
    pub closed spec fn wf(&self) -> bool {
        &&& crate::sift::heap_ordered(self@)
        &&& crate::item::counters_below(self@.to_multiset(), self.counter)
    }

    /// Creates a new stable binary heap.
    pub fn new() -> (r: Self)
        ensures
            r.wf(),
            r@ == Seq::<HeapItem<T>>::empty(),
            r.counter_spec() == 0,
    {
        let heap = StableBinaryHeap { storage: Vec::new(), counter: 0 };
        proof {
            heap.storage@.to_multiset_ensures();
        }
        heap
    }

    /// Number of elements held.
    pub fn len(&self) -> (r: usize)
        ensures
            r == self@.len(),
    {
        self.storage.len()
    }

    /// Whether the heap holds no elements.
    pub fn is_empty(&self) -> (r: bool)
        ensures
            r == (self@.len() == 0),
    {
        self.storage.len() == 0
    }

    /// The next sequence number that `push` would assign.
    pub fn counter(&self) -> (r: usize)
        ensures
            r == self.counter_spec(),
    {
        self.counter
    }

    /// Returns a new [`HeapItem`] wrapping `inner` under the current
    /// counter; the caller advances the counter afterwards.
    fn new_item(&self, inner: T) -> (r: HeapItem<T>)
        ensures
            r == (HeapItem { inner, counter: self.counter_spec() }),
    {
        let id = self.counter;
        HeapItem::new(inner, id)
    }

    /// Pushes a new element on the heap, assigning it the next sequence
    /// number.
    pub fn push(&mut self, item: T)
        requires
            old(self).wf(),
            old(self).counter_spec() < usize::MAX,
        ensures
            final(self).wf(),
            final(self).counter_spec() == old(self).counter_spec() + 1,
            final(self)@.len() == old(self)@.len() + 1,
            final(self)@.to_multiset() == old(self)@.to_multiset().insert(
                (HeapItem { inner: item, counter: old(self).counter_spec() }),
            ),
    {
        let heap_item = self.new_item(item);
        self.counter += 1;
        crate::sift::insert_entry(&mut self.storage, heap_item);
        proof {
            broadcast use vstd::multiset::group_multiset_axioms;

        }
    }

    /// Inserts an entry that already carries a sequence number, as used by
    /// `retain` to put surviving entries back. The strict heap invariant
    /// already places every held counter below the current one, so the
    /// counter need not advance.
    fn push_raw(&mut self, item: HeapItem<T>)
        requires
            old(self).wf(),
            item.counter < old(self).counter_spec(),
        ensures
            final(self).wf(),
            final(self).counter_spec() == old(self).counter_spec(),
            final(self)@.len() == old(self)@.len() + 1,
            final(self)@.to_multiset() == old(self)@.to_multiset().insert(item),
    {
        crate::sift::insert_entry(&mut self.storage, item);
        proof {
            broadcast use vstd::multiset::group_multiset_axioms;

        }
    }

    /// Removes and returns the greatest element; among elements comparing
    /// equal under the user's order, the earliest inserted leaves first.
    /// Returns `None` on an empty heap. The counter is untouched.
    pub fn pop(&mut self) -> (r: Option<T>)
        requires
            old(self).wf(),
        ensures
            final(self).wf(),
            final(self).counter_spec() == old(self).counter_spec(),
            old(self)@.len() == 0 ==> r is None && final(self)@ == old(self)@,
            old(self)@.len() > 0 ==> {
                &&& r == Some(old(self)@[0].inner)
                &&& final(self)@.len() == old(self)@.len() - 1
                &&& final(self)@.to_multiset() == old(self)@.to_multiset().remove(old(self)@[0])
                &&& forall|e: HeapItem<T>| #[trigger]
                    old(self)@.to_multiset().count(e) > 0 ==> crate::item::entry_le(
                        e,
                        old(self)@[0],
                    )
            },
    {
        let r = crate::sift::remove_root(&mut self.storage);
        proof {
            broadcast use vstd::multiset::group_multiset_axioms;

        }
        match r {
            None => None,
            Some(e) => Some(e.into_inner()),
        }
    }

    /// A reference to the greatest element, or `None` on an empty heap.
    pub fn peek(&self) -> (r: Option<&T>)
        requires
            self.wf(),
        ensures
            self@.len() == 0 ==> r is None,
            self@.len() > 0 ==> {
                &&& r matches Some(v) && *v == self@[0].inner
                &&& forall|e: HeapItem<T>| #[trigger]
                    self@.to_multiset().count(e) > 0 ==> crate::item::entry_le(e, self@[0])
            },
    {
        proof {
            self@.to_multiset_ensures();
            if self@.len() > 0 {
                assert forall|e: HeapItem<T>| #[trigger] self@.to_multiset().count(e)
                    > 0 implies crate::item::entry_le(e, self@[0]) by {
                    assert(self@.contains(e));
                    let i = choose|i: int| 0 <= i < self@.len() && self@[i] == e;
                    crate::sift::lemma_root_max(self@, i);
                }
            }
        }
        if self.storage.len() == 0 {
            None
        } else {
            Some(self.storage[0].inner())
        }
    }

    /// Creates a new stable binary heap whose storage is pre-sized for
    /// `capacity` elements.
    pub fn with_capacity(capacity: usize) -> (r: Self)
        ensures
            r.wf(),
            r@ == Seq::<HeapItem<T>>::empty(),
            r.counter_spec() == 0,
    {
        let heap = StableBinaryHeap { storage: Vec::with_capacity(capacity), counter: 0 };
        proof {
            heap.storage@.to_multiset_ensures();
        }
        heap
    }

    /// Number of elements the heap can hold without reallocating; at least
    /// its length.
    pub fn capacity(&self) -> (r: usize)
        ensures
            r >= self@.len(),
    {
        vec_capacity(&self.storage)
    }

    /// Reserves room for at least `additional` further elements. Contents
    /// and counter are untouched.
    pub fn reserve(&mut self, additional: usize)
        ensures
            final(self)@ == old(self)@,
            final(self).counter_spec() == old(self).counter_spec(),
            final(self).wf() == old(self).wf(),
    {
        self.storage.reserve(additional)
    }

    /// Lets the storage shed capacity down to `min_capacity`. Contents and
    /// counter are untouched.
    pub fn shrink_to(&mut self, min_capacity: usize)
        ensures
            final(self)@ == old(self)@,
            final(self).counter_spec() == old(self).counter_spec(),
            final(self).wf() == old(self).wf(),
    {
        vec_shrink_to(&mut self.storage, min_capacity)
    }

    /// Lets the storage shed all spare capacity. Contents and counter are
    /// untouched.
    pub fn shrink_to_fit(&mut self)
        ensures
            final(self)@ == old(self)@,
            final(self).counter_spec() == old(self).counter_spec(),
            final(self).wf() == old(self).wf(),
    {
        vec_shrink_to_fit(&mut self.storage)
    }

    /// References to the held values, in storage (heap-internal) order.
    pub fn iter(&self) -> (r: Vec<&T>)
        ensures
            r@.len() == self@.len(),
            forall|i: int| 0 <= i < r@.len() ==> *(#[trigger] r@[i]) == self@[i].inner,
    {
        let mut r: Vec<&T> = Vec::new();
        let mut i: usize = 0;
        while i < self.storage.len()
            invariant
                i as int == r@.len(),
                i <= self@.len(),
                forall|k: int| 0 <= k < r@.len() ==> *(#[trigger] r@[k]) == self@[k].inner,
            decreases self@.len() - i,
        {
            r.push(self.storage[i].inner());
            i += 1;
        }
        r
    }

    /// Consumes the heap and returns the values in storage (heap-internal)
    /// order, reversed.
    pub fn into_vec(self) -> (r: Vec<T>)
        ensures
            r@.len() == self@.len(),
            forall|i: int|
                0 <= i < r@.len() ==> #[trigger] r@[i] == self@[self@.len() - 1 - i].inner,
            r@.to_multiset() == self@.map_values(|e: HeapItem<T>| e.inner).to_multiset(),
    {
        let ghost s0 = self@;
        let mut storage = self.storage;
        let mut r: Vec<T> = Vec::new();
        while storage.len() > 0
            invariant
                storage@ == s0.subrange(0, storage@.len() as int),
                r@.len() + storage@.len() == s0.len(),
                forall|i: int|
                    0 <= i < r@.len() ==> #[trigger] r@[i] == s0[s0.len() - 1 - i].inner,
            decreases storage@.len(),
        {
            let ghost k = storage@.len() as int;
            let e = storage.pop().unwrap();
            proof {
                assert(e == s0[k - 1]);
                assert(storage@ =~= s0.subrange(0, k - 1));
            }
            r.push(e.into_inner());
        }
        proof {
            let mapped = s0.map_values(|e: HeapItem<T>| e.inner);
            assert(r@ =~= mapped.reverse());
            mapped.lemma_reverse_to_multiset();
        }
        r
    }

    /// Removes every element and resets the sequence counter to zero, as
    /// if the heap were freshly constructed.
    pub fn clear(&mut self)
        ensures
            final(self).wf(),
            final(self)@ == Seq::<HeapItem<T>>::empty(),
            final(self).counter_spec() == 0,
    {
        self.storage.clear();
        self.counter = 0;
        proof {
            self.storage@.to_multiset_ensures();
            assert(self.storage@ =~= Seq::<HeapItem<T>>::empty());
        }
    }
}

/// The multiset of entries wrapping `items[k..]`, numbered from `base`
/// so that `items[i]` carries counter `base + i`.
spec fn tail_entries<T>(items: Seq<T>, base: usize, k: int) -> Multiset<HeapItem<T>>
    decreases items.len() - k,
{
    if k < 0 || k >= items.len() {
        Multiset::<HeapItem<T>>::empty()
    } else {
        tail_entries(items, base, k + 1).insert(
            (HeapItem { inner: items[k], counter: (base + k) as usize }),
        )
    }
}

/// The tail entries are exactly the numbered entries of the subrange.
proof fn lemma_tail_entries<T>(items: Seq<T>, base: usize, k: int)
    requires
        0 <= k <= items.len(),
    ensures
        tail_entries(items, base, k) == crate::item::numbered_from(items, base).subrange(
            k,
            items.len() as int,
        ).to_multiset(),
    decreases items.len() - k,
{
    broadcast use vstd::multiset::group_multiset_axioms;

    let numbered = crate::item::numbered_from(items, base);
    let sub = numbered.subrange(k, items.len() as int);
    sub.to_multiset_ensures();
    if k == items.len() {
        assert(sub =~= Seq::<HeapItem<T>>::empty());
        assert forall|e: HeapItem<T>| #[trigger] sub.to_multiset().count(e) == 0 by {
            if sub.to_multiset().count(e) > 0 {
                assert(sub.contains(e));
            }
        }
        assert(sub.to_multiset() =~= Multiset::<HeapItem<T>>::empty());
    } else {
        lemma_tail_entries(items, base, k + 1);
        let e = (HeapItem { inner: items[k], counter: (base + k) as usize });
        assert(sub[0] == e);
        assert(sub.remove(0) =~= numbered.subrange(k + 1, items.len() as int));
        assert(sub.remove(0).to_multiset() == sub.to_multiset().remove(sub[0]));
        assert(sub.contains(e));
        assert(sub.to_multiset().count(e) > 0);
        assert(sub.to_multiset() =~= sub.to_multiset().remove(e).insert(e));
        assert(tail_entries(items, base, k) == sub.to_multiset());
    }
}

impl<T: TotalOrder> StableBinaryHeap<T> {
    /// Pushes every element of `items` in order, exactly as repeated
    /// `push` calls would: `items[i]` receives sequence number
    /// `counter + i`.
    pub fn extend(&mut self, items: Vec<T>)
        requires
            old(self).wf(),
            old(self).counter_spec() + items@.len() <= usize::MAX,
        ensures
            final(self).wf(),
            final(self).counter_spec() == old(self).counter_spec() + items@.len(),
            final(self)@.len() == old(self)@.len() + items@.len(),
            final(self)@.to_multiset() == old(self)@.to_multiset().add(
                crate::item::numbered_from(items@, old(self).counter_spec()).to_multiset(),
            ),
    {
        let ghost items0 = items@;
        let ghost kept0 = old(self)@.to_multiset();
        let base = self.counter;
        let total = items.len();
        self.counter = base + total;
        let mut items = items;
        proof {
            broadcast use vstd::multiset::group_multiset_axioms;

            old(self)@.to_multiset_ensures();
            assert(items@ =~= items0.subrange(0, items@.len() as int));
            assert(tail_entries(items0, base, total as int) == Multiset::<HeapItem<T>>::empty());
            assert(kept0.add(Multiset::<HeapItem<T>>::empty()) =~= kept0);
        }
        while items.len() > 0
            invariant
                items0.len() == total,
                items@.len() <= items0.len(),
                self.counter == base + total,
                base + total <= usize::MAX,
                items@ == items0.subrange(0, items@.len() as int),
                crate::sift::heap_ordered(self.storage@),
                crate::item::counters_below(self.storage@.to_multiset(), self.counter),
                self.storage@.to_multiset() == kept0.add(
                    tail_entries(items0, base, items@.len() as int),
                ),
                self.storage@.len() + items@.len() == kept0.len() + total,
                crate::item::counters_below(kept0, base),
            decreases items@.len(),
        {
            broadcast use vstd::multiset::group_multiset_axioms;

            let ghost k = items@.len() as int;
            let ghost pre = items@;
            let idx = items.len() - 1;
            let x = items.pop().unwrap();
            proof {
                assert(x == pre[k - 1]);
                assert(pre[k - 1] == items0[k - 1]);
                assert(items@ =~= items0.subrange(0, k - 1));
            }
            let e = HeapItem::new(x, base + idx);
            crate::sift::insert_entry(&mut self.storage, e);
            proof {
                self.storage@.to_multiset_ensures();
                assert(tail_entries(items0, base, k - 1) == tail_entries(items0, base, k).insert(
                    e,
                ));
            }
        }
        proof {
            broadcast use vstd::multiset::group_multiset_axioms;

            old(self)@.to_multiset_ensures();
            lemma_tail_entries(items0, base, 0);
            assert(crate::item::numbered_from(items0, base).subrange(0, items0.len() as int)
                =~= crate::item::numbered_from(items0, base));
        }
    }
}

impl<T: TotalOrder> Default for StableBinaryHeap<T> {
    /// An empty heap with sequence counter zero.
    fn default() -> (r: Self)
        ensures
            r.wf(),
            r@ == Seq::<HeapItem<T>>::empty(),
            r.counter_spec() == 0,
    {
        StableBinaryHeap::new()
    }
}

impl<T: TotalOrder> StableBinaryHeap<T> {
    /// Consumes the heap into a producer of its values in descending
    /// order, ties in insertion order.
    pub fn into_iter_sorted(self) -> (it: IntoIterSorted<T>)
        requires
            self.wf(),
        ensures
            it.wf(),
            it@ == self@,
    {
        IntoIterSorted { entries: self.storage }
    }

    /// Consumes the heap and returns its values in descending order under
    /// the user's order; values comparing equal appear in their insertion
    /// order.
    pub fn into_sorted_vec(self) -> (r: Vec<T>)
        requires
            self.wf(),
        ensures
            r@.len() == self@.len(),
            forall|i: int, j: int|
                #![trigger r@[i], r@[j]]
                0 <= i <= j < r@.len() ==> r@[j].le_spec(r@[i]),
            exists|s: Seq<HeapItem<T>>|
                {
                    &&& #[trigger] crate::item::sorted_desc(s)
                    &&& s.to_multiset() == self@.to_multiset()
                    &&& r@ == s.map_values(|e: HeapItem<T>| e.inner)
                },
    {
        broadcast use vstd::multiset::group_multiset_axioms;

        let ghost m0 = self@.to_multiset();
        let ghost n0 = self@.len();
        let mut storage = self.storage;
        let mut r: Vec<T> = Vec::new();
        let ghost mut gs = Seq::<HeapItem<T>>::empty();
        proof {
            gs.to_multiset_ensures();
            assert(gs.to_multiset().add(storage@.to_multiset()) =~= storage@.to_multiset());
            assert(gs.map_values(|e: HeapItem<T>| e.inner) =~= Seq::<T>::empty());
        }
        while storage.len() > 0
            invariant
                crate::sift::heap_ordered(storage@),
                gs.to_multiset().add(storage@.to_multiset()) == m0,
                gs.len() + storage@.len() == n0,
                crate::item::sorted_desc(gs),
                gs.len() > 0 ==> forall|e: HeapItem<T>| #[trigger]
                    storage@.to_multiset().count(e) > 0 ==> crate::item::entry_le(
                        e,
                        gs[gs.len() - 1],
                    ),
                r@ == gs.map_values(|e: HeapItem<T>| e.inner),
            decreases storage@.len(),
        {
            broadcast use vstd::multiset::group_multiset_axioms;

            let ghost pre = storage@;
            let ghost gpre = gs;
            let e = crate::sift::remove_root(&mut storage).unwrap();
            proof {
                pre.to_multiset_ensures();
                gpre.to_multiset_ensures();
                assert(pre.contains(e));
                assert(pre.to_multiset().count(e) > 0);
                gs = gs.push(e);
                assert(gs.to_multiset() == gpre.to_multiset().insert(e));
                assert(gs.to_multiset().add(storage@.to_multiset()) =~= m0);
                assert forall|i: int| 0 <= i < gpre.len() implies crate::item::entry_le(
                    e,
                    gpre[i],
                ) by {
                    crate::item::lemma_entry_le_transitive(e, gpre[gpre.len() - 1], gpre[i]);
                }
                assert(crate::item::sorted_desc(gs));
                assert(gs[gs.len() - 1] == e);
                assert(gs.map_values(|x: HeapItem<T>| x.inner) =~= gpre.map_values(
                    |x: HeapItem<T>| x.inner,
                ).push(e.inner));
            }
            r.push(e.into_inner());
        }
        proof {
            storage@.to_multiset_ensures();
            assert forall|e: HeapItem<T>| #[trigger] storage@.to_multiset().count(e) == 0 by {
                if storage@.to_multiset().count(e) > 0 {
                    assert(storage@.contains(e));
                }
            }
            assert(storage@.to_multiset() =~= Multiset::<HeapItem<T>>::empty());
            assert(gs.to_multiset().add(storage@.to_multiset()) =~= gs.to_multiset());
            gs.to_multiset_ensures();
            assert(r@.len() == gs.map_values(|e: HeapItem<T>| e.inner).len());
            crate::item::lemma_sorted_desc_values(gs);
            assert forall|i: int, j: int|
                #![trigger r@[i], r@[j]]
                0 <= i <= j < r@.len() implies r@[j].le_spec(r@[i]) by {
                assert(r@[i] == gs[i].inner);
                assert(r@[j] == gs[j].inner);
            }
        }
        r
    }

    /// Keeps only the elements whose value satisfies `f`, discarding the
    /// rest. Every kept entry retains its original sequence number, so the
    /// relative extraction order of the survivors is unchanged; the
    /// counter is untouched.
    pub fn retain<F: Fn(&T) -> bool>(&mut self, f: F)
        requires
            old(self).wf(),
            forall|e: HeapItem<T>| #[trigger]
                old(self)@.to_multiset().count(e) > 0 ==> call_requires(f, (&e.inner,)),
        ensures
            final(self).wf(),
            final(self).counter_spec() == old(self).counter_spec(),
            forall|e: HeapItem<T>| #[trigger]
                final(self)@.to_multiset().count(e) <= old(self)@.to_multiset().count(e),
            forall|e: HeapItem<T>| #[trigger]
                final(self)@.to_multiset().count(e) > 0 ==> call_ensures(f, (&e.inner,), true),
            forall|e: HeapItem<T>|
                final(self)@.to_multiset().count(e) < #[trigger] old(
                    self,
                )@.to_multiset().count(e) ==> call_ensures(f, (&e.inner,), false),
    {
        broadcast use vstd::multiset::group_multiset_axioms;

        let ghost orig = old(self)@.to_multiset();
        let mut tmp: Vec<HeapItem<T>> = Vec::new();
        std::mem::swap(&mut self.storage, &mut tmp);
        let ghost mut dropped = Multiset::<HeapItem<T>>::empty();
        proof {
            self.storage@.to_multiset_ensures();
            assert(self.storage@ =~= Seq::<HeapItem<T>>::empty());
            assert(self.storage@.to_multiset().add(dropped).add(tmp@.to_multiset())
                =~= orig);
        }
        while tmp.len() > 0
            invariant
                crate::sift::heap_ordered(self.storage@),
                self.counter == old(self).counter_spec(),
                crate::item::counters_below(orig, self.counter),
                crate::item::counters_below(self.storage@.to_multiset(), self.counter),
                self.storage@.to_multiset().add(dropped).add(tmp@.to_multiset()) == orig,
                forall|e: HeapItem<T>| #[trigger]
                    orig.count(e) > 0 ==> call_requires(f, (&e.inner,)),
                forall|e: HeapItem<T>| #[trigger]
                    self.storage@.to_multiset().count(e) > 0 ==> call_ensures(
                        f,
                        (&e.inner,),
                        true,
                    ),
                forall|e: HeapItem<T>| #[trigger]
                    dropped.count(e) > 0 ==> call_ensures(f, (&e.inner,), false),
            decreases tmp@.len(),
        {
            broadcast use vstd::multiset::group_multiset_axioms;

            let ghost pre = tmp@;
            let e = tmp.pop().unwrap();
            proof {
                pre.to_multiset_ensures();
                assert(e == pre[pre.len() - 1]);
                assert(tmp@ =~= pre.remove(pre.len() - 1));
                assert(tmp@.to_multiset() == pre.to_multiset().remove(e));
                assert(pre.contains(e));
                assert(pre.to_multiset().count(e) > 0);
                assert(orig.count(e) > 0);
            }
            if f(&e.inner) {
                self.push_raw(e);
                proof {
                    assert(self.storage@.to_multiset().add(dropped).add(tmp@.to_multiset())
                        =~= orig);
                }
            } else {
                proof {
                    dropped = dropped.insert(e);
                    assert(self.storage@.to_multiset().add(dropped).add(tmp@.to_multiset())
                        =~= orig);
                }
            }
        }
        proof {
            broadcast use vstd::multiset::group_multiset_axioms;

            tmp@.to_multiset_ensures();
            assert forall|e: HeapItem<T>| #[trigger] tmp@.to_multiset().count(e) == 0 by {
                if tmp@.to_multiset().count(e) > 0 {
                    assert(tmp@.contains(e));
                }
            }
            assert forall|e: HeapItem<T>| #[trigger] self.storage@.to_multiset().count(e)
                <= orig.count(e) by {
                assert(orig.count(e) == self.storage@.to_multiset().count(e) + dropped.count(e)
                    + tmp@.to_multiset().count(e));
            }
            assert forall|e: HeapItem<T>|
                self.storage@.to_multiset().count(e) < #[trigger] orig.count(
                    e,
                ) implies call_ensures(f, (&e.inner,), false) by {
                assert(orig.count(e) == self.storage@.to_multiset().count(e) + dropped.count(e)
                    + tmp@.to_multiset().count(e));
                assert(dropped.count(e) > 0);
            }
        }
    }

    /// Applies `f` to the greatest element, replacing it with the result
    /// under the same sequence number, then restores heap order; the one
    /// operation that can reorder the storage through external mutation.
    /// Returns `false`, changing nothing, on an empty heap.
    pub fn peek_mut<F: FnOnce(T) -> T>(&mut self, f: F) -> (r: bool)
        requires
            old(self).wf(),
            old(self)@.len() > 0 ==> call_requires(f, (old(self)@[0].inner,)),
        ensures
            final(self).wf(),
            final(self).counter_spec() == old(self).counter_spec(),
            r == (old(self)@.len() > 0),
            !r ==> final(self)@ == old(self)@,
            r ==> final(self)@.len() == old(self)@.len(),
            r ==> exists|w: T|
                {
                    &&& #[trigger] call_ensures(f, (old(self)@[0].inner,), w)
                    &&& final(self)@.to_multiset() == old(self)@.to_multiset().remove(
                        old(self)@[0],
                    ).insert((HeapItem { inner: w, counter: old(self)@[0].counter }))
                },
    {
        broadcast use vstd::multiset::group_multiset_axioms;

        if self.storage.len() == 0 {
            return false;
        }
        let ghost pre = self.storage@;
        let e = crate::sift::remove_root(&mut self.storage).unwrap();
        let counter = e.counter;
        let w = f(e.into_inner());
        let item = HeapItem::new(w, counter);
        proof {
            pre.to_multiset_ensures();
            assert(pre.contains(e));
            assert(pre.to_multiset().count(e) > 0);
        }
        crate::sift::insert_entry(&mut self.storage, item);
        true
    }

    /// Empties the heap into a producer of its values in unsorted order.
    /// The counter is untouched.
    pub fn drain(&mut self) -> (d: Drain<T>)
        requires
            old(self).wf(),
        ensures
            final(self).wf(),
            final(self)@ == Seq::<HeapItem<T>>::empty(),
            final(self).counter_spec() == old(self).counter_spec(),
            d@ == old(self)@,
    {
        let mut tmp: Vec<HeapItem<T>> = Vec::new();
        std::mem::swap(&mut self.storage, &mut tmp);
        proof {
            self.storage@.to_multiset_ensures();
            assert(self.storage@ =~= Seq::<HeapItem<T>>::empty());
        }
        Drain { entries: tmp }
    }
}

/// A one-shot producer of the values of a consumed heap, in unsorted
/// (storage) order.
pub struct Drain<T> {
    entries: Vec<HeapItem<T>>,
}

impl<T> View for Drain<T> {
    type V = Seq<HeapItem<T>>;

    closed spec fn view(&self) -> Seq<HeapItem<T>> {
        self.entries@
    }
}

impl<T> Drain<T> {
    /// The next drained value, or `None` once all are gone.
    pub fn next(&mut self) -> (r: Option<T>)
        ensures
            old(self)@.len() == 0 ==> r is None && final(self)@ == old(self)@,
            old(self)@.len() > 0 ==> {
                &&& r == Some(old(self)@.last().inner)
                &&& final(self)@ == old(self)@.drop_last()
            },
    {
        match self.entries.pop() {
            None => None,
            Some(e) => Some(e.into_inner()),
        }
    }
}

/// A one-shot producer of the values of a consumed heap, in descending
/// order with ties in insertion order.
pub struct IntoIterSorted<T: TotalOrder> {
    entries: Vec<HeapItem<T>>,
}

impl<T: TotalOrder> View for IntoIterSorted<T> {
    type V = Seq<HeapItem<T>>;

    closed spec fn view(&self) -> Seq<HeapItem<T>> {
        self.entries@
    }
}

impl<T: TotalOrder> IntoIterSorted<T> {
    /// The remaining entries are heap-ordered.
    pub closed spec fn wf(&self) -> bool {
        crate::sift::heap_ordered(self@)
    }

    /// The greatest remaining value; among remaining values comparing
    /// equal under the user's order, the one inserted earliest. `None`
    /// once all values are gone.
    pub fn next(&mut self) -> (r: Option<T>)
        requires
            old(self).wf(),
        ensures
            final(self).wf(),
            old(self)@.len() == 0 ==> r is None && final(self)@ == old(self)@,
            old(self)@.len() > 0 ==> {
                &&& r == Some(old(self)@[0].inner)
                &&& final(self)@.len() == old(self)@.len() - 1
                &&& final(self)@.to_multiset() == old(self)@.to_multiset().remove(old(self)@[0])
                &&& forall|e: HeapItem<T>| #[trigger]
                    old(self)@.to_multiset().count(e) > 0 ==> crate::item::entry_le(
                        e,
                        old(self)@[0],
                    )
            },
    {
        match crate::sift::remove_root(&mut self.entries) {
            None => None,
            Some(e) => Some(e.into_inner()),
        }
    }

    /// Exactly as many values remain as the view holds.
    pub fn size_hint(&self) -> (r: (usize, Option<usize>))
        ensures
            r.0 == self@.len(),
            r.1 == Some(self@.len() as usize),
    {
        let exact = self.entries.len();
        (exact, Some(exact))
    }
}

} // verus!
