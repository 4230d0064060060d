use vstd::prelude::*;

verus! {

/// A total preorder supplied by the user of the heap.
///
/// `le_spec` is the mathematical ordering; `le` is its executable form.
/// Two values `a`, `b` with `a.le_spec(b) && b.le_spec(a)` count as equal
/// for the heap, and the heap breaks such ties by insertion order.
///
/// Implementations must prove totality and transitivity, so every proof
/// built on this trait holds for every implementation.
pub trait TotalOrder: Sized {
    /// `self` is at or below `other` in the user's order.
    spec fn le_spec(self, other: Self) -> bool;

    /// The order relates every pair of values.
    proof fn lemma_total(a: Self, b: Self)
        ensures
            a.le_spec(b) || b.le_spec(a),
    ;

    /// The order is transitive.
    proof fn lemma_transitive(a: Self, b: Self, c: Self)
        requires
            a.le_spec(b),
            b.le_spec(c),
        ensures
            a.le_spec(c),
    ;

    /// Executable comparison, faithful to `le_spec`.
    fn le(&self, other: &Self) -> (r: bool)
        ensures
            r == self.le_spec(*other),
    ;
}

impl TotalOrder for usize {
    open spec fn le_spec(self, other: Self) -> bool {
        self <= other
    }

    proof fn lemma_total(a: Self, b: Self) {
    }

    proof fn lemma_transitive(a: Self, b: Self, c: Self) {
    }

    fn le(&self, other: &Self) -> (r: bool) {
        *self <= *other
    }
}

impl TotalOrder for u32 {
    open spec fn le_spec(self, other: Self) -> bool {
        self <= other
    }

    proof fn lemma_total(a: Self, b: Self) {
    }

    proof fn lemma_transitive(a: Self, b: Self, c: Self) {
    }

    fn le(&self, other: &Self) -> (r: bool) {
        *self <= *other
    }
}

impl TotalOrder for u64 {
    open spec fn le_spec(self, other: Self) -> bool {
        self <= other
    }

    proof fn lemma_total(a: Self, b: Self) {
    }

    proof fn lemma_transitive(a: Self, b: Self, c: Self) {
    }

    fn le(&self, other: &Self) -> (r: bool) {
        *self <= *other
    }
}

impl TotalOrder for i32 {
    open spec fn le_spec(self, other: Self) -> bool {
        self <= other
    }

    proof fn lemma_total(a: Self, b: Self) {
    }

    proof fn lemma_transitive(a: Self, b: Self, c: Self) {
    }

    fn le(&self, other: &Self) -> (r: bool) {
        *self <= *other
    }
}

impl TotalOrder for i64 {
    open spec fn le_spec(self, other: Self) -> bool {
        self <= other
    }

    proof fn lemma_total(a: Self, b: Self) {
    }

    proof fn lemma_transitive(a: Self, b: Self, c: Self) {
    }

    fn le(&self, other: &Self) -> (r: bool) {
        *self <= *other
    }
}

/// A payload tagged with an explicit priority. Only the priority takes
/// part in the ordering, so distinct payloads of equal priority compare
/// equal and the heap keeps them in insertion order.
#[derive(Clone)]
pub struct UniqueItem<T> {
    pub item: T,
    pub val: u32,
}

impl<T> UniqueItem<T> {
    /// Tags `item` with the priority `val`.
    pub fn new(item: T, val: u32) -> (r: Self)
        ensures
            r == (UniqueItem { item, val }),
    {
        UniqueItem { item, val }
    }
}

impl<T> TotalOrder for UniqueItem<T> {
    open spec fn le_spec(self, other: Self) -> bool {
        self.val <= other.val
    }

    proof fn lemma_total(a: Self, b: Self) {
    }

    proof fn lemma_transitive(a: Self, b: Self, c: Self) {
    }

    fn le(&self, other: &Self) -> (r: bool) {
        self.val <= other.val
    }
}

} // verus!
