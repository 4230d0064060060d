//! The verified binary-heap machinery: the heap-order invariant on the
//! backing vector and the sift operations that restore it.

use vstd::prelude::*;

use crate::item::{entry_le, entry_le_check, lemma_entry_le_total, lemma_entry_le_transitive,
    HeapItem};
use crate::order::TotalOrder;

verus! {

broadcast use vstd::multiset::group_multiset_axioms;

/// Index of the parent of the node at index `i`.
pub open spec fn parent_of(i: int) -> int {
    (i - 1) / 2
}

/// Max-heap order: every non-root entry is at or below its parent.
pub open spec fn heap_ordered<T: TotalOrder>(s: Seq<HeapItem<T>>) -> bool {
    forall|i: int| 1 <= i < s.len() ==> entry_le(#[trigger] s[i], s[parent_of(i)])
}

/// Heap order holds everywhere except possibly on the edge from `j` up to
/// its parent; in exchange, the children of `j` are already at or below
/// the parent of `j`.
spec fn except_up<T: TotalOrder>(s: Seq<HeapItem<T>>, j: int) -> bool {
    &&& forall|i: int| 1 <= i < s.len() && i != j ==> entry_le(#[trigger] s[i], s[parent_of(i)])
    &&& forall|i: int|
        1 <= i < s.len() && j >= 1 && parent_of(i) == j ==> entry_le(
            #[trigger] s[i],
            s[parent_of(j)],
        )
}

/// Heap order holds everywhere except possibly on the edges from the
/// children of `j` up to `j`; in exchange, those children are already at
/// or below the parent of `j`.
spec fn except_down<T: TotalOrder>(s: Seq<HeapItem<T>>, j: int) -> bool {
    &&& forall|i: int|
        1 <= i < s.len() && parent_of(i) != j ==> entry_le(#[trigger] s[i], s[parent_of(i)])
    &&& forall|i: int|
        1 <= i < s.len() && j >= 1 && parent_of(i) == j ==> entry_le(
            #[trigger] s[i],
            s[parent_of(j)],
        )
}

/// In a heap-ordered sequence, the root is a maximum.
pub proof fn lemma_root_max<T: TotalOrder>(s: Seq<HeapItem<T>>, i: int)
    requires
        heap_ordered(s),
        0 <= i < s.len(),
    ensures
        entry_le(s[i], s[0]),
    decreases i,
{
    if i >= 1 {
        let p = parent_of(i);
        assert(0 <= p < i);
        lemma_root_max(s, p);
        lemma_entry_le_transitive(s[i], s[p], s[0]);
    } else {
        lemma_entry_le_total(s[0], s[0]);
    }
}

/// Updating one position replaces one occurrence in the multiset.
proof fn lemma_update_to_multiset<A>(s: Seq<A>, i: int, a: A)
    requires
        0 <= i < s.len(),
    ensures
        s.update(i, a).to_multiset() == s.to_multiset().remove(s[i]).insert(a),
{
    let u = s.update(i, a);
    s.to_multiset_ensures();
    u.to_multiset_ensures();
    assert(u.remove(i) =~= s.remove(i));
    assert(u.remove(i).to_multiset() == u.to_multiset().remove(u[i]));
    assert(s.remove(i).to_multiset() == s.to_multiset().remove(s[i]));
    assert(u[i] == a);
    assert(u.to_multiset().remove(a) == s.to_multiset().remove(s[i]));
    assert(u.contains(a));
    assert(u.to_multiset().count(a) > 0);
    assert(u.to_multiset() =~= s.to_multiset().remove(s[i]).insert(a)) by {
        assert forall|x: A| u.to_multiset().count(x) == s.to_multiset().remove(s[i]).insert(
            a,
        ).count(x) by {
            assert(u.to_multiset().remove(a).count(x) == s.to_multiset().remove(s[i]).count(x));
        }
    }
}

/// Swapping two positions leaves the multiset of elements unchanged.
proof fn lemma_swap_to_multiset<A>(s: Seq<A>, i: int, j: int)
    requires
        0 <= i < s.len(),
        0 <= j < s.len(),
    ensures
        s.update(i, s[j]).update(j, s[i]).to_multiset() == s.to_multiset(),
{
    s.to_multiset_ensures();
    if i == j {
        assert(s.update(i, s[j]).update(j, s[i]) =~= s);
    } else {
        let s1 = s.update(i, s[j]);
        let s2 = s1.update(j, s[i]);
        lemma_update_to_multiset(s, i, s[j]);
        lemma_update_to_multiset(s1, j, s[i]);
        assert(s1[j] == s[j]);
        assert(s2.to_multiset() == s.to_multiset().remove(s[i]).insert(s[j]).remove(
            s[j],
        ).insert(s[i]));
        assert(s.contains(s[i]));
        assert(s.to_multiset().count(s[i]) > 0);
        assert(s2.to_multiset() =~= s.to_multiset());
    }
}

/// Exchanges the elements at two indices of the vector.
///
/// Relies on `<[T]>::swap`: it exchanges the elements at the two given
/// in-bounds indices and touches nothing else.
#[verifier::external_body]
pub(crate) fn swap_entries<T>(v: &mut Vec<T>, i: usize, j: usize)
    requires
        i < old(v)@.len(),
        j < old(v)@.len(),
    ensures
        final(v)@ == old(v)@.update(i as int, old(v)@[j as int]).update(j as int, old(v)@[i as int]),
{
    v.swap(i, j);
}

/// Moves the entry at `k` up towards the root until heap order holds.
fn sift_up<T: TotalOrder>(v: &mut Vec<HeapItem<T>>, k: usize)
    requires
        (k as int) < old(v)@.len(),
        except_up(old(v)@, k as int),
    ensures
        final(v)@.len() == old(v)@.len(),
        final(v)@.to_multiset() == old(v)@.to_multiset(),
        heap_ordered(final(v)@),
{
    let mut j = k;
    while j > 0
        invariant
            (j as int) < v@.len(),
            v@.len() == old(v)@.len(),
            v@.to_multiset() == old(v)@.to_multiset(),
            except_up(v@, j as int),
        decreases j,
    {
        let p = (j - 1) / 2;
        assert(p as int == parent_of(j as int));
        if entry_le_check(&v[j], &v[p]) {
            assert(heap_ordered(v@));
            return;
        }
        let ghost s = v@;
        proof {
            lemma_entry_le_total(s[j as int], s[p as int]);
        }
        swap_entries(v, j, p);
        proof {
            let s2 = v@;
            let ji = j as int;
            let pi = p as int;
            lemma_swap_to_multiset(s, ji, pi);
            assert forall|i: int| 1 <= i < s2.len() && i != pi implies entry_le(
                #[trigger] s2[i],
                s2[parent_of(i)],
            ) by {
                if i == ji {
                } else if parent_of(i) == pi {
                    lemma_entry_le_transitive(s[i], s[pi], s[ji]);
                } else if parent_of(i) == ji {
                } else {
                }
            }
            if pi >= 1 {
                assert forall|i: int| 1 <= i < s2.len() && parent_of(i) == pi implies entry_le(
                    #[trigger] s2[i],
                    s2[parent_of(pi)],
                ) by {
                    if i == ji {
                    } else {
                        lemma_entry_le_transitive(s[i], s[pi], s[parent_of(pi)]);
                    }
                }
            }
            assert(except_up(s2, pi));
        }
        j = p;
    }
    assert(heap_ordered(v@));
}

/// Moves the entry at the root down until heap order holds.
fn sift_down<T: TotalOrder>(v: &mut Vec<HeapItem<T>>, k: usize)
    requires
        (k as int) < old(v)@.len(),
        except_down(old(v)@, k as int),
    ensures
        final(v)@.len() == old(v)@.len(),
        final(v)@.to_multiset() == old(v)@.to_multiset(),
        heap_ordered(final(v)@),
{
    let mut j = k;
    while j < v.len() / 2
        invariant
            (j as int) < v@.len(),
            v@.len() == old(v)@.len(),
            v@.to_multiset() == old(v)@.to_multiset(),
            except_down(v@, j as int),
        decreases v@.len() - j,
    {
        let l = 2 * j + 1;
        let r = 2 * j + 2;
        assert(l < v@.len()) by {
            assert((j as int) < (v@.len() as int) / 2);
        }
        assert(parent_of(l as int) == j as int);
        assert(parent_of(r as int) == j as int);
        let mut m = l;
        if r < v.len() && !entry_le_check(&v[r], &v[l]) {
            m = r;
            proof {
                lemma_entry_le_total(v@[r as int], v@[l as int]);
            }
        }
        // `m` is a greatest child of `j`.
        assert(forall|i: int|
            1 <= i < v@.len() && parent_of(i) == j as int ==> entry_le(
                #[trigger] v@[i],
                v@[m as int],
            )) by {
            lemma_entry_le_total(v@[m as int], v@[m as int]);
        }
        if entry_le_check(&v[m], &v[j]) {
            proof {
                let s = v@;
                assert forall|i: int| 1 <= i < s.len() implies entry_le(
                    #[trigger] s[i],
                    s[parent_of(i)],
                ) by {
                    if parent_of(i) == j as int {
                        lemma_entry_le_transitive(s[i], s[m as int], s[j as int]);
                    }
                }
            }
            return;
        }
        let ghost s = v@;
        proof {
            lemma_entry_le_total(s[m as int], s[j as int]);
        }
        swap_entries(v, j, m);
        proof {
            let s2 = v@;
            let ji = j as int;
            let mi = m as int;
            lemma_swap_to_multiset(s, ji, mi);
            assert forall|i: int| 1 <= i < s2.len() && parent_of(i) != mi implies entry_le(
                #[trigger] s2[i],
                s2[parent_of(i)],
            ) by {
                if i == mi {
                } else if parent_of(i) == ji {
                } else if i == ji {
                } else {
                }
            }
            assert(except_down(s2, mi));
        }
        j = m;
    }
    proof {
        let s = v@;
        assert forall|i: int| 1 <= i < s.len() implies entry_le(#[trigger] s[i], s[parent_of(i)]) by {
            assert(parent_of(i) != j as int) by {
                if parent_of(i) == j as int {
                    assert(i >= 2 * (j as int) + 1);
                }
            }
        }
    }
}

/// Inserts `e` into the heap-ordered vector, restoring heap order.
pub(crate) fn insert_entry<T: TotalOrder>(v: &mut Vec<HeapItem<T>>, e: HeapItem<T>)
    requires
        heap_ordered(old(v)@),
    ensures
        heap_ordered(final(v)@),
        final(v)@.len() == old(v)@.len() + 1,
        final(v)@.to_multiset() == old(v)@.to_multiset().insert(e),
{
    let ghost s0 = v@;
    let n = v.len();
    v.push(e);
    proof {
        s0.to_multiset_ensures();
        let s = v@;
        assert(s == s0.push(e));
        assert forall|i: int| 1 <= i < s.len() && i != n as int implies entry_le(
            #[trigger] s[i],
            s[parent_of(i)],
        ) by {
            assert(s[i] == s0[i]);
            assert(parent_of(i) < i);
            assert(s[parent_of(i)] == s0[parent_of(i)]);
        }
        assert forall|i: int|
            1 <= i < s.len() && n as int >= 1 && parent_of(i) == n as int implies entry_le(
            #[trigger] s[i],
            s[parent_of(n as int)],
        ) by {
            assert(i >= 2 * (n as int) + 1);
            assert(i < s.len() == n as int + 1);
            assert(false);
        }
        assert(except_up(s, n as int));
    }
    sift_up(v, n);
}

/// Removes and returns the root of the heap-ordered vector, restoring heap
/// order. The root is a maximum of the entries.
pub(crate) fn remove_root<T: TotalOrder>(v: &mut Vec<HeapItem<T>>) -> (r: Option<HeapItem<T>>)
    requires
        heap_ordered(old(v)@),
    ensures
        heap_ordered(final(v)@),
        old(v)@.len() == 0 ==> r is None && final(v)@ == old(v)@,
        old(v)@.len() > 0 ==> {
            &&& r == Some(old(v)@[0])
            &&& final(v)@.len() == old(v)@.len() - 1
            &&& final(v)@.to_multiset() == old(v)@.to_multiset().remove(old(v)@[0])
            &&& forall|e: HeapItem<T>| #[trigger]
                old(v)@.to_multiset().count(e) > 0 ==> entry_le(e, old(v)@[0])
        },
{
    let ghost s0 = v@;
    proof {
        s0.to_multiset_ensures();
        if s0.len() > 0 {
            assert forall|e: HeapItem<T>| #[trigger] s0.to_multiset().count(e) > 0 implies entry_le(
                e,
                s0[0],
            ) by {
                assert(s0.contains(e));
                let i = choose|i: int| 0 <= i < s0.len() && s0[i] == e;
                lemma_root_max(s0, i);
            }
        }
    }
    let n = v.len();
    if n == 0 {
        return None;
    }
    if n == 1 {
        let e = v.pop().unwrap();
        proof {
            assert(v@ =~= s0.remove(0));
        }
        return Some(e);
    }
    swap_entries(v, 0, n - 1);
    let ghost s1 = v@;
    let e = v.pop().unwrap();
    proof {
        lemma_swap_to_multiset(s0, 0, n as int - 1);
        s1.to_multiset_ensures();
        assert(v@ =~= s1.remove(n as int - 1));
        assert(v@.to_multiset() == s1.to_multiset().remove(s1[n as int - 1]));
        assert(s1[n as int - 1] == s0[0]);
        let s = v@;
        assert forall|i: int| 1 <= i < s.len() && parent_of(i) != 0 implies entry_le(
            #[trigger] s[i],
            s[parent_of(i)],
        ) by {
            assert(s[i] == s0[i]);
            assert(s[parent_of(i)] == s0[parent_of(i)]);
        }
        assert(except_down(s, 0));
    }
    sift_down(v, 0);
    Some(e)
}

} // verus!
