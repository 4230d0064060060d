use stable_heap::order::UniqueItem;
use stable_heap::StableBinaryHeap;

#[test]
fn sizes_after_pushes_and_pops() {
    let mut heap: StableBinaryHeap<usize> = StableBinaryHeap::new();
    assert!(heap.is_empty());
    assert_eq!(heap.len(), 0);

    for i in 0..8 {
        heap.push(i);
        assert_eq!(heap.len(), i + 1);
        assert!(!heap.is_empty());
    }

    for k in 0..3 {
        heap.pop();
        assert_eq!(heap.len(), 8 - k - 1);
    }
    assert!(!heap.is_empty());

    for _ in 0..5 {
        heap.pop();
    }
    assert_eq!(heap.len(), 0);
    assert!(heap.is_empty());
    assert_eq!(heap.pop(), None);
}

#[test]
fn pop_sequence_is_non_increasing() {
    let mut heap = StableBinaryHeap::new();
    for v in [3usize, 9, 1, 9, 4, 0, 7, 7, 2] {
        heap.push(v);
    }
    let mut previous = None;
    while let Some(v) = heap.pop() {
        if let Some(p) = previous {
            assert!(v <= p);
        }
        previous = Some(v);
    }
}

#[test]
fn peek_returns_greatest_without_removing() {
    let mut heap: StableBinaryHeap<i64> = StableBinaryHeap::new();
    assert!(heap.peek().is_none());
    heap.push(-4);
    heap.push(10);
    heap.push(3);
    assert_eq!(heap.peek(), Some(&10));
    assert_eq!(heap.len(), 3);
    assert_eq!(heap.pop(), Some(10));
    assert_eq!(heap.peek(), Some(&3));
}

#[test]
fn peek_mut_restores_heap_order() {
    let mut heap: StableBinaryHeap<u32> = StableBinaryHeap::new();
    assert!(!heap.peek_mut(|v| v));
    heap.push(5);
    heap.push(1);
    heap.push(4);
    // Shrink the greatest element; a different element must surface.
    assert!(heap.peek_mut(|_v| 0));
    assert_eq!(heap.into_sorted_vec(), vec![4, 1, 0]);
}

#[test]
fn peek_mut_keeps_sequence_number() {
    let mut heap = StableBinaryHeap::new();
    heap.push(UniqueItem::new("first", 5));
    heap.push(UniqueItem::new("second", 5));
    // Rewriting the top's payload keeps its counter, so it still leaves first.
    assert!(heap.peek_mut(|v| UniqueItem::new("rewritten", v.val)));
    let vec = heap.into_sorted_vec();
    assert_eq!(vec[0].item, "rewritten");
    assert_eq!(vec[1].item, "second");
}

#[test]
fn drain_empties_and_keeps_counter() {
    let mut heap: StableBinaryHeap<usize> = StableBinaryHeap::new();
    for v in [2usize, 8, 5] {
        heap.push(v);
    }
    assert_eq!(heap.counter(), 3);
    let mut drained = Vec::new();
    let mut d = heap.drain();
    while let Some(v) = d.next() {
        drained.push(v);
    }
    drained.sort();
    assert_eq!(drained, vec![2, 5, 8]);
    assert!(heap.is_empty());
    assert_eq!(heap.counter(), 3);
}

#[test]
fn clear_resets_like_a_fresh_heap() {
    let mut heap = StableBinaryHeap::new();
    heap.push(UniqueItem::new("x", 2));
    heap.push(UniqueItem::new("y", 2));
    heap.clear();
    assert!(heap.is_empty());
    assert_eq!(heap.counter(), 0);

    let mut fresh = StableBinaryHeap::new();
    for (label, val) in [("p", 1), ("q", 1), ("r", 2), ("s", 1)] {
        heap.push(UniqueItem::new(label, val));
        fresh.push(UniqueItem::new(label, val));
    }
    let replayed: Vec<&str> = heap.into_sorted_vec().into_iter().map(|u| u.item).collect();
    let reference: Vec<&str> = fresh.into_sorted_vec().into_iter().map(|u| u.item).collect();
    assert_eq!(replayed, reference);
    assert_eq!(replayed, vec!["r", "p", "q", "s"]);
}

#[test]
fn retain_keeps_survivors_in_stable_order() {
    let mut heap = StableBinaryHeap::new();
    for (label, val) in [("a", 1), ("b", 1), ("c", 2), ("d", 1), ("e", 2)] {
        heap.push(UniqueItem::new(label, val));
    }
    heap.retain(|u| u.item != "b");
    let out: Vec<&str> = heap.into_sorted_vec().into_iter().map(|u| u.item).collect();
    assert_eq!(out, vec!["c", "e", "a", "d"]);
}

#[test]
fn extend_matches_repeated_push() {
    let values = vec![4usize, 4, 1, 9, 4];
    let mut bulk = StableBinaryHeap::new();
    bulk.extend(values.clone());
    let mut single = StableBinaryHeap::new();
    for v in values {
        single.push(v);
    }
    assert_eq!(bulk.counter(), single.counter());
    assert_eq!(bulk.into_sorted_vec(), single.into_sorted_vec());
}

#[test]
fn into_vec_returns_all_values_unsorted() {
    let mut heap: StableBinaryHeap<u64> = StableBinaryHeap::new();
    for v in [3u64, 1, 2] {
        heap.push(v);
    }
    let mut out = heap.into_vec();
    out.sort();
    assert_eq!(out, vec![1, 2, 3]);
}

#[test]
fn iter_walks_all_values() {
    let mut heap: StableBinaryHeap<i32> = StableBinaryHeap::new();
    for v in [6, -2, 6] {
        heap.push(v);
    }
    let mut seen: Vec<i32> = heap.iter().into_iter().copied().collect();
    seen.sort();
    assert_eq!(seen, vec![-2, 6, 6]);
    assert_eq!(heap.len(), 3);
}

#[test]
fn capacity_management_keeps_contents() {
    let mut heap: StableBinaryHeap<usize> = StableBinaryHeap::with_capacity(16);
    assert!(heap.capacity() >= heap.len());
    for v in 0..10usize {
        heap.push(v);
    }
    heap.reserve(100);
    assert!(heap.capacity() >= heap.len());
    heap.shrink_to(4);
    assert!(heap.capacity() >= heap.len());
    heap.shrink_to_fit();
    assert!(heap.capacity() >= heap.len());
    assert_eq!(heap.into_sorted_vec(), vec![9, 8, 7, 6, 5, 4, 3, 2, 1, 0]);
}

#[test]
fn default_is_an_empty_heap() {
    let mut heap: StableBinaryHeap<usize> = StableBinaryHeap::default();
    assert!(heap.is_empty());
    assert_eq!(heap.counter(), 0);
    heap.push(1);
    assert_eq!(heap.pop(), Some(1));
}

#[test]
fn counter_tracks_insertions_only() {
    let mut heap: StableBinaryHeap<usize> = StableBinaryHeap::new();
    assert_eq!(heap.counter(), 0);
    heap.push(5);
    heap.push(6);
    assert_eq!(heap.counter(), 2);
    heap.pop();
    heap.pop();
    assert_eq!(heap.counter(), 2);
    heap.push(7);
    assert_eq!(heap.counter(), 3);
    heap.clear();
    assert_eq!(heap.counter(), 0);
}

#[test]
fn size_hint_is_exact() {
    let mut heap: StableBinaryHeap<usize> = StableBinaryHeap::new();
    heap.push(1);
    heap.push(2);
    let mut it = heap.into_iter_sorted();
    assert_eq!(it.size_hint(), (2, Some(2)));
    it.next();
    assert_eq!(it.size_hint(), (1, Some(1)));
    it.next();
    assert_eq!(it.size_hint(), (0, Some(0)));
    assert_eq!(it.next(), None);
}

#[test]
fn heap_item_accessors() {
    let mut item = stable_heap::item::HeapItem::new(41usize, 7);
    assert_eq!(*item.inner(), 41);
    *item.inner_mut() += 1;
    assert_eq!(*item.inner(), 42);
    *item.counter_mut() = 9;
    assert_eq!(item.counter, 9);
    assert_eq!(item.into_inner(), 42);
}
