use stable_heap::order::UniqueItem;
use stable_heap::StableBinaryHeap;

/// Deterministic pseudo-random data, seeded by the requested length. The
/// values are kept within `u32` range so that a `UniqueItem` priority cast
/// never conflates distinct values.
fn generate_data(inp_len: usize) -> Vec<usize> {
    let mut state: u64 = 0x9E37_79B9_7F4A_7C15 ^ (inp_len as u64);
    let mut input = vec![0usize; inp_len];
    for slot in input.iter_mut() {
        state ^= state << 13;
        state ^= state >> 7;
        state ^= state << 17;
        *slot = (state >> 32) as usize;
    }
    input
}

fn make_test(inp_len: usize) {
    let input = generate_data(inp_len);

    let mut expected = input.clone();
    expected.sort_by(|a, b| a.cmp(&b).reverse());

    let mut stable_heap = StableBinaryHeap::new();
    stable_heap.extend(input);

    let mut it = stable_heap.into_iter_sorted();
    let mut out = Vec::new();
    while let Some(x) = it.next() {
        out.push(x);
    }

    assert_eq!(out, expected);
}

#[test]
fn test_heap_functionality() {
    for inp_len in (1..9000).step_by(51) {
        make_test(inp_len);
    }
}

#[test]
fn test_stability_same() {
    let mut heap = StableBinaryHeap::new();

    for i in 0..1000 {
        heap.push(UniqueItem::new(i, 0));
    }

    let vec = heap.into_sorted_vec();
    for i in 0..1000 {
        assert_eq!(vec[i].item, i as usize);
    }
}

#[test]
fn test_stability_simple() {
    let mut heap = StableBinaryHeap::new();

    heap.push(UniqueItem::new("9", 3));
    heap.push(UniqueItem::new("8", 2));
    heap.push(UniqueItem::new("7", 2));
    heap.push(UniqueItem::new("a", 1));
    heap.push(UniqueItem::new("b", 1));
    heap.push(UniqueItem::new("c", 1));
    heap.push(UniqueItem::new("d", 1));
    heap.push(UniqueItem::new("e", 0));

    let mut it = heap.into_iter_sorted();
    let mut out = Vec::new();
    while let Some(i) = it.next() {
        out.push(i.item);
    }
    assert_eq!(out, vec!["9", "8", "7", "a", "b", "c", "d", "e"]);
}

#[test]
fn test_stability_full() {
    for inp_len in (1..10000).step_by(71) {
        new_stability_test(inp_len);
    }
}

#[test]
fn test_retain() {
    let mut heap = StableBinaryHeap::new();
    for i in 0..=5 {
        heap.push(i);
    }

    heap.retain(|i| *i != 2);

    assert_eq!(heap.into_sorted_vec(), vec![5, 4, 3, 1, 0]);
}

fn new_stability_test(inp_len: usize) {
    if inp_len == 0 {
        return;
    }

    let mut heap = StableBinaryHeap::new();

    let data_iter: Vec<_> = generate_data(inp_len)
        .into_iter()
        .map(|i| UniqueItem::new(i.to_string(), i as u32))
        .collect();
    heap.extend(data_iter.clone());

    let mut dups = vec![];

    for i in (0..inp_len / 11).step_by(11) {
        let item = &data_iter[i];
        let name = format!("{}_", item.item);
        let new_item = UniqueItem::new(name, item.val);
        dups.push(new_item.clone());
        heap.push(new_item);
    }

    let sorted = heap.into_sorted_vec();
    let mut last = &sorted[0];
    for i in sorted.iter().skip(1) {
        if i.item.ends_with('_') {
            let mut prev_namae = i.item.clone();
            prev_namae.pop();
            assert_eq!(last.item, prev_namae);
        }

        last = &i;
    }
}
