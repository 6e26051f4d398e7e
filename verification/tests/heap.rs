use selestial::error::StoreError;
use selestial::heap::{impossible_heap_elem_id, Heap, HeapElemId};

pub struct Owner;

#[test]
fn fresh_handle_reads_as_uninitialized() {
    let mut heap: Heap<Owner, u64> = Heap::new();
    let key = heap.allocate().unwrap();
    assert_eq!(heap.get(&key), Err(StoreError::UninitializedSlot));
    assert!(heap.contains(&key));
}

#[test]
fn written_value_is_read_back() {
    let mut heap: Heap<Owner, u64> = Heap::with_capacity(16);
    let a = heap.allocate().unwrap();
    let b = heap.allocate().unwrap();
    assert_eq!(heap.replace(&a, 11), Ok(()));
    assert_eq!(heap.replace(&b, 22), Ok(()));
    assert_eq!(heap.get(&a), Ok(&11));
    assert_eq!(heap.get(&b), Ok(&22));
    assert_eq!(heap.replace(&a, 33), Ok(()));
    assert_eq!(heap.get(&a), Ok(&33));
    assert_eq!(heap.get(&b), Ok(&22));
}

#[test]
fn handles_of_single_and_batched_allocations_are_distinct() {
    let mut heap: Heap<Owner, u64> = Heap::new();
    let mut keys: Vec<HeapElemId<Owner>> = Vec::new();
    keys.push(heap.allocate().unwrap());
    keys.extend(heap.alloc_n(5).unwrap());
    keys.push(heap.allocate().unwrap());
    heap.free(&keys[2]).unwrap();
    heap.free(&keys[4]).unwrap();
    keys.extend(heap.alloc_n(4).unwrap());
    keys.push(heap.allocate().unwrap());
    assert_eq!(keys.len(), 12);
    for i in 0..keys.len() {
        for j in 0..keys.len() {
            assert_eq!(keys[i] == keys[j], i == j);
        }
    }
}

#[test]
fn read_after_free_is_use_after_free() {
    let mut heap: Heap<Owner, u64> = Heap::new();
    let key = heap.allocate().unwrap();
    heap.replace(&key, 5).unwrap();
    assert_eq!(heap.free(&key), Ok(()));
    assert_eq!(heap.get(&key), Err(StoreError::UseAfterFree));
    assert_eq!(heap.replace(&key, 6), Err(StoreError::UseAfterFree));
    assert_eq!(heap.validate(&key), Err(StoreError::UseAfterFree));
    assert!(!heap.contains(&key));
}

#[test]
fn second_free_is_double_free() {
    let mut heap: Heap<Owner, u64> = Heap::new();
    let key = heap.allocate().unwrap();
    assert_eq!(heap.free(&key), Ok(()));
    assert_eq!(heap.free(&key), Err(StoreError::DoubleFree));
}

#[test]
fn handle_that_was_never_issued_is_invalid() {
    let mut heap: Heap<Owner, u64> = Heap::new();
    let key = heap.allocate().unwrap();
    heap.replace(&key, 1).unwrap();
    let never: HeapElemId<Owner> = impossible_heap_elem_id();
    assert_eq!(heap.get(&never), Err(StoreError::InvalidHandle));
    assert_eq!(heap.replace(&never, 2), Err(StoreError::InvalidHandle));
    assert_eq!(heap.free(&never), Err(StoreError::InvalidHandle));
    assert_eq!(heap.get(&key), Ok(&1));
}

#[test]
fn handle_of_an_empty_heap_is_invalid() {
    let heap: Heap<Owner, u64> = Heap::new();
    let key: HeapElemId<Owner> = HeapElemId::default();
    assert_eq!(heap.get(&key), Err(StoreError::InvalidHandle));
}

#[test]
fn reused_slot_is_reached_by_the_new_handle_only() {
    let mut heap: Heap<Owner, u64> = Heap::new();
    let h0 = heap.allocate().unwrap();
    let h1 = heap.allocate().unwrap();
    heap.replace(&h0, 10).unwrap();
    heap.replace(&h1, 20).unwrap();
    heap.free(&h1).unwrap();
    let h2 = heap.allocate().unwrap();
    assert!(h1 != h2);
    assert_eq!(heap.get(&h1), Err(StoreError::UseAfterFree));
    assert_eq!(heap.get(&h2), Err(StoreError::UninitializedSlot));
    heap.replace(&h2, 30).unwrap();
    assert_eq!(heap.get(&h2), Ok(&30));
    assert_eq!(heap.get(&h1), Err(StoreError::UseAfterFree));
    assert_eq!(heap.get(&h0), Ok(&10));
    // three handles were issued, two slots exist: the next handle takes a third
    let h3 = heap.allocate().unwrap();
    heap.replace(&h3, 40).unwrap();
    assert_eq!(heap.get(&h2), Ok(&30));
    assert_eq!(heap.get(&h3), Ok(&40));
}

#[test]
fn slot_freed_last_is_reused_first() {
    let mut heap: Heap<Owner, u64> = Heap::new();
    let keys = heap.alloc_n(3).unwrap();
    for (i, key) in keys.iter().enumerate() {
        heap.replace(key, i as u64).unwrap();
    }
    heap.free(&keys[0]).unwrap();
    heap.free(&keys[2]).unwrap();
    let a = heap.allocate().unwrap();
    heap.replace(&a, 100).unwrap();
    let b = heap.allocate().unwrap();
    heap.replace(&b, 200).unwrap();
    // a took the slot of keys[2], b that of keys[0]; keys[1] is untouched
    assert_eq!(heap.get(&keys[1]), Ok(&1));
    assert_eq!(heap.get(&a), Ok(&100));
    assert_eq!(heap.get(&b), Ok(&200));
    assert_eq!(heap.get(&keys[0]), Err(StoreError::UseAfterFree));
    assert_eq!(heap.get(&keys[2]), Err(StoreError::UseAfterFree));
}

#[test]
fn batch_then_writes_equals_single_allocations() {
    let values = [7u64, 8, 9, 10];
    let mut batched: Heap<Owner, u64> = Heap::new();
    let mut single: Heap<Owner, u64> = Heap::new();
    // the same history before: two handles, one of them freed
    for heap in [&mut batched, &mut single] {
        let a = heap.allocate().unwrap();
        let b = heap.allocate().unwrap();
        heap.replace(&a, 1).unwrap();
        heap.replace(&b, 2).unwrap();
        heap.free(&a).unwrap();
    }
    let batch_keys = batched.alloc_n(values.len()).unwrap();
    for (key, value) in batch_keys.iter().zip(values) {
        batched.replace(key, value).unwrap();
    }
    let mut single_keys = Vec::new();
    for value in values {
        let key = single.allocate().unwrap();
        single.replace(&key, value).unwrap();
        single_keys.push(key);
    }
    assert_eq!(batch_keys.len(), values.len());
    for i in 0..values.len() {
        assert!(batch_keys[i] == single_keys[i]);
        assert_eq!(batched.get(&batch_keys[i]), Ok(&values[i]));
        assert_eq!(single.get(&batch_keys[i]), Ok(&values[i]));
        assert_eq!(batched.get(&single_keys[i]), single.get(&single_keys[i]));
    }
    assert_eq!(batched.ids_left(), single.ids_left());
}

#[test]
fn empty_batch_changes_nothing() {
    let mut heap: Heap<Owner, u64> = Heap::new();
    let before = heap.ids_left();
    assert!(heap.alloc_n(0).unwrap().is_empty());
    assert_eq!(heap.ids_left(), before);
}

#[test]
fn batch_larger_than_the_identifiers_left_is_refused() {
    let mut heap: Heap<Owner, u64> = Heap::new();
    let key = heap.allocate().unwrap();
    heap.replace(&key, 3).unwrap();
    assert_eq!(heap.ids_left(), usize::MAX - 1);
    assert!(matches!(heap.alloc_n(usize::MAX), Err(StoreError::Exhausted)));
    assert_eq!(heap.ids_left(), usize::MAX - 1);
    assert_eq!(heap.get(&key), Ok(&3));
    // still usable
    let next = heap.allocate().unwrap();
    assert!(next != key);
}

#[test]
fn impossible_handle_differs_from_issued_ones() {
    let mut heap: Heap<Owner, u64> = Heap::new();
    let never: HeapElemId<Owner> = impossible_heap_elem_id();
    for key in heap.alloc_n(10).unwrap() {
        assert!(key != never);
    }
}

#[test]
fn handle_of_another_heap_that_names_another_slot_is_invalid() {
    let mut first: Heap<Owner, u64> = Heap::new();
    let mut second: Heap<Owner, u64> = Heap::new();
    // in the first heap the identifier 1 is bound to the slot 1
    let _a = first.allocate().unwrap();
    let b = first.allocate().unwrap();
    first.replace(&b, 5).unwrap();
    // in the second heap the identifier 1 is bound to the slot 0
    let c = second.allocate().unwrap();
    second.free(&c).unwrap();
    let d = second.allocate().unwrap();
    second.replace(&d, 9).unwrap();
    assert!(b == d);
    assert_eq!(second.get(&b), Err(StoreError::InvalidHandle));
    assert_eq!(second.replace(&b, 1), Err(StoreError::InvalidHandle));
    assert_eq!(second.free(&b), Err(StoreError::InvalidHandle));
    assert_eq!(second.get(&d), Ok(&9));
    assert_eq!(first.get(&d), Err(StoreError::InvalidHandle));
    assert_eq!(first.get(&b), Ok(&5));
}

#[test]
fn identifiers_count_up_from_zero() {
    let mut heap: Heap<Owner, u64> = Heap::new();
    let a = heap.allocate().unwrap();
    let batch = heap.alloc_n(3).unwrap();
    heap.free(&a).unwrap();
    let b = heap.allocate().unwrap();
    assert_eq!(a.id(), 0);
    assert_eq!(batch.iter().map(|key| key.id()).collect::<Vec<_>>(), vec![1, 2, 3]);
    assert_eq!(b.id(), 4);
    let never: HeapElemId<Owner> = impossible_heap_elem_id();
    assert_eq!(never.id(), usize::MAX);
}
