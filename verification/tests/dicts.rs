use doodle_core::dict::get;
use doodle_core::dict::insert;
use doodle_core::heap::Heap;
use doodle_core::span::Span;
use doodle_core::value::Value;

const S: Span = Span { start: 0, end: 0 };

fn flt(x: f64) -> Value {
    Value::Float(x.to_bits())
}

fn as_int(v: Option<Value>) -> Option<i64> {
    match v {
        Some(Value::Int(n)) => Some(n),
        _ => None,
    }
}

fn collect(heap: &mut Heap, roots: Vec<Value>) {
    let dead = heap.collect(doodle_core::collect::refs_of_values(&roots));
    assert!(dead.is_empty());
}

#[test]
fn dict_insert_get_first_key_wins_and_cross_kind() {
    let mut heap = Heap::new();
    let d = heap.alloc_dict();
    let one = Value::Int(1);
    insert(&mut heap, d, one, Value::Int(10), S).unwrap();
    assert_eq!(as_int(get(&heap, d, one, S).unwrap()), Some(10));
    // A cross-kind-equal key finds the same entry (1 equals 1.0).
    assert_eq!(
        as_int(get(&heap, d, flt(1.0), S).unwrap()),
        Some(10)
    );
    // First-key-wins: re-inserting via `1.0` updates the value but keeps the `Int(1)` key.
    insert(&mut heap, d, flt(1.0), Value::Int(99), S).unwrap();
    assert_eq!(heap.dict(d).unwrap().entries.len(), 1, "still one entry");
    assert!(
        matches!(heap.dict(d).unwrap().entries[0].0, Value::Int(1)),
        "the first key is kept"
    );
    assert_eq!(as_int(get(&heap, d, one, S).unwrap()), Some(99));
    // A missing key is a clean `None`, not a raise.
    assert!(get(&heap, d, Value::Int(2), S).unwrap().is_none());
}

#[test]
fn dict_a_non_hashable_key_raises_on_both_insert_and_get() {
    let mut heap = Heap::new();
    let d = heap.alloc_dict();
    let list = Value::List(heap.alloc_list(vec![]));
    assert!(insert(&mut heap, d, list, Value::Nil, S).is_err());
    assert!(get(&heap, d, list, S).is_err());
}

#[test]
fn dict_gc_traces_a_reachable_dicts_keys_and_values() {
    let mut heap = Heap::new();
    let d = heap.alloc_dict();
    let key = Value::Str(heap.alloc_string("k".to_string()));
    let val = Value::List(heap.alloc_list(vec![Value::Int(7)]));
    insert(&mut heap, d, key, val, S).unwrap();
    let before = heap.live_objects();
    // With the dict as the only root, its key (a string) and value (a list) survive
    // because the dict scan reaches them.
    collect(&mut heap, vec![Value::Dict(d)]);
    assert_eq!(
        heap.live_objects(),
        before,
        "dict, key, and value all survive"
    );
    assert!(
        get(&heap, d, key, S).unwrap().is_some(),
        "the entry is still found"
    );
    // With no root, everything is reclaimed.
    collect(&mut heap, vec![]);
    assert_eq!(heap.live_objects(), 0);
}

#[test]
fn mod_insert_get_first_key_wins_and_cross_kind() {
    let mut heap = Heap::new();
    let d = heap.alloc_dict();
    let one = Value::Int(1);
    insert(&mut heap, d, one, Value::Int(10), S).unwrap();
    assert_eq!(as_int(get(&heap, d, one, S).unwrap()), Some(10));
    // A cross-kind-equal key finds the same entry (1 equals 1.0).
    assert_eq!(
        as_int(get(&heap, d, flt(1.0), S).unwrap()),
        Some(10)
    );
    // First-key-wins: re-inserting via `1.0` updates the value but keeps the `Int(1)` key.
    insert(&mut heap, d, flt(1.0), Value::Int(99), S).unwrap();
    assert_eq!(heap.dict(d).unwrap().entries.len(), 1, "still one entry");
    assert!(
        matches!(heap.dict(d).unwrap().entries[0].0, Value::Int(1)),
        "the first key is kept"
    );
    assert_eq!(as_int(get(&heap, d, one, S).unwrap()), Some(99));
    // A missing key is a clean `None`, not a raise.
    assert!(get(&heap, d, Value::Int(2), S).unwrap().is_none());
}

#[test]
fn mod_a_non_hashable_key_raises_on_both_insert_and_get() {
    let mut heap = Heap::new();
    let d = heap.alloc_dict();
    let list = Value::List(heap.alloc_list(vec![]));
    assert!(insert(&mut heap, d, list, Value::Nil, S).is_err());
    assert!(get(&heap, d, list, S).is_err());
}

#[test]
fn mod_gc_traces_a_reachable_dicts_keys_and_values() {
    let mut heap = Heap::new();
    let d = heap.alloc_dict();
    let key = Value::Str(heap.alloc_string("k".to_string()));
    let val = Value::List(heap.alloc_list(vec![Value::Int(7)]));
    insert(&mut heap, d, key, val, S).unwrap();
    let before = heap.live_objects();
    // With the dict as the only root, its key (a string) and value (a list) survive
    // because the dict scan reaches them.
    collect(&mut heap, vec![Value::Dict(d)]);
    assert_eq!(
        heap.live_objects(),
        before,
        "dict, key, and value all survive"
    );
    assert!(
        get(&heap, d, key, S).unwrap().is_some(),
        "the entry is still found"
    );
    // With no root, everything is reclaimed.
    collect(&mut heap, vec![]);
    assert_eq!(heap.live_objects(), 0);
}
