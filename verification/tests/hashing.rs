use doodle_core::bignum::BigNum;
use doodle_core::compare;
use doodle_core::hash::check_hashable;
use doodle_core::hash::hash_value;
use doodle_core::heap::Heap;
use doodle_core::heap::RecordType;
use doodle_core::heap::TypeKind;
use doodle_core::number::int_value;
use doodle_core::value::TypeIdx;
use doodle_core::value::Value;

fn flt(x: f64) -> Value {
    Value::Float(x.to_bits())
}

fn num(n: i64, heap: &mut Heap) -> Value {
    int_value(BigNum::parse(&n.to_string()).unwrap(), heap)
}

fn h(v: Value, heap: &Heap) -> u64 {
    hash_value(v, heap)
}

fn is_hashable(v: Value, heap: &Heap) -> bool {
    check_hashable(v, heap).is_ok()
}

/// Values that are equal have one hash.
fn assert_coheres(a: Value, b: Value, heap: &Heap) {
    if compare::equal(a, b, heap) {
        assert_eq!(h(a, heap), h(b, heap), "equal values must hash equal");
    }
}

fn record_type(heap: &mut Heap, name: &str, fields: &[&str], is_ref: bool) -> TypeIdx {
    heap.alloc_type(TypeKind::Record(RecordType {
        name: name.to_string(),
        fields: fields.iter().map(|f| f.to_string()).collect(),
        is_ref,
    }))
}

#[test]
fn numeric_kinds_that_are_equal_hash_equal() {
    let mut heap = Heap::new();
    // 1 and 1.0.
    let one = num(1, &mut heap);
    assert!(compare::equal(one, flt(1.0), &heap));
    assert_coheres(one, flt(1.0), &heap);
    // 0, 0.0, and -0.0 all hash as zero.
    let zero = num(0, &mut heap);
    assert_coheres(zero, flt(0.0), &heap);
    assert_coheres(zero, flt(-0.0), &heap);
    assert_eq!(h(flt(0.0), &heap), h(flt(-0.0), &heap));
    // A large integer-valued float within i64 (`2^60`) hashes like the Int.
    let p60 = num(1i64 << 60, &mut heap);
    assert_coheres(p60, flt((1u64 << 60) as f64), &heap);
    // A bignum beyond i64 (`2^70`) vs the exactly-representable float `2^70`.
    let big = int_value(BigNum::parse("1180591620717411303424").unwrap(), &mut heap);
    let f70 = flt(2f64.powi(70));
    assert!(compare::equal(big, f70, &heap));
    assert_coheres(big, f70, &heap);
    // A non-integer float is not equal to a nearby int, and (as a sanity check)
    // hashes differently.
    let five = num(5, &mut heap);
    assert!(!compare::equal(five, flt(5.5), &heap));
    assert_ne!(h(five, &heap), h(flt(5.5), &heap));
}

#[test]
fn nan_and_infinities() {
    let heap = Heap::new();
    // The canonical NaN equals itself and has one hash.
    let nan = flt(f64::from_bits(0x7ff8_0000_0000_0000));
    assert!(compare::equal(nan, nan, &heap));
    assert_eq!(h(nan, &heap), h(nan, &heap));
    // ±∞ hash consistently and distinctly from each other.
    assert_eq!(
        h(flt(f64::INFINITY), &heap),
        h(flt(f64::INFINITY), &heap)
    );
    assert_ne!(
        h(flt(f64::INFINITY), &heap),
        h(flt(f64::NEG_INFINITY), &heap)
    );
}

#[test]
fn strings_bytes_and_kind_separation() {
    let mut heap = Heap::new();
    let s1 = Value::Str(heap.alloc_string("café".to_string()));
    let s2 = Value::Str(heap.alloc_string("café".to_string()));
    assert_eq!(h(s1, &heap), h(s2, &heap));
    // Same bytes under a different kind must not be forced to collide.
    let b = Value::Bytes(heap.alloc_bytes(vec![0x61, 0x62]));
    let s = Value::Str(heap.alloc_string("ab".to_string()));
    assert_ne!(h(b, &heap), h(s, &heap));
    // Nil / Bool / a numeric zero occupy distinct tags.
    assert_ne!(h(Value::Nil, &heap), h(Value::Bool(false), &heap));
    let zero = num(0, &mut heap);
    assert_ne!(h(Value::Bool(false), &heap), h(zero, &heap));
}

#[test]
fn hashability_of_kinds() {
    let mut heap = Heap::new();
    assert!(is_hashable(Value::Nil, &heap));
    assert!(is_hashable(Value::Bool(true), &heap));
    assert!(is_hashable(Value::Int(3), &heap));
    assert!(is_hashable(flt(1.5), &heap));
    let s = Value::Str(heap.alloc_string("x".to_string()));
    let by = Value::Bytes(heap.alloc_bytes(vec![1]));
    assert!(is_hashable(s, &heap));
    assert!(is_hashable(by, &heap));
    // Lists and dicts are never hashable.
    assert!(!is_hashable(Value::List(heap.alloc_list(vec![])), &heap));
    assert!(!is_hashable(Value::Dict(heap.alloc_dict()), &heap));
}

#[test]
fn record_hashability_follows_value_vs_ref_and_field_content() {
    let mut heap = Heap::new();
    // A value record with all-scalar fields is hashable.
    let point = record_type(&mut heap, "Point", &["x", "y"], false);
    let p = Value::Record(heap.alloc_record(point, vec![Value::Int(1), Value::Int(2)]));
    assert!(is_hashable(p, &heap));

    // A reference record is not hashable, and the message says so.
    let turtle = record_type(&mut heap, "Turtle", &["heading"], true);
    let t = Value::Record(heap.alloc_record(turtle, vec![Value::Int(0)]));
    let err = check_hashable(t, &heap).unwrap_err();
    assert!(
        err.contains("Turtle") && err.contains("reference record"),
        "{err}"
    );

    // A value record with a list field is not hashable; the raise names the field.
    let holder = record_type(&mut heap, "Holder", &["items"], false);
    let list = Value::List(heap.alloc_list(vec![Value::Int(1)]));
    let held = Value::Record(heap.alloc_record(holder, vec![list]));
    let err = check_hashable(held, &heap).unwrap_err();
    assert!(
        err.contains("items"),
        "should name the offending field: {err}"
    );

    // Nesting: a value record whose value-record field holds a list — the message
    // names the deep offending field, not the intermediate one.
    let outer = record_type(&mut heap, "Outer", &["inner"], false);
    let o = Value::Record(heap.alloc_record(outer, vec![held]));
    let err = check_hashable(o, &heap).unwrap_err();
    assert!(err.contains("items"), "should name the deep field: {err}");
}

#[test]
fn value_records_hash_coherently_with_structural_eq() {
    let mut heap = Heap::new();
    let point = record_type(&mut heap, "Point", &["x", "y"], false);
    // Two distinct instances with equal fields are `==` and must hash equal.
    let a = Value::Record(heap.alloc_record(point, vec![Value::Int(1), flt(2.0)]));
    let b = Value::Record(heap.alloc_record(point, vec![Value::Int(1), Value::Int(2)]));
    assert!(compare::equal(a, b, &heap));
    assert_coheres(a, b, &heap);
    // A different field value hashes differently (not required, but expected here).
    let c = Value::Record(heap.alloc_record(point, vec![Value::Int(1), Value::Int(3)]));
    assert!(!compare::equal(a, c, &heap));
}
