use doodle_core::handle::Handle;
use doodle_core::handle::HandleError;
use doodle_core::handle::HandleTable;
use doodle_core::value::Value;

fn num(n: i64) -> Value {
    Value::Int(n)
}

#[test]
fn intern_and_resolve_round_trip() {
    let mut t = HandleTable::new();
    let a = t.intern(num(10));
    let b = t.intern(num(20));
    assert_ne!(a, b);
    assert_eq!(t.resolve(a).unwrap().as_int(), Some(10));
    assert_eq!(t.resolve(b).unwrap().as_int(), Some(20));
}

#[test]
fn retain_needs_a_matching_release_to_free() {
    let mut t = HandleTable::new();
    let h = t.intern(num(7)); // refs = 1
    t.retain(h).unwrap(); // refs = 2
    t.release(h).unwrap(); // refs = 1 — still live
    assert!(t.resolve(h).is_ok());
    t.release(h).unwrap(); // refs = 0 — freed
    assert_eq!(t.resolve(h).err(), Some(HandleError::Stale));
}

#[test]
fn a_reused_slot_makes_the_old_handle_stale() {
    let mut t = HandleTable::new();
    let old = t.intern(num(1));
    t.release(old).unwrap(); // frees slot 0, bumps its generation
    let new = t.intern(num(2)); // reuses slot 0 under the new generation
    // Same slot index, different generation: the handles are distinct and the
    // stale one is caught on every boundary op.
    assert_ne!(old, new);
    assert_eq!(t.resolve(old).err(), Some(HandleError::Stale));
    assert_eq!(t.retain(old), Err(HandleError::Stale));
    assert_eq!(t.release(old), Err(HandleError::Stale));
    assert_eq!(t.resolve(new).unwrap().as_int(), Some(2));
}

#[test]
fn no_live_handle_encodes_to_zero() {
    // `0` is the reserved null handle at the host boundary, so
    // no *live* handle may pack to `0` — else the first minted handle (slot 0) would read as
    // "no value". The first intern must not be `0`, and a re-used slot 0 must not either.
    let mut t = HandleTable::new();
    let first = t.intern(num(1));
    assert_ne!(
        first.bits(),
        0,
        "the first handle must not collide with the null handle"
    );
    t.release(first).unwrap();
    let reused = t.intern(num(2)); // reuses slot 0 under a bumped generation
    assert_ne!(
        reused.bits(),
        0,
        "a re-used slot 0 must not encode to the null handle"
    );
    // A handle rebuilt from the reserved null bits is stale, never a live value.
    assert_eq!(
        t.resolve(Handle::from_bits(0)).err(),
        Some(HandleError::Stale)
    );
}

#[test]
fn root_values_lists_live_handles_only() {
    let mut t = HandleTable::new();
    let a = t.intern(num(1));
    let _b = t.intern(num(2));
    t.release(a).unwrap();
    let live: Vec<_> = t.root_values().into_iter().filter_map(Value::as_int).collect();
    assert_eq!(live, vec![2]); // `a` was released; only `b` remains a root
}
