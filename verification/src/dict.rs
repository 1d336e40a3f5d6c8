//! Dicts: insertion-ordered storage of values under hashed keys. The first key of a run of
//! equal ones is the one kept; keys and values are copied for binding when stored.
use crate::compare::equal;
use crate::compare::same;
use crate::error::Raise;
use crate::hash::hashable;
use crate::hash::key_hash;
use crate::hash::native_key_hash;
use crate::hash::unhashable_raise;
use crate::heap::replaced;
use crate::heap::DictView;
use crate::heap::Heap;
use crate::heap::HeapView;
use crate::record::copied;
use crate::record::copy_on_bind;
use crate::span::Span;
use crate::value::DictIdx;
use crate::value::Value;
use vstd::prelude::*;

verus! {

/// The first entry, from a position on, stored under a hash with a key equal to a given
/// one.
pub open spec fn entry_position(
    h: HeapView,
    d: DictView,
    key: Value,
    hash: u64,
    from: nat,
) -> Option<nat>
    decreases d.entries.len() - from,
{
    if from >= d.entries.len() || from >= d.hashes.len() {
        None
    } else if d.hashes[from as int] == hash && same(h, d.entries[from as int].0, key) {
        Some(from)
    } else {
        entry_position(h, d, key, hash, from + 1)
    }
}

/// The value stored under a key and its hash.
pub open spec fn stored(h: HeapView, idx: DictIdx, key: Value, hash: u64) -> Option<Value> {
    match entry_position(h, h.dict(idx), key, hash, 0) {
        Some(p) => Some(h.dict(idx).entries[p as int].1),
        None => None,
    }
}

/// The heap with the value of a dict's entry overwritten.
pub open spec fn overwritten(h: HeapView, idx: DictIdx, p: nat, value: Value) -> HeapView {
    HeapView {
        dicts: replaced(
            h.dicts,
            idx.0 as int,
            DictView {
                entries: h.dict(idx).entries.update(
                    p as int,
                    (h.dict(idx).entries[p as int].0, value),
                ),
                hashes: h.dict(idx).hashes,
            },
        ),
        ..h
    }
}

/// The heap with an entry appended to a dict.
pub open spec fn appended(
    h: HeapView,
    idx: DictIdx,
    key: Value,
    value: Value,
    hash: u64,
) -> HeapView {
    HeapView {
        dicts: replaced(
            h.dicts,
            idx.0 as int,
            DictView {
                entries: h.dict(idx).entries.push((key, value)),
                hashes: h.dict(idx).hashes.push(hash),
            },
        ),
        ..h
    }
}

/// The heap after storing a value under a key and its hash: an equal key keeps its place
/// and its spelling, a new one is appended.
pub open spec fn inserted(h: HeapView, idx: DictIdx, key: Value, value: Value, hash: u64) -> HeapView {
    let (with_value, copy) = copied(h, value);
    match entry_position(with_value, with_value.dict(idx), key, hash, 0) {
        Some(p) => overwritten(with_value, idx, p, copy),
        None => {
            let (with_key, key_copy) = copied(with_value, key);
            appended(with_key, idx, key_copy, copy, hash)
        },
    }
}

/// The entry stored under a hash with an equal key.
pub fn find(heap: &Heap, idx: DictIdx, key: Value, hash: u64) -> (r: Option<usize>)
    ensures
        (match r {
            Some(p) => entry_position(heap@, heap@.dict(idx), key, hash, 0) == Some(p as nat)
                && p < heap@.dict(idx).entries.len(),
            None => entry_position(heap@, heap@.dict(idx), key, hash, 0) is None,
        }),
{
    match heap.dict(idx) {
        None => None,
        Some(d) => {
            let mut p: usize = 0;
            while p < d.entries.len() && p < d.hashes.len()
                invariant
                    p <= d.entries@.len(),
                    p <= d.hashes@.len(),
                    d@ == heap@.dict(idx),
                    entry_position(heap@, d@, key, hash, 0) == entry_position(
                        heap@,
                        d@,
                        key,
                        hash,
                        p as nat,
                    ),
                decreases d.entries@.len() - p,
            {
                if d.hashes[p] == hash && equal(d.entries[p].0, key, heap) {
                    return Some(p);
                }
                p = p + 1;
            }
            None
        },
    }
}

/// Stores a value under a key; a value that may not be a key raises.
pub fn insert(heap: &mut Heap, idx: DictIdx, key: Value, value: Value, span: Span) -> (r: Result<
    (),
    Raise,
>)
    ensures
        r is Ok <==> hashable(old(heap)@, key),
        r is Ok ==> final(heap)@ == inserted(
            old(heap)@,
            idx,
            key,
            value,
            key_hash(old(heap)@, key),
        ),
        r is Err ==> final(heap)@ == old(heap)@ && r->Err_0@ == unhashable_raise(
            old(heap)@,
            key,
            span,
        ),
{
    match native_key_hash(key, heap, span) {
        Ok(hash) => {
            insert_with_hash(heap, idx, key, value, hash);
            Ok(())
        },
        Err(e) => Err(e),
    }
}

/// Stores a value under a key whose hash is known.
pub fn insert_with_hash(heap: &mut Heap, idx: DictIdx, key: Value, value: Value, hash: u64)
    ensures
        final(heap)@ == inserted(old(heap)@, idx, key, value, hash),
{
    let value = copy_on_bind(value, heap);
    match find(heap, idx, key, hash) {
        Some(p) => heap.dict_set_value(idx, p, value),
        None => {
            let key = copy_on_bind(key, heap);
            heap.dict_push_entry(idx, key, value, hash);
        },
    }
}

/// The value stored under a key; a value that may not be a key raises.
pub fn get(heap: &Heap, idx: DictIdx, key: Value, span: Span) -> (r: Result<Option<Value>, Raise>)
    ensures
        r is Ok <==> hashable(heap@, key),
        r is Ok ==> r->Ok_0 == stored(heap@, idx, key, key_hash(heap@, key)),
        r is Err ==> r->Err_0@ == unhashable_raise(heap@, key, span),
{
    match native_key_hash(key, heap, span) {
        Ok(hash) => Ok(get_with_hash(heap, idx, key, hash)),
        Err(e) => Err(e),
    }
}

/// The value stored under a key whose hash is known.
pub fn get_with_hash(heap: &Heap, idx: DictIdx, key: Value, hash: u64) -> (r: Option<Value>)
    ensures
        r == stored(heap@, idx, key, hash),
{
    match find(heap, idx, key, hash) {
        Some(p) => match heap.dict(idx) {
            Some(d) => Some(d.entries[p].1),
            None => None,
        },
        None => None,
    }
}

} // verus!
