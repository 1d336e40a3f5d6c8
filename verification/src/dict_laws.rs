//! What dicts keep: a stored value is read back under every equal key, other keys are left
//! alone, the first of some equal keys is the one kept, and entries stay in the order in
//! which their keys first came.
use crate::compare::agree;
use crate::compare::key_lookup;
use crate::compare::key_position;
use crate::compare::law_same_key_is_equality;
use crate::compare::same;
use crate::dict::entry_position;
use crate::dict::inserted;
use crate::dict::stored;
use crate::hash::canonical_key;
use crate::hash::fields_message;
use crate::hash::hashable;
use crate::hash::hashable_within;
use crate::hash::key_hash;
use crate::hash::key_message;
use crate::hash::law_same_keys_hash_alike;
use crate::hash::same_key;
use crate::heap::at;
use crate::heap::DictView;
use crate::heap::HeapView;
use crate::number::number;
use crate::record::copied;
use crate::record::copied_fields;
use crate::record::copied_on_bind;
use crate::record::copied_within;
use crate::value::DictIdx;
use crate::value::Value;
use vstd::prelude::*;
use vstd::seq_lib::seq_to_set_is_finite;
use vstd::set_lib::lemma_int_range;
use vstd::set_lib::lemma_subset_equality;
use vstd::set_lib::set_int_range;

verus! {

/// Whether a heap is another one with further records, as far as keys can tell.
pub open spec fn grown(h: HeapView, g: HeapView) -> bool {
    &&& g.strings == h.strings
    &&& g.bytes == h.bytes
    &&& g.bigs == h.bigs
    &&& g.types == h.types
    &&& h.records.len() <= g.records.len()
    &&& forall|i: int| 0 <= i < h.records.len() ==> #[trigger] g.records[i] == h.records[i]
}

pub proof fn lemma_hashable_grows(h: HeapView, g: HeapView, v: Value, d: nat, e: nat)
    requires
        grown(h, g),
        d <= e,
        hashable_within(h, v, d),
    ensures
        hashable_within(g, v, e),
    decreases d,
{
    if v is Record {
        let rec = h.record(v->Record_0)->0;
        assert(g.record(v->Record_0) == Some(rec));
        assert(g.schema(rec.type_idx) == h.schema(rec.type_idx));
        assert forall|i: int| 0 <= i < rec.fields.len() implies hashable_within(
            g,
            #[trigger] rec.fields[i],
            (e - 1) as nat,
        ) by {
            lemma_hashable_grows(h, g, rec.fields[i], (d - 1) as nat, (e - 1) as nat);
        }
    }
}

proof fn lemma_same_key_grows(h: HeapView, g: HeapView, a: Value, b: Value, d: nat, e: nat)
    requires
        grown(h, g),
        d <= e,
        hashable_within(h, a, d),
        hashable_within(h, b, d),
    ensures
        same_key(h, a, b, d) == same_key(g, a, b, e),
    decreases d,
{
    assert(number(h, a) == number(g, a));
    assert(number(h, b) == number(g, b));
    if a is Record && b is Record && a != b {
        let r = h.record(a->Record_0)->0;
        let s = h.record(b->Record_0)->0;
        assert(g.record(a->Record_0) == Some(r));
        assert(g.record(b->Record_0) == Some(s));
        assert(d > 0);
        if r.fields.len() == s.fields.len() {
            assert forall|i: int| 0 <= i < r.fields.len() implies same_key(
                h,
                #[trigger] r.fields[i],
                s.fields[i],
                (d - 1) as nat,
            ) == same_key(g, r.fields[i], s.fields[i], (e - 1) as nat) by {
                assert(hashable_within(h, s.fields[i], (d - 1) as nat));
                lemma_same_key_grows(
                    h,
                    g,
                    r.fields[i],
                    s.fields[i],
                    (d - 1) as nat,
                    (e - 1) as nat,
                );
            }
            if same_key(h, a, b, d) {
                assert forall|i: int| 0 <= i < r.fields.len() implies same_key(
                    g,
                    #[trigger] r.fields[i],
                    s.fields[i],
                    (e - 1) as nat,
                ) by {
                    assert(same_key(h, r.fields[i], s.fields[i], (d - 1) as nat));
                }
            }
            if same_key(g, a, b, e) {
                assert forall|i: int| 0 <= i < r.fields.len() implies same_key(
                    h,
                    #[trigger] r.fields[i],
                    s.fields[i],
                    (d - 1) as nat,
                ) by {
                    assert(same_key(g, r.fields[i], s.fields[i], (e - 1) as nat));
                }
            }
        }
    }
}

proof fn lemma_message_grows(h: HeapView, g: HeapView, v: Value, d: nat, e: nat)
    requires
        grown(h, g),
        d <= e,
        hashable_within(h, v, d),
    ensures
        key_message(h, v, d) == key_message(g, v, e),
    decreases d, 1nat, 0nat,
{
    if v is Record {
        let rec = h.record(v->Record_0)->0;
        assert(g.record(v->Record_0) == Some(rec));
        lemma_fields_message_grows(
            h,
            g,
            rec.fields,
            rec.fields.len(),
            (d - 1) as nat,
            (e - 1) as nat,
        );
    }
}

proof fn lemma_fields_message_grows(
    h: HeapView,
    g: HeapView,
    fields: Seq<Value>,
    n: nat,
    d: nat,
    e: nat,
)
    requires
        grown(h, g),
        d <= e,
        n <= fields.len(),
        forall|i: int| 0 <= i < fields.len() ==> hashable_within(h, #[trigger] fields[i], d),
    ensures
        fields_message(h, fields, n, d) == fields_message(g, fields, n, e),
    decreases d, 2nat, n,
{
    if n > 0 {
        lemma_fields_message_grows(h, g, fields, (n - 1) as nat, d, e);
        assert(hashable_within(h, fields[n - 1], d));
        lemma_message_grows(h, g, fields[n - 1], d, e);
    }
}

/// What holds of keys in a heap holds of them in one with further records.
proof fn lemma_keys_grow(h: HeapView, g: HeapView, a: Value, b: Value)
    requires
        grown(h, g),
        hashable(h, a),
        hashable(h, b),
    ensures
        hashable(g, a),
        hashable(g, b),
        same(h, a, b) == same(g, a, b),
        key_hash(h, a) == key_hash(g, a),
{
    let (n, m) = (h.records.len(), g.records.len());
    lemma_hashable_grows(h, g, a, n, m);
    lemma_hashable_grows(h, g, b, n, m);
    lemma_same_key_grows(h, g, a, b, n, m);
    law_same_key_is_equality(h, a, b);
    law_same_key_is_equality(g, a, b);
    lemma_message_grows(h, g, a, n, m);
}

/// Two values that are the same key as a third are the same key.
proof fn lemma_same_key_euclidean(h: HeapView, a: Value, b: Value, c: Value, d: nat)
    requires
        hashable_within(h, a, d),
        hashable_within(h, b, d),
        hashable_within(h, c, d),
        same_key(h, a, b, d),
        same_key(h, a, c, d),
    ensures
        same_key(h, b, c, d),
    decreases d,
{
    if a is Record && b is Record && c is Record && b != c {
        let r = h.record(a->Record_0)->0;
        let s = h.record(b->Record_0)->0;
        let t = h.record(c->Record_0)->0;
        assert(d > 0);
        assert(s.type_idx == t.type_idx && s.fields.len() == t.fields.len());
        assert forall|i: int| 0 <= i < s.fields.len() implies same_key(
            h,
            #[trigger] s.fields[i],
            t.fields[i],
            (d - 1) as nat,
        ) by {
            assert(hashable_within(h, r.fields[i], (d - 1) as nat));
            assert(hashable_within(h, t.fields[i], (d - 1) as nat));
            lemma_same_key_reflexive(h, r.fields[i], (d - 1) as nat);
            assert(a != b ==> same_key(h, r.fields[i], s.fields[i], (d - 1) as nat));
            assert(a != c ==> same_key(h, r.fields[i], t.fields[i], (d - 1) as nat));
            lemma_same_key_euclidean(
                h,
                r.fields[i],
                s.fields[i],
                t.fields[i],
                (d - 1) as nat,
            );
        }
    }
}

proof fn lemma_same_key_reflexive(h: HeapView, a: Value, d: nat)
    ensures
        same_key(h, a, a, d),
{
}

/// Equality of keys is an equivalence: two values equal to a key are equal to each other.
pub proof fn law_keys_equal_to_one_are_equal(h: HeapView, a: Value, b: Value, c: Value)
    requires
        hashable(h, a),
        hashable(h, b),
        hashable(h, c),
        same(h, a, b),
        same(h, a, c),
    ensures
        same(h, b, c),
        same(h, b, a),
{
    let d = h.records.len();
    law_same_key_is_equality(h, a, b);
    law_same_key_is_equality(h, a, c);
    law_same_key_is_equality(h, b, c);
    law_same_key_is_equality(h, b, a);
    lemma_same_key_euclidean(h, a, b, c, d);
    lemma_same_key_reflexive(h, a, d);
    lemma_same_key_euclidean(h, a, b, a, d);
}

/// Copying only adds records.
pub proof fn lemma_copies_grow(h: HeapView, v: Value, depth: nat)
    ensures
        grown(h, copied_within(h, v, depth).0),
        copied_within(h, v, depth).0.dicts == h.dicts,
    decreases depth, 0nat,
{
    if v is Record && depth > 0 && copied_on_bind(h, v->Record_0) {
        let rec = h.record(v->Record_0)->0;
        lemma_field_copies_grow(h, rec.fields, rec.fields.len(), (depth - 1) as nat);
    }
}

pub proof fn lemma_field_copies_grow(h: HeapView, fields: Seq<Value>, n: nat, depth: nat)
    ensures
        grown(h, copied_fields(h, fields, n, depth).0),
        copied_fields(h, fields, n, depth).0.dicts == h.dicts,
    decreases depth, n + 1,
{
    if n > 0 && n <= fields.len() {
        lemma_field_copies_grow(h, fields, (n - 1) as nat, depth);
        let before = copied_fields(h, fields, (n - 1) as nat, depth).0;
        lemma_copies_grow(before, fields[n - 1], depth);
    }
}

/// The copy of a key is the same key.
proof fn lemma_copy_is_same_key(h: HeapView, v: Value, d: nat, e: nat)
    requires
        hashable_within(h, v, d),
        d <= e,
        copied_within(h, v, e).0.records.len() <= usize::MAX,
    ensures
        hashable_within(copied_within(h, v, e).0, copied_within(h, v, e).1, d),
        same_key(copied_within(h, v, e).0, copied_within(h, v, e).1, v, d),
    decreases d, 0nat,
{
    let (g, c) = copied_within(h, v, e);
    lemma_copies_grow(h, v, e);
    if v is Record {
        let rec = h.record(v->Record_0)->0;
        let (after, fields) = copied_fields(h, rec.fields, rec.fields.len(), (e - 1) as nat);
        lemma_field_copies_grow(h, rec.fields, rec.fields.len(), (e - 1) as nat);
        lemma_field_copies_are_same(
            h,
            rec.fields,
            rec.fields.len(),
            (d - 1) as nat,
            (e - 1) as nat,
        );
        assert(g.record(c->Record_0) == Some(
            crate::heap::RecordView { type_idx: rec.type_idx, fields },
        ));
        assert(g.record(v->Record_0) == Some(rec));
        assert(grown(after, g));
        assert forall|i: int| 0 <= i < fields.len() implies hashable_within(
            g,
            #[trigger] fields[i],
            (d - 1) as nat,
        ) && same_key(g, fields[i], rec.fields[i], (d - 1) as nat) by {
            lemma_hashable_grows(after, g, fields[i], (d - 1) as nat, (d - 1) as nat);
            lemma_hashable_grows(h, after, rec.fields[i], (d - 1) as nat, (d - 1) as nat);
            lemma_same_key_grows(
                after,
                g,
                fields[i],
                rec.fields[i],
                (d - 1) as nat,
                (d - 1) as nat,
            );
        }
    }
}

proof fn lemma_field_copies_are_same(h: HeapView, fields: Seq<Value>, n: nat, d: nat, e: nat)
    requires
        d <= e,
        n <= fields.len(),
        forall|i: int| 0 <= i < fields.len() ==> hashable_within(h, #[trigger] fields[i], d),
        copied_fields(h, fields, n, e).0.records.len() <= usize::MAX,
    ensures
        copied_fields(h, fields, n, e).1.len() == n,
        forall|i: int|
            0 <= i < n ==> hashable_within(
                copied_fields(h, fields, n, e).0,
                #[trigger] copied_fields(h, fields, n, e).1[i],
                d,
            ),
        forall|i: int|
            0 <= i < n ==> same_key(
                copied_fields(h, fields, n, e).0,
                #[trigger] copied_fields(h, fields, n, e).1[i],
                fields[i],
                d,
            ),
    decreases d, n + 1,
{
    if n > 0 {
        let (before, copies) = copied_fields(h, fields, (n - 1) as nat, e);
        let (g, last) = copied_within(before, fields[n - 1], e);
        lemma_field_copies_grow(h, fields, (n - 1) as nat, e);
        lemma_copies_grow(before, fields[n - 1], e);
        lemma_field_copies_are_same(h, fields, (n - 1) as nat, d, e);
        lemma_hashable_grows(h, before, fields[n - 1], d, d);
        lemma_copy_is_same_key(before, fields[n - 1], d, e);
        assert forall|i: int| 0 <= i < n implies hashable_within(
            g,
            #[trigger] copies.push(last)[i],
            d,
        ) && same_key(g, copies.push(last)[i], fields[i], d) by {
            if i < n - 1 {
                assert(hashable_within(before, copies[i], d));
                assert(same_key(before, copies[i], fields[i], d));
                lemma_hashable_grows(before, g, copies[i], d, d);
                lemma_hashable_grows(h, before, fields[i], d, d);
                lemma_same_key_grows(before, g, copies[i], fields[i], d, d);
            }
        }
    }
}

/// A dict as inserting leaves it: its keys may be keys, each is stored under its hash, and no
/// two of them are equal.
pub open spec fn keyed(h: HeapView, d: DictView) -> bool {
    &&& d.entries.len() == d.hashes.len()
    &&& forall|i: int|
        0 <= i < d.entries.len() ==> {
            &&& hashable(h, (#[trigger] d.entries[i]).0)
            &&& canonical_key(h, d.entries[i].0, h.records.len())
            &&& d.hashes[i] == key_hash(h, d.entries[i].0)
        }
    &&& forall|i: int, j: int|
        0 <= i < j < d.entries.len() ==> !same(
            h,
            (#[trigger] d.entries[i]).0,
            (#[trigger] d.entries[j]).0,
        )
}

/// The place of a key is the first with an equal one.
proof fn lemma_position(h: HeapView, d: DictView, key: Value, from: nat)
    requires
        keyed(h, d),
        hashable(h, key),
        canonical_key(h, key, h.records.len()),
    ensures
        (match entry_position(h, d, key, key_hash(h, key), from) {
            Some(p) => {
                &&& from <= p < d.entries.len()
                &&& same(h, d.entries[p as int].0, key)
            },
            None => forall|i: int|
                from <= i < d.entries.len() ==> !same(h, (#[trigger] d.entries[i]).0, key),
        }),
    decreases d.entries.len() - from,
{
    if from < d.entries.len() {
        let k = d.entries[from as int].0;
        if same(h, k, key) {
            law_same_key_is_equality(h, k, key);
            law_same_keys_hash_alike(h, k, key);
        } else {
            lemma_position(h, d, key, from + 1);
        }
    }
}

/// Whether a key is at a place of a dict, and at no other.
proof fn lemma_position_is(h: HeapView, d: DictView, key: Value, p: int)
    requires
        keyed(h, d),
        hashable(h, key),
        canonical_key(h, key, h.records.len()),
        0 <= p < d.entries.len(),
        same(h, d.entries[p].0, key),
    ensures
        entry_position(h, d, key, key_hash(h, key), 0) == Some(p as nat),
{
    lemma_position(h, d, key, 0);
    let q = entry_position(h, d, key, key_hash(h, key), 0)->0;
    if q != p {
        let (a, b) = (d.entries[q as int].0, d.entries[p].0);
        law_keys_equal_to_one_are_equal(h, a, key, key);
        law_keys_equal_to_one_are_equal(h, b, key, key);
        law_keys_equal_to_one_are_equal(h, key, a, b);
        law_keys_equal_to_one_are_equal(h, key, b, a);
    }
}

proof fn lemma_canonical_grows(h: HeapView, g: HeapView, v: Value, d: nat, e: nat)
    requires
        grown(h, g),
        d <= e,
        hashable_within(h, v, d),
        canonical_key(h, v, d),
    ensures
        canonical_key(g, v, e),
    decreases d,
{
    if v is Record {
        let rec = h.record(v->Record_0)->0;
        assert(g.record(v->Record_0) == Some(rec));
        assert forall|i: int| 0 <= i < rec.fields.len() implies canonical_key(
            g,
            #[trigger] rec.fields[i],
            (e - 1) as nat,
        ) by {
            lemma_canonical_grows(h, g, rec.fields[i], (d - 1) as nat, (e - 1) as nat);
        }
    }
}

/// A dict stays well keyed while records are added.
pub proof fn lemma_keyed_grows(h: HeapView, g: HeapView, d: DictView)
    requires
        grown(h, g),
        keyed(h, d),
    ensures
        keyed(g, d),
{
    assert forall|i: int| 0 <= i < d.entries.len() implies {
        &&& hashable(g, (#[trigger] d.entries[i]).0)
        &&& canonical_key(g, d.entries[i].0, g.records.len())
        &&& d.hashes[i] == key_hash(g, d.entries[i].0)
    } by {
        let k = d.entries[i].0;
        lemma_keys_grow(h, g, k, k);
        lemma_canonical_grows(h, g, k, h.records.len(), g.records.len());
    }
    assert forall|i: int, j: int| 0 <= i < j < d.entries.len() implies !same(
        g,
        (#[trigger] d.entries[i]).0,
        (#[trigger] d.entries[j]).0,
    ) by {
        lemma_keys_grow(h, g, d.entries[i].0, d.entries[j].0);
    }
}

proof fn lemma_copy_is_canonical(h: HeapView, v: Value, d: nat, e: nat)
    requires
        hashable_within(h, v, d),
        canonical_key(h, v, d),
        d <= e,
        copied_within(h, v, e).0.records.len() <= usize::MAX,
    ensures
        canonical_key(copied_within(h, v, e).0, copied_within(h, v, e).1, d),
    decreases d, 0nat,
{
    if v is Record {
        let (g, c) = copied_within(h, v, e);
        let rec = h.record(v->Record_0)->0;
        let (after, fields) = copied_fields(h, rec.fields, rec.fields.len(), (e - 1) as nat);
        lemma_field_copies_are_same(
            h,
            rec.fields,
            rec.fields.len(),
            (d - 1) as nat,
            (e - 1) as nat,
        );
        lemma_field_copies_are_canonical(
            h,
            rec.fields,
            rec.fields.len(),
            (d - 1) as nat,
            (e - 1) as nat,
        );
        assert(grown(after, g));
        assert(g.record(c->Record_0) == Some(
            crate::heap::RecordView { type_idx: rec.type_idx, fields },
        ));
        assert forall|i: int| 0 <= i < fields.len() implies canonical_key(
            g,
            #[trigger] fields[i],
            (d - 1) as nat,
        ) by {
            lemma_canonical_grows(after, g, fields[i], (d - 1) as nat, (d - 1) as nat);
        }
    }
}

proof fn lemma_field_copies_are_canonical(h: HeapView, fields: Seq<Value>, n: nat, d: nat, e: nat)
    requires
        d <= e,
        n <= fields.len(),
        forall|i: int| 0 <= i < fields.len() ==> hashable_within(h, #[trigger] fields[i], d),
        forall|i: int| 0 <= i < fields.len() ==> canonical_key(h, #[trigger] fields[i], d),
        copied_fields(h, fields, n, e).0.records.len() <= usize::MAX,
    ensures
        forall|i: int|
            0 <= i < n ==> canonical_key(
                copied_fields(h, fields, n, e).0,
                #[trigger] copied_fields(h, fields, n, e).1[i],
                d,
            ),
    decreases d, n + 1,
{
    if n > 0 {
        let (before, copies) = copied_fields(h, fields, (n - 1) as nat, e);
        let (g, last) = copied_within(before, fields[n - 1], e);
        lemma_field_copies_grow(h, fields, (n - 1) as nat, e);
        lemma_copies_grow(before, fields[n - 1], e);
        lemma_field_copies_are_same(h, fields, (n - 1) as nat, d, e);
        lemma_field_copies_are_canonical(h, fields, (n - 1) as nat, d, e);
        lemma_hashable_grows(h, before, fields[n - 1], d, d);
        assert(canonical_key(h, fields[n - 1], d));
        lemma_canonical_grows(h, before, fields[n - 1], d, d);
        lemma_copy_is_canonical(before, fields[n - 1], d, e);
        assert forall|i: int| 0 <= i < n implies canonical_key(
            g,
            #[trigger] copies.push(last)[i],
            d,
        ) by {
            if i < n - 1 {
                assert(canonical_key(before, copies[i], d));
                assert(hashable_within(before, copies[i], d));
                lemma_canonical_grows(before, g, copies[i], d, d);
            }
        }
    }
}

/// Whether a value can be stored under a key natively, within what indices can number.
pub open spec fn storable(h: HeapView, idx: DictIdx, key: Value, value: Value) -> bool {
    &&& at(h.dicts, idx.0 as int) is Some
    &&& keyed(h, h.dict(idx))
    &&& hashable(h, key)
    &&& canonical_key(h, key, h.records.len())
    &&& inserted(h, idx, key, value, key_hash(h, key)).records.len() <= usize::MAX
}

/// What storing a value leaves, spelled out: where the key was, its value is new; else the
/// copied key comes last.
proof fn lemma_inserted(h: HeapView, idx: DictIdx, key: Value, value: Value)
    requires
        storable(h, idx, key, value),
    ensures
        ({
            let g = inserted(h, idx, key, value, key_hash(h, key));
            let copy = copied(h, value).1;
            let d = h.dict(idx);
            &&& grown(h, g)
            &&& at(g.dicts, idx.0 as int) is Some
            &&& (match entry_position(h, d, key, key_hash(h, key), 0) {
                Some(p) => {
                    &&& p < d.entries.len()
                    &&& g.dict(idx).hashes == d.hashes
                    &&& g.dict(idx).entries == d.entries.update(
                        p as int,
                        (d.entries[p as int].0, copy),
                    )
                },
                None => exists|k: Value|
                    {
                        &&& #[trigger] hashable(g, k)
                        &&& canonical_key(g, k, g.records.len())
                        &&& same(g, k, key)
                        &&& g.dict(idx).hashes == d.hashes.push(key_hash(h, key))
                        &&& g.dict(idx).entries == d.entries.push((k, copy))
                    },
            })
        }),
{
    let (w, copy) = copied(h, value);
    let d = h.dict(idx);
    let hash = key_hash(h, key);
    lemma_copies_grow(h, value, h.records.len());
    lemma_keyed_grows(h, w, d);
    lemma_keys_grow(h, w, key, key);
    lemma_canonical_grows(h, w, key, h.records.len(), w.records.len());
    lemma_position(h, d, key, 0);
    lemma_position(w, d, key, 0);
    assert(w.dict(idx) == d);
    match entry_position(h, d, key, hash, 0) {
        Some(p) => {
            lemma_keys_grow(h, w, d.entries[p as int].0, key);
            lemma_position_is(w, d, key, p as int);
        },
        None => {
            assert forall|i: int| 0 <= i < d.entries.len() implies !same(
                w,
                (#[trigger] d.entries[i]).0,
                key,
            ) by {
                lemma_keys_grow(h, w, d.entries[i].0, key);
            }
            match entry_position(w, d, key, hash, 0) {
                Some(q) => {
                    assert(!same(w, d.entries[q as int].0, key));
                },
                None => {},
            }
            let (x, k) = copied(w, key);
            let n = w.records.len();
            lemma_copies_grow(w, key, n);
            lemma_copy_is_same_key(w, key, n, n);
            lemma_copy_is_canonical(w, key, n, n);
            lemma_hashable_grows(x, x, k, n, x.records.len());
            lemma_canonical_grows(x, x, k, n, x.records.len());
            lemma_keys_grow(w, x, key, key);
            lemma_hashable_grows(w, x, key, n, n);
            lemma_same_key_grows(x, x, k, key, n, x.records.len());
            law_same_key_is_equality(x, k, key);
            let g = inserted(h, idx, key, value, hash);
            assert(grown(x, g));
            lemma_keys_grow(x, g, k, key);
            lemma_canonical_grows(x, g, k, x.records.len(), g.records.len());
        },
    }
}

/// Storing a value keeps the dict well keyed: the invariant of every dict.
pub proof fn law_dicts_stay_keyed(h: HeapView, idx: DictIdx, key: Value, value: Value)
    requires
        storable(h, idx, key, value),
    ensures
        keyed(
            inserted(h, idx, key, value, key_hash(h, key)),
            inserted(h, idx, key, value, key_hash(h, key)).dict(idx),
        ),
{
    let g = inserted(h, idx, key, value, key_hash(h, key));
    let d = h.dict(idx);
    let e = g.dict(idx);
    lemma_inserted(h, idx, key, value);
    lemma_keyed_grows(h, g, d);
    lemma_position(h, d, key, 0);
    match entry_position(h, d, key, key_hash(h, key), 0) {
        Some(p) => {
            assert forall|i: int| 0 <= i < e.entries.len() implies {
                &&& hashable(g, (#[trigger] e.entries[i]).0)
                &&& canonical_key(g, e.entries[i].0, g.records.len())
                &&& e.hashes[i] == key_hash(g, e.entries[i].0)
            } by {
                assert(e.entries[i].0 == d.entries[i].0);
            }
            assert forall|i: int, j: int| 0 <= i < j < e.entries.len() implies !same(
                g,
                (#[trigger] e.entries[i]).0,
                (#[trigger] e.entries[j]).0,
            ) by {
                assert(e.entries[i].0 == d.entries[i].0);
                assert(e.entries[j].0 == d.entries[j].0);
            }
        },
        None => {
            let k = e.entries.last().0;
            lemma_keys_grow(h, g, key, key);
            law_same_key_is_equality(g, k, key);
            lemma_canonical_grows(h, g, key, h.records.len(), g.records.len());
            law_same_keys_hash_alike(g, k, key);
            assert forall|i: int| 0 <= i < e.entries.len() implies {
                &&& hashable(g, (#[trigger] e.entries[i]).0)
                &&& canonical_key(g, e.entries[i].0, g.records.len())
                &&& e.hashes[i] == key_hash(g, e.entries[i].0)
            } by {
                if i < d.entries.len() {
                    assert(e.entries[i] == d.entries[i]);
                }
            }
            assert forall|i: int, j: int| 0 <= i < j < e.entries.len() implies !same(
                g,
                (#[trigger] e.entries[i]).0,
                (#[trigger] e.entries[j]).0,
            ) by {
                assert(e.entries[i] == d.entries[i]);
                let a = d.entries[i].0;
                if j < d.entries.len() {
                    assert(e.entries[j] == d.entries[j]);
                } else {
                    lemma_keys_grow(h, g, a, key);
                    assert(!same(h, a, key));
                    if same(g, a, k) {
                        law_keys_equal_to_one_are_equal(g, a, k, k);
                        law_keys_equal_to_one_are_equal(g, k, a, key);
                    }
                }
            }
        },
    }
}

/// What is stored under a key is read back under it, and under every key equal to it.
pub proof fn law_dicts_read_back(h: HeapView, idx: DictIdx, key: Value, value: Value, other: Value)
    requires
        storable(h, idx, key, value),
        hashable(h, other),
        canonical_key(h, other, h.records.len()),
        same(h, key, other),
    ensures
        ({
            let g = inserted(h, idx, key, value, key_hash(h, key));
            stored(g, idx, other, key_hash(g, other)) == Some(copied(h, value).1)
        }),
{
    let g = inserted(h, idx, key, value, key_hash(h, key));
    let d = h.dict(idx);
    lemma_inserted(h, idx, key, value);
    law_dicts_stay_keyed(h, idx, key, value);
    lemma_keys_grow(h, g, other, key);
    lemma_keys_grow(h, g, key, other);
    lemma_canonical_grows(h, g, other, h.records.len(), g.records.len());
    lemma_position(h, d, key, 0);
    match entry_position(h, d, key, key_hash(h, key), 0) {
        Some(p) => {
            let k = d.entries[p as int].0;
            lemma_keys_grow(h, g, k, key);
            law_keys_equal_to_one_are_equal(g, k, key, key);
            law_keys_equal_to_one_are_equal(g, key, k, other);
            lemma_position_is(g, g.dict(idx), other, p as int);
        },
        None => {
            let k = g.dict(idx).entries.last().0;
            law_keys_equal_to_one_are_equal(g, k, key, key);
            law_keys_equal_to_one_are_equal(g, key, k, other);
            lemma_position_is(g, g.dict(idx), other, d.entries.len() as int);
        },
    }
}

/// Storing a value under a key leaves what is stored under every other key alone.
pub proof fn law_other_keys_are_left_alone(
    h: HeapView,
    idx: DictIdx,
    key: Value,
    value: Value,
    other: Value,
)
    requires
        storable(h, idx, key, value),
        hashable(h, other),
        canonical_key(h, other, h.records.len()),
        !same(h, key, other),
    ensures
        ({
            let g = inserted(h, idx, key, value, key_hash(h, key));
            stored(g, idx, other, key_hash(g, other)) == stored(h, idx, other, key_hash(h, other))
        }),
{
    let g = inserted(h, idx, key, value, key_hash(h, key));
    let d = h.dict(idx);
    let e = g.dict(idx);
    lemma_inserted(h, idx, key, value);
    law_dicts_stay_keyed(h, idx, key, value);
    lemma_keys_grow(h, g, other, key);
    lemma_keys_grow(h, g, key, other);
    lemma_canonical_grows(h, g, other, h.records.len(), g.records.len());
    lemma_position(h, d, key, 0);
    lemma_position(h, d, other, 0);
    lemma_position(g, e, other, 0);
    match entry_position(h, d, other, key_hash(h, other), 0) {
        Some(q) => {
            let k = d.entries[q as int].0;
            lemma_keys_grow(h, g, k, other);
            assert(e.entries[q as int].0 == k);
            lemma_position_is(g, e, other, q as int);
            match entry_position(h, d, key, key_hash(h, key), 0) {
                Some(p) => {
                    if p == q {
                        law_keys_equal_to_one_are_equal(h, k, key, other);
                    }
                },
                None => {},
            }
        },
        None => {
            match entry_position(g, e, other, key_hash(g, other), 0) {
                Some(q) => {
                    let k = e.entries[q as int].0;
                    if q < d.entries.len() {
                        assert(k == d.entries[q as int].0);
                        lemma_keys_grow(h, g, k, other);
                        assert(!same(h, k, other));
                    } else {
                        law_keys_equal_to_one_are_equal(g, k, key, other);
                    }
                },
                None => {},
            }
        },
    }
}

/// The first of some equal keys is the one kept: storing under a key that is there already
/// changes no key and no place.
pub proof fn law_the_first_key_wins(h: HeapView, idx: DictIdx, key: Value, value: Value, i: int)
    requires
        storable(h, idx, key, value),
        0 <= i < h.dict(idx).entries.len(),
    ensures
        inserted(h, idx, key, value, key_hash(h, key)).dict(idx).entries[i].0 == h.dict(
            idx,
        ).entries[i].0,
        stored(h, idx, key, key_hash(h, key)) is Some ==> inserted(
            h,
            idx,
            key,
            value,
            key_hash(h, key),
        ).dict(idx).entries.len() == h.dict(idx).entries.len(),
        stored(h, idx, key, key_hash(h, key)) is None ==> inserted(
            h,
            idx,
            key,
            value,
            key_hash(h, key),
        ).dict(idx).entries.len() == h.dict(idx).entries.len() + 1,
{
    lemma_inserted(h, idx, key, value);
}

/// A value that is the same key as one that may be a key may be one too.
proof fn lemma_same_key_is_hashable(h: HeapView, a: Value, b: Value, d: nat)
    requires
        hashable_within(h, a, d),
        same_key(h, b, a, d),
    ensures
        hashable_within(h, b, d),
    decreases d,
{
    if a is Record && b is Record && a != b {
        let r = h.record(a->Record_0)->0;
        let s = h.record(b->Record_0)->0;
        assert(d > 0);
        assert forall|i: int| 0 <= i < s.fields.len() implies hashable_within(
            h,
            #[trigger] s.fields[i],
            (d - 1) as nat,
        ) by {
            assert(hashable_within(h, r.fields[i], (d - 1) as nat));
            lemma_same_key_is_hashable(h, r.fields[i], s.fields[i], (d - 1) as nat);
        }
    }
}

/// A dict as far as its natively hashed keys go: each is stored under its hash, and no two of
/// them are equal.
pub open spec fn natively_keyed(h: HeapView, d: DictView) -> bool {
    &&& d.entries.len() == d.hashes.len()
    &&& forall|i: int|
        0 <= i < d.entries.len() && hashable(h, (#[trigger] d.entries[i]).0) ==> {
            &&& canonical_key(h, d.entries[i].0, h.records.len())
            &&& d.hashes[i] == key_hash(h, d.entries[i].0)
        }
    &&& forall|i: int, j: int|
        0 <= i < j < d.entries.len() && hashable(h, d.entries[i].0) && hashable(
            h,
            d.entries[j].0,
        ) ==> !same(h, (#[trigger] d.entries[i]).0, (#[trigger] d.entries[j]).0)
}

/// Where a natively hashed key is found, the entry holds it; where it is not, no entry does.
proof fn lemma_key_position(h: HeapView, d: DictView, key: Value, from: nat)
    requires
        natively_keyed(h, d),
        hashable(h, key),
        canonical_key(h, key, h.records.len()),
    ensures
        (match key_position(h, d, key, from) {
            Some(p) => {
                &&& from <= p < d.entries.len()
                &&& hashable(h, d.entries[p as int].0)
                &&& same(h, d.entries[p as int].0, key)
            },
            None => forall|i: int|
                from <= i < d.entries.len() && hashable(h, (#[trigger] d.entries[i]).0) ==> !same(
                    h,
                    d.entries[i].0,
                    key,
                ),
        }),
    decreases d.entries.len() - from,
{
    if from < d.entries.len() {
        let k = d.entries[from as int].0;
        let n = h.records.len();
        if same_key(h, k, key, n) {
            lemma_same_key_is_hashable(h, key, k, n);
            law_same_key_is_equality(h, k, key);
            law_same_keys_hash_alike(h, k, key);
        } else {
            if hashable(h, k) {
                law_same_key_is_equality(h, k, key);
            }
            lemma_key_position(h, d, key, from + 1);
        }
    }
}

/// As many different places as there are is every place.
proof fn lemma_every_place(places: Seq<int>, j: int) -> (i: int)
    requires
        places.no_duplicates(),
        forall|i: int| 0 <= i < places.len() ==> 0 <= #[trigger] places[i] < places.len(),
        0 <= j < places.len(),
    ensures
        0 <= i < places.len(),
        places[i] == j,
{
    let n = places.len() as int;
    places.unique_seq_to_set();
    seq_to_set_is_finite(places);
    lemma_int_range(0, n);
    assert(places.to_set().subset_of(set_int_range(0, n)));
    lemma_subset_equality(places.to_set(), set_int_range(0, n));
    assert(places.to_set().contains(j));
    choose|i: int| 0 <= i < places.len() && places[i] == j
}

proof fn lemma_dicts_agree_symmetric(h: HeapView, k: nat, x: DictIdx, y: DictIdx, j: int) -> (i: int)
    requires
        forall|idx: DictIdx| natively_keyed(h, #[trigger] h.dict(idx)),
        x != y,
        k > 0,
        agree(h, k, Value::Dict(x), Value::Dict(y)),
        0 <= j < h.dict(y).entries.len(),
    ensures
        0 <= i < h.dict(x).entries.len(),
        key_lookup(h, h.dict(x), h.dict(y).entries[j].0) == Some(i as nat),
        agree(h, (k - 1) as nat, h.dict(x).entries[i].1, h.dict(y).entries[j].1),
{
    let (d, e) = (h.dict(x), h.dict(y));
    let places = Seq::new(
        d.entries.len(),
        |i: int| key_lookup(h, e, d.entries[i].0)->0 as int,
    );
    assert forall|i: int| 0 <= i < d.entries.len() implies {
        &&& hashable(h, (#[trigger] d.entries[i]).0)
        &&& 0 <= places[i] < e.entries.len()
        &&& hashable(h, e.entries[places[i]].0)
        &&& same(h, e.entries[places[i]].0, d.entries[i].0)
    } by {
        assert(key_lookup(h, e, d.entries[i].0) is Some);
        lemma_key_position(h, e, d.entries[i].0, 0);
    }
    assert forall|i: int, l: int|
        0 <= i < places.len() && 0 <= l < places.len() && i != l implies places[i] != places[l] by {
        let (a, b) = (d.entries[i].0, d.entries[l].0);
        if places[i] == places[l] {
            let c = e.entries[places[i]].0;
            law_keys_equal_to_one_are_equal(h, c, a, b);
            law_keys_equal_to_one_are_equal(h, c, b, a);
        }
    }
    assert forall|i: int| 0 <= i < places.len() implies 0 <= #[trigger] places[i]
        < places.len() by {
        assert(hashable(h, d.entries[i].0));
    }
    let i = lemma_every_place(places, j);
    let (a, b) = (d.entries[i].0, e.entries[j].0);
    assert(hashable(h, a) && hashable(h, b) && same(h, b, a));
    law_keys_equal_to_one_are_equal(h, b, a, a);
    lemma_key_position(h, d, b, 0);
    match key_position(h, d, b, 0) {
        Some(p) => {
            if p != i {
                let c = d.entries[p as int].0;
                law_keys_equal_to_one_are_equal(h, c, b, b);
                law_keys_equal_to_one_are_equal(h, b, a, c);
                law_keys_equal_to_one_are_equal(h, b, c, a);
            }
        },
        None => {},
    }
    i
}

proof fn lemma_agree_symmetric(h: HeapView, k: nat, a: Value, b: Value)
    requires
        forall|idx: DictIdx| natively_keyed(h, #[trigger] h.dict(idx)),
        agree(h, k, a, b),
    ensures
        agree(h, k, b, a),
    decreases k,
{
    if k > 0 && a != b {
        match (a, b) {
            (Value::List(x), Value::List(y)) => {
                assert forall|i: int| 0 <= i < h.items(y).len() implies agree(
                    h,
                    (k - 1) as nat,
                    #[trigger] h.items(y)[i],
                    h.items(x)[i],
                ) by {
                    lemma_agree_symmetric(h, (k - 1) as nat, h.items(x)[i], h.items(y)[i]);
                }
            },
            (Value::Record(x), Value::Record(y)) => {
                let (r, s) = (h.record(x)->0, h.record(y)->0);
                assert forall|i: int| 0 <= i < s.fields.len() implies agree(
                    h,
                    (k - 1) as nat,
                    #[trigger] s.fields[i],
                    r.fields[i],
                ) by {
                    lemma_agree_symmetric(h, (k - 1) as nat, r.fields[i], s.fields[i]);
                }
            },
            (Value::Dict(x), Value::Dict(y)) => {
                assert forall|j: int| 0 <= j < h.dict(y).entries.len() implies (match key_lookup(
                    h,
                    h.dict(x),
                    (#[trigger] h.dict(y).entries[j]).0,
                ) {
                    Some(i) => agree(
                        h,
                        (k - 1) as nat,
                        h.dict(y).entries[j].1,
                        h.dict(x).entries[i as int].1,
                    ),
                    None => false,
                }) by {
                    let i = lemma_dicts_agree_symmetric(h, k, x, y, j);
                    lemma_agree_symmetric(
                        h,
                        (k - 1) as nat,
                        h.dict(x).entries[i].1,
                        h.dict(y).entries[j].1,
                    );
                }
            },
            _ => {},
        }
    }
}

/// Equality is symmetric, cyclic structures and dicts in whatever order included.
pub proof fn law_equality_is_symmetric(h: HeapView, a: Value, b: Value)
    requires
        forall|idx: DictIdx| natively_keyed(h, #[trigger] h.dict(idx)),
        same(h, a, b),
    ensures
        same(h, b, a),
{
    assert forall|k: nat| #[trigger] agree(h, k, b, a) by {
        assert(agree(h, k, a, b));
        lemma_agree_symmetric(h, k, a, b);
    }
}

/// A key that one dict holds in common with a second, and the second with a third, is found
/// in the third where the second's is.
proof fn lemma_dicts_agree_transitive(
    h: HeapView,
    k: nat,
    x: DictIdx,
    y: DictIdx,
    z: DictIdx,
    i: int,
) -> (r: (int, int))
    requires
        forall|idx: DictIdx| natively_keyed(h, #[trigger] h.dict(idx)),
        k > 0,
        x != y,
        y != z,
        agree(h, k, Value::Dict(x), Value::Dict(y)),
        agree(h, k, Value::Dict(y), Value::Dict(z)),
        0 <= i < h.dict(x).entries.len(),
    ensures
        0 <= r.0 < h.dict(y).entries.len(),
        0 <= r.1 < h.dict(z).entries.len(),
        key_lookup(h, h.dict(z), h.dict(x).entries[i].0) == Some(r.1 as nat),
        agree(h, (k - 1) as nat, h.dict(x).entries[i].1, h.dict(y).entries[r.0].1),
        agree(h, (k - 1) as nat, h.dict(y).entries[r.0].1, h.dict(z).entries[r.1].1),
{
    let (d, e, f) = (h.dict(x), h.dict(y), h.dict(z));
    let a = d.entries[i].0;
    assert(key_lookup(h, e, a) is Some);
    lemma_key_position(h, e, a, 0);
    let j = key_lookup(h, e, a)->0 as int;
    let b = e.entries[j].0;
    assert(key_lookup(h, f, b) is Some);
    lemma_key_position(h, f, b, 0);
    let l = key_lookup(h, f, b)->0 as int;
    let c = f.entries[l].0;
    law_keys_equal_to_one_are_equal(h, c, b, b);
    law_keys_equal_to_one_are_equal(h, b, c, a);
    lemma_key_position(h, f, a, 0);
    match key_position(h, f, a, 0) {
        Some(p) => {
            if p != l {
                let q = f.entries[p as int].0;
                law_keys_equal_to_one_are_equal(h, c, a, a);
                law_keys_equal_to_one_are_equal(h, q, a, a);
                law_keys_equal_to_one_are_equal(h, a, c, q);
                law_keys_equal_to_one_are_equal(h, a, q, c);
            }
        },
        None => {},
    }
    (j, l)
}

proof fn lemma_agree_transitive(h: HeapView, k: nat, a: Value, b: Value, c: Value)
    requires
        forall|idx: DictIdx| natively_keyed(h, #[trigger] h.dict(idx)),
        agree(h, k, a, b),
        agree(h, k, b, c),
    ensures
        agree(h, k, a, c),
    decreases k,
{
    if k > 0 && a != b && b != c {
        match (a, b, c) {
            (Value::List(x), Value::List(y), Value::List(z)) => {
                assert forall|i: int| 0 <= i < h.items(x).len() implies agree(
                    h,
                    (k - 1) as nat,
                    #[trigger] h.items(x)[i],
                    h.items(z)[i],
                ) by {
                    assert(agree(h, (k - 1) as nat, h.items(y)[i], h.items(z)[i]));
                    lemma_agree_transitive(
                        h,
                        (k - 1) as nat,
                        h.items(x)[i],
                        h.items(y)[i],
                        h.items(z)[i],
                    );
                }
            },
            (Value::Record(x), Value::Record(y), Value::Record(z)) => {
                let (r, s, t) = (h.record(x)->0, h.record(y)->0, h.record(z)->0);
                assert forall|i: int| 0 <= i < r.fields.len() implies agree(
                    h,
                    (k - 1) as nat,
                    #[trigger] r.fields[i],
                    t.fields[i],
                ) by {
                    assert(agree(h, (k - 1) as nat, s.fields[i], t.fields[i]));
                    lemma_agree_transitive(
                        h,
                        (k - 1) as nat,
                        r.fields[i],
                        s.fields[i],
                        t.fields[i],
                    );
                }
            },
            (Value::Dict(x), Value::Dict(y), Value::Dict(z)) => {
                assert forall|i: int| 0 <= i < h.dict(x).entries.len() implies (match key_lookup(
                    h,
                    h.dict(z),
                    (#[trigger] h.dict(x).entries[i]).0,
                ) {
                    Some(l) => agree(
                        h,
                        (k - 1) as nat,
                        h.dict(x).entries[i].1,
                        h.dict(z).entries[l as int].1,
                    ),
                    None => false,
                }) by {
                    let (j, l) = lemma_dicts_agree_transitive(h, k, x, y, z, i);
                    lemma_agree_transitive(
                        h,
                        (k - 1) as nat,
                        h.dict(x).entries[i].1,
                        h.dict(y).entries[j].1,
                        h.dict(z).entries[l].1,
                    );
                }
            },
            _ => {},
        }
    }
}

/// Equality is transitive, cyclic structures and dicts in whatever order included.
pub proof fn law_equality_is_transitive(h: HeapView, a: Value, b: Value, c: Value)
    requires
        forall|idx: DictIdx| natively_keyed(h, #[trigger] h.dict(idx)),
        same(h, a, b),
        same(h, b, c),
    ensures
        same(h, a, c),
{
    assert forall|k: nat| #[trigger] agree(h, k, a, c) by {
        assert(agree(h, k, a, b));
        assert(agree(h, k, b, c));
        lemma_agree_transitive(h, k, a, b, c);
    }
}

} // verus!
