//! Records as values: a value record is copied whenever it is bound, a reference record is
//! shared.
use crate::compare::agree;
use crate::compare::same;
use crate::heap::Heap;
use crate::heap::HeapView;
use crate::heap::TypeKind;
use crate::object::with_field;
use crate::value::RecIdx;
use crate::value::TypeIdx;
use crate::value::Value;
use vstd::prelude::*;

verus! {

/// Whether a record is one that binding copies.
pub open spec fn copied_on_bind(h: HeapView, r: RecIdx) -> bool {
    match h.record(r) {
        Some(rec) => match h.schema(rec.type_idx) {
            Some(rt) => !rt.is_ref,
            None => false,
        },
        None => false,
    }
}

/// The heap after copying a value for binding, and the copy. Value records nested at most
/// `depth` deep are copied with their fields; anything else is shared.
pub open spec fn copied_within(h: HeapView, v: Value, depth: nat) -> (HeapView, Value)
    decreases depth, 0nat,
{
    match v {
        Value::Record(r) => if depth > 0 && copied_on_bind(h, r) {
            let rec = h.record(r)->0;
            let (after, fields) = copied_fields(
                h,
                rec.fields,
                rec.fields.len(),
                (depth - 1) as nat,
            );
            (
                after.new_record(rec.type_idx, fields),
                Value::Record(RecIdx(after.records.len() as usize)),
            )
        } else {
            (h, v)
        },
        _ => (h, v),
    }
}

/// The heap after copying the first `n` fields for binding, and the copies.
pub open spec fn copied_fields(h: HeapView, fields: Seq<Value>, n: nat, depth: nat) -> (
    HeapView,
    Seq<Value>,
)
    decreases depth, n + 1,
{
    if n == 0 || n > fields.len() {
        (h, Seq::empty())
    } else {
        let (before, copies) = copied_fields(h, fields, (n - 1) as nat, depth);
        let (after, last) = copied_within(before, fields[n - 1], depth);
        (after, copies.push(last))
    }
}

/// The heap after copying a value for binding, and the copy. No value record nests deeper
/// than there are records.
pub open spec fn copied(h: HeapView, v: Value) -> (HeapView, Value) {
    copied_within(h, v, h.records.len())
}

/// Copies a value for binding.
pub fn copy_on_bind(value: Value, heap: &mut Heap) -> (r: Value)
    ensures
        final(heap)@ == copied(old(heap)@, value).0,
        r == copied(old(heap)@, value).1,
{
    let depth: usize = heap.record_count();
    copy_within(value, heap, depth)
}

/// The type and fields of a record that binding copies.
fn copyable(heap: &Heap, r: RecIdx) -> (res: Option<(TypeIdx, Vec<Value>)>)
    ensures
        res is Some <==> copied_on_bind(heap@, r),
        res is Some ==> {
            let (type_idx, fields) = res->0;
            &&& heap@.record(r) is Some
            &&& heap@.record(r)->0.type_idx == type_idx
            &&& heap@.record(r)->0.fields == fields@
        },
{
    match heap.record(r) {
        None => None,
        Some(rec) => match heap.type_value(rec.type_idx) {
            Some(TypeKind::Record(rt)) => {
                if rt.is_ref {
                    return None;
                }
                let mut fields: Vec<Value> = Vec::new();
                let mut i: usize = 0;
                while i < rec.fields.len()
                    invariant
                        i <= rec.fields@.len(),
                        fields@ =~= rec.fields@.take(i as int),
                    decreases rec.fields@.len() - i,
                {
                    fields.push(rec.fields[i]);
                    i = i + 1;
                }
                assert(fields@ =~= rec.fields@);
                Some((rec.type_idx, fields))
            },
            _ => None,
        },
    }
}

fn copy_within(value: Value, heap: &mut Heap, depth: usize) -> (r: Value)
    ensures
        final(heap)@ == copied_within(old(heap)@, value, depth as nat).0,
        r == copied_within(old(heap)@, value, depth as nat).1,
    decreases depth,
{
    match value {
        Value::Record(idx) => {
            if depth == 0 {
                return value;
            }
            match copyable(heap, idx) {
                None => value,
                Some((type_idx, fields)) => {
                    let mut copies: Vec<Value> = Vec::new();
                    let mut i: usize = 0;
                    while i < fields.len()
                        invariant
                            i <= fields@.len(),
                            depth > 0,
                            (heap@, copies@) == copied_fields(
                                old(heap)@,
                                fields@,
                                i as nat,
                                (depth - 1) as nat,
                            ),
                        decreases fields@.len() - i,
                    {
                        let copy = copy_within(fields[i], heap, depth - 1);
                        copies.push(copy);
                        i = i + 1;
                    }
                    Value::Record(heap.alloc_record(type_idx, copies))
                },
            }
        },
        _ => value,
    }
}

/// Copying leaves every record there is as it is, and the copy of a value record is none of
/// them.
proof fn lemma_copy_is_new(h: HeapView, v: Value, depth: nat)
    ensures
        ({
            let (after, copy) = copied_within(h, v, depth);
            &&& h.records.len() <= after.records.len()
            &&& forall|i: int| 0 <= i < h.records.len() ==> #[trigger] after.records[i] == h.records[i]
        }),
    decreases depth, 0nat,
{
    match v {
        Value::Record(r) => {
            if depth > 0 && copied_on_bind(h, r) {
                let rec = h.record(r)->0;
                lemma_field_copies_are_new(h, rec.fields, rec.fields.len(), (depth - 1) as nat);
            }
        },
        _ => {},
    }
}

proof fn lemma_field_copies_are_new(h: HeapView, fields: Seq<Value>, n: nat, depth: nat)
    ensures
        ({
            let after = copied_fields(h, fields, n, depth).0;
            &&& h.records.len() <= after.records.len()
            &&& forall|i: int| 0 <= i < h.records.len() ==> #[trigger] after.records[i] == h.records[i]
        }),
    decreases depth, n + 1,
{
    if n > 0 && n <= fields.len() {
        lemma_field_copies_are_new(h, fields, (n - 1) as nat, depth);
        let before = copied_fields(h, fields, (n - 1) as nat, depth).0;
        lemma_copy_is_new(before, fields[n - 1], depth);
    }
}

/// A value record is copied when it is bound: the copy is a new record, so what is later
/// stored in a field of it changes no record that was there before.
pub proof fn law_value_records_are_copied(h: HeapView, r: RecIdx, p: nat, value: Value, other: RecIdx)
    requires
        copied_on_bind(h, r),
        copied(h, Value::Record(r)).0.records.len() <= usize::MAX,
        h.record(other) is Some,
    ensures
        ({
            let (after, copy) = copied(h, Value::Record(r));
            &&& copy is Record
            &&& copy->Record_0 != other
            &&& after.record(other) == h.record(other)
            &&& with_field(after, copy->Record_0, p, value).record(other) == h.record(other)
        }),
{
    let rec = h.record(r)->0;
    lemma_copy_is_new(h, Value::Record(r), h.records.len());
    lemma_field_copies_are_new(
        h,
        rec.fields,
        rec.fields.len(),
        (h.records.len() - 1) as nat,
    );
}

/// A reference record is shared when it is bound: the copy is the record itself.
pub proof fn law_reference_records_are_shared(h: HeapView, r: RecIdx)
    requires
        !copied_on_bind(h, r),
    ensures
        copied(h, Value::Record(r)) == (h, Value::Record(r)),
{
}

/// Whether a heap holds the records of another, and perhaps more.
spec fn holds_records(h: HeapView, g: HeapView) -> bool {
    &&& h.records.len() <= g.records.len()
    &&& forall|i: int| 0 <= i < h.records.len() ==> #[trigger] g.records[i] == h.records[i]
}

proof fn lemma_copy_agrees(h: HeapView, v: Value, depth: nat, g: HeapView, k: nat)
    requires
        holds_records(copied_within(h, v, depth).0, g),
        copied_within(h, v, depth).0.records.len() <= usize::MAX,
    ensures
        agree(g, k, copied_within(h, v, depth).1, v),
    decreases depth, 0nat,
{
    match v {
        Value::Record(r) => {
            if depth > 0 && copied_on_bind(h, r) && k > 0 {
                let rec = h.record(r)->0;
                let d = (depth - 1) as nat;
                let (after, fields) = copied_fields(h, rec.fields, rec.fields.len(), d);
                let (h2, copy) = copied_within(h, v, depth);
                lemma_field_copies_are_new(h, rec.fields, rec.fields.len(), d);
                assert(g.records[after.records.len() as int] == h2.records[after.records.len() as int]);
                assert(g.records[r.0 as int] == h2.records[r.0 as int]);
                assert forall|i: int| 0 <= i < after.records.len() implies #[trigger] g.records[i]
                    == after.records[i] by {
                    assert(h2.records[i] == after.records[i]);
                }
                lemma_field_copies_agree(h, rec.fields, rec.fields.len(), d, g, (k - 1) as nat);
            }
        },
        _ => {},
    }
}

proof fn lemma_field_copies_agree(
    h: HeapView,
    fields: Seq<Value>,
    n: nat,
    depth: nat,
    g: HeapView,
    k: nat,
)
    requires
        n <= fields.len(),
        holds_records(copied_fields(h, fields, n, depth).0, g),
        copied_fields(h, fields, n, depth).0.records.len() <= usize::MAX,
    ensures
        copied_fields(h, fields, n, depth).1.len() == n,
        forall|i: int|
            0 <= i < n ==> agree(
                g,
                k,
                #[trigger] copied_fields(h, fields, n, depth).1[i],
                fields[i],
            ),
    decreases depth, n + 1,
{
    if n > 0 {
        let (before, copies) = copied_fields(h, fields, (n - 1) as nat, depth);
        let (after, last) = copied_within(before, fields[n - 1], depth);
        lemma_copy_is_new(before, fields[n - 1], depth);
        assert forall|i: int| 0 <= i < before.records.len() implies #[trigger] g.records[i]
            == before.records[i] by {
            assert(after.records[i] == before.records[i]);
        }
        lemma_field_copies_agree(h, fields, (n - 1) as nat, depth, g, k);
        lemma_copy_agrees(before, fields[n - 1], depth, g, k);
    }
}

/// A copy is equal to what it was copied from.
pub proof fn law_copies_are_equal(h: HeapView, v: Value)
    requires
        copied(h, v).0.records.len() <= usize::MAX,
    ensures
        same(copied(h, v).0, copied(h, v).1, v),
{
    let (after, copy) = copied(h, v);
    assert forall|k: nat| #[trigger] agree(after, k, copy, v) by {
        lemma_copy_agrees(h, v, h.records.len(), after, k);
    }
}

} // verus!
