//! Where values may stand: the records within a dict's keys are the keys' own, so nothing
//! that the program or the host does to other values changes a key. A heap in which this
//! holds has well keyed dicts only, and stays such a heap.

use crate::collect::children;
use crate::collect::collected;
use crate::collect::entry_refs;
use crate::collect::Place;
use crate::collect::reachable;
use crate::collect::reached;
use crate::collect::Ref;
use crate::collect::value_ref;
use crate::collect::value_refs;
use crate::collect::with_value;
use crate::compare::law_same_key_is_equality;
use crate::compare::same;
use crate::dict::entry_position;
use crate::dict::inserted;
use crate::dict_laws::grown;
use crate::dict_laws::keyed;
use crate::dict_laws::law_dicts_stay_keyed;
use crate::dict_laws::lemma_copies_grow;
use crate::dict_laws::lemma_field_copies_grow;
use crate::dict_laws::lemma_hashable_grows;
use crate::dict_laws::lemma_keyed_grows;
use crate::dict_laws::storable;
use crate::error::DetailView;
use crate::exception::detail_entries;
use crate::exception::detail_items;
use crate::exception::detail_value;
use crate::exception::details_heap;
use crate::exception::diagnostic_detail;
use crate::exception::DiagnosticView;
use crate::exception::error_made;
use crate::exception::module_load_detail;
use crate::exception::module_ref_detail;
use crate::exception::text_details;
use crate::exception::text_heap;
use crate::exception::text_value;
use crate::exception::type_mismatch_detail;
use crate::exception::unknown_keyword_detail;
use crate::float::CANONICAL_NAN_BITS;
use crate::float::nan;
use crate::hash::canonical_key;
use crate::hash::fields_message;
use crate::hash::hashable;
use crate::hash::hashable_within;
use crate::hash::key_hash;
use crate::hash::key_message;
use crate::hash::same_key;
use crate::hash::scalar;
use crate::heap::at;
use crate::heap::CellKind;
use crate::heap::DictView;
use crate::heap::HeapView;
use crate::number::number;
use crate::object::with_field;
use crate::record::copied;
use crate::record::copied_fields;
use crate::record::copied_on_bind;
use crate::record::copied_within;
use crate::root_laws::law_exactly_the_reachable_survives;
use crate::span::ModuleId;
use crate::turn::lemma_values_are_roots;
use crate::unicode::nfc_text;
use crate::value::CellIdx;
use crate::value::DictIdx;
use crate::value::ListIdx;
use crate::value::RecIdx;
use crate::value::StrIdx;
use crate::value::TypeIdx;
use crate::value::Value;
use vstd::prelude::*;

verus! {

/// Whether the object that a value names, if keys can tell it, has been made.
pub open spec fn made(h: HeapView, v: Value) -> bool {
    match v {
        Value::Str(i) => i.0 < h.strings.len(),
        Value::Bytes(i) => i.0 < h.bytes.len(),
        Value::BigInt(i) => i.0 < h.bigs.len(),
        Value::Record(i) => i.0 < h.records.len(),
        _ => true,
    }
}

/// Whether a value may stand anywhere but within a key: it is no record of a key's, and no
/// NaN but the canonical one. Of a heap with more records than indices can number, nothing is
/// asked.
pub open spec fn free(h: HeapView, s: Set<int>, v: Value) -> bool {
    h.records.len() <= usize::MAX ==> {
        &&& made(h, v)
        &&& v matches Value::Float(x) ==> nan(x) ==> x == CANONICAL_NAN_BITS
        &&& v matches Value::Record(r) ==> !s.contains(r.0 as int)
    }
}

/// Whether a value may stand within a key: a scalar, or a record of a key's.
pub open spec fn sealed(h: HeapView, s: Set<int>, v: Value) -> bool {
    ||| scalar(v) && free(h, s, v)
    ||| v is Record && made(h, v) && s.contains(v->Record_0.0 as int)
}

/// Whether the elements of the lists are free.
pub open spec fn lists_free(h: HeapView, s: Set<int>) -> bool {
    forall|l: ListIdx, j: int|
        0 <= j < h.items(l).len() ==> free(h, s, #[trigger] h.items(l)[j])
}

/// Whether the keys of the dicts are sealed, and their values free.
pub open spec fn dicts_sealed(h: HeapView, s: Set<int>) -> bool {
    forall|d: DictIdx, j: int|
        0 <= j < h.dict(d).entries.len() ==> sealed(h, s, (#[trigger] h.dict(d).entries[j]).0)
            && free(h, s, h.dict(d).entries[j].1)
}

/// Whether what the cells hold is free.
pub open spec fn cells_free(h: HeapView, s: Set<int>) -> bool {
    forall|c: CellIdx|
        (#[trigger] h.cell(c)) is Some && h.cell(c)->0.value is Some ==> free(
            h,
            s,
            h.cell(c)->0.value->0,
        )
}

/// Whether the fields of the keys' records are sealed, and those of the others free.
pub open spec fn records_sealed(h: HeapView, s: Set<int>) -> bool {
    forall|r: RecIdx, j: int|
        h.record(r) is Some && 0 <= j < h.record(r)->0.fields.len() ==> if s.contains(
            r.0 as int,
        ) {
            sealed(h, s, #[trigger] h.record(r)->0.fields[j])
        } else {
            free(h, s, h.record(r)->0.fields[j])
        }
}

/// Whether all dicts are well keyed.
pub open spec fn dicts_keyed(h: HeapView) -> bool {
    forall|d: DictIdx| keyed(h, #[trigger] h.dict(d))
}

/// Whether the keys' records have been made.
pub open spec fn within(h: HeapView, s: Set<int>) -> bool {
    forall|r: int| #[trigger] s.contains(r) ==> 0 <= r < h.records.len()
}

/// Whether a heap whose records indices can number has well keyed dicts, with these records
/// for their keys.
#[verifier::opaque]
pub open spec fn orderly(h: HeapView, s: Set<int>) -> bool {
    h.records.len() <= usize::MAX ==> {
        &&& within(h, s)
        &&& lists_free(h, s)
        &&& dicts_sealed(h, s)
        &&& cells_free(h, s)
        &&& records_sealed(h, s)
        &&& dicts_keyed(h)
    }
}

/// Whether what was free in a heap is free in another.
#[verifier::opaque]
pub open spec fn wider(h: HeapView, s: Set<int>, g: HeapView, t: Set<int>) -> bool {
    &&& h.strings.len() <= g.strings.len()
    &&& h.bytes.len() <= g.bytes.len()
    &&& h.bigs.len() <= g.bigs.len()
    &&& h.records.len() <= g.records.len()
    &&& forall|r: int|
        0 <= r < h.records.len() && #[trigger] t.contains(r) ==> s.contains(r)
}

pub proof fn lemma_wider(h: HeapView, s: Set<int>, g: HeapView, t: Set<int>, v: Value)
    requires
        wider(h, s, g, t),
        free(h, s, v),
    ensures
        free(g, t, v),
{
    reveal(wider);
}

pub proof fn lemma_wider_trans(
    h: HeapView,
    s: Set<int>,
    g: HeapView,
    t: Set<int>,
    k: HeapView,
    u: Set<int>,
)
    requires
        wider(h, s, g, t),
        wider(g, t, k, u),
    ensures
        wider(h, s, k, u),
{
    reveal(wider);
}

pub proof fn lemma_wider_refl(h: HeapView, s: Set<int>)
    ensures
        wider(h, s, h, s),
{
    reveal(wider);
}

/// Whether a table has further objects behind those of another.
pub open spec fn extends<V>(a: Seq<V>, b: Seq<V>) -> bool {
    &&& a.len() <= b.len()
    &&& forall|i: int| 0 <= i < a.len() ==> #[trigger] b[i] == a[i]
}

/// Whether a key is the same in two heaps, records nested at most `d` deep.
pub open spec fn intact(h: HeapView, g: HeapView, v: Value, d: nat) -> bool
    decreases d,
{
    match v {
        Value::Str(i) => g.text(i) == h.text(i),
        Value::Bytes(i) => g.bytes_of(i) == h.bytes_of(i),
        Value::BigInt(i) => g.big(i) == h.big(i),
        Value::Record(r) => {
            &&& g.record(r) == h.record(r)
            &&& h.record(r) is Some ==> g.schema(h.record(r)->0.type_idx) == h.schema(
                h.record(r)->0.type_idx,
            )
            &&& d > 0 && h.record(r) is Some ==> forall|j: int|
                0 <= j < h.record(r)->0.fields.len() ==> intact(
                    h,
                    g,
                    #[trigger] h.record(r)->0.fields[j],
                    (d - 1) as nat,
                )
        },
        _ => true,
    }
}

proof fn lemma_hashable_intact(h: HeapView, g: HeapView, v: Value, d: nat, e: nat)
    requires
        intact(h, g, v, d),
        d <= e,
        hashable_within(h, v, d),
    ensures
        hashable_within(g, v, e),
    decreases d,
{
    if v is Record {
        let rec = h.record(v->Record_0)->0;
        assert forall|i: int| 0 <= i < rec.fields.len() implies hashable_within(
            g,
            #[trigger] rec.fields[i],
            (e - 1) as nat,
        ) by {
            assert(intact(h, g, rec.fields[i], (d - 1) as nat));
            lemma_hashable_intact(h, g, rec.fields[i], (d - 1) as nat, (e - 1) as nat);
        }
    }
}

proof fn lemma_canonical_intact(h: HeapView, g: HeapView, v: Value, d: nat, e: nat)
    requires
        intact(h, g, v, d),
        d <= e,
        hashable_within(h, v, d),
        canonical_key(h, v, d),
    ensures
        canonical_key(g, v, e),
    decreases d,
{
    if v is Record {
        let rec = h.record(v->Record_0)->0;
        assert forall|i: int| 0 <= i < rec.fields.len() implies canonical_key(
            g,
            #[trigger] rec.fields[i],
            (e - 1) as nat,
        ) by {
            assert(intact(h, g, rec.fields[i], (d - 1) as nat));
            assert(hashable_within(h, rec.fields[i], (d - 1) as nat));
            lemma_canonical_intact(h, g, rec.fields[i], (d - 1) as nat, (e - 1) as nat);
        }
    }
}

proof fn lemma_same_key_intact(h: HeapView, g: HeapView, a: Value, b: Value, d: nat, e: nat)
    requires
        intact(h, g, a, d),
        intact(h, g, b, d),
        d <= e,
        hashable_within(h, a, d),
        hashable_within(h, b, d),
    ensures
        same_key(h, a, b, d) == same_key(g, a, b, e),
    decreases d,
{
    assert(number(h, a) == number(g, a));
    assert(number(h, b) == number(g, b));
    if a is Record && b is Record && a != b {
        let r = h.record(a->Record_0)->0;
        let s = h.record(b->Record_0)->0;
        if r.fields.len() == s.fields.len() {
            assert forall|i: int| 0 <= i < r.fields.len() implies same_key(
                h,
                #[trigger] r.fields[i],
                s.fields[i],
                (d - 1) as nat,
            ) == same_key(g, r.fields[i], s.fields[i], (e - 1) as nat) by {
                assert(hashable_within(h, s.fields[i], (d - 1) as nat));
                assert(intact(h, g, s.fields[i], (d - 1) as nat));
                assert(intact(h, g, r.fields[i], (d - 1) as nat));
                lemma_same_key_intact(
                    h,
                    g,
                    r.fields[i],
                    s.fields[i],
                    (d - 1) as nat,
                    (e - 1) as nat,
                );
            }
            if same_key(h, a, b, d) {
                assert forall|i: int| 0 <= i < r.fields.len() implies same_key(
                    g,
                    #[trigger] r.fields[i],
                    s.fields[i],
                    (e - 1) as nat,
                ) by {
                    assert(same_key(h, r.fields[i], s.fields[i], (d - 1) as nat));
                }
            }
            if same_key(g, a, b, e) {
                assert forall|i: int| 0 <= i < r.fields.len() implies same_key(
                    h,
                    #[trigger] r.fields[i],
                    s.fields[i],
                    (d - 1) as nat,
                ) by {
                    assert(same_key(g, r.fields[i], s.fields[i], (e - 1) as nat));
                }
            }
        }
    }
}

proof fn lemma_message_intact(h: HeapView, g: HeapView, v: Value, d: nat, e: nat)
    requires
        intact(h, g, v, d),
        d <= e,
        hashable_within(h, v, d),
    ensures
        key_message(h, v, d) == key_message(g, v, e),
    decreases d, 1nat, 0nat,
{
    if v is Record {
        let rec = h.record(v->Record_0)->0;
        lemma_fields_message_intact(
            h,
            g,
            rec.fields,
            rec.fields.len(),
            (d - 1) as nat,
            (e - 1) as nat,
        );
    }
}

proof fn lemma_fields_message_intact(
    h: HeapView,
    g: HeapView,
    fields: Seq<Value>,
    n: nat,
    d: nat,
    e: nat,
)
    requires
        d <= e,
        n <= fields.len(),
        forall|i: int| 0 <= i < fields.len() ==> intact(h, g, #[trigger] fields[i], d),
        forall|i: int| 0 <= i < fields.len() ==> hashable_within(h, #[trigger] fields[i], d),
    ensures
        fields_message(h, fields, n, d) == fields_message(g, fields, n, e),
    decreases d, 2nat, n,
{
    if n > 0 {
        lemma_fields_message_intact(h, g, fields, (n - 1) as nat, d, e);
        assert(hashable_within(h, fields[n - 1], d));
        assert(intact(h, g, fields[n - 1], d));
        lemma_message_intact(h, g, fields[n - 1], d, e);
    }
}

/// A dict stays well keyed while its keys stay as they are.
pub proof fn lemma_keyed_intact(h: HeapView, g: HeapView, d: DictView)
    requires
        keyed(h, d),
        h.records.len() <= g.records.len(),
        forall|i: int|
            0 <= i < d.entries.len() ==> intact(h, g, (#[trigger] d.entries[i]).0, h.records.len()),
    ensures
        keyed(g, d),
{
    let (n, m) = (h.records.len(), g.records.len());
    assert forall|i: int| 0 <= i < d.entries.len() implies {
        &&& hashable(g, (#[trigger] d.entries[i]).0)
        &&& canonical_key(g, d.entries[i].0, g.records.len())
        &&& d.hashes[i] == key_hash(g, d.entries[i].0)
    } by {
        let k = d.entries[i].0;
        lemma_hashable_intact(h, g, k, n, m);
        lemma_canonical_intact(h, g, k, n, m);
        lemma_message_intact(h, g, k, n, m);
    }
    assert forall|i: int, j: int| 0 <= i < j < d.entries.len() implies !same(
        g,
        (#[trigger] d.entries[i]).0,
        (#[trigger] d.entries[j]).0,
    ) by {
        let (a, b) = (d.entries[i].0, d.entries[j].0);
        lemma_same_key_intact(h, g, a, b, n, m);
        law_same_key_is_equality(h, a, b);
        law_same_key_is_equality(g, a, b);
    }
}

/// Whether a heap has the texts, numbers and types of another, and its keys' records.
pub open spec fn preserved(h: HeapView, s: Set<int>, g: HeapView) -> bool {
    &&& extends(h.strings, g.strings)
    &&& extends(h.bytes, g.bytes)
    &&& extends(h.bigs, g.bigs)
    &&& extends(h.types, g.types)
    &&& h.records.len() <= g.records.len()
    &&& forall|r: int|
        0 <= r < h.records.len() && s.contains(r) ==> #[trigger] g.records[r] == h.records[r]
}

proof fn lemma_sealed_intact(h: HeapView, s: Set<int>, g: HeapView, v: Value, d: nat)
    requires
        preserved(h, s, g),
        h.records.len() <= usize::MAX,
        records_sealed(h, s),
        sealed(h, s, v),
        hashable_within(h, v, d),
    ensures
        intact(h, g, v, d),
    decreases d,
{
    if let Value::Record(r) = v {
        let rec = h.record(r)->0;
        assert(at(g.records, r.0 as int) == at(h.records, r.0 as int));
        assert(h.schema(rec.type_idx) is Some);
        assert(at(g.types, rec.type_idx.0 as int) == at(h.types, rec.type_idx.0 as int));
        assert forall|j: int| 0 <= j < rec.fields.len() implies intact(
            h,
            g,
            #[trigger] rec.fields[j],
            (d - 1) as nat,
        ) by {
            assert(sealed(h, s, h.record(r)->0.fields[j]));
            assert(hashable_within(h, rec.fields[j], (d - 1) as nat));
            lemma_sealed_intact(h, s, g, rec.fields[j], (d - 1) as nat);
        }
    }
}

/// A heap stays orderly when its lists, cells and other records get free values, and its
/// dicts at most new ones without entries.
pub proof fn lemma_extended(h: HeapView, s: Set<int>, g: HeapView)
    requires
        orderly(h, s),
        preserved(h, s, g),
        forall|l: ListIdx|
            #[trigger] g.items(l) == h.items(l) || forall|j: int|
                0 <= j < g.items(l).len() ==> free(g, s, #[trigger] g.items(l)[j]),
        forall|d: DictIdx|
            #[trigger] g.dict(d) == h.dict(d) || g.dict(d) == (DictView {
                entries: Seq::empty(),
                hashes: Seq::empty(),
            }),
        forall|c: CellIdx|
            #[trigger] g.cell(c) == h.cell(c) || g.cell(c)->0.value is None || free(
                g,
                s,
                g.cell(c)->0.value->0,
            ),
        forall|r: RecIdx|
            #[trigger] g.record(r) == h.record(r) || (g.records.len() <= usize::MAX
                ==> !s.contains(r.0 as int) && forall|j: int|
                0 <= j < g.record(r)->0.fields.len() ==> free(
                    g,
                    s,
                    #[trigger] g.record(r)->0.fields[j],
                )),
    ensures
        orderly(g, s),
        wider(h, s, g, s),
{
    reveal(orderly);
    reveal(wider);
    if g.records.len() <= usize::MAX {
        assert forall|l: ListIdx, j: int| 0 <= j < g.items(l).len() implies free(
            g,
            s,
            #[trigger] g.items(l)[j],
        ) by {
            if g.items(l) == h.items(l) {
                assert(free(h, s, h.items(l)[j]));
            }
        }
        assert forall|d: DictIdx, j: int| 0 <= j < g.dict(d).entries.len() implies sealed(
            g,
            s,
            (#[trigger] g.dict(d).entries[j]).0,
        ) && free(g, s, g.dict(d).entries[j].1) by {
            assert(g.dict(d) == h.dict(d));
            assert(sealed(h, s, h.dict(d).entries[j].0));
        }
        assert forall|c: CellIdx|
            (#[trigger] g.cell(c)) is Some && g.cell(c)->0.value is Some implies free(
            g,
            s,
            g.cell(c)->0.value->0,
        ) by {
            if g.cell(c) == h.cell(c) {
                assert(free(h, s, h.cell(c)->0.value->0));
            }
        }
        assert forall|r: RecIdx, j: int|
            g.record(r) is Some && 0 <= j < g.record(r)->0.fields.len() implies if s.contains(
            r.0 as int,
        ) {
            sealed(g, s, #[trigger] g.record(r)->0.fields[j])
        } else {
            free(g, s, g.record(r)->0.fields[j])
        } by {
            if g.record(r) == h.record(r) {
                let v = h.record(r)->0.fields[j];
                if s.contains(r.0 as int) {
                    assert(sealed(h, s, v));
                } else {
                    assert(free(h, s, v));
                }
            }
        }
        assert forall|d: DictIdx| keyed(g, #[trigger] g.dict(d)) by {
            if g.dict(d) == h.dict(d) {
                let e = h.dict(d);
                assert(keyed(h, e));
                assert forall|i: int| 0 <= i < e.entries.len() implies intact(
                    h,
                    g,
                    (#[trigger] e.entries[i]).0,
                    h.records.len(),
                ) by {
                    assert(sealed(h, s, h.dict(d).entries[i].0));
                    lemma_sealed_intact(h, s, g, e.entries[i].0, h.records.len());
                }
                lemma_keyed_intact(h, g, e);
            }
        }
    }
}

/// Whether a heap has further texts, numbers, types, callables or foreign objects only.
pub open spec fn aside(h: HeapView, g: HeapView) -> bool {
    &&& extends(h.strings, g.strings)
    &&& extends(h.bytes, g.bytes)
    &&& extends(h.bigs, g.bigs)
    &&& extends(h.types, g.types)
    &&& g.lists == h.lists
    &&& g.dicts == h.dicts
    &&& g.cells == h.cells
    &&& g.records == h.records
}

pub proof fn lemma_aside(h: HeapView, s: Set<int>, g: HeapView)
    requires
        orderly(h, s),
    ensures
        aside(h, g) ==> orderly(g, s) && wider(h, s, g, s),
{
    if aside(h, g) {
        lemma_extended(h, s, g);
    }
}

pub proof fn lemma_new_list(h: HeapView, s: Set<int>, items: Seq<Value>)
    requires
        orderly(h, s),
        forall|j: int| 0 <= j < items.len() ==> free(h, s, #[trigger] items[j]),
    ensures
        orderly(h.new_list(items), s),
        wider(h, s, h.new_list(items), s),
{
    let g = h.new_list(items);
    assert forall|l: ListIdx|
        #[trigger] g.items(l) == h.items(l) || forall|j: int|
            0 <= j < g.items(l).len() ==> free(g, s, #[trigger] g.items(l)[j]) by {
        if l.0 == h.lists.len() {
            assert(g.items(l) == items);
        } else {
            assert(at(g.lists, l.0 as int) == at(h.lists, l.0 as int));
        }
    }
    lemma_extended(h, s, g);
}

pub proof fn lemma_new_dict(h: HeapView, s: Set<int>)
    requires
        orderly(h, s),
    ensures
        orderly(h.new_dict(), s),
        wider(h, s, h.new_dict(), s),
{
    let g = h.new_dict();
    assert forall|d: DictIdx|
        #[trigger] g.dict(d) == h.dict(d) || g.dict(d) == (DictView {
            entries: Seq::empty(),
            hashes: Seq::empty(),
        }) by {
        if d.0 != h.dicts.len() {
            assert(at(g.dicts, d.0 as int) == at(h.dicts, d.0 as int));
        }
    }
    lemma_extended(h, s, g);
}

pub proof fn lemma_new_cell(h: HeapView, s: Set<int>, kind: CellKind, value: Option<Value>)
    requires
        orderly(h, s),
        value is Some ==> free(h, s, value->0),
    ensures
        orderly(h.new_cell(kind, value), s),
        wider(h, s, h.new_cell(kind, value), s),
{
    let g = h.new_cell(kind, value);
    assert forall|c: CellIdx|
        #[trigger] g.cell(c) == h.cell(c) || g.cell(c)->0.value is None || free(
            g,
            s,
            g.cell(c)->0.value->0,
        ) by {
        if c.0 != h.cells.len() {
            assert(at(g.cells, c.0 as int) == at(h.cells, c.0 as int));
        }
    }
    lemma_extended(h, s, g);
}

pub proof fn lemma_with_cell(h: HeapView, s: Set<int>, c: CellIdx, value: Option<Value>)
    requires
        orderly(h, s),
        value is Some ==> free(h, s, value->0),
    ensures
        orderly(h.with_cell(c, value), s),
        wider(h, s, h.with_cell(c, value), s),
{
    let g = h.with_cell(c, value);
    assert forall|k: CellIdx|
        #[trigger] g.cell(k) == h.cell(k) || g.cell(k)->0.value is None || free(
            g,
            s,
            g.cell(k)->0.value->0,
        ) by {
        if k != c {
            assert(at(g.cells, k.0 as int) == at(h.cells, k.0 as int));
        }
    }
    lemma_extended(h, s, g);
}

pub proof fn lemma_new_record(h: HeapView, s: Set<int>, t: TypeIdx, fields: Seq<Value>)
    requires
        orderly(h, s),
        forall|j: int| 0 <= j < fields.len() ==> free(h, s, #[trigger] fields[j]),
    ensures
        orderly(h.new_record(t, fields), s),
        wider(h, s, h.new_record(t, fields), s),
        free(h.new_record(t, fields), s, Value::Record(RecIdx(h.records.len() as usize))),
{
    let g = h.new_record(t, fields);
    assert(g.records.len() <= usize::MAX ==> !s.contains(h.records.len() as int)) by {
        reveal(orderly);
    }
    assert forall|r: RecIdx|
        #[trigger] g.record(r) == h.record(r) || (g.records.len() <= usize::MAX ==> !s.contains(
            r.0 as int,
        ) && forall|j: int|
            0 <= j < g.record(r)->0.fields.len() ==> free(
                g,
                s,
                #[trigger] g.record(r)->0.fields[j],
            )) by {
        if r.0 == h.records.len() {
            assert(g.record(r)->0.fields == fields);
        } else {
            assert(at(g.records, r.0 as int) == at(h.records, r.0 as int));
        }
    }
    lemma_extended(h, s, g);
}

pub proof fn lemma_copied_within(h: HeapView, s: Set<int>, v: Value, depth: nat)
    requires
        orderly(h, s),
        free(h, s, v),
    ensures
        orderly(copied_within(h, v, depth).0, s),
        wider(h, s, copied_within(h, v, depth).0, s),
        free(copied_within(h, v, depth).0, s, copied_within(h, v, depth).1),
    decreases depth, 0nat,
{
    lemma_wider_refl(h, s);
    if let Value::Record(r) = v {
        if depth > 0 && copied_on_bind(h, r) {
            let rec = h.record(r)->0;
            let n = rec.fields.len();
            assert forall|j: int| 0 <= j < n implies free(h, s, #[trigger] rec.fields[j]) by {
                reveal(orderly);
                if h.records.len() <= usize::MAX {
                    assert(free(h, s, h.record(r)->0.fields[j]));
                }
            }
            lemma_copied_fields(h, s, rec.fields, n, (depth - 1) as nat);
            let (after, fields) = copied_fields(h, rec.fields, n, (depth - 1) as nat);
            lemma_new_record(after, s, rec.type_idx, fields);
            lemma_wider_trans(h, s, after, s, after.new_record(rec.type_idx, fields), s);
        }
    }
}

proof fn lemma_copied_fields(h: HeapView, s: Set<int>, fields: Seq<Value>, n: nat, depth: nat)
    requires
        orderly(h, s),
        n <= fields.len(),
        forall|j: int| 0 <= j < fields.len() ==> free(h, s, #[trigger] fields[j]),
    ensures
        orderly(copied_fields(h, fields, n, depth).0, s),
        wider(h, s, copied_fields(h, fields, n, depth).0, s),
        copied_fields(h, fields, n, depth).1.len() == n,
        forall|j: int|
            0 <= j < n ==> free(
                copied_fields(h, fields, n, depth).0,
                s,
                #[trigger] copied_fields(h, fields, n, depth).1[j],
            ),
    decreases depth, n + 1,
{
    lemma_wider_refl(h, s);
    if n > 0 {
        lemma_copied_fields(h, s, fields, (n - 1) as nat, depth);
        let (before, copies) = copied_fields(h, fields, (n - 1) as nat, depth);
        lemma_wider(h, s, before, s, fields[n - 1]);
        lemma_copied_within(before, s, fields[n - 1], depth);
        let (after, last) = copied_within(before, fields[n - 1], depth);
        lemma_wider_trans(h, s, before, s, after, s);
        assert forall|j: int| 0 <= j < n implies free(
            after,
            s,
            #[trigger] copied_fields(h, fields, n, depth).1[j],
        ) by {
            if j < n - 1 {
                lemma_wider(before, s, after, s, copies[j]);
            }
        }
    }
}

/// Copying a free value gives one, in an orderly heap.
pub proof fn lemma_copied(h: HeapView, s: Set<int>, v: Value)
    requires
        orderly(h, s),
        free(h, s, v),
    ensures
        orderly(copied(h, v).0, s),
        wider(h, s, copied(h, v).0, s),
        free(copied(h, v).0, s, copied(h, v).1),
{
    lemma_copied_within(h, s, v, h.records.len());
}

/// Setting a field of a record that is no key's.
pub proof fn lemma_with_field(h: HeapView, s: Set<int>, r: RecIdx, p: nat, v: Value)
    requires
        orderly(h, s),
        free(h, s, Value::Record(r)),
        free(h, s, v),
        h.record(r) is Some,
        p < h.record(r)->0.fields.len(),
    ensures
        orderly(with_field(h, r, p, v), s),
        wider(h, s, with_field(h, r, p, v), s),
{
    let g = with_field(h, r, p, v);
    if g.records.len() <= usize::MAX {
        assert forall|q: RecIdx|
            #[trigger] g.record(q) == h.record(q) || (g.records.len() <= usize::MAX
                ==> !s.contains(q.0 as int) && forall|j: int|
                0 <= j < g.record(q)->0.fields.len() ==> free(
                    g,
                    s,
                    #[trigger] g.record(q)->0.fields[j],
                )) by {
            if q == r {
                let old = h.record(r)->0.fields;
                assert(g.record(q)->0.fields == old.update(p as int, v));
                assert forall|j: int| 0 <= j < g.record(q)->0.fields.len() implies free(
                    g,
                    s,
                    #[trigger] g.record(q)->0.fields[j],
                ) by {
                    reveal(orderly);
                    if j != p {
                        assert(free(h, s, h.record(r)->0.fields[j]));
                    }
                }
            } else {
                assert(at(g.records, q.0 as int) == at(h.records, q.0 as int));
            }
        }
        lemma_extended(h, s, g);
    } else {
        reveal(orderly);
        reveal(wider);
    }
}

/// In an orderly heap every NaN that a value holds is the canonical one.
proof fn lemma_canonical(h: HeapView, s: Set<int>, v: Value, d: nat)
    requires
        orderly(h, s),
        h.records.len() <= usize::MAX,
        free(h, s, v) || sealed(h, s, v),
    ensures
        canonical_key(h, v, d),
    decreases d,
{
    reveal(orderly);
    if let Value::Record(r) = v {
        if d > 0 && h.record(r) is Some {
            let rec = h.record(r)->0;
            assert forall|j: int| 0 <= j < rec.fields.len() implies canonical_key(
                h,
                #[trigger] rec.fields[j],
                (d - 1) as nat,
            ) by {
                let f = h.record(r)->0.fields[j];
                if s.contains(r.0 as int) {
                    assert(sealed(h, s, f));
                } else {
                    assert(free(h, s, f));
                }
                lemma_canonical(h, s, f, (d - 1) as nat);
            }
        }
    }
}

/// Whether a value is a scalar, or a record made from some index on.
spec fn own(g: HeapView, lo: int, v: Value) -> bool {
    ||| scalar(v) && free(g, Set::empty(), v)
    ||| v is Record && lo <= v->Record_0.0 < g.records.len()
}

/// Whether the fields of the records made from some index on are such values.
spec fn own_fields(g: HeapView, lo: int) -> bool {
    forall|r: RecIdx, j: int|
        lo <= r.0 && g.record(r) is Some && 0 <= j < g.record(r)->0.fields.len() ==> own(
            g,
            lo,
            #[trigger] g.record(r)->0.fields[j],
        )
}

proof fn lemma_own_grows(h: HeapView, g: HeapView, lo: int)
    requires
        own_fields(h, lo),
        grown(h, g),
        g.records.len() <= usize::MAX,
        own_fields(g, h.records.len() as int),
        0 <= lo <= h.records.len(),
    ensures
        own_fields(g, lo),
{
    assert forall|r: RecIdx, j: int|
        lo <= r.0 && g.record(r) is Some && 0 <= j < g.record(r)->0.fields.len() implies own(
        g,
        lo,
        #[trigger] g.record(r)->0.fields[j],
    ) by {
        if r.0 < h.records.len() {
            assert(g.records[r.0 as int] == h.records[r.0 as int]);
            assert(own(h, lo, h.record(r)->0.fields[j]));
        } else {
            assert(own(g, h.records.len() as int, g.record(r)->0.fields[j]));
        }
    }
}

/// The copy of a key is made of records of its own.
proof fn lemma_key_copy(h: HeapView, s: Set<int>, v: Value, d: nat, e: nat)
    requires
        orderly(h, s),
        free(h, s, v),
        hashable_within(h, v, d),
        d <= e,
        copied_within(h, v, e).0.records.len() <= usize::MAX,
        h.records.len() <= usize::MAX,
    ensures
        own(copied_within(h, v, e).0, h.records.len() as int, copied_within(h, v, e).1),
        own_fields(copied_within(h, v, e).0, h.records.len() as int),
    decreases d, 0nat,
{
    let lo = h.records.len() as int;
    if let Value::Record(r) = v {
        let rec = h.record(r)->0;
        let n = rec.fields.len();
        assert(copied_on_bind(h, r));
        assert forall|j: int| 0 <= j < n implies free(h, s, #[trigger] rec.fields[j]) by {
            reveal(orderly);
            assert(free(h, s, h.record(r)->0.fields[j]));
        }
        let (after, fields) = copied_fields(h, rec.fields, n, (e - 1) as nat);
        lemma_key_field_copies(h, s, rec.fields, n, (d - 1) as nat, (e - 1) as nat);
        lemma_field_copies_grow(h, rec.fields, n, (e - 1) as nat);
        let g = after.new_record(rec.type_idx, fields);
        assert forall|q: RecIdx, j: int|
            lo <= q.0 && g.record(q) is Some && 0 <= j < g.record(q)->0.fields.len() implies own(
            g,
            lo,
            #[trigger] g.record(q)->0.fields[j],
        ) by {
            if q.0 < after.records.len() {
                assert(g.records[q.0 as int] == after.records[q.0 as int]);
                assert(own(after, lo, after.record(q)->0.fields[j]));
            } else {
                assert(g.record(q)->0.fields == fields);
                assert(own(after, lo, fields[j]));
            }
        }
    } else {
        assert(own_fields(h, lo)) by {
            assert forall|q: RecIdx, j: int|
                lo <= q.0 && h.record(q) is Some && 0 <= j < h.record(q)->0.fields.len() implies own(
                h,
                lo,
                #[trigger] h.record(q)->0.fields[j],
            ) by {
                assert(false);
            }
        }
    }
}

proof fn lemma_key_field_copies(
    h: HeapView,
    s: Set<int>,
    fields: Seq<Value>,
    n: nat,
    d: nat,
    e: nat,
)
    requires
        orderly(h, s),
        h.records.len() <= usize::MAX,
        d <= e,
        n <= fields.len(),
        forall|j: int| 0 <= j < fields.len() ==> free(h, s, #[trigger] fields[j]),
        forall|i: int| 0 <= i < fields.len() ==> hashable_within(h, #[trigger] fields[i], d),
        copied_fields(h, fields, n, e).0.records.len() <= usize::MAX,
    ensures
        copied_fields(h, fields, n, e).1.len() == n,
        forall|j: int|
            0 <= j < n ==> own(
                copied_fields(h, fields, n, e).0,
                h.records.len() as int,
                #[trigger] copied_fields(h, fields, n, e).1[j],
            ),
        own_fields(copied_fields(h, fields, n, e).0, h.records.len() as int),
    decreases d, n + 1,
{
    let lo = h.records.len() as int;
    if n > 0 {
        let (before, copies) = copied_fields(h, fields, (n - 1) as nat, e);
        let (after, last) = copied_within(before, fields[n - 1], e);
        lemma_field_copies_grow(h, fields, (n - 1) as nat, e);
        lemma_copies_grow(before, fields[n - 1], e);
        lemma_key_field_copies(h, s, fields, (n - 1) as nat, d, e);
        lemma_copied_fields(h, s, fields, (n - 1) as nat, e);
        lemma_wider(h, s, before, s, fields[n - 1]);
        assert(hashable_within(h, fields[n - 1], d));
        lemma_hashable_grows(h, before, fields[n - 1], d, d);
        lemma_key_copy(before, s, fields[n - 1], d, e);
        lemma_own_grows(before, after, lo);
        assert forall|j: int| 0 <= j < n implies own(
            after,
            lo,
            #[trigger] copied_fields(h, fields, n, e).1[j],
        ) by {
            if j < n - 1 {
                assert(own(before, lo, copies[j]));
            } else {
                assert(own(after, before.records.len() as int, last));
            }
        }
    } else {
        assert(own_fields(h, lo)) by {
            assert forall|q: RecIdx, j: int|
                lo <= q.0 && h.record(q) is Some && 0 <= j < h.record(q)->0.fields.len() implies own(
                h,
                lo,
                #[trigger] h.record(q)->0.fields[j],
            ) by {
                assert(false);
            }
        }
    }
}

/// The records of keys once a value is stored under a key: the copy of a new key is made of
/// records of its own.
pub open spec fn sealed_by(h: HeapView, s: Set<int>, d: DictIdx, key: Value, value: Value) -> Set<
    int,
> {
    let w = copied(h, value).0;
    if at(h.dicts, d.0 as int) is Some && entry_position(w, w.dict(d), key, key_hash(h, key), 0)
        is None {
        let x = copied(w, key).0;
        s.union(Set::new(|r: int| w.records.len() <= r < x.records.len()))
    } else {
        s
    }
}

proof fn lemma_overwritten(h: HeapView, s: Set<int>, d: DictIdx, key: Value, value: Value)
    requires
        orderly(h, s),
        free(h, s, key),
        free(h, s, value),
        hashable(h, key),
        at(h.dicts, d.0 as int) is Some,
        entry_position(
            copied(h, value).0,
            copied(h, value).0.dict(d),
            key,
            key_hash(h, key),
            0,
        ) is Some,
    ensures
        orderly(inserted(h, d, key, value, key_hash(h, key)), s),
        wider(h, s, inserted(h, d, key, value, key_hash(h, key)), s),
{
    let (w, copy) = copied(h, value);
    let hash = key_hash(h, key);
    let g = inserted(h, d, key, value, hash);
    lemma_copied(h, s, value);
    lemma_copies_grow(h, value, h.records.len());
    assert(wider(h, s, g, s)) by {
        reveal(wider);
    }
    if g.records.len() <= usize::MAX {
        lemma_canonical(h, s, key, h.records.len());
        assert(keyed(h, h.dict(d))) by {
            reveal(orderly);
        }
        assert(storable(h, d, key, value));
        law_dicts_stay_keyed(h, d, key, value);
        let p = entry_position(w, w.dict(d), key, hash, 0)->0;
        lemma_position_below(w, w.dict(d), key, hash, 0);
        reveal(orderly);
        assert forall|e: DictIdx| e != d implies #[trigger] g.dict(e) == w.dict(e) by {
            assert(at(g.dicts, e.0 as int) == at(w.dicts, e.0 as int));
        }
        assert(g.dict(d).entries == w.dict(d).entries.update(
            p as int,
            (w.dict(d).entries[p as int].0, copy),
        ));
        assert(lists_free(g, s)) by {
            assert forall|l: ListIdx, j: int| 0 <= j < g.items(l).len() implies free(
                g,
                s,
                #[trigger] g.items(l)[j],
            ) by {
                assert(free(w, s, w.items(l)[j]));
            }
        }
        assert(cells_free(g, s)) by {
            assert forall|c: CellIdx|
                (#[trigger] g.cell(c)) is Some && g.cell(c)->0.value is Some implies free(
                g,
                s,
                g.cell(c)->0.value->0,
            ) by {
                assert(free(w, s, w.cell(c)->0.value->0));
            }
        }
        assert(records_sealed(g, s)) by {
            assert forall|r: RecIdx, j: int|
                g.record(r) is Some && 0 <= j < g.record(r)->0.fields.len() implies if s.contains(
                r.0 as int,
            ) {
                sealed(g, s, #[trigger] g.record(r)->0.fields[j])
            } else {
                free(g, s, g.record(r)->0.fields[j])
            } by {
                let f = w.record(r)->0.fields[j];
                if s.contains(r.0 as int) {
                    assert(sealed(w, s, f));
                } else {
                    assert(free(w, s, f));
                }
            }
        }
        assert(dicts_sealed(g, s)) by {
            assert forall|e: DictIdx, j: int| 0 <= j < g.dict(e).entries.len() implies sealed(
                g,
                s,
                (#[trigger] g.dict(e).entries[j]).0,
            ) && free(g, s, g.dict(e).entries[j].1) by {
                assert(sealed(w, s, w.dict(e).entries[j].0));
            }
        }
        assert forall|e: DictIdx| keyed(g, #[trigger] g.dict(e)) by {
            if e != d {
                assert(keyed(w, w.dict(e)));
                lemma_keyed_grows(w, g, w.dict(e));
            }
        }
    } else {
        reveal(orderly);
    }
}

pub proof fn lemma_position_below(h: HeapView, d: DictView, key: Value, hash: u64, from: nat)
    ensures
        entry_position(h, d, key, hash, from) is Some ==> entry_position(
            h,
            d,
            key,
            hash,
            from,
        )->0 < d.entries.len(),
    decreases d.entries.len() - from,
{
    if from < d.entries.len() && from < d.hashes.len() {
        lemma_position_below(h, d, key, hash, from + 1);
    }
}

proof fn lemma_appended(h: HeapView, s: Set<int>, d: DictIdx, key: Value, value: Value)
    requires
        orderly(h, s),
        free(h, s, key),
        free(h, s, value),
        hashable(h, key),
        at(h.dicts, d.0 as int) is Some,
        entry_position(
            copied(h, value).0,
            copied(h, value).0.dict(d),
            key,
            key_hash(h, key),
            0,
        ) is None,
    ensures
        ({
            let g = inserted(h, d, key, value, key_hash(h, key));
            let t = sealed_by(h, s, d, key, value);
            orderly(g, t) && wider(h, s, g, t)
        }),
{
    let (w, copy) = copied(h, value);
    let (x, k) = copied(w, key);
    let hash = key_hash(h, key);
    let g = inserted(h, d, key, value, hash);
    let t = sealed_by(h, s, d, key, value);
    lemma_copied(h, s, value);
    lemma_copies_grow(h, value, h.records.len());
    lemma_copies_grow(w, key, w.records.len());
    assert(wider(w, s, g, t)) by {
        reveal(wider);
    }
    lemma_wider_trans(h, s, w, s, g, t);
    if g.records.len() <= usize::MAX {
        lemma_canonical(h, s, key, h.records.len());
        assert(keyed(h, h.dict(d))) by {
            reveal(orderly);
        }
        assert(storable(h, d, key, value));
        law_dicts_stay_keyed(h, d, key, value);
        lemma_wider(h, s, w, s, key);
        lemma_hashable_grows(h, w, key, h.records.len(), w.records.len());
        let lo = w.records.len() as int;
        lemma_key_copy(w, s, key, w.records.len(), w.records.len());
        reveal(orderly);
        assert forall|v: Value| #[trigger] free(w, s, v) implies free(g, t, v) by {}
        assert forall|v: Value| #[trigger] sealed(w, s, v) implies sealed(g, t, v) by {}
        assert forall|v: Value| #[trigger] own(x, lo, v) implies sealed(g, t, v) by {}
        assert(own(x, lo, k));
        assert forall|e: DictIdx| e != d implies #[trigger] g.dict(e) == w.dict(e) by {
            assert(at(g.dicts, e.0 as int) == at(w.dicts, e.0 as int));
        }
        assert(g.dict(d).entries == w.dict(d).entries.push((k, copy)));
        assert(lists_free(g, t)) by {
            assert forall|l: ListIdx, j: int| 0 <= j < g.items(l).len() implies free(
                g,
                t,
                #[trigger] g.items(l)[j],
            ) by {
                assert(x.lists == w.lists) by {
                    lemma_copies_touch_records(w, key, w.records.len());
                }
                assert(free(w, s, w.items(l)[j]));
            }
        }
        assert(cells_free(g, t)) by {
            assert forall|c: CellIdx|
                (#[trigger] g.cell(c)) is Some && g.cell(c)->0.value is Some implies free(
                g,
                t,
                g.cell(c)->0.value->0,
            ) by {
                assert(x.cells == w.cells) by {
                    lemma_copies_touch_records(w, key, w.records.len());
                }
                assert(free(w, s, w.cell(c)->0.value->0));
            }
        }
        assert(records_sealed(g, t)) by {
            assert forall|r: RecIdx, j: int|
                g.record(r) is Some && 0 <= j < g.record(r)->0.fields.len() implies if t.contains(
                r.0 as int,
            ) {
                sealed(g, t, #[trigger] g.record(r)->0.fields[j])
            } else {
                free(g, t, g.record(r)->0.fields[j])
            } by {
                if r.0 < lo {
                    assert(g.records[r.0 as int] == w.records[r.0 as int]);
                    let f = w.record(r)->0.fields[j];
                    if s.contains(r.0 as int) {
                        assert(sealed(w, s, f));
                    } else {
                        assert(free(w, s, f));
                    }
                } else {
                    assert(own(x, lo, x.record(r)->0.fields[j]));
                }
            }
        }
        assert(dicts_sealed(g, t)) by {
            assert forall|e: DictIdx, j: int| 0 <= j < g.dict(e).entries.len() implies sealed(
                g,
                t,
                (#[trigger] g.dict(e).entries[j]).0,
            ) && free(g, t, g.dict(e).entries[j].1) by {
                if j < w.dict(e).entries.len() {
                    assert(sealed(w, s, w.dict(e).entries[j].0));
                    assert(free(w, s, w.dict(e).entries[j].1));
                }
            }
        }
        assert forall|e: DictIdx| keyed(g, #[trigger] g.dict(e)) by {
            if e != d {
                assert(keyed(w, w.dict(e)));
                lemma_keyed_grows(w, g, w.dict(e));
            }
        }
    } else {
        reveal(orderly);
    }
}

proof fn lemma_copies_touch_records(h: HeapView, v: Value, depth: nat)
    ensures
        copied_within(h, v, depth).0.lists == h.lists,
        copied_within(h, v, depth).0.cells == h.cells,
    decreases depth, 0nat,
{
    if v is Record && depth > 0 && copied_on_bind(h, v->Record_0) {
        let rec = h.record(v->Record_0)->0;
        lemma_field_copies_touch_records(h, rec.fields, rec.fields.len(), (depth - 1) as nat);
    }
}

proof fn lemma_field_copies_touch_records(h: HeapView, fields: Seq<Value>, n: nat, depth: nat)
    ensures
        copied_fields(h, fields, n, depth).0.lists == h.lists,
        copied_fields(h, fields, n, depth).0.cells == h.cells,
    decreases depth, n + 1,
{
    if n > 0 && n <= fields.len() {
        lemma_field_copies_touch_records(h, fields, (n - 1) as nat, depth);
        let before = copied_fields(h, fields, (n - 1) as nat, depth).0;
        lemma_copies_touch_records(before, fields[n - 1], depth);
    }
}

/// Storing a free value under a free key that may be one leaves an orderly heap.
pub proof fn lemma_inserted(h: HeapView, s: Set<int>, d: DictIdx, key: Value, value: Value)
    requires
        orderly(h, s),
        free(h, s, key),
        free(h, s, value),
        hashable(h, key),
    ensures
        ({
            let g = inserted(h, d, key, value, key_hash(h, key));
            let t = sealed_by(h, s, d, key, value);
            orderly(g, t) && wider(h, s, g, t)
        }),
{
    let (w, copy) = copied(h, value);
    if at(h.dicts, d.0 as int) is None {
        lemma_copied(h, s, value);
        lemma_wider(h, s, w, s, key);
        lemma_copied(w, s, key);
        let x = copied(w, key).0;
        lemma_copies_grow(h, value, h.records.len());
        lemma_copies_grow(w, key, w.records.len());
        assert(entry_position(w, w.dict(d), key, key_hash(h, key), 0) is None);
        lemma_aside(x, s, inserted(h, d, key, value, key_hash(h, key)));
        lemma_wider_trans(h, s, w, s, x, s);
        assert(inserted(h, d, key, value, key_hash(h, key)) == x);
    } else if entry_position(w, w.dict(d), key, key_hash(h, key), 0) is Some {
        lemma_overwritten(h, s, d, key, value);
    } else {
        lemma_appended(h, s, d, key, value);
    }
}

proof fn lemma_entry_ref(entries: Seq<(Value, Value)>, i: int)
    requires
        0 <= i < entries.len(),
        value_ref(entries[i].0) is Some,
    ensures
        entry_refs(entries).contains(value_ref(entries[i].0)->0),
    decreases entries.len(),
{
    let r = value_ref(entries[i].0)->0;
    let rest = entries.drop_last();
    let all = entry_refs(entries);
    let keyed_refs = with_value(entry_refs(rest), entries.last().0);
    if i == entries.len() - 1 {
        assert(keyed_refs.last() == r);
        assert(all[keyed_refs.len() - 1] == r);
    } else {
        assert(rest[i] == entries[i]);
        lemma_entry_ref(rest, i);
        let refs = entry_refs(rest);
        let k = choose|k: int| 0 <= k < refs.len() && refs[k] == r;
        assert(all[k] == r);
    }
}

/// What the roots lead to is the same key after a collection.
proof fn lemma_reachable_intact(h: HeapView, roots: Seq<Ref>, v: Value, d: nat)
    requires
        value_ref(v) is Some ==> reachable(h, roots, value_ref(v)->0),
    ensures
        intact(h, collected(h, roots), v, d),
    decreases d,
{
    let g = collected(h, roots);
    if value_ref(v) is Some {
        law_exactly_the_reachable_survives(h, roots, value_ref(v)->0);
    }
    if let Value::Record(r) = v {
        if h.record(r) is Some {
            let rec = h.record(r)->0;
            let p = value_ref(v)->0;
            let n = choose|n: nat| reached(h, roots, p, n);
            let t = Ref { place: Place::Types, index: rec.type_idx.0 };
            let all = children(h, p);
            assert(all.last() == t);
            assert(all.contains(t));
            assert(reached(h, roots, t, n + 1));
            law_exactly_the_reachable_survives(h, roots, t);
            if d > 0 {
                assert forall|j: int| 0 <= j < rec.fields.len() implies intact(
                    h,
                    g,
                    #[trigger] rec.fields[j],
                    (d - 1) as nat,
                ) by {
                    let f = rec.fields[j];
                    if value_ref(f) is Some {
                        let q = value_ref(f)->0;
                        lemma_values_are_roots(rec.fields, f);
                        let refs = value_refs(rec.fields);
                        let k = choose|k: int| 0 <= k < refs.len() && refs[k] == q;
                        assert(all[k] == q);
                        assert(all.contains(q));
                        assert(reached(h, roots, q, n + 1));
                    }
                    lemma_reachable_intact(h, roots, f, (d - 1) as nat);
                }
            }
        }
    }
}

/// A collection leaves an orderly heap.
pub proof fn lemma_collected(h: HeapView, s: Set<int>, roots: Seq<Ref>)
    requires
        orderly(h, s),
    ensures
        orderly(collected(h, roots), s),
        wider(h, s, collected(h, roots), s),
{
    let g = collected(h, roots);
    assert(g.strings.len() == h.strings.len() && g.bytes.len() == h.bytes.len() && g.bigs.len()
        == h.bigs.len() && g.records.len() == h.records.len()) by {
        reveal(collected);
    }
    reveal(orderly);
    reveal(wider);
    if g.records.len() <= usize::MAX {
        assert forall|l: ListIdx, j: int| 0 <= j < g.items(l).len() implies free(
            g,
            s,
            #[trigger] g.items(l)[j],
        ) by {
            law_exactly_the_reachable_survives(h, roots, Ref { place: Place::Lists, index: l.0 });
            assert(free(h, s, h.items(l)[j]));
        }
        assert forall|d: DictIdx, j: int| 0 <= j < g.dict(d).entries.len() implies sealed(
            g,
            s,
            (#[trigger] g.dict(d).entries[j]).0,
        ) && free(g, s, g.dict(d).entries[j].1) by {
            law_exactly_the_reachable_survives(h, roots, Ref { place: Place::Dicts, index: d.0 });
            assert(sealed(h, s, h.dict(d).entries[j].0));
        }
        assert forall|c: CellIdx|
            (#[trigger] g.cell(c)) is Some && g.cell(c)->0.value is Some implies free(
            g,
            s,
            g.cell(c)->0.value->0,
        ) by {
            law_exactly_the_reachable_survives(h, roots, Ref { place: Place::Cells, index: c.0 });
            assert(free(h, s, h.cell(c)->0.value->0));
        }
        assert forall|r: RecIdx, j: int|
            g.record(r) is Some && 0 <= j < g.record(r)->0.fields.len() implies if s.contains(
            r.0 as int,
        ) {
            sealed(g, s, #[trigger] g.record(r)->0.fields[j])
        } else {
            free(g, s, g.record(r)->0.fields[j])
        } by {
            law_exactly_the_reachable_survives(h, roots, Ref { place: Place::Records, index: r.0 });
            let f = h.record(r)->0.fields[j];
            if s.contains(r.0 as int) {
                assert(sealed(h, s, f));
            } else {
                assert(free(h, s, f));
            }
        }
        assert forall|d: DictIdx| keyed(g, #[trigger] g.dict(d)) by {
            let p = Ref { place: Place::Dicts, index: d.0 };
            law_exactly_the_reachable_survives(h, roots, p);
            if reachable(h, roots, p) && at(h.dicts, d.0 as int) is Some {
                let e = h.dict(d);
                assert(keyed(h, e));
                let n = choose|n: nat| reached(h, roots, p, n);
                assert forall|i: int| 0 <= i < e.entries.len() implies intact(
                    h,
                    g,
                    (#[trigger] e.entries[i]).0,
                    h.records.len(),
                ) by {
                    let v = e.entries[i].0;
                    if value_ref(v) is Some {
                        lemma_entry_ref(e.entries, i);
                        assert(children(h, p).contains(value_ref(v)->0));
                        assert(reached(h, roots, value_ref(v)->0, n + 1));
                    }
                    lemma_reachable_intact(h, roots, v, h.records.len());
                }
                lemma_keyed_intact(h, g, e);
            }
        }
    }
}

/// Whether the values in a detail are free.
pub open spec fn detail_free(h: HeapView, s: Set<int>, d: DetailView) -> bool
    decreases d,
{
    match d {
        DetailView::Value(v) => free(h, s, v),
        DetailView::List(items) => forall|i: int|
            0 <= i < items.len() ==> detail_free(h, s, #[trigger] items[i]),
        DetailView::Dict(items) => forall|i: int|
            0 <= i < items.len() ==> detail_free(h, s, (#[trigger] items[i]).1),
        _ => true,
    }
}

/// Whether the values in the details of an exception are free.
pub open spec fn details_free(h: HeapView, s: Set<int>, items: Seq<(Seq<char>, DetailView)>) -> bool {
    forall|i: int| 0 <= i < items.len() ==> detail_free(h, s, (#[trigger] items[i]).1)
}

proof fn lemma_detail_wider(h: HeapView, s: Set<int>, g: HeapView, t: Set<int>, d: DetailView)
    requires
        wider(h, s, g, t),
        detail_free(h, s, d),
    ensures
        detail_free(g, t, d),
    decreases d,
{
    match d {
        DetailView::Value(v) => lemma_wider(h, s, g, t, v),
        DetailView::List(items) => {
            assert forall|i: int| 0 <= i < items.len() implies detail_free(
                g,
                t,
                #[trigger] items[i],
            ) by {
                lemma_detail_wider(h, s, g, t, items[i]);
            }
        },
        DetailView::Dict(items) => {
            assert forall|i: int| 0 <= i < items.len() implies detail_free(
                g,
                t,
                (#[trigger] items[i]).1,
            ) by {
                lemma_detail_wider(h, s, g, t, items[i].1);
            }
        },
        _ => {},
    }
}

pub proof fn lemma_details_wider(
    h: HeapView,
    s: Set<int>,
    g: HeapView,
    t: Set<int>,
    items: Seq<(Seq<char>, DetailView)>,
)
    requires
        wider(h, s, g, t),
        details_free(h, s, items),
    ensures
        details_free(g, t, items),
{
    assert forall|i: int| 0 <= i < items.len() implies detail_free(
        g,
        t,
        (#[trigger] items[i]).1,
    ) by {
        lemma_detail_wider(h, s, g, t, items[i].1);
    }
}

pub proof fn lemma_text(h: HeapView, s: Set<int>, text: Seq<char>)
    requires
        orderly(h, s),
    ensures
        orderly(h.new_string(text), s),
        wider(h, s, h.new_string(text), s),
        free(h.new_string(text), s, Value::Str(StrIdx(h.strings.len() as usize))),
{
    lemma_aside(h, s, h.new_string(text));
}

proof fn lemma_detail_value(h: HeapView, s: Set<int>, d: DetailView) -> (t: Set<int>)
    requires
        orderly(h, s),
        detail_free(h, s, d),
    ensures
        orderly(detail_value(h, d).0, t),
        wider(h, s, detail_value(h, d).0, t),
        free(detail_value(h, d).0, t, detail_value(h, d).1),
    decreases d, 0nat,
{
    lemma_wider_refl(h, s);
    match d {
        DetailView::Str(text) => {
            lemma_text(h, s, nfc_text(text));
            s
        },
        DetailView::List(items) => {
            let t = lemma_detail_items(h, s, items, items.len());
            let (after, values) = detail_items(h, items, items.len());
            lemma_new_list(after, t, values);
            lemma_wider_trans(h, s, after, t, after.new_list(values), t);
            t
        },
        DetailView::Dict(items) => {
            let idx = DictIdx(h.dicts.len() as usize);
            lemma_new_dict(h, s);
            lemma_details_wider(h, s, h.new_dict(), s, items);
            let t = lemma_detail_entries(h.new_dict(), s, idx, items, items.len());
            lemma_wider_trans(h, s, h.new_dict(), s, detail_value(h, d).0, t);
            t
        },
        _ => s,
    }
}

proof fn lemma_detail_items(h: HeapView, s: Set<int>, items: Seq<DetailView>, n: nat) -> (t: Set<
    int,
>)
    requires
        orderly(h, s),
        n <= items.len(),
        forall|i: int| 0 <= i < items.len() ==> detail_free(h, s, #[trigger] items[i]),
    ensures
        orderly(detail_items(h, items, n).0, t),
        wider(h, s, detail_items(h, items, n).0, t),
        forall|j: int|
            0 <= j < detail_items(h, items, n).1.len() ==> free(
                detail_items(h, items, n).0,
                t,
                #[trigger] detail_items(h, items, n).1[j],
            ),
    decreases items, n,
{
    lemma_wider_refl(h, s);
    if n > 0 {
        let t = lemma_detail_items(h, s, items, (n - 1) as nat);
        let (before, values) = detail_items(h, items, (n - 1) as nat);
        lemma_detail_wider(h, s, before, t, items[n - 1]);
        let u = lemma_detail_value(before, t, items[n - 1]);
        let (after, last) = detail_value(before, items[n - 1]);
        lemma_wider_trans(h, s, before, t, after, u);
        assert forall|j: int| 0 <= j < detail_items(h, items, n).1.len() implies free(
            after,
            u,
            #[trigger] detail_items(h, items, n).1[j],
        ) by {
            if j < values.len() {
                lemma_wider(before, t, after, u, values[j]);
            }
        }
        u
    } else {
        s
    }
}

proof fn lemma_detail_entries(
    h: HeapView,
    s: Set<int>,
    idx: DictIdx,
    items: Seq<(Seq<char>, DetailView)>,
    n: nat,
) -> (t: Set<int>)
    requires
        orderly(h, s),
        n <= items.len(),
        details_free(h, s, items),
    ensures
        orderly(detail_entries(h, idx, items, n), t),
        wider(h, s, detail_entries(h, idx, items, n), t),
    decreases items, n,
{
    lemma_wider_refl(h, s);
    if n > 0 {
        let t = lemma_detail_entries(h, s, idx, items, (n - 1) as nat);
        let before = detail_entries(h, idx, items, (n - 1) as nat);
        let named = text_heap(before, items[n - 1].0);
        let key = text_value(before);
        lemma_text(before, t, nfc_text(items[n - 1].0));
        lemma_wider_trans(h, s, before, t, named, t);
        lemma_detail_wider(h, s, named, t, items[n - 1].1);
        let u = lemma_detail_value(named, t, items[n - 1].1);
        let (valued, value) = detail_value(named, items[n - 1].1);
        lemma_wider(named, t, valued, u, key);
        lemma_wider_trans(h, s, named, t, valued, u);
        lemma_inserted(valued, u, idx, key, value);
        let w = sealed_by(valued, u, idx, key, value);
        lemma_wider_trans(h, s, valued, u, detail_entries(h, idx, items, n), w);
        w
    } else {
        s
    }
}

/// Making an error leaves an orderly heap, and the error is free.
pub proof fn lemma_error_made(
    h: HeapView,
    s: Set<int>,
    error_type: TypeIdx,
    slug: Seq<char>,
    message: Seq<char>,
    details: Seq<(Seq<char>, DetailView)>,
) -> (t: Set<int>)
    requires
        orderly(h, s),
        details_free(h, s, details),
    ensures
        ({
            let (g, v) = error_made(h, error_type, slug, message, details);
            orderly(g, t) && wider(h, s, g, t) && free(g, t, v)
        }),
{
    let kinded = text_heap(h, slug);
    let told = text_heap(kinded, message);
    let listed = told.new_dict();
    let idx = DictIdx(told.dicts.len() as usize);
    lemma_text(h, s, nfc_text(slug));
    lemma_text(kinded, s, nfc_text(message));
    lemma_new_dict(told, s);
    lemma_wider_trans(h, s, kinded, s, told, s);
    lemma_wider_trans(h, s, told, s, listed, s);
    lemma_details_wider(h, s, listed, s, details);
    let t = lemma_detail_entries(listed, s, idx, details, details.len());
    let g = details_heap(told, details);
    lemma_wider_trans(kinded, s, told, s, listed, s);
    lemma_wider_trans(kinded, s, listed, s, g, t);
    lemma_wider_trans(told, s, listed, s, g, t);
    lemma_wider_trans(h, s, listed, s, g, t);
    lemma_wider(kinded, s, g, t, text_value(h));
    lemma_wider(told, s, g, t, text_value(kinded));
    let fields = seq![text_value(h), text_value(kinded), Value::Dict(idx)];
    lemma_new_record(g, t, error_type, fields);
    lemma_wider_trans(h, s, g, t, g.new_record(error_type, fields), t);
    t
}

pub broadcast proof fn lemma_texts_free(h: HeapView, s: Set<int>, items: Seq<Seq<char>>)
    ensures
        #[trigger] detail_free(h, s, text_details(items)),
{
    let all = items.map_values(|s: Seq<char>| DetailView::Str(s));
    assert forall|i: int| 0 <= i < all.len() implies detail_free(h, s, #[trigger] all[i]) by {
        assert(all[i] is Str);
    }
}

pub broadcast proof fn lemma_mismatch_free(
    h: HeapView,
    s: Set<int>,
    operator: Seq<char>,
    expected: Seq<char>,
    got: Seq<char>,
)
    ensures
        #[trigger] details_free(h, s, type_mismatch_detail(operator, expected, got)),
{
    broadcast use lemma_texts_free;

    let all = type_mismatch_detail(operator, expected, got);
    assert(all[0].1 is Str && all[2].1 is Str);
    assert(all[1].1 == text_details(seq![expected]));
    assert(detail_free(h, s, text_details(seq![expected])));
    assert forall|i: int| 0 <= i < all.len() implies detail_free(
        h,
        s,
        (#[trigger] all[i]).1,
    ) by {
        assert(i == 0 || i == 1 || i == 2);
    }
}

pub broadcast proof fn lemma_keyword_free(
    h: HeapView,
    s: Set<int>,
    callee: Option<Seq<char>>,
    keyword: Seq<char>,
    parameters: Seq<Seq<char>>,
)
    ensures
        #[trigger] details_free(h, s, unknown_keyword_detail(callee, keyword, parameters)),
{
    broadcast use lemma_texts_free;

    let all = unknown_keyword_detail(callee, keyword, parameters);
    let n = all.len() - 1;
    assert(all[n].1 == text_details(parameters));
    assert(detail_free(h, s, text_details(parameters)));
    assert forall|i: int| 0 <= i < all.len() implies detail_free(
        h,
        s,
        (#[trigger] all[i]).1,
    ) by {
        if i < n {
            assert(all[i].1 is Str);
        }
    }
}

pub broadcast proof fn lemma_module_ref_free(
    h: HeapView,
    s: Set<int>,
    path: Seq<Seq<char>>,
    importer: ModuleId,
)
    ensures
        #[trigger] details_free(h, s, module_ref_detail(path, importer)),
{
    broadcast use lemma_texts_free;

    let all = module_ref_detail(path, importer);
    assert(all[0].1 == text_details(path));
    assert(detail_free(h, s, text_details(path)));
    assert forall|i: int| 0 <= i < all.len() implies detail_free(
        h,
        s,
        (#[trigger] all[i]).1,
    ) by {
        assert(i == 0 || all[i].1 is Int);
    }
}

pub proof fn lemma_module_load_free(
    h: HeapView,
    s: Set<int>,
    path: Seq<Seq<char>>,
    canonical_id: Seq<char>,
    diagnostics: Seq<DiagnosticView>,
)
    ensures
        details_free(h, s, module_load_detail(path, canonical_id, diagnostics)),
{
    broadcast use lemma_texts_free;

    let all = module_load_detail(path, canonical_id, diagnostics);
    let list = diagnostics.map_values(|d: DiagnosticView| diagnostic_detail(d));
    assert(all[0].1 == text_details(path));
    assert(detail_free(h, s, text_details(path)));
    assert(all[1].1 is Str);
    assert forall|i: int| 0 <= i < list.len() implies detail_free(h, s, #[trigger] list[i]) by {
        let entry = list[i]->Dict_0;
        assert(list[i] == diagnostic_detail(diagnostics[i]));
        assert forall|k: int| 0 <= k < entry.len() implies detail_free(
            h,
            s,
            (#[trigger] entry[k]).1,
        ) by {
            if k < 3 {
                assert(entry[k].1 is Str);
            } else {
                let span = entry[k].1->Dict_0;
                assert forall|j: int| 0 <= j < span.len() implies detail_free(
                    h,
                    s,
                    (#[trigger] span[j]).1,
                ) by {
                    assert(span[j].1 is Int);
                }
            }
        }
    }
    assert(detail_free(h, s, DetailView::List(list)));
    assert forall|i: int| 0 <= i < all.len() implies detail_free(
        h,
        s,
        (#[trigger] all[i]).1,
    ) by {
        assert(i == 0 || i == 1 || all[i].1 == DetailView::List(list));
    }
}

pub broadcast group group_details {
    lemma_texts_free,
    lemma_mismatch_free,
    lemma_keyword_free,
    lemma_module_ref_free,
}

} // verus!
