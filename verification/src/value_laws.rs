//! What values are: when two of them are equal, what reading a part of one gives, what storing
//! in one keeps, and how one is written.

use crate::bignum::decimal_text;
use crate::binding_laws::bindable;
use crate::binding_laws::bound_afresh;
use crate::binding_laws::law_copies_are_made_afresh;
use crate::binding_laws::lemma_only_records;
use crate::compare::agree;
use crate::compare::same;
use crate::dict::entry_position;
use crate::dict::inserted;
use crate::dynamic::restored;
use crate::dynamic::restored_heap;
use crate::error::ExceptionKind;
use crate::error::RaiseView;
use crate::float::finite;
use crate::float::float_text_fixed;
use crate::float::float_text_shortest;
use crate::float::integral;
use crate::heap::at;
use crate::heap::HeapView;
use crate::heap::RecordView;
use crate::heap::SchemaView;
use crate::import_laws::law_modules_show_what_they_export;
use crate::import_laws::shows;
use crate::machine::MachineView;
use crate::modload::LoadedModule;
use crate::modload::LoadView;
use crate::named::named;
use crate::named::named_view;
use crate::number::number;
use crate::object::field_named;
use crate::object::field_reading;
use crate::record::copied;
use crate::record::copied_fields;
use crate::record::copied_on_bind;
use crate::record::copied_within;
use crate::render::value_text;
use crate::span::ModuleId;
use crate::span::Span;
use crate::value::CellIdx;
use crate::value::DictIdx;
use crate::value::ListIdx;
use crate::value::RecIdx;
use crate::value::Value;
use vstd::prelude::*;

verus! {

/// Two lists are equal if they are one list, or if they are as long and equal item by item.
pub proof fn law_lists_are_equal_by_their_items(h: HeapView, x: ListIdx, y: ListIdx)
    ensures
        same(h, Value::List(x), Value::List(y)) <==> x == y || {
            &&& h.items(x).len() == h.items(y).len()
            &&& forall|i: int|
                0 <= i < h.items(x).len() ==> same(h, #[trigger] h.items(x)[i], h.items(y)[i])
        },
{
    let (a, b) = (Value::List(x), Value::List(y));
    if same(h, a, b) && x != y {
        assert(agree(h, 1, a, b));
        assert forall|i: int| 0 <= i < h.items(x).len() implies same(
            h,
            #[trigger] h.items(x)[i],
            h.items(y)[i],
        ) by {
            assert forall|k: nat| #[trigger] agree(h, k, h.items(x)[i], h.items(y)[i]) by {
                assert(agree(h, k + 1, a, b));
            }
        }
    }
    if x == y || (h.items(x).len() == h.items(y).len() && forall|i: int|
        0 <= i < h.items(x).len() ==> same(h, #[trigger] h.items(x)[i], h.items(y)[i])) {
        assert forall|k: nat| #[trigger] agree(h, k, a, b) by {
            if x != y && k > 0 {
                assert forall|i: int| 0 <= i < h.items(x).len() implies agree(
                    h,
                    (k - 1) as nat,
                    #[trigger] h.items(x)[i],
                    h.items(y)[i],
                ) by {
                    assert(same(h, h.items(x)[i], h.items(y)[i]));
                }
            }
        }
    }
}

/// Two records are equal if they are one record, or if they are of one type and equal field by
/// field.
pub proof fn law_records_are_equal_by_their_fields(
    h: HeapView,
    x: RecIdx,
    y: RecIdx,
    r: RecordView,
    s: RecordView,
)
    requires
        h.record(x) == Some(r),
        h.record(y) == Some(s),
    ensures
        same(h, Value::Record(x), Value::Record(y)) <==> x == y || {
            &&& r.type_idx == s.type_idx
            &&& r.fields.len() == s.fields.len()
            &&& forall|i: int|
                0 <= i < r.fields.len() ==> same(h, #[trigger] r.fields[i], s.fields[i])
        },
{
    let (a, b) = (Value::Record(x), Value::Record(y));
    if same(h, a, b) && x != y {
        assert(agree(h, 1, a, b));
        assert forall|i: int| 0 <= i < r.fields.len() implies same(
            h,
            #[trigger] r.fields[i],
            s.fields[i],
        ) by {
            assert forall|k: nat| #[trigger] agree(h, k, r.fields[i], s.fields[i]) by {
                assert(agree(h, k + 1, a, b));
            }
        }
    }
    if x == y || (r.type_idx == s.type_idx && r.fields.len() == s.fields.len() && forall|i: int|
        0 <= i < r.fields.len() ==> same(h, #[trigger] r.fields[i], s.fields[i])) {
        assert forall|k: nat| #[trigger] agree(h, k, a, b) by {
            if x != y && k > 0 {
                assert forall|i: int| 0 <= i < r.fields.len() implies agree(
                    h,
                    (k - 1) as nat,
                    #[trigger] r.fields[i],
                    s.fields[i],
                ) by {
                    assert(same(h, r.fields[i], s.fields[i]));
                }
            }
        }
    }
}

/// Numbers are equal by what they are exactly, whatever their kind; strings and byte strings
/// by what they hold; what has an identity by that; and values of two kinds are not equal.
pub proof fn law_plain_values_are_equal_by_what_they_are(h: HeapView, a: Value, b: Value)
    ensures
        number(h, a) is Some && number(h, b) is Some ==> (same(h, a, b) <==> number(
            h,
            a,
        )->0.exact() == number(h, b)->0.exact()),
        number(h, a) is Some && number(h, b) is None ==> !same(h, a, b),
        a is Nil ==> (same(h, a, b) <==> b is Nil),
        a is Bool ==> (same(h, a, b) <==> a == b),
        a is Str ==> (same(h, a, b) <==> b is Str && h.text(a->Str_0) == h.text(b->Str_0)),
        a is Bytes ==> (same(h, a, b) <==> b is Bytes && h.bytes_of(a->Bytes_0) == h.bytes_of(
            b->Bytes_0,
        )),
        a is Callable || a is Module || a is Type || a is Foreign ==> (same(h, a, b) <==> a == b),
        a is List ==> same(h, a, b) ==> b is List,
        a is Dict ==> same(h, a, b) ==> b is Dict,
        a is Record ==> same(h, a, b) ==> b is Record,
{
    assert(same(h, a, b) ==> agree(h, 0, a, b));
}

/// A value that replaces another in a dict is bound there, under the key that was there.
pub proof fn law_replaced_dict_values_bind_afresh(
    h: HeapView,
    idx: DictIdx,
    key: Value,
    v: Value,
    hash: u64,
    p: nat,
)
    requires
        at(h.dicts, idx.0 as int) is Some,
        bindable(h, v),
        entry_position(copied(h, v).0, h.dict(idx), key, hash, 0) == Some(p),
        p < h.dict(idx).entries.len(),
    ensures
        ({
            let z = inserted(h, idx, key, v, hash);
            let d = z.dict(idx);
            &&& bound_afresh(h, v, HeapView { dicts: h.dicts, ..z }, d.entries[p as int].1)
            &&& d.entries[p as int].0 == h.dict(idx).entries[p as int].0
            &&& d.entries.len() == h.dict(idx).entries.len()
            &&& d.hashes == h.dict(idx).hashes
            &&& forall|i: int|
                0 <= i < d.entries.len() && i != p ==> #[trigger] d.entries[i] == h.dict(
                    idx,
                ).entries[i]
            &&& forall|other: DictIdx|
                other.0 != idx.0 ==> #[trigger] z.dict(other) == h.dict(other)
        }),
{
    law_copies_are_made_afresh(h, v);
    lemma_only_records(h, v);
    let z = inserted(h, idx, key, v, hash);
    let (g, w) = copied(h, v);
    assert(HeapView { dicts: h.dicts, ..z } == g);
}

/// A value under a new key of a dict is bound there, after all others; and so is the key.
pub proof fn law_new_dict_entries_bind_afresh(
    h: HeapView,
    idx: DictIdx,
    key: Value,
    v: Value,
    hash: u64,
)
    requires
        at(h.dicts, idx.0 as int) is Some,
        bindable(h, v),
        entry_position(copied(h, v).0, h.dict(idx), key, hash, 0) is None,
        !(v is Record) ==> bindable(h, key),
    ensures
        ({
            let z = inserted(h, idx, key, v, hash);
            let (d, n) = (z.dict(idx), h.dict(idx).entries.len() as int);
            &&& d.entries.len() == n + 1
            &&& d.entries.take(n) == h.dict(idx).entries
            &&& d.hashes == h.dict(idx).hashes.push(hash)
            &&& !(key is Record) ==> bound_afresh(
                h,
                v,
                HeapView { dicts: h.dicts, ..z },
                d.entries[n].1,
            ) && d.entries[n].0 == key
            &&& !(v is Record) ==> bound_afresh(
                h,
                key,
                HeapView { dicts: h.dicts, ..z },
                d.entries[n].0,
            ) && d.entries[n].1 == v
        }),
{
    law_copies_are_made_afresh(h, v);
    lemma_only_records(h, v);
    let z = inserted(h, idx, key, v, hash);
    let (g, w) = copied(h, v);
    if !(key is Record) {
        assert(copied(g, key) == (g, key));
        assert(HeapView { dicts: h.dicts, ..z } == g);
        assert(z.dict(idx).entries.take(h.dict(idx).entries.len() as int) =~= h.dict(idx).entries);
    }
    if !(v is Record) {
        assert(copied(h, v) == (h, v));
        law_copies_are_made_afresh(h, key);
        lemma_only_records(h, key);
        let (f, c) = copied(h, key);
        assert(HeapView { dicts: h.dicts, ..z } == f);
        assert(z.dict(idx).entries.take(h.dict(idx).entries.len() as int) =~= h.dict(idx).entries);
    }
    if key is Record && v is Record {
        lemma_other_tables(g, key, g.records.len());
        assert(z.dict(idx).entries.take(h.dict(idx).entries.len() as int) =~= h.dict(idx).entries);
    }
}

/// Copying changes records alone.
pub proof fn lemma_other_tables(h: HeapView, v: Value, depth: nat)
    ensures
        copied_within(h, v, depth).0.dicts == h.dicts,
        copied_within(h, v, depth).0.strings == h.strings,
    decreases depth, 0nat,
{
    match v {
        Value::Record(r) => {
            if depth > 0 && copied_on_bind(h, r) {
                let rec = h.record(r)->0;
                lemma_other_tables_of_fields(h, rec.fields, rec.fields.len(), (depth - 1) as nat);
            }
        },
        _ => {},
    }
}

proof fn lemma_other_tables_of_fields(h: HeapView, fields: Seq<Value>, n: nat, depth: nat)
    ensures
        copied_fields(h, fields, n, depth).0.dicts == h.dicts,
        copied_fields(h, fields, n, depth).0.strings == h.strings,
    decreases depth, n + 1,
{
    if n > 0 && n <= fields.len() {
        lemma_other_tables_of_fields(h, fields, (n - 1) as nat, depth);
        lemma_other_tables(
            copied_fields(h, fields, (n - 1) as nat, depth).0,
            fields[n - 1],
            depth,
        );
    }
}

/// A field of a record is the one at the place that its type gives the name, and a member of a
/// module is what the module's own cell of that name has, where the module shows it.
pub proof fn law_fields_are_read_by_name(
    modules: Seq<LoadedModule>,
    load: LoadView,
    h: HeapView,
    r: RecIdx,
    rec: RecordView,
    schema: SchemaView,
    p: nat,
    w: ModuleId,
    name: Seq<char>,
    span: Span,
)
    requires
        h.record(r) == Some(rec),
        h.schema(rec.type_idx) == Some(schema),
        rec.fields.len() == schema.fields.len(),
        p <= schema.fields.len(),
        forall|i: int| 0 <= i < p ==> #[trigger] schema.fields[i] != name,
        w.0 < modules.len(),
    ensures
        p < schema.fields.len() && schema.fields[p as int] == name ==> field_reading(
            modules,
            load,
            h,
            Value::Record(r),
            name,
            span,
        ) == Ok::<Value, RaiseView>(rec.fields[p as int]),
        p == schema.fields.len() ==> field_reading(
            modules,
            load,
            h,
            Value::Record(r),
            name,
            span,
        ) is Err,
        ({
            let m = modules[w.0 as int];
            let read = field_reading(modules, load, h, Value::Module(w), name, span);
            &&& shows(m.resolved, name) ==> (named(
                named_view(m.namespace@),
                name,
            ) matches Some(cell) ==> match h.cell_value(cell) {
                Some(v) => read == Ok::<Value, RaiseView>(v),
                None => read is Err && read->Err_0.kind == ExceptionKind::UsedBeforeDefined,
            })
            &&& !shows(m.resolved, name) ==> read is Err
        }),
{
    lemma_field_place(schema.fields, name, 0, p);
    law_modules_show_what_they_export(modules, w, name);
}

proof fn lemma_field_place(fields: Seq<Seq<char>>, name: Seq<char>, from: nat, p: nat)
    requires
        from <= p <= fields.len(),
        forall|i: int| from <= i < p ==> #[trigger] fields[i] != name,
    ensures
        p < fields.len() && fields[p as int] == name ==> field_named(fields, name, from) == Some(p),
        p == fields.len() ==> field_named(fields, name, from) is None,
    decreases p - from,
{
    if from < p {
        assert(fields[from as int] != name);
        lemma_field_place(fields, name, from + 1, p);
    }
}

/// What a `with` rebound has its old value back after it, and nothing else has changed; what
/// was rebound before it stays so.
pub proof fn law_rebound_parameters_are_restored(
    h: HeapView,
    m: MachineView,
    cell: CellIdx,
    old_value: Value,
)
    requires
        m.dyn_stack.len() > 0,
        m.dyn_stack.last() == (cell, old_value),
        h.cell(cell) is Some,
    ensures
        ({
            let (g, z) = restored(h, m, (m.dyn_stack.len() - 1) as nat);
            &&& g.cell_value(cell) == Some(old_value)
            &&& forall|c: CellIdx| c != cell ==> #[trigger] g.cell(c) == h.cell(c)
            &&& g == (HeapView { cells: g.cells, ..h })
            &&& z == (MachineView { dyn_stack: m.dyn_stack.drop_last(), ..m })
        }),
{
    let g = h.with_cell(cell, Some(old_value));
    assert(restored_heap(g, m.dyn_stack.drop_last(), (m.dyn_stack.len() - 1) as nat) == g);
    assert(m.dyn_stack.take(m.dyn_stack.len() - 1) =~= m.dyn_stack.drop_last());
}

/// Every value has a text: a string its own, an integer its digits, and what has parts a word
/// for its kind.
pub proof fn law_values_are_written(h: HeapView, v: Value)
    ensures
        match v {
            Value::Nil => value_text(h, v) == "nil"@,
            Value::Bool(b) => value_text(h, v) == if b {
                "true"@
            } else {
                "false"@
            },
            Value::Int(n) => value_text(h, v) == decimal_text(n as int),
            Value::BigInt(i) => value_text(h, v) == decimal_text(h.big(i)),
            Value::Str(s) => value_text(h, v) == h.text(s),
            Value::Bytes(_) => value_text(h, v) == "<bytes>"@,
            Value::List(_) => value_text(h, v) == "<list>"@,
            Value::Dict(_) => value_text(h, v) == "<dict>"@,
            Value::Record(_) => value_text(h, v) == "<record>"@,
            Value::Callable(_) => value_text(h, v) == "<callable>"@,
            Value::Module(_) => value_text(h, v) == "<module>"@,
            Value::Type(_) => value_text(h, v) == "<type>"@,
            Value::Foreign(_) => value_text(h, v) == "<foreign>"@,
            Value::Float(x) => value_text(h, v) == if finite(x) && integral(x) {
                float_text_fixed(x)
            } else {
                float_text_shortest(x)
            },
        },
{
}

} // verus!
