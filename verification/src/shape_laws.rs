//! The shape of records: a record has as many fields as its type declares. What makes, copies
//! or changes records keeps it so, and then the readers of fields agree.
use crate::ast::Arg;
use crate::ast::NodeId;
use crate::binding::arguments_bound;
use crate::binding::bound;
use crate::binding::lemma_arguments_bound_lengths;
use crate::binding::ParamView;
use crate::collect::children;
use crate::collect::collected;
use crate::collect::reachable;
use crate::collect::reached;
use crate::collect::Place;
use crate::collect::Ref;
use crate::dict::inserted;
use crate::error::DetailView;
use crate::exception::detail_entries;
use crate::exception::detail_items;
use crate::exception::detail_value;
use crate::exception::error_made;
use crate::exception::text_heap;
use crate::handle::Handle;
use crate::handle::TableView;
use crate::heap::at;
use crate::heap::HeapView;
use crate::heap::RecordView;
use crate::heap::SchemaView;
use crate::inspect::item;
use crate::inspect::part;
use crate::inspect::record_read;
use crate::inspect::schema_read;
use crate::machine::MachineView;
use crate::object::constructed;
use crate::object::field_params;
use crate::object::with_field;
use crate::record::copied;
use crate::record::copied_fields;
use crate::record::copied_within;
use crate::resolve::ResolvedModule;
use crate::span::Span;
use crate::value::DictIdx;
use crate::value::Kind;
use crate::value::RecIdx;
use crate::value::TypeIdx;
use crate::value::Value;
use crate::values::read;
use crate::values::unlike;
use crate::values::ValueError;
use vstd::prelude::*;

verus! {

/// Whether a record has the fields that its type declares.
pub open spec fn fits(h: HeapView, rec: RecordView) -> bool {
    h.schema(rec.type_idx) is Some && rec.fields.len() == h.schema(rec.type_idx)->0.fields.len()
}

/// Whether every record of a heap has the fields that its type declares.
pub open spec fn records_fit(h: HeapView) -> bool {
    forall|i: int|
        (#[trigger] at(h.records, i)) is Some ==> fits(h, at(h.records, i)->0)
}

/// Whether the types of a heap, and the fit of its records, are still there in another.
pub open spec fn fit_kept(h: HeapView, g: HeapView) -> bool {
    g.types == h.types && (records_fit(h) ==> records_fit(g))
}

/// Whatever is done to the other objects, the records fit as before.
pub proof fn law_other_objects_do_not_matter(h: HeapView, g: HeapView)
    requires
        records_fit(h),
        g.records == h.records,
        g.types == h.types,
    ensures
        records_fit(g),
{
    assert forall|i: int| (#[trigger] at(g.records, i)) is Some implies fits(
        g,
        at(g.records, i)->0,
    ) by {
        assert(at(h.records, i) is Some);
    }
}

/// A new type leaves the records fitting: theirs are what they were.
pub proof fn law_new_types_leave_records_fitting(h: HeapView, kind: crate::heap::TypeView)
    requires
        records_fit(h),
    ensures
        records_fit(h.new_type(kind)),
{
    let g = h.new_type(kind);
    assert forall|i: int| (#[trigger] at(g.records, i)) is Some implies fits(
        g,
        at(g.records, i)->0,
    ) by {
        let rec = at(h.records, i)->0;
        assert(fits(h, rec));
        assert(at(g.types, rec.type_idx.0 as int) == at(h.types, rec.type_idx.0 as int));
    }
}

proof fn lemma_new_record(h: HeapView, rec: RecordView)
    requires
        records_fit(h) ==> fits(h, rec),
    ensures
        fit_kept(h, h.new_record(rec.type_idx, rec.fields)),
{
    let g = h.new_record(rec.type_idx, rec.fields);
    if records_fit(h) {
        assert forall|i: int| (#[trigger] at(g.records, i)) is Some implies fits(
            g,
            at(g.records, i)->0,
        ) by {
            if i < h.records.len() {
                assert(at(h.records, i) == at(g.records, i));
            } else {
                assert(at(g.records, i) == Some(rec));
            }
        }
    }
}

pub proof fn lemma_copies_fit(h: HeapView, v: Value, depth: nat)
    ensures
        fit_kept(h, copied_within(h, v, depth).0),
    decreases depth, 0nat,
{
    if let Value::Record(r) = v {
        if depth > 0 && crate::record::copied_on_bind(h, r) {
            let rec = h.record(r)->0;
            let (after, fields) = copied_fields(h, rec.fields, rec.fields.len(), (depth - 1) as nat);
            lemma_field_copies_fit(h, rec.fields, rec.fields.len(), (depth - 1) as nat);
            if records_fit(h) {
                assert(at(h.records, r.0 as int) is Some);
                assert(fits(h, rec));
                lemma_new_record(after, RecordView { type_idx: rec.type_idx, fields });
            }
        }
    }
}

proof fn lemma_field_copies_fit(h: HeapView, fields: Seq<Value>, n: nat, depth: nat)
    requires
        n <= fields.len(),
    ensures
        fit_kept(h, copied_fields(h, fields, n, depth).0),
        copied_fields(h, fields, n, depth).1.len() == n,
        records_fit(h) ==> records_fit(copied_fields(h, fields, n, depth).0),
    decreases depth, n + 1,
{
    if n > 0 {
        lemma_field_copies_fit(h, fields, (n - 1) as nat, depth);
        let before = copied_fields(h, fields, (n - 1) as nat, depth).0;
        lemma_copies_fit(before, fields[n - 1], depth);
    }
}

/// The copies that binding a value makes fit.
pub proof fn law_copies_fit(h: HeapView, v: Value)
    requires
        records_fit(h),
    ensures
        records_fit(copied(h, v).0),
{
    lemma_copies_fit(h, v, h.records.len());
}

pub proof fn lemma_bound_fits(
    h: HeapView,
    params: Seq<ParamView>,
    slot_count: nat,
    args: Seq<Arg>,
    values: Seq<Value>,
    callee: Option<Seq<char>>,
    span: Span,
    n: nat,
)
    ensures
        fit_kept(h, bound(h, params, slot_count, args, values, callee, span, n).heap),
    decreases n,
{
    if n > 0 && n <= args.len() && n <= values.len() {
        lemma_bound_fits(h, params, slot_count, args, values, callee, span, (n - 1) as nat);
        let b = bound(h, params, slot_count, args, values, callee, span, (n - 1) as nat);
        lemma_copies_fit(b.heap, values[n - 1], b.heap.records.len());
    }
}

/// A record that a program makes fits its type, and the others still do.
pub proof fn law_made_records_fit(
    resolved: ResolvedModule,
    h: HeapView,
    m: MachineView,
    call: NodeId,
    idx: TypeIdx,
    values: Seq<Value>,
)
    requires
        records_fit(h),
    ensures
        records_fit(constructed(resolved, h, m, call, idx, values).heap),
{
    if let (Some(crate::ast::Node::Call { args, .. }), Some(schema)) = (
        resolved.node_at(call),
        h.schema(idx),
    ) {
        let params = field_params(schema.fields);
        let span = resolved.ast.range(call);
        let n = if args@.len() < values.len() {
            args@.len()
        } else {
            values.len()
        };
        let callee = Some(schema.name);
        let b = arguments_bound(h, params, schema.fields.len(), args@, values, callee, span);
        lemma_bound_fits(h, params, schema.fields.len(), args@, values, callee, span, n);
        lemma_arguments_bound_lengths(
            h,
            params,
            schema.fields.len(),
            args@,
            values,
            callee,
            span,
        );
        lemma_new_record(
            b.heap,
            RecordView { type_idx: idx, fields: crate::object::slot_values(b.slots) },
        );
    }
}

/// Setting a field leaves the records fitting.
pub proof fn law_set_fields_fit(h: HeapView, r: RecIdx, p: nat, value: Value)
    requires
        records_fit(h),
        h.record(r) is Some,
        p < h.record(r)->0.fields.len(),
    ensures
        records_fit(with_field(h, r, p, value)),
{
    let g = with_field(h, r, p, value);
    assert forall|i: int| (#[trigger] at(g.records, i)) is Some implies fits(
        g,
        at(g.records, i)->0,
    ) by {
        assert(at(h.records, i) is Some);
        assert(fits(h, at(h.records, i)->0));
    }
}

pub proof fn lemma_insertions_fit(h: HeapView, idx: DictIdx, key: Value, value: Value, hash: u64)
    ensures
        fit_kept(h, inserted(h, idx, key, value, hash)),
{
    let (valued, copy) = copied(h, value);
    lemma_copies_fit(h, value, h.records.len());
    lemma_copies_fit(valued, key, valued.records.len());
    let keyed = copied(valued, key).0;
    let g = inserted(h, idx, key, value, hash);
    if records_fit(h) {
        if g.records == valued.records {
            law_other_objects_do_not_matter(valued, g);
        } else {
            law_other_objects_do_not_matter(keyed, g);
        }
    }
}

proof fn lemma_details_fit(h: HeapView, d: DetailView)
    ensures
        fit_kept(h, detail_value(h, d).0),
    decreases d, 0nat,
{
    match d {
        DetailView::Str(s) => {
            if records_fit(h) {
                law_other_objects_do_not_matter(h, text_heap(h, s));
            }
        },
        DetailView::List(items) => {
            lemma_detail_items_fit(h, items, items.len());
            let after = detail_items(h, items, items.len()).0;
            if records_fit(h) {
                law_other_objects_do_not_matter(after, detail_value(h, d).0);
            }
        },
        DetailView::Dict(items) => {
            if records_fit(h) {
                law_other_objects_do_not_matter(h, h.new_dict());
            }
            lemma_detail_entries_fit(
                h.new_dict(),
                DictIdx(h.dicts.len() as usize),
                items,
                items.len(),
            );
        },
        _ => {},
    }
}

proof fn lemma_detail_items_fit(h: HeapView, items: Seq<DetailView>, n: nat)
    ensures
        fit_kept(h, detail_items(h, items, n).0),
    decreases items, n,
{
    if n > 0 && n <= items.len() {
        lemma_detail_items_fit(h, items, (n - 1) as nat);
        lemma_details_fit(detail_items(h, items, (n - 1) as nat).0, items[n - 1]);
    }
}

pub proof fn lemma_detail_entries_fit(
    h: HeapView,
    idx: DictIdx,
    items: Seq<(Seq<char>, DetailView)>,
    n: nat,
)
    ensures
        fit_kept(h, detail_entries(h, idx, items, n)),
    decreases items, n,
{
    if n > 0 && n <= items.len() {
        lemma_detail_entries_fit(h, idx, items, (n - 1) as nat);
        let before = detail_entries(h, idx, items, (n - 1) as nat);
        let keyed = text_heap(before, items[n - 1].0);
        let key = crate::exception::text_value(before);
        if records_fit(before) {
            law_other_objects_do_not_matter(before, keyed);
        }
        lemma_details_fit(keyed, items[n - 1].1);
        let (valued, value) = detail_value(keyed, items[n - 1].1);
        lemma_insertions_fit(valued, idx, key, value, crate::hash::key_hash(valued, key));
    }
}

/// The error that an exception becomes fits its type, which declares three fields, and the
/// others still do.
pub proof fn law_errors_fit(
    h: HeapView,
    error_type: TypeIdx,
    slug: Seq<char>,
    message: Seq<char>,
    details: Seq<(Seq<char>, DetailView)>,
)
    requires
        records_fit(h),
        h.schema(error_type) is Some,
        h.schema(error_type)->0.fields.len() == 3,
    ensures
        records_fit(error_made(h, error_type, slug, message, details).0),
{
    let kinded = text_heap(h, slug);
    let told = text_heap(kinded, message);
    law_other_objects_do_not_matter(h, kinded);
    law_other_objects_do_not_matter(kinded, told);
    law_other_objects_do_not_matter(told, told.new_dict());
    let idx = DictIdx(told.dicts.len() as usize);
    lemma_detail_entries_fit(told.new_dict(), idx, details, details.len());
    let fields = seq![
        crate::exception::text_value(h),
        crate::exception::text_value(kinded),
        Value::Dict(idx),
    ];
    lemma_new_record(
        detail_entries(told.new_dict(), idx, details, details.len()),
        RecordView { type_idx: error_type, fields },
    );
}

/// A collection leaves the records fitting: the type of one that stays, stays.
pub proof fn law_collections_leave_records_fitting(h: HeapView, roots: Seq<Ref>)
    requires
        records_fit(h),
        h.records.len() <= usize::MAX,
    ensures
        records_fit(collected(h, roots)),
{
    reveal(collected);
    let g = collected(h, roots);
    assert forall|i: int| (#[trigger] at(g.records, i)) is Some implies fits(
        g,
        at(g.records, i)->0,
    ) by {
        let r = Ref { place: Place::Records, index: i as usize };
        assert(reachable(h, roots, r));
        assert(at(h.records, i) == at(g.records, i));
        let rec = at(h.records, i)->0;
        assert(fits(h, rec));
        let t = Ref { place: Place::Types, index: rec.type_idx.0 };
        let n = choose|n: nat| reached(h, roots, r, n);
        assert(children(h, r).last() == t);
        assert(children(h, r).contains(t));
        assert(reached(h, roots, t, n + 1));
        assert(t == (Ref { place: Place::Types, index: rec.type_idx.0 as int as usize }));
    }
}

/// Whether the readers of a record's fields agree on a handle and a position: the position
/// has a value exactly if it has a name, and exactly if it is below the number of fields; any
/// other is out of bounds for both. Of what is no record all of them say so.
pub open spec fn readers_agree(t: TableView, h: HeapView, handle: Handle, index: nat) -> bool {
    let rec = record_read(t, h, handle);
    let value = item(part(rec, |r: RecordView| r.fields), index as int);
    let name = item(part(schema_read(t, h, handle), |s: SchemaView| s.fields), index as int);
    &&& rec is Ok ==> (value is Ok <==> index < rec->Ok_0.fields.len())
    &&& rec is Ok ==> (name is Ok <==> index < rec->Ok_0.fields.len())
    &&& rec is Ok && value is Ok ==> value->Ok_0 == rec->Ok_0.fields[index as int]
    &&& rec is Ok && value is Err ==> value->Err_0 == ValueError::IndexOutOfBounds
        && name->Err_0 == ValueError::IndexOutOfBounds
    &&& !(read(t, handle)->Ok_0 is Record) ==> {
        &&& rec == Err::<RecordView, ValueError>(unlike(read(t, handle)->Ok_0, Kind::Record))
        &&& value is Err && value->Err_0 == rec->Err_0
        &&& name is Err && name->Err_0 == rec->Err_0
    }
}

/// The readers of a record's fields agree wherever the records fit their types.
pub proof fn law_field_readers_agree(t: TableView, h: HeapView, handle: Handle, index: nat)
    requires
        records_fit(h),
        read(t, handle) is Ok,
    ensures
        readers_agree(t, h, handle, index),
{
    if let Ok(Value::Record(r)) = read(t, handle) {
        if h.record(r) is Some {
            assert(at(h.records, r.0 as int) is Some);
            assert(fits(h, h.record(r)->0));
        }
    }
}

} // verus!
