//! Records at run time: declaring a record type, making an instance, reading and setting a
//! field. Reading a field of a module reads the module's member.
use crate::ast::Arg;
use crate::ast::Node;
use crate::ast::NodeId;
use crate::binding::arguments_bound;
use crate::binding::bind_arguments;
use crate::binding::first_unfilled;
use crate::binding::lemma_arguments_bound_lengths;
use crate::binding::missing_argument;
use crate::binding::missing_raise;
use crate::binding::params_view;
use crate::binding::unfilled;
use crate::binding::ParamView;
use crate::control::bind_decl;
use crate::control::declared;
use crate::error::ExceptionKind;
use crate::error::Raise;
use crate::error::RaiseView;
use crate::exception::text_pair_detail;
use crate::exception::two_texts;
use crate::exception::type_text;
use crate::exception::value_type_name;
use crate::hash::kind_name;
use crate::hash::kind_text;
use crate::heap::Heap;
use crate::heap::HeapView;
use crate::heap::RecordType;
use crate::heap::RecordView;
use crate::heap::SchemaView;
use crate::heap::TypeKind;
use crate::heap::TypeView;
use crate::machine::stepped;
use crate::machine::take_value;
use crate::machine::void_raise;
use crate::machine::Machine;
use crate::machine::MachineView;
use crate::machine::Step;
use crate::modload::LoadView;
use crate::modload::LoadedModule;
use crate::named::named_view;
use crate::names::cell_reading;
use crate::names::find_cell;
use crate::names::memberless_raise;
use crate::names::membership;
use crate::names::module_display;
use crate::names::no_such_member;
use crate::names::not_exported;
use crate::names::own_cell;
use crate::names::path_or;
use crate::names::private_raise;
use crate::names::read_cell;
use crate::record::copied;
use crate::record::copy_on_bind;
use crate::resolve::Membership;
use crate::resolve::ParamInfo;
use crate::resolve::ResolvedModule;
use crate::span::Span;
use crate::text::join3;
use crate::text::join5;
use crate::text::same_text;
use crate::text::texts;
use crate::value::CellIdx;
use crate::value::RecIdx;
use crate::value::TypeIdx;
use crate::value::Value;
use vstd::prelude::*;

verus! {

/// A record type's fields as the parameters of its construction.
pub open spec fn field_params(fields: Seq<Seq<char>>) -> Seq<ParamView> {
    Seq::new(
        fields.len(),
        |i: int|
            ParamView { name: fields[i], slot: i as u16, is_block: false, has_default: false },
    )
}

/// The values of filled slots.
pub open spec fn slot_values(slots: Seq<Option<Value>>) -> Seq<Value> {
    slots.map_values(
        |s: Option<Value>|
            match s {
                Some(v) => v,
                None => Value::Nil,
            },
    )
}

fn values_of(slots: &Vec<Option<Value>>) -> (r: Vec<Value>)
    ensures
        r@ == slot_values(slots@),
{
    let mut r: Vec<Value> = Vec::new();
    let mut i: usize = 0;
    while i < slots.len()
        invariant
            i <= slots@.len(),
            r@ =~= slot_values(slots@).take(i as int),
        decreases slots@.len() - i,
    {
        r.push(
            match slots[i] {
                Some(v) => v,
                None => Value::Nil,
            },
        );
        i = i + 1;
    }
    assert(r@ =~= slot_values(slots@));
    r
}

/// What making an instance of a record type leaves.
pub open spec fn constructed(
    resolved: ResolvedModule,
    h: HeapView,
    m: MachineView,
    call: NodeId,
    idx: TypeIdx,
    values: Seq<Value>,
) -> Step {
    let span = resolved.ast.range(call);
    match (resolved.node_at(call), h.schema(idx)) {
        (Some(Node::Call { args, .. }), Some(schema)) => if schema.fields.len() > u16::MAX {
            Step::done(h, m.broken())
        } else {
            let params = field_params(schema.fields);
            let b = arguments_bound(
                h,
                params,
                schema.fields.len(),
                args@,
                values,
                Some(schema.name),
                span,
            );
            match b.raise {
                Some(e) => Step::raised(b.heap, m, e),
                None => match unfilled(params, b.filled, 0) {
                    Some(p) => Step::raised(
                        b.heap,
                        m,
                        missing_raise(Some(schema.name), params[p as int].name, span),
                    ),
                    None => Step::done(
                        b.heap.new_record(idx, slot_values(b.slots)),
                        m.valued(Value::Record(RecIdx(b.heap.records.len() as usize))),
                    ),
                },
            }
        },
        _ => Step::done(h, m.broken()),
    }
}

fn copy_schema(heap: &Heap, idx: TypeIdx) -> (r: Option<(String, Vec<ParamInfo>)>)
    ensures
        (match r {
            Some((name, params)) => {
                &&& heap@.schema(idx) is Some
                &&& name@ == heap@.schema(idx)->0.name
                &&& params@.len() == heap@.schema(idx)->0.fields.len()
                &&& heap@.schema(idx)->0.fields.len() <= u16::MAX
                &&& params_view(params@) == field_params(heap@.schema(idx)->0.fields)
            },
            None => heap@.schema(idx) is None || heap@.schema(idx)->0.fields.len() > u16::MAX,
        }),
{
    match heap.type_value(idx) {
        Some(TypeKind::Record(rt)) => {
            assert(rt@.fields.len() == rt.fields@.len());
            if rt.fields.len() > u16::MAX as usize {
                return None;
            }
            let mut params: Vec<ParamInfo> = Vec::new();
            let mut i: usize = 0;
            while i < rt.fields.len()
                invariant
                    i <= rt.fields@.len() <= u16::MAX,
                    params_view(params@) =~= field_params(texts(rt.fields@)).take(i as int),
                decreases rt.fields@.len() - i,
            {
                let ghost before = params@;
                params.push(
                    ParamInfo {
                        name: rt.fields[i].as_str().to_owned(),
                        slot: i as u16,
                        is_block: false,
                        has_default: false,
                    },
                );
                assert(params_view(params@) =~= params_view(before).push(
                    params@[before.len() as int]@,
                ));
                i = i + 1;
            }
            assert(params_view(params@) =~= field_params(texts(rt.fields@)));
            assert(params@.len() == params_view(params@).len());
            Some((rt.name.as_str().to_owned(), params))
        },
        _ => None,
    }
}

/// Makes an instance of a record type.
pub fn construct(
    resolved: &ResolvedModule,
    heap: &mut Heap,
    machine: &mut Machine,
    call: NodeId,
    idx: TypeIdx,
    arg_values: &Vec<Value>,
) -> (r: Result<(), Raise>)
    ensures
        stepped(r, final(heap)@, final(machine)@) == constructed(
            *resolved,
            old(heap)@,
            old(machine)@,
            call,
            idx,
            arg_values@,
        ),
{
    let span = resolved.ast.span(call);
    let args: &Vec<Arg> = match resolved.ast.node(call) {
        Some(Node::Call { args, .. }) => args,
        _ => {
            machine.fail();
            return Ok(());
        },
    };
    let (name, params) = match copy_schema(heap, idx) {
        Some(schema) => schema,
        None => {
            machine.fail();
            return Ok(());
        },
    };
    proof {
        lemma_arguments_bound_lengths(
            heap@,
            params_view(params@),
            params@.len(),
            args@,
            arg_values@,
            Some(name@),
            span,
        );
    }
    let n: u16 = params.len() as u16;
    match bind_arguments(heap, args, &params, n, arg_values, Some(name.as_str()), span) {
        Err(e) => Err(e),
        Ok((slots, filled)) => {
            match first_unfilled(&params, &filled) {
                Some(p) => Err(
                    missing_argument(Some(name.as_str()), params[p].name.as_str(), span),
                ),
                None => {
                    let rec = heap.alloc_record(idx, values_of(&slots));
                    machine.reg = Some(Value::Record(rec));
                    Ok(())
                },
            }
        },
    }
}

/// The first field of a name, from a position on.
pub open spec fn field_named(fields: Seq<Seq<char>>, name: Seq<char>, from: nat) -> Option<nat>
    decreases fields.len() - from,
{
    if from >= fields.len() {
        None
    } else if fields[from as int] == name {
        Some(from)
    } else {
        field_named(fields, name, from + 1)
    }
}

/// The position of a field of a record, where its type declares it and it has a value.
pub open spec fn field_position(h: HeapView, r: RecIdx, name: Seq<char>) -> Option<nat> {
    match h.record(r) {
        Some(rec) => match h.schema(rec.type_idx) {
            Some(schema) => match field_named(schema.fields, name, 0) {
                Some(p) => if p < rec.fields.len() {
                    Some(p)
                } else {
                    None
                },
                None => None,
            },
            None => None,
        },
        None => None,
    }
}

fn find_field(heap: &Heap, r: RecIdx, name: &str) -> (res: Option<usize>)
    ensures
        (match res {
            Some(p) => field_position(heap@, r, name@) == Some(p as nat) && heap@.record(r) is Some
                && p < heap@.record(r)->0.fields.len(),
            None => field_position(heap@, r, name@) is None,
        }),
{
    match heap.record(r) {
        None => None,
        Some(rec) => match heap.type_value(rec.type_idx) {
            Some(TypeKind::Record(rt)) => {
                let mut i: usize = 0;
                while i < rt.fields.len()
                    invariant
                        i <= rt.fields@.len(),
                        heap@.record(r) == Some(rec@),
                        heap@.schema(rec.type_idx) == Some(rt@),
                        field_named(texts(rt.fields@), name@, 0) == field_named(
                            texts(rt.fields@),
                            name@,
                            i as nat,
                        ),
                    decreases rt.fields@.len() - i,
                {
                    if same_text(rt.fields[i].as_str(), name) {
                        return if i < rec.fields.len() {
                            Some(i)
                        } else {
                            None
                        };
                    }
                    i = i + 1;
                }
                None
            },
            _ => None,
        },
    }
}

/// The raise for a field that the record's type does not declare.
pub open spec fn fieldless_raise(h: HeapView, object: Value, name: Seq<char>, span: Span) -> RaiseView {
    RaiseView::new(
        ExceptionKind::NoSuchField,
        "`"@ + type_text(h, object) + "` has no field `"@ + name + "`"@,
        span,
    ).with(two_texts("type"@, type_text(h, object), "field"@, name))
}

fn no_such_field(heap: &Heap, object: Value, name: &str, span: Span) -> (r: Raise)
    ensures
        r@ == fieldless_raise(heap@, object, name@, span),
{
    let kind = value_type_name(object, heap);
    Raise::new(
        ExceptionKind::NoSuchField,
        join5("`", kind.as_str(), "` has no field `", name, "`"),
        span,
    ).with_details(text_pair_detail("type", kind.as_str(), "field", name))
}

/// The raise for a field of what has none.
pub open spec fn unfielded_raise(object: Value, span: Span) -> RaiseView {
    RaiseView::new(
        ExceptionKind::TypeMismatch,
        kind_text(object) + " has no fields"@ + ""@,
        span,
    )
}

fn no_fields(object: Value, span: Span) -> (r: Raise)
    ensures
        r@ == unfielded_raise(object, span),
{
    Raise::new(ExceptionKind::TypeMismatch, join3(kind_name(object), " has no fields", ""), span)
}

/// What reading a member of a module gives.
pub open spec fn member_reading(
    modules: Seq<LoadedModule>,
    load: LoadView,
    h: HeapView,
    module: crate::span::ModuleId,
    name: Seq<char>,
    span: Span,
) -> Result<Value, RaiseView> {
    let display = path_or(load, module, "this module"@);
    match membership(modules, module, name) {
        Membership::Exported => cell_reading(
            h,
            own_cell(modules, module.0 as int, name),
            name,
            span,
        ),
        Membership::Private => Err(private_raise(display, name, span)),
        Membership::Absent => Err(memberless_raise(display, name, span)),
    }
}

/// What reading a field of an object gives.
pub open spec fn field_reading(
    modules: Seq<LoadedModule>,
    load: LoadView,
    h: HeapView,
    object: Value,
    name: Seq<char>,
    span: Span,
) -> Result<Value, RaiseView> {
    match object {
        Value::Record(r) => match field_position(h, r, name) {
            Some(p) => Ok(h.record(r)->0.fields[p as int]),
            None => Err(fieldless_raise(h, object, name, span)),
        },
        Value::Module(module) => member_reading(modules, load, h, module, name, span),
        _ => Err(unfielded_raise(object, span)),
    }
}

fn read_field(
    modules: &Vec<LoadedModule>,
    load: &crate::modload::ModuleLoad,
    heap: &Heap,
    object: Value,
    name: &str,
    span: Span,
) -> (r: Result<Value, Raise>)
    ensures
        crate::error::result_view(r) == field_reading(
            modules@,
            load@,
            heap@,
            object,
            name@,
            span,
        ),
{
    match object {
        Value::Record(idx) => match find_field(heap, idx, name) {
            Some(p) => match heap.record(idx) {
                Some(rec) => Ok(rec.fields[p]),
                None => Err(no_such_field(heap, object, name, span)),
            },
            None => Err(no_such_field(heap, object, name, span)),
        },
        Value::Module(module) => {
            if (module.0 as usize) >= modules.len() {
                let display = module_display(load, module);
                return Err(no_such_member(display.as_str(), name, span));
            }
            let target = &modules[module.0 as usize];
            match target.resolved.member_visibility(name) {
                Membership::Exported => read_cell(
                    heap,
                    find_cell(&target.namespace, name),
                    name,
                    span,
                ),
                Membership::Private => {
                    let display = module_display(load, module);
                    Err(not_exported(display.as_str(), name, span))
                },
                Membership::Absent => {
                    let display = module_display(load, module);
                    Err(no_such_member(display.as_str(), name, span))
                },
            }
        },
        _ => Err(no_fields(object, span)),
    }
}

/// What a field read leaves.
pub open spec fn field_read_step(
    resolved: ResolvedModule,
    modules: Seq<LoadedModule>,
    h: HeapView,
    m: MachineView,
    field: NodeId,
) -> (MachineView, Option<RaiseView>) {
    match resolved.node_at(field) {
        Some(Node::Field { name, .. }) => {
            let span = resolved.ast.range(field);
            match m.reg {
                None => (m, Some(void_raise(span))),
                Some(object) => match field_reading(modules, m.load, h, object, name@, span) {
                    Ok(v) => (m.valued(v), None),
                    Err(e) => (m.voided(), Some(e)),
                },
            }
        },
        _ => (m.broken(), None),
    }
}

/// The object of a field read is in the register: reads the field.
pub fn field_read(
    resolved: &ResolvedModule,
    modules: &Vec<LoadedModule>,
    heap: &Heap,
    machine: &mut Machine,
    field: NodeId,
) -> (r: Result<(), Raise>)
    ensures
        (final(machine)@, crate::machine::raise_of(r)) == field_read_step(
            *resolved,
            modules@,
            heap@,
            old(machine)@,
            field,
        ),
{
    let name = match resolved.ast.node(field) {
        Some(Node::Field { name, .. }) => name,
        _ => {
            machine.fail();
            return Ok(());
        },
    };
    let span = resolved.ast.span(field);
    let object = match take_value(machine, span) {
        Ok(v) => v,
        Err(e) => {
            return Err(e);
        },
    };
    match read_field(modules, &machine.load, heap, object, name.as_str(), span) {
        Ok(v) => {
            machine.reg = Some(v);
            Ok(())
        },
        Err(e) => Err(e),
    }
}

/// The heap with a record's field replaced.
pub open spec fn with_field(h: HeapView, r: RecIdx, p: nat, value: Value) -> HeapView {
    let rec = h.record(r)->0;
    HeapView {
        records: h.records.update(
            r.0 as int,
            Some(
                RecordView { type_idx: rec.type_idx, fields: rec.fields.update(p as int, value) },
            ),
        ),
        ..h
    }
}

/// What setting a field leaves.
pub open spec fn field_set_step(
    resolved: ResolvedModule,
    h: HeapView,
    m: MachineView,
    assign: NodeId,
    object: Value,
) -> Step {
    match resolved.node_at(assign) {
        Some(Node::Assign { target, value }) => match resolved.node_at(target) {
            Some(Node::Field { name, .. }) => {
                let span = resolved.ast.range(target);
                match m.reg {
                    None => Step::raised(h, m, void_raise(resolved.ast.range(value))),
                    Some(v) => match object {
                        Value::Record(r) => {
                            let (h2, copy) = copied(h, v);
                            match field_position(h2, r, name@) {
                                Some(p) => Step::done(with_field(h2, r, p, copy), m.voided()),
                                None => Step::raised(
                                    h2,
                                    m.voided(),
                                    fieldless_raise(h2, object, name@, span),
                                ),
                            }
                        },
                        _ => Step::raised(h, m.voided(), unfielded_raise(object, span)),
                    },
                }
            },
            _ => Step::done(h, m.broken()),
        },
        _ => Step::done(h, m.broken()),
    }
}

/// The value for a field is in the register: sets the field.
pub fn field_set(
    resolved: &ResolvedModule,
    heap: &mut Heap,
    machine: &mut Machine,
    assign: NodeId,
    object: Value,
) -> (r: Result<(), Raise>)
    ensures
        stepped(r, final(heap)@, final(machine)@) == field_set_step(
            *resolved,
            old(heap)@,
            old(machine)@,
            assign,
            object,
        ),
{
    let (target, value) = match resolved.ast.node(assign) {
        Some(Node::Assign { target, value }) => (*target, *value),
        _ => {
            machine.fail();
            return Ok(());
        },
    };
    let name = match resolved.ast.node(target) {
        Some(Node::Field { name, .. }) => name,
        _ => {
            machine.fail();
            return Ok(());
        },
    };
    let span = resolved.ast.span(target);
    let rhs = match take_value(machine, resolved.ast.span(value)) {
        Ok(v) => v,
        Err(e) => {
            return Err(e);
        },
    };
    match object {
        Value::Record(idx) => {
            let copy = copy_on_bind(rhs, heap);
            match find_field(heap, idx, name.as_str()) {
                Some(p) => {
                    heap.record_set_field(idx, p, copy);
                    Ok(())
                },
                None => Err(no_such_field(heap, object, name.as_str(), span)),
            }
        },
        _ => Err(no_fields(object, span)),
    }
}

/// What a record declaration leaves: a new type bound to its name.
pub open spec fn record_declared(
    resolved: ResolvedModule,
    h: HeapView,
    m: MachineView,
    namespace: Seq<(Seq<char>, CellIdx)>,
    decl: NodeId,
) -> (HeapView, MachineView) {
    match resolved.node_at(decl) {
        Some(Node::Record { name, fields, is_ref }) => declared(
            resolved,
            h.new_type(
                TypeView::Record(
                    SchemaView { name: name@, fields: texts(fields@), is_ref: is_ref },
                ),
            ),
            m,
            namespace,
            decl,
            Value::Type(TypeIdx(h.types.len() as usize)),
        ),
        _ => (h, m.broken()),
    }
}

/// The same texts again.
pub fn copy_texts(items: &Vec<String>) -> (r: Vec<String>)
    ensures
        texts(r@) == texts(items@),
        r@.len() == items@.len(),
{
    let mut r: Vec<String> = Vec::new();
    let mut i: usize = 0;
    while i < items.len()
        invariant
            i <= items@.len(),
            texts(r@) =~= texts(items@).take(i as int),
        decreases items@.len() - i,
    {
        let ghost before = r@;
        r.push(items[i].as_str().to_owned());
        assert(texts(r@) =~= texts(before).push(items@[i as int]@));
        i = i + 1;
    }
    assert(texts(r@) =~= texts(items@));
    assert(texts(r@).len() == r@.len());
    r
}

/// Declares a record type.
pub fn define_record(
    resolved: &ResolvedModule,
    heap: &mut Heap,
    machine: &mut Machine,
    namespace: &Vec<(String, CellIdx)>,
    decl: NodeId,
)
    ensures
        (final(heap)@, final(machine)@) == record_declared(
            *resolved,
            old(heap)@,
            old(machine)@,
            named_view(namespace@),
            decl,
        ),
{
    match resolved.ast.node(decl) {
        Some(Node::Record { name, fields, is_ref }) => {
            let idx = heap.alloc_type(
                TypeKind::Record(
                    RecordType {
                        name: name.as_str().to_owned(),
                        fields: copy_texts(fields),
                        is_ref: *is_ref,
                    },
                ),
            );
            bind_decl(resolved, heap, machine, namespace, decl, Value::Type(idx));
        },
        _ => machine.fail(),
    }
}

/// A field reads back as what was last stored in it, and no other field changes.
pub proof fn law_fields_read_back(h: HeapView, r: RecIdx, p: nat, value: Value, q: nat)
    requires
        h.record(r) is Some,
        p < h.record(r)->0.fields.len(),
        q < h.record(r)->0.fields.len(),
    ensures
        with_field(h, r, p, value).record(r) is Some,
        with_field(h, r, p, value).record(r)->0.fields[p as int] == value,
        q != p ==> with_field(h, r, p, value).record(r)->0.fields[q as int]
            == h.record(r)->0.fields[q as int],
{
}

} // verus!
