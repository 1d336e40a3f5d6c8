//! What every turn keeps: records have the fields that their types declare, and the type of
//! errors stays a record type of three fields.

use crate::activation::block_invoked;
use crate::activation::call_begun;
use crate::activation::call_started;
use crate::activation::each_advanced;
use crate::activation::element_at;
use crate::activation::NativesView;
use crate::activation::Progress;
use crate::activation::unwritten_args;
use crate::assign::assigned;
use crate::ast::Arg;
use crate::ast::Node;
use crate::ast::NodeId;
use crate::ast::StrPart;
use crate::binding::arguments_bound;
use crate::binding::params_view;
use crate::binding::ParamView;
use crate::block::block_applied;
use crate::block::block_binding;
use crate::block::block_entering;
use crate::block::block_range;
use crate::block::block_source;
use crate::block::slot_owner;
use crate::call::applied;
use crate::call::call_scheduled;
use crate::call::callable_declared;
use crate::call::callable_made;
use crate::call::callee_frame;
use crate::call::callee_text;
use crate::call::default_bound;
use crate::call::defaulting;
use crate::call::entering;
use crate::call::entering_unary;
use crate::call::pending_defaults;
use crate::call::running_kind;
use crate::call::site_of;
use crate::call::source_of;
use crate::collect::collected;
use crate::collect::lemma_lengths;
use crate::collect::Place;
use crate::collect::reached;
use crate::collect::Ref;
use crate::collect::value_refs;
use crate::cont::ContView;
use crate::cont::Work;
use crate::control::declared;
use crate::dict::inserted;
use crate::drive::follows;
use crate::dynamic::restored_heap;
use crate::dynamic::with_opened;
use crate::error::DetailView;
use crate::error::kind_slug;
use crate::error::RaiseView;
use crate::eval::element_known;
use crate::eval::evaluated;
use crate::eval::interpolated;
use crate::eval::rendering_known;
use crate::eval::value_interpolated;
use crate::exception::error_made;
use crate::exception::text_heap;
use crate::frame::BlockDescriptor;
use crate::frame::Consumer;
use crate::gc::callable_values;
use crate::gc::handled_values;
use crate::gc::implementing_values;
use crate::gc::machine_values;
use crate::gc::optional;
use crate::gc::roots_of;
use crate::gc::saved_values;
use crate::gc::stack_values;
use crate::gc::transfer_values;
use crate::hash::key_hash;
use crate::heap::at;
use crate::heap::CallableTarget;
use crate::heap::HeapView;
use crate::heap::SchemaView;
use crate::heap::TypeView;
use crate::importing::import_advanced;
use crate::index::assign_hash_known;
use crate::index::bucket_reading;
use crate::index::built;
use crate::index::element_read;
use crate::index::element_set;
use crate::index::literal_advanced;
use crate::index::literal_hash_known;
use crate::instance::Instance;
use crate::intrinsic::ForeignParamView;
use crate::local::entry_locals;
use crate::local::fresh_locals;
use crate::machine::ForeignCall;
use crate::machine::MachineView;
use crate::machine::Step;
use crate::machine::Unwind;
use crate::modload::failures;
use crate::modload::LoadedModule;
use crate::modload::LoadState;
use crate::named::named_view;
use crate::natives::filled_in;
use crate::natives::foreign_bound;
use crate::natives::infos_of;
use crate::object::constructed;
use crate::object::field_params;
use crate::object::field_position;
use crate::object::field_set_step;
use crate::object::record_declared;
use crate::protect::caught;
use crate::protocol::implementation;
use crate::protocol::WellKnown;
use crate::record::copied;
use crate::render::value_text;
use crate::resolve::BodyKind;
use crate::resolve::CallableInfo;
use crate::resolve::ResolvedModule;
use crate::ring::recent_callables;
use crate::root_laws::law_exactly_the_reachable_survives;
use crate::shape_laws::fit_kept;
use crate::shape_laws::law_collections_leave_records_fitting;
use crate::shape_laws::law_errors_fit;
use crate::shape_laws::law_made_records_fit;
use crate::shape_laws::law_new_types_leave_records_fitting;
use crate::shape_laws::law_other_objects_do_not_matter;
use crate::shape_laws::law_set_fields_fit;
use crate::shape_laws::lemma_bound_fits;
use crate::shape_laws::lemma_copies_fit;
use crate::shape_laws::lemma_detail_entries_fit;
use crate::shape_laws::lemma_insertions_fit;
use crate::shape_laws::records_fit;
use crate::span::Span;
use crate::step::dispatched;
use crate::step::materialized;
use crate::step::operator_applied;
use crate::step::unary_applied;
use crate::text::texts;
use crate::turn::accounted;
use crate::turn::call_next;
use crate::turn::completes;
use crate::turn::current;
use crate::turn::further_values;
use crate::turn::left_by;
use crate::turn::lemma_values_are_roots;
use crate::turn::next_statement;
use crate::turn::raised_or;
use crate::turn::rested;
use crate::turn::roots_at;
use crate::turn::settled_work;
use crate::turn::turned;
use crate::turn::TurnKind;
use crate::turn::TurnOf;
use crate::turn::TurnView;
use crate::turn::untouched;
use crate::turn::watched;
use crate::turn::worked;
use crate::unicode::nfc_text;
use crate::unwind::undone;
use crate::unwind::unwound;
use crate::value::CalIdx;
use crate::value::CellIdx;
use crate::value::DictIdx;
use crate::value::TypeIdx;
use crate::value::Value;
use vstd::prelude::*;

verus! {

/// Whether every record of a heap fits its type, and the type of errors has its three fields.
#[verifier::opaque]
pub open spec fn sound(h: HeapView, error_type: TypeIdx) -> bool {
    &&& records_fit(h)
    &&& h.schema(error_type) is Some
    &&& h.schema(error_type)->0.fields.len() == 3
}

/// Whether a heap is sound if another was.
pub open spec fn carried(h: HeapView, g: HeapView, error_type: TypeIdx) -> bool {
    sound(h, error_type) ==> sound(g, error_type)
}

/// Whether what a step leaves is sound if what it found was, and the step budget is no larger.
pub open spec fn upheld(h: HeapView, m: MachineView, h2: HeapView, m2: MachineView) -> bool {
    &&& m2.error_type == m.error_type
    &&& m2.meter.fuel.budget <= m.meter.fuel.budget
    &&& carried(h, h2, m.error_type)
}

pub proof fn lemma_alike(h: HeapView, g: HeapView, t: TypeIdx)
    ensures
        g.records == h.records && g.types == h.types ==> carried(h, g, t),
{
    reveal(sound);
    if g.records == h.records && g.types == h.types && sound(h, t) {
        law_other_objects_do_not_matter(h, g);
    }
}

proof fn lemma_fit_kept(h: HeapView, g: HeapView, t: TypeIdx)
    ensures
        fit_kept(h, g) ==> carried(h, g, t),
{
    reveal(sound);
}

proof fn lemma_copied(h: HeapView, v: Value, t: TypeIdx)
    ensures
        carried(h, copied(h, v).0, t),
{
    lemma_copies_fit(h, v, h.records.len());
    lemma_fit_kept(h, copied(h, v).0, t);
}

proof fn lemma_inserted(h: HeapView, d: DictIdx, key: Value, v: Value, hash: u64, t: TypeIdx)
    ensures
        carried(h, inserted(h, d, key, v, hash), t),
{
    lemma_insertions_fit(h, d, key, v, hash);
    lemma_fit_kept(h, inserted(h, d, key, v, hash), t);
}

pub proof fn lemma_typed(h: HeapView, kind: TypeView, t: TypeIdx)
    ensures
        carried(h, h.new_type(kind), t),
{
    reveal(sound);
    if sound(h, t) {
        law_new_types_leave_records_fitting(h, kind);
        assert(at(h.new_type(kind).types, t.0 as int) == at(h.types, t.0 as int));
    }
}

pub proof fn lemma_error_made(
    h: HeapView,
    t: TypeIdx,
    slug: Seq<char>,
    message: Seq<char>,
    details: Seq<(Seq<char>, DetailView)>,
)
    ensures
        carried(h, error_made(h, t, slug, message, details).0, t),
{
    reveal(sound);
    if sound(h, t) {
        law_errors_fit(h, t, slug, message, details);
        let told = text_heap(text_heap(h, slug), message);
        lemma_detail_entries_fit(
            told.new_dict(),
            DictIdx(told.dicts.len() as usize),
            details,
            details.len(),
        );
        assert(error_made(h, t, slug, message, details).0.types == h.types);
    }
}

proof fn lemma_materialized(h: HeapView, m: MachineView, e: RaiseView)
    ensures
        upheld(h, m, materialized(h, m, e).0, materialized(h, m, e).1),
{
    reveal(materialized);
    lemma_error_made(h, m.error_type, kind_slug(e.kind), e.message, e.details);
}

pub proof fn lemma_raised_or(h: HeapView, m: MachineView, e: Option<RaiseView>)
    ensures
        upheld(h, m, raised_or(h, m, e).0, raised_or(h, m, e).1),
{
    if let Some(e) = e {
        lemma_materialized(h, m, e);
    }
}

proof fn lemma_bound(
    h: HeapView,
    params: Seq<ParamView>,
    slot_count: nat,
    args: Seq<Arg>,
    values: Seq<Value>,
    callee: Option<Seq<char>>,
    span: Span,
    t: TypeIdx,
)
    ensures
        carried(h, arguments_bound(h, params, slot_count, args, values, callee, span).heap, t),
        arguments_bound(h, params, slot_count, args, values, callee, span).heap.types == h.types,
{
    let n = if args.len() < values.len() {
        args.len()
    } else {
        values.len()
    };
    lemma_bound_fits(h, params, slot_count, args, values, callee, span, n);
    lemma_fit_kept(h, arguments_bound(h, params, slot_count, args, values, callee, span).heap, t);
}

proof fn lemma_fresh_locals(h: HeapView, info: CallableInfo, raw: Seq<Option<Value>>, n: nat)
    ensures
        fresh_locals(h, info, raw, n).0.records == h.records,
        fresh_locals(h, info, raw, n).0.types == h.types,
    decreases n,
{
    if n > 0 {
        lemma_fresh_locals(h, info, raw, (n - 1) as nat);
    }
}

pub proof fn lemma_entry_locals(
    h: HeapView,
    info: CallableInfo,
    raw: Seq<Option<Value>>,
    cells: Seq<CellIdx>,
    t: TypeIdx,
)
    ensures
        carried(h, entry_locals(h, info, raw, cells).0, t),
{
    lemma_fresh_locals(h, info, raw, info.slot_count as nat);
    lemma_alike(h, entry_locals(h, info, raw, cells).0, t);
}

proof fn lemma_defaulting(m: MachineView, defaults: Seq<(u16, NodeId)>)
    ensures
        defaulting(m, defaults).error_type == m.error_type,
        defaulting(m, defaults).meter.fuel == m.meter.fuel,
    decreases defaults.len(),
{
    if defaults.len() > 0 {
        let (slot, e) = defaults.last();
        lemma_defaulting(
            m.doing(Work::BindDefault { slot, default: e }).doing(Work::Eval { node: e }),
            defaults.drop_last(),
        );
    }
}

proof fn lemma_entering(
    modules: Seq<LoadedModule>,
    h: HeapView,
    m: MachineView,
    cal: CalIdx,
    args: Seq<Arg>,
    values: Seq<Value>,
    block: Result<Option<BlockDescriptor>, RaiseView>,
    call: NodeId,
    span: Span,
    tail_of: Option<BodyKind>,
)
    ensures
        ({
            let s = entering(modules, h, m, cal, args, values, block, call, span, tail_of);
            upheld(h, m, s.heap, s.machine)
        }),
{
    let t = m.error_type;
    if let Some((module, info)) = source_of(modules, h, cal) {
        let resolved = modules[module.0 as int].resolved;
        let params = params_view(info.params@);
        let callee = callee_text(resolved, info.decl);
        let slots = info.slot_count as nat;
        let b = arguments_bound(h, params, slots, args, values, callee, span);
        lemma_bound(h, params, slots, args, values, callee, span, t);
        let captures = h.callable(cal)->0.captures;
        lemma_entry_locals(b.heap, info, b.slots, captures, t);
        if let Ok(desc) = block {
            let framed = callee_frame(
                m,
                module,
                cal,
                entry_locals(b.heap, info, b.slots, captures).1,
                info.body,
                desc,
                site_of(modules, m, module, call),
                tail_of == Some(info.kind),
            );
            lemma_defaulting(
                framed,
                pending_defaults(resolved, info, b.filled, info.params@.len()),
            );
        }
    }
}

pub proof fn lemma_entering_unary(
    modules: Seq<LoadedModule>,
    h: HeapView,
    m: MachineView,
    cal: CalIdx,
    value: Value,
    node: NodeId,
    span: Span,
)
    ensures
        ({
            let s = entering_unary(modules, h, m, cal, value, node, span);
            upheld(h, m, s.heap, s.machine)
        }),
{
    lemma_entering(
        modules,
        h,
        m,
        cal,
        seq![Arg::Positional(node)],
        seq![value],
        Ok(None),
        node,
        span,
        None,
    );
}

proof fn lemma_block_entering(
    modules: Seq<LoadedModule>,
    h: HeapView,
    m: MachineView,
    desc: BlockDescriptor,
    consumer: Consumer,
    args: Seq<Arg>,
    values: Seq<Value>,
    call_site: Option<NodeId>,
    span: Span,
)
    ensures
        ({
            let s = block_entering(modules, h, m, desc, consumer, args, values, call_site, span);
            upheld(h, m, s.heap, s.machine)
        }),
{
    let t = m.error_type;
    if let Some((module, info)) = block_source(modules, m, desc) {
        let params = params_view(info.params@);
        let slots = info.slot_count as nat;
        let b = arguments_bound(h, params, slots, args, values, None, span);
        lemma_bound(h, params, slots, args, values, None, span, t);
        lemma_entry_locals(b.heap, info, b.slots, Seq::empty(), t);
    }
}

proof fn lemma_constructed(
    resolved: ResolvedModule,
    h: HeapView,
    m: MachineView,
    call: NodeId,
    idx: TypeIdx,
    values: Seq<Value>,
)
    ensures
        ({
            let s = constructed(resolved, h, m, call, idx, values);
            upheld(h, m, s.heap, s.machine)
        }),
{
    reveal(sound);
    let t = m.error_type;
    if sound(h, t) {
        law_made_records_fit(resolved, h, m, call, idx, values);
        if let (Some(Node::Call { args, .. }), Some(schema)) = (
            resolved.node_at(call),
            h.schema(idx),
        ) {
            lemma_bound(
                h,
                field_params(schema.fields),
                schema.fields.len(),
                args@,
                values,
                Some(schema.name),
                resolved.ast.range(call),
                t,
            );
        }
        assert(constructed(resolved, h, m, call, idx, values).heap.types == h.types);
    }
}

proof fn lemma_applied(
    resolved: ResolvedModule,
    modules: Seq<LoadedModule>,
    h: HeapView,
    m: MachineView,
    call: NodeId,
    callee: Value,
    values: Seq<Value>,
)
    ensures
        ({
            let s = applied(resolved, modules, h, m, call, callee, values);
            upheld(h, m, s.heap, s.machine)
        }),
{
    let span = resolved.ast.range(call);
    match (resolved.node_at(call), callee) {
        (Some(Node::Call { .. }), Value::Type(idx)) => {
            lemma_constructed(resolved, h, m, call, idx, values);
        },
        (Some(Node::Call { args, .. }), Value::Callable(cal)) => {
            if let Some(c) = h.callable(cal) {
                match c.target {
                    CallableTarget::Dispatcher(protocol) => {
                        if values.len() > 0 {
                            if let Some(f) = implementation(m.protocols, protocol, h, values[0]) {
                                if let Some((module, info)) = source_of(modules, h, f) {
                                    let params = params_view(info.params@);
                                    let block = block_binding(resolved, m, call, params, span);
                                    lemma_entering(
                                        modules,
                                        h,
                                        m,
                                        f,
                                        args@,
                                        values,
                                        block,
                                        call,
                                        span,
                                        None,
                                    );
                                }
                            }
                        }
                    },
                    CallableTarget::Source(_) => {
                        if let Some((module, info)) = source_of(modules, h, cal) {
                            let params = params_view(info.params@);
                            let tail_of = if resolved.tail_call(call) {
                                running_kind(resolved, h, m)
                            } else {
                                None
                            };
                            lemma_entering(
                                modules,
                                h,
                                m,
                                cal,
                                args@,
                                values,
                                block_binding(resolved, m, call, params, span),
                                call,
                                span,
                                tail_of,
                            );
                        }
                    },
                    _ => {},
                }
            }
        },
        _ => {},
    }
}

proof fn lemma_block_applied(
    resolved: ResolvedModule,
    modules: Seq<LoadedModule>,
    h: HeapView,
    m: MachineView,
    call: NodeId,
    values: Seq<Value>,
)
    ensures
        ({
            let s = block_applied(resolved, modules, h, m, call, values);
            upheld(h, m, s.heap, s.machine)
        }),
{
    if let Some(Node::Call { callee, args, .. }) = resolved.node_at(call) {
        if let Some((owner, _)) = slot_owner(m, resolved, callee) {
            if let Some(desc) = m.frames[owner].block_param {
                lemma_block_entering(
                    modules,
                    h,
                    m,
                    desc,
                    Consumer::DoodleCall { frame: owner as usize, serial: m.frames[owner].serial },
                    args@,
                    values,
                    Some(call),
                    resolved.ast.range(call),
                );
            }
        }
    }
}

proof fn lemma_interpolated(
    resolved: ResolvedModule,
    h: HeapView,
    m: MachineView,
    node: NodeId,
    parts: Seq<StrPart>,
    acc: Seq<char>,
    from: nat,
)
    ensures
        ({
            let (h2, m2) = interpolated(resolved, h, m, node, parts, acc, from);
            upheld(h, m, h2, m2)
        }),
    decreases parts.len() - from,
{
    if from >= parts.len() {
        lemma_alike(h, h.new_string(acc), m.error_type);
    } else if let StrPart::Text(run) = parts[from as int] {
        lemma_interpolated(
            resolved,
            h,
            m,
            node,
            parts,
            nfc_text(acc + nfc_text(run@)),
            from + 1,
        );
    }
}

proof fn lemma_built(
    resolved: ResolvedModule,
    modules: Seq<LoadedModule>,
    h: HeapView,
    m: MachineView,
    node: NodeId,
    dict: DictIdx,
    entries: Seq<(Value, Value)>,
    index: nat,
)
    ensures
        ({
            let s = built(resolved, modules, h, m, node, dict, entries, index);
            upheld(h, m, s.heap, s.machine)
        }),
    decreases entries.len() - index,
{
    if index < entries.len() {
        let (key, value) = entries[index as int];
        match implementation(m.protocols, WellKnown::Hashable, h, key) {
            Some(cal) => {
                lemma_entering_unary(
                    modules,
                    h,
                    m.doing(
                        Work::DictBuildHashed { node, dict, entries, index: index as usize },
                    ),
                    cal,
                    key,
                    node,
                    resolved.ast.range(node),
                );
            },
            None => {
                let hash = key_hash(h, key);
                lemma_inserted(h, dict, key, value, hash, m.error_type);
                lemma_built(
                    resolved,
                    modules,
                    inserted(h, dict, key, value, hash),
                    m,
                    node,
                    dict,
                    entries,
                    index + 1,
                );
            },
        }
    }
}

proof fn lemma_literal_advanced(
    resolved: ResolvedModule,
    modules: Seq<LoadedModule>,
    h: HeapView,
    m: MachineView,
    node: NodeId,
    entries: Seq<(Value, Value)>,
    index: int,
)
    ensures
        ({
            let s = literal_advanced(resolved, modules, h, m, node, entries, index);
            upheld(h, m, s.heap, s.machine)
        }),
{
    let s = literal_advanced(resolved, modules, h, m, node, entries, index);
    lemma_alike(h, h.new_dict(), m.error_type);
    lemma_alike(h, s.heap, m.error_type);
    lemma_built(
        resolved,
        modules,
        h.new_dict(),
        m,
        node,
        DictIdx(h.dicts.len() as usize),
        entries,
        0,
    );
}

proof fn lemma_call_scheduled(
    resolved: ResolvedModule,
    modules: Seq<LoadedModule>,
    h: HeapView,
    m: MachineView,
    call: NodeId,
)
    ensures
        ({
            let s = call_scheduled(resolved, modules, h, m, call);
            upheld(h, m, s.heap, s.machine)
        }),
{
    lemma_block_applied(resolved, modules, h, m, call, Seq::empty());
}

proof fn lemma_evaluated(
    resolved: ResolvedModule,
    modules: Seq<LoadedModule>,
    h: HeapView,
    m: MachineView,
    node: NodeId,
)
    ensures
        ({
            let s = evaluated(resolved, modules, h, m, node);
            upheld(h, m, s.heap, s.machine)
        }),
{
    let s = evaluated(resolved, modules, h, m, node);
    lemma_alike(h, s.heap, m.error_type);
    match resolved.node_at(node) {
        Some(Node::StrLit(parts)) => {
            lemma_interpolated(resolved, h, m, node, parts@, Seq::empty(), 0);
        },
        Some(Node::Dict(_)) => {
            lemma_literal_advanced(resolved, modules, h, m, node, Seq::empty(), 0);
        },
        Some(Node::Call { .. }) => {
            lemma_call_scheduled(resolved, modules, h, m, node);
        },
        _ => {},
    }
}

proof fn lemma_declared(
    resolved: ResolvedModule,
    h: HeapView,
    m: MachineView,
    names: Seq<(Seq<char>, CellIdx)>,
    decl: NodeId,
    value: Value,
)
    ensures
        ({
            let (h2, m2) = declared(resolved, h, m, names, decl, value);
            upheld(h, m, h2, m2)
        }),
{
    let h2 = declared(resolved, h, m, names, decl, value).0;
    lemma_copied(h, value, m.error_type);
    lemma_alike(copied(h, value).0, h2, m.error_type);
}

proof fn lemma_callable_declared(
    resolved: ResolvedModule,
    h: HeapView,
    m: MachineView,
    names: Seq<(Seq<char>, CellIdx)>,
    decl: NodeId,
)
    ensures
        ({
            let (h2, m2) = callable_declared(resolved, h, m, names, decl);
            upheld(h, m, h2, m2)
        }),
{
    let h2 = callable_declared(resolved, h, m, names, decl).0;
    lemma_alike(h, h2, m.error_type);
    let (made, m2, v) = callable_made(resolved, h, m, decl);
    lemma_alike(h, made, m.error_type);
    lemma_declared(resolved, made, m2, names, decl, v);
}

proof fn lemma_record_declared(
    resolved: ResolvedModule,
    h: HeapView,
    m: MachineView,
    names: Seq<(Seq<char>, CellIdx)>,
    decl: NodeId,
)
    ensures
        ({
            let (h2, m2) = record_declared(resolved, h, m, names, decl);
            upheld(h, m, h2, m2)
        }),
{
    if let Some(Node::Record { name, fields, is_ref }) = resolved.node_at(decl) {
        let kind = TypeView::Record(
            SchemaView { name: name@, fields: texts(fields@), is_ref: is_ref },
        );
        lemma_typed(h, kind, m.error_type);
        lemma_declared(
            resolved,
            h.new_type(kind),
            m,
            names,
            decl,
            Value::Type(TypeIdx(h.types.len() as usize)),
        );
    }
}

proof fn lemma_assigned(
    resolved: ResolvedModule,
    h: HeapView,
    m: MachineView,
    names: Seq<(Seq<char>, CellIdx)>,
    assign: NodeId,
)
    ensures
        ({
            let s = assigned(resolved, h, m, names, assign);
            upheld(h, m, s.heap, s.machine)
        }),
{
    let s = assigned(resolved, h, m, names, assign);
    if let Some(v) = m.reg {
        lemma_copied(h, v, m.error_type);
        lemma_alike(copied(h, v).0, s.heap, m.error_type);
    }
}

proof fn lemma_default_bound(
    resolved: ResolvedModule,
    h: HeapView,
    m: MachineView,
    slot: u16,
    default: NodeId,
)
    ensures
        ({
            let s = default_bound(resolved, h, m, slot, default);
            upheld(h, m, s.heap, s.machine)
        }),
{
    let s = default_bound(resolved, h, m, slot, default);
    if let Some(v) = m.reg {
        lemma_copied(h, v, m.error_type);
        lemma_alike(copied(h, v).0, s.heap, m.error_type);
    }
}

proof fn lemma_element_known(
    resolved: ResolvedModule,
    h: HeapView,
    m: MachineView,
    list: NodeId,
    values: Seq<Value>,
    index: int,
)
    ensures
        ({
            let s = element_known(resolved, h, m, list, values, index);
            upheld(h, m, s.heap, s.machine)
        }),
{
    let s = element_known(resolved, h, m, list, values, index);
    if let Some(v) = m.reg {
        lemma_copied(h, v, m.error_type);
        lemma_alike(copied(h, v).0, s.heap, m.error_type);
    }
}

proof fn lemma_with_opened(
    resolved: ResolvedModule,
    modules: Seq<LoadedModule>,
    h: HeapView,
    m: MachineView,
    with_node: NodeId,
)
    ensures
        ({
            let s = with_opened(resolved, modules, h, m, with_node);
            upheld(h, m, s.heap, s.machine)
        }),
{
    let s = with_opened(resolved, modules, h, m, with_node);
    if let Some(v) = m.reg {
        lemma_copied(h, v, m.error_type);
        lemma_alike(copied(h, v).0, s.heap, m.error_type);
    }
}

pub proof fn lemma_restored(h: HeapView, saved: Seq<(CellIdx, Value)>, mark: nat, t: TypeIdx)
    ensures
        carried(h, restored_heap(h, saved, mark), t),
    decreases saved.len(),
{
    if saved.len() > mark {
        let h2 = h.with_cell(saved.last().0, Some(saved.last().1));
        lemma_alike(h, h2, t);
        lemma_restored(h2, saved.drop_last(), mark, t);
    }
}

proof fn lemma_field_set(
    resolved: ResolvedModule,
    h: HeapView,
    m: MachineView,
    assign: NodeId,
    object: Value,
)
    ensures
        ({
            let s = field_set_step(resolved, h, m, assign, object);
            upheld(h, m, s.heap, s.machine)
        }),
{
    let t = m.error_type;
    if let (Some(v), Value::Record(r)) = (m.reg, object) {
        lemma_copied(h, v, t);
        let (h2, copy) = copied(h, v);
        if let Some(Node::Assign { target, .. }) = resolved.node_at(assign) {
            if let Some(Node::Field { name, .. }) = resolved.node_at(target) {
                if let Some(p) = field_position(h2, r, name@) {
                    reveal(sound);
                    if sound(h2, t) {
                        law_set_fields_fit(h2, r, p, copy);
                    }
                }
            }
        }
    }
}

proof fn lemma_element_set(
    resolved: ResolvedModule,
    modules: Seq<LoadedModule>,
    h: HeapView,
    m: MachineView,
    assign: NodeId,
    object: Value,
    key: Value,
)
    ensures
        ({
            let s = element_set(resolved, modules, h, m, assign, object, key);
            upheld(h, m, s.heap, s.machine)
        }),
{
    if let (Some(Node::Assign { target, .. }), Some(v), Value::Dict(d)) = (
        resolved.node_at(assign),
        m.reg,
        object,
    ) {
        let span = resolved.ast.range(target);
        lemma_inserted(h, d, key, v, key_hash(h, key), m.error_type);
        if let Some(cal) = implementation(m.protocols, WellKnown::Hashable, h, key) {
            let waiting = m.voided().doing(
                Work::IndexAssignHashed { dict: d, key, value: v, span },
            );
            lemma_entering_unary(modules, h, waiting, cal, key, target, span);
        }
    }
}

proof fn lemma_element_read(
    modules: Seq<LoadedModule>,
    h: HeapView,
    m: MachineView,
    object: Value,
    key: Value,
    key_node: NodeId,
    span: Span,
)
    ensures
        ({
            let s = element_read(modules, h, m, object, key, key_node, span);
            upheld(h, m, s.heap, s.machine)
        }),
{
    lemma_alike(
        h,
        element_read(modules, h, m, object, key, key_node, span).heap,
        m.error_type,
    );
    if let Value::Dict(d) = object {
        if let Some(cal) = implementation(m.protocols, WellKnown::Hashable, h, key) {
            let waiting = m.doing(Work::IndexReadHashed { dict: d, key, span });
            lemma_entering_unary(modules, h, waiting, cal, key, key_node, span);
        }
    }
}

proof fn lemma_literal_hash_known(
    resolved: ResolvedModule,
    modules: Seq<LoadedModule>,
    h: HeapView,
    m: MachineView,
    node: NodeId,
    dict: DictIdx,
    entries: Seq<(Value, Value)>,
    index: nat,
)
    ensures
        ({
            let s = literal_hash_known(resolved, modules, h, m, node, dict, entries, index);
            upheld(h, m, s.heap, s.machine)
        }),
{
    if let Some(v) = m.reg {
        if let Ok(bucket) = bucket_reading(h, v, resolved.ast.range(node)) {
            if index < entries.len() {
                let (key, value) = entries[index as int];
                lemma_inserted(h, dict, key, value, bucket, m.error_type);
                lemma_built(
                    resolved,
                    modules,
                    inserted(h, dict, key, value, bucket),
                    m.voided(),
                    node,
                    dict,
                    entries,
                    index + 1,
                );
            }
        }
    }
}

proof fn lemma_assign_hash_known(
    h: HeapView,
    m: MachineView,
    dict: DictIdx,
    key: Value,
    value: Value,
    span: Span,
)
    ensures
        ({
            let s = assign_hash_known(h, m, dict, key, value, span);
            upheld(h, m, s.heap, s.machine)
        }),
{
    if let Some(v) = m.reg {
        if let Ok(bucket) = bucket_reading(h, v, span) {
            lemma_inserted(h, dict, key, value, bucket, m.error_type);
        }
    }
}

proof fn lemma_value_interpolated(
    resolved: ResolvedModule,
    modules: Seq<LoadedModule>,
    h: HeapView,
    m: MachineView,
    node: NodeId,
    acc: Seq<char>,
    index: int,
)
    ensures
        ({
            let s = value_interpolated(resolved, modules, h, m, node, acc, index);
            upheld(h, m, s.heap, s.machine)
        }),
{
    if let (Some(Node::StrLit(parts)), Some(v)) = (resolved.node_at(node), m.reg) {
        if index < parts@.len() && parts@[index] is Interp {
            let span = resolved.ast.range(parts@[index]->Interp_0);
            lemma_interpolated(
                resolved,
                h,
                m.voided(),
                node,
                parts@,
                nfc_text(acc + value_text(h, v)),
                (index + 1) as nat,
            );
            if let Some(cal) = implementation(m.protocols, WellKnown::Stringable, h, v) {
                let waiting = m.voided().doing(
                    Work::StrInterpRendered { node, acc, index: index as usize },
                );
                lemma_entering_unary(modules, h, waiting, cal, v, node, span);
            }
        }
    }
}

proof fn lemma_rendering_known(
    resolved: ResolvedModule,
    h: HeapView,
    m: MachineView,
    node: NodeId,
    acc: Seq<char>,
    index: int,
)
    ensures
        ({
            let s = rendering_known(resolved, h, m, node, acc, index);
            upheld(h, m, s.heap, s.machine)
        }),
{
    if let (Some(Node::StrLit(parts)), Some(Value::Str(s))) = (resolved.node_at(node), m.reg) {
        lemma_interpolated(
            resolved,
            h,
            m.voided(),
            node,
            parts@,
            nfc_text(acc + h.text(s)),
            (index + 1) as nat,
        );
    }
}

/// Whether a piece of work leaves the heap alone, and so only its machine is in question.
pub open spec fn still(c: ContView) -> bool {
    match c {
        Work::Statements { .. } => true,
        Work::BinRhs { .. } => true,
        Work::AndRhs { .. } => true,
        Work::OrRhs { .. } => true,
        Work::AssertBool { .. } => true,
        Work::AssignPlaceObj { .. } => true,
        Work::AssignIndexKey { .. } => true,
        Work::IfChoose { .. } => true,
        Work::WhileCheck { .. } => true,
        Work::LoopReloop { .. } => true,
        Work::DictGotKey { .. } => true,
        Work::FieldRead { .. } => true,
        Work::IndexGotObject { .. } => true,
        Work::IndexReadHashed { .. } => true,
        Work::ReturnBarrier => true,
        Work::ExitApply { .. } => true,
        Work::TryHandler { .. } => true,
        Work::PopHandler => true,
        Work::RaiseApply { .. } => true,
        Work::ImportTargets { .. } => true,
        _ => false,
    }
}

proof fn lemma_still(
    resolved: ResolvedModule,
    modules: Seq<LoadedModule>,
    h: HeapView,
    m: MachineView,
    c: ContView,
)
    requires
        still(c),
    ensures
        ({
            let s = dispatched(resolved, modules, h, m, c);
            upheld(h, m, s.heap, s.machine)
        }),
{
    reveal(dispatched);
}

proof fn lemma_dispatched(
    resolved: ResolvedModule,
    modules: Seq<LoadedModule>,
    h: HeapView,
    m: MachineView,
    c: ContView,
)
    ensures
        ({
            let s = dispatched(resolved, modules, h, m, c);
            upheld(h, m, s.heap, s.machine)
        }),
{
    let t = m.error_type;
    if still(c) {
        lemma_still(resolved, modules, h, m, c);
    } else {
        reveal(dispatched);
        let cur = resolved.canonical_id.0 as int;
        let names = if cur < modules.len() {
            named_view(modules[cur].namespace@)
        } else {
            Seq::empty()
        };
        match c {
            Work::Eval { node } => lemma_evaluated(resolved, modules, h, m, node),
            Work::BinApply { op, lhs, span } => lemma_alike(
                h,
                operator_applied(h, m, op, lhs, span).heap,
                t,
            ),
            Work::UnaryApply { op, span } => lemma_alike(h, unary_applied(h, m, op, span).heap, t),
            Work::BindLet { decl } => {
                if let Some(v) = m.reg {
                    lemma_declared(resolved, h, m.voided(), names, decl, v);
                }
            },
            Work::AssignTo { assign } => lemma_assigned(resolved, h, m, names, assign),
            Work::AssignFieldVal { assign, object } => lemma_field_set(
                resolved,
                h,
                m,
                assign,
                object,
            ),
            Work::AssignIndexVal { assign, object, key } => lemma_element_set(
                resolved,
                modules,
                h,
                m,
                assign,
                object,
                key,
            ),
            Work::CallGotCallee { call } => {
                if let Some(callee) = m.reg {
                    let voided = m.voided();
                    lemma_applied(resolved, modules, h, voided, call, callee, Seq::empty());
                }
            },
            Work::CallGotArg { call, callee, values, index } => {
                if let Some(v) = m.reg {
                    let all = values.push(v);
                    lemma_applied(resolved, modules, h, m.voided(), call, callee, all);
                }
            },
            Work::BlockGotArg { call, values, index } => {
                if let Some(v) = m.reg {
                    lemma_block_applied(resolved, modules, h, m.voided(), call, values.push(v));
                }
            },
            Work::ListGotElem { list, values, index } => lemma_element_known(
                resolved,
                h,
                m,
                list,
                values,
                index as int,
            ),
            Work::DictGotValue { dict, entries, index, key } => {
                if let Some(v) = m.reg {
                    lemma_literal_advanced(
                        resolved,
                        modules,
                        h,
                        m.voided(),
                        dict,
                        entries.push((key, v)),
                        index + 1,
                    );
                }
            },
            Work::DictBuildHashed { node, dict, entries, index } => lemma_literal_hash_known(
                resolved,
                modules,
                h,
                m,
                node,
                dict,
                entries,
                index as nat,
            ),
            Work::IndexApply { object, span, key_node } => {
                if let Some(key) = m.reg {
                    lemma_element_read(modules, h, m.voided(), object, key, key_node, span);
                }
            },
            Work::IndexAssignHashed { dict, key, value, span } => lemma_assign_hash_known(
                h,
                m,
                dict,
                key,
                value,
                span,
            ),
            Work::StrInterp { node, acc, index } => lemma_value_interpolated(
                resolved,
                modules,
                h,
                m,
                node,
                acc,
                index as int,
            ),
            Work::StrInterpRendered { node, acc, index } => lemma_rendering_known(
                resolved,
                h,
                m,
                node,
                acc,
                index as int,
            ),
            Work::BindDefault { slot, default } => lemma_default_bound(
                resolved,
                h,
                m,
                slot,
                default,
            ),
            Work::DefineCallable { decl } => lemma_callable_declared(resolved, h, m, names, decl),
            Work::DefineRecord { decl } => lemma_record_declared(resolved, h, m, names, decl),
            Work::WithBind { with_node } => lemma_with_opened(resolved, modules, h, m, with_node),
            Work::WithRestore { dyn_mark } => lemma_restored(h, m.dyn_stack, dyn_mark as nat, t),
            _ => {},
        }
    }
}

proof fn lemma_unwound(
    resolved: ResolvedModule,
    modules: Seq<LoadedModule>,
    h: HeapView,
    m: MachineView,
)
    ensures
        ({
            let (h2, m2, e) = unwound(resolved, modules, h, m);
            upheld(h, m, h2, m2)
        }),
{
    reveal(unwound);
    if m.frames.len() > 0 && m.top().conts.len() > 0 {
        match (m.top().conts.last(), m.unwind) {
            (Work::WithRestore { dyn_mark }, _) => {
                lemma_restored(h, undone(m).dyn_stack, dyn_mark as nat, m.error_type);
            },
            (Work::TryHandler { try_node }, Some(Unwind::Raise { value, trace, .. })) => {
                let rest = crate::unwind::settled(undone(m));
                lemma_copied(h, value, m.error_type);
                lemma_alike(
                    copied(h, value).0,
                    caught(resolved, h, rest, try_node, value, trace).0,
                    m.error_type,
                );
            },
            _ => {},
        }
    }
}

proof fn lemma_filled_in(
    h: HeapView,
    params: Seq<ForeignParamView>,
    slots: Seq<Option<Value>>,
    span: Span,
    n: nat,
    t: TypeIdx,
)
    ensures
        carried(h, filled_in(h, params, slots, span, n).0, t),
    decreases n,
{
    if n > 0 && n <= params.len() {
        lemma_filled_in(h, params, slots, span, (n - 1) as nat, t);
        lemma_alike(
            filled_in(h, params, slots, span, (n - 1) as nat).0,
            filled_in(h, params, slots, span, n).0,
            t,
        );
    }
}

proof fn lemma_call_started(
    h: HeapView,
    m: MachineView,
    ns: NativesView,
    id: u32,
    args: Seq<Value>,
    block: Option<BlockDescriptor>,
    span: Span,
)
    ensures
        ({
            let s = call_started(h, m, ns, id, args, block, span);
            upheld(h, m, s.heap, s.machine)
        }),
{
    lemma_alike(h, call_started(h, m, ns, id, args, block, span).heap, m.error_type);
}

proof fn lemma_call_begun(
    resolved: ResolvedModule,
    h: HeapView,
    m: MachineView,
    ns: NativesView,
    c: ForeignCall<Seq<Value>>,
)
    ensures
        ({
            let s = call_begun(resolved, h, m, ns, c);
            upheld(h, m, s.heap, s.machine)
        }),
{
    reveal(call_begun);
    let t = m.error_type;
    let span = resolved.ast.range(c.call);
    if let Some(Node::Call { args, .. }) = resolved.node_at(c.call) {
        let params = ns.table[c.id as int].params;
        let infos = infos_of(params);
        lemma_bound(h, infos, params.len(), args@, c.args, None, span, t);
        let b = arguments_bound(h, infos, params.len(), args@, c.args, None, span);
        lemma_filled_in(b.heap, params, b.slots, span, params.len(), t);
        let (h2, values) = foreign_bound(h, params, args@, c.args, span);
        if let (Ok(values), Ok(block)) = (
            values,
            block_binding(resolved, m, c.call, infos, span),
        ) {
            lemma_call_started(h2, m, ns, c.id, values, block, span);
        }
    }
}

pub proof fn lemma_block_invoked(
    modules: Seq<LoadedModule>,
    h: HeapView,
    m: MachineView,
    ns: NativesView,
    values: Seq<Value>,
)
    ensures
        ({
            let s = block_invoked(modules, h, m, ns, values);
            upheld(h, m, s.heap, s.machine)
        }),
{
    let a = ns.calls.last();
    if let Some(desc) = a.block {
        lemma_block_entering(
            modules,
            h,
            m,
            desc,
            Consumer::Native { boundary: a.boundary },
            unwritten_args(values.len()),
            values,
            None,
            block_range(modules, m, desc),
        );
    }
}

proof fn lemma_each_advanced(
    modules: Seq<LoadedModule>,
    h: HeapView,
    m: MachineView,
    ns: NativesView,
    next: usize,
    count: usize,
)
    ensures
        ({
            let s = each_advanced(modules, h, m, ns, next, count);
            upheld(h, m, s.heap, s.machine)
        }),
{
    reveal(each_advanced);
    if let Some((h2, element)) = element_at(h, ns.calls.last().args[0], next as int) {
        lemma_alike(h, h2, m.error_type);
        let ns2 = ns.progressed(Progress::Each { next: (next + 1) as usize, count });
        lemma_block_invoked(modules, h2, m, ns2, seq![element]);
    }
}

proof fn lemma_import_advanced(
    modules: Seq<LoadedModule>,
    h: HeapView,
    m: MachineView,
    cur: int,
    import: NodeId,
    next: int,
)
    ensures
        ({
            let s = import_advanced(modules, h, m, cur, import, next).step;
            upheld(h, m, s.heap, s.machine)
        }),
{
    reveal(import_advanced);
    lemma_alike(
        h,
        import_advanced(modules, h, m, cur, import, next).step.heap,
        m.error_type,
    );
}

pub proof fn lemma_collected(i: Instance, t: TurnView)
    requires
        t.heap.records.len() <= usize::MAX,
    ensures
        carried(t.heap, collected(t.heap, roots_at(i, t)), t.machine.error_type),
{
    reveal(sound);
    let error_type = t.machine.error_type;
    let roots = roots_at(i, t);
    if sound(t.heap, error_type) {
        law_collections_leave_records_fitting(t.heap, roots);
        let v = Value::Type(error_type);
        let r = Ref { place: Place::Types, index: error_type.0 };
        let values = machine_values(t.machine) + further_values(i, t);
        assert(values.contains(v)) by {
            let m = t.machine;
            let stack = stack_values(m.frames) + optional(m.reg) + transfer_values(m.unwind);
            let kept = callable_values(recent_callables(m.ring)) + saved_values(m.dyn_stack)
                + handled_values(m.handling) + failures(m.load.states);
            let fixed = implementing_values(m.protocols) + seq![v];
            let k = stack.len() + kept.len() + fixed.len() - 1;
            assert(fixed.last() == v);
            assert((stack + kept + fixed)[k] == v);
            assert(machine_values(m)[k] == v);
            assert(values[k] == v);
        }
        lemma_values_are_roots(values, v);
        let refs = value_refs(values);
        let n = choose|n: int| 0 <= n < refs.len() && refs[n] == r;
        assert(roots.contains(r)) by {
            reveal(roots_of);
            assert(roots[n] == r);
        }
        assert(reached(t.heap, roots, r, 0));
        law_exactly_the_reachable_survives(t.heap, roots, r);
    }
}

proof fn lemma_accounted(i: Instance, t: TurnView)
    ensures
        t.heap.records.len() <= usize::MAX ==> upheld(
            t.heap,
            t.machine,
            accounted(i, t).0.heap,
            accounted(i, t).0.machine,
        ),
        accounted(i, t).0.heap.records.len() == t.heap.records.len(),
        accounted(i, t).1 is None ==> accounted(i, t).0.machine.meter.fuel.budget
            < t.machine.meter.fuel.budget,
{
    assert(collected(t.heap, roots_at(i, t)).records.len() == t.heap.records.len()) by {
        reveal(collected);
    }
    if t.heap.records.len() <= usize::MAX {
        lemma_collected(i, t);
    }
}

proof fn lemma_settled_work(t: TurnView, resolved: ResolvedModule, s: Step)
    ensures
        ({
            let z = settled_work(t, resolved, s);
            upheld(s.heap, s.machine, z.heap, z.machine)
        }),
{
    lemma_raised_or(s.heap, s.machine, s.raise);
    let (heap, machine) = raised_or(s.heap, s.machine, s.raise);
    if let Some(c) = machine.foreign {
        let called = MachineView { foreign: None, ..machine };
        lemma_call_begun(resolved, heap, called, t.natives, c);
        let b = call_begun(resolved, heap, called, t.natives, c);
        lemma_raised_or(b.heap, b.machine, b.raise);
    }
}

proof fn lemma_rested(i: Instance, cancelled: bool, t: TurnView)
    requires
        rested(i, cancelled, t).heap.records.len() <= usize::MAX,
    ensures
        ({
            let z = rested(i, cancelled, t);
            &&& upheld(t.heap, t.machine, z.heap, z.machine)
            &&& !(t.turn is SafePoint) && z.turn is SafePoint ==> z.machine.meter.fuel.budget
                < t.machine.meter.fuel.budget
        }),
{
    lemma_accounted(i, t);
}

proof fn lemma_worked(i: Instance, cancelled: bool, cur: int)
    requires
        i.heap@.records.len() <= usize::MAX,
        worked(i, cancelled, cur).heap.records.len() <= usize::MAX,
    ensures
        ({
            let z = worked(i, cancelled, cur);
            &&& upheld(i.heap@, i.machine@, z.heap, z.machine)
            &&& z.turn is SafePoint ==> z.machine.meter.fuel.budget
                < i.machine@.meter.fuel.budget
        }),
{
    let resolved = i.modules@[cur].resolved;
    let c = i.machine@.top().conts.last();
    let t = untouched(i);
    match (next_statement(resolved, c), c) {
        (Some(stmt), _) => {
            lemma_accounted(i, t);
            let t2 = accounted(i, t).0;
            let s = dispatched(resolved, i.modules@, t2.heap, undone(t2.machine), c);
            lemma_dispatched(resolved, i.modules@, t2.heap, undone(t2.machine), c);
            lemma_settled_work(
                TurnView { stmt: Some(stmt), turn: TurnOf::SafePoint, ..t2 },
                resolved,
                s,
            );
        },
        (None, Work::ImportTargets { import, next }) => {
            let m = undone(t.machine);
            lemma_import_advanced(i.modules@, t.heap, m, cur, import, next as int);
            let s = import_advanced(i.modules@, t.heap, m, cur, import, next as int);
            lemma_settled_work(TurnView { modules: s.modules, ..t }, resolved, s.step);
        },
        (None, _) => {
            let s = dispatched(resolved, i.modules@, t.heap, undone(t.machine), c);
            lemma_dispatched(resolved, i.modules@, t.heap, undone(t.machine), c);
            lemma_settled_work(t, resolved, s);
            let w = watched(
                i.observation_mode,
                completes(resolved, c),
                settled_work(t, resolved, s),
            );
            lemma_rested(i, cancelled, w);
        },
    }
}

pub proof fn lemma_turned(i: Instance, cancelled: bool)
    requires
        i.heap@.records.len() <= usize::MAX,
        turned(i, cancelled).heap.records.len() <= usize::MAX,
    ensures
        ({
            let z = turned(i, cancelled);
            &&& upheld(i.heap@, i.machine@, z.heap, z.machine)
            &&& z.turn is SafePoint ==> z.machine.meter.fuel.budget
                < i.machine@.meter.fuel.budget
        }),
{
    let t = untouched(i);
    if i.machine@.meter.pending_fault is Some {
    } else if call_next(i) {
        if let (Progress::Each { next, count }, Some(cur)) = (
            i.natives@.calls.last().progress,
            current(i),
        ) {
            lemma_each_advanced(i.modules@, t.heap, t.machine, t.natives, next, count);
            let s = each_advanced(i.modules@, t.heap, t.machine, t.natives, next, count);
            lemma_raised_or(s.heap, s.machine, s.raise);
        }
    } else if i.machine@.frames.len() > 0 {
        if let Some(cur) = current(i) {
            if i.machine@.unwind is Some {
                let resolved = i.modules@[cur].resolved;
                lemma_unwound(resolved, i.modules@, t.heap, t.machine);
                let (h, m, e) = unwound(resolved, i.modules@, t.heap, t.machine);
                lemma_raised_or(h, m, e);
            } else if i.machine@.top().conts.len() == 0 {
                let f = i.machine@.top();
                if f.kind is ModuleTopLevel {
                    let load = t.machine.load.with_state(f.module, LoadState::Loaded);
                    let machine = MachineView { reg: None, load, ..t.machine.left() };
                    lemma_rested(i, cancelled, TurnView { machine, ..t });
                }
            } else {
                lemma_worked(i, cancelled, cur);
            }
        }
    }
}

/// No turn adds to the step budget, and each safe point takes from it: an instance has no more
/// safe points than its budget allows.
pub proof fn law_turns_spend_the_budget(a: Instance, t: TurnKind, b: Instance)
    requires
        follows(a, t, b),
    ensures
        b.machine@.meter.fuel.budget <= a.machine@.meter.fuel.budget,
        t is SafePoint ==> b.machine@.meter.fuel.budget < a.machine@.meter.fuel.budget,
{
    lemma_lengths(&a.heap);
    lemma_lengths(&b.heap);
    assert(left_by(b, t).heap == b.heap@);
    assert(left_by(b, t).machine == b.machine@);
    assert(left_by(b, t).turn == t);
    if left_by(b, t) == turned(a, true) {
        lemma_turned(a, true);
    } else {
        lemma_turned(a, false);
    }
}

} // verus!
