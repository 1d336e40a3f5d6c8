//! What the steps of a program leave: orderly heaps, and machines with free values.

use crate::activation::ActivationView;
use crate::activation::block_invoked;
use crate::activation::call_begun;
use crate::activation::call_started;
use crate::activation::each_advanced;
use crate::activation::element_at;
use crate::activation::NativesView;
use crate::activation::PendingView;
use crate::activation::Progress;
use crate::activation::unwritten_args;
use crate::arith::arithmetic;
use crate::arith::checked;
use crate::arith::Computed;
use crate::arith::computed;
use crate::arith::negation;
use crate::arith::settled_result;
use crate::assign::assigned;
use crate::assign::stored_name;
use crate::ast::Arg;
use crate::ast::BinaryOp;
use crate::ast::DictKey;
use crate::ast::ImportTarget;
use crate::ast::Node;
use crate::ast::NodeId;
use crate::ast::StrPart;
use crate::ast::UnaryOp;
use crate::bignum::int_literal;
use crate::binding::arguments_bound;
use crate::binding::lemma_arguments_bound_lengths;
use crate::binding::params_view;
use crate::block::block_applied;
use crate::block::block_argument_known;
use crate::block::block_binding;
use crate::block::block_range;
use crate::block::slot_owner;
use crate::call::applied;
use crate::call::argument_known;
use crate::call::call_scheduled;
use crate::call::callable_declared;
use crate::call::callable_made;
use crate::call::callee_known;
use crate::call::default_bound;
use crate::call::running_kind;
use crate::call::source_of;
use crate::cont::ContView;
use crate::cont::Work;
use crate::control::declared;
use crate::control::reference_reading;
use crate::control::slot_reading;
use crate::dict::inserted;
use crate::dynamic::restored;
use crate::dynamic::restored_heap;
use crate::dynamic::with_opened;
use crate::error::kind_slug;
use crate::error::RaiseView;
use crate::error::TraceView;
use crate::eval::element_known;
use crate::eval::evaluated;
use crate::eval::interpolated;
use crate::eval::operator_work;
use crate::eval::rendering_known;
use crate::eval::runs_text;
use crate::eval::value_interpolated;
use crate::exception::error_made;
use crate::exception::text_heap;
use crate::float::CANONICAL_NAN_BITS;
use crate::float::finite;
use crate::float::nan;
use crate::frame::BlockDescriptor;
use crate::frame::Consumer;
use crate::frame::Local;
use crate::hash::hashable;
use crate::hash::key_hash;
use crate::heap::CallableTarget;
use crate::heap::CellKind;
use crate::heap::HeapView;
use crate::heap::SchemaView;
use crate::heap::TypeView;
use crate::holding::frame_free;
use crate::holding::frames_free;
use crate::holding::group_frames;
use crate::holding::lemma_arguments_bound;
use crate::holding::lemma_block_entering;
use crate::holding::lemma_cell_read;
use crate::holding::lemma_choosing;
use crate::holding::lemma_constructed;
use crate::holding::lemma_entering;
use crate::holding::lemma_entering_unary;
use crate::holding::lemma_machine_wider;
use crate::holding::lemma_still;
use crate::holding::lemma_stored;
use crate::holding::lemma_trying;
use crate::holding::lemma_undone;
use crate::holding::local_free;
use crate::holding::machine_free;
use crate::holding::pairs_free;
use crate::holding::raise_free;
use crate::holding::slots_free;
use crate::holding::stood;
use crate::holding::unhashed;
use crate::holding::values_free;
use crate::holding::work_free;
use crate::importing::import_advanced;
use crate::importing::known_target;
use crate::importing::mods;
use crate::importing::ModView;
use crate::importing::targets_of;
use crate::index::built;
use crate::index::element_read;
use crate::index::element_set;
use crate::index::literal_advanced;
use crate::index::position_reading;
use crate::intrinsic::ForeignBody;
use crate::intrinsic::ForeignParamView;
use crate::intrinsic::IntrinsicView;
use crate::intrinsic::Native;
use crate::local::rebound;
use crate::local::shared_cell;
use crate::local::written;
use crate::machine::ForeignCall;
use crate::machine::MachineView;
use crate::machine::Unwind;
use crate::modload::LoadedModule;
use crate::modload::LoadState;
use crate::modload::LoadView;
use crate::named::named;
use crate::named::named_view;
use crate::names::declared_name;
use crate::names::free_cell;
use crate::names::ident_text;
use crate::names::parameter_reading;
use crate::native::const_made;
use crate::native::ConstView;
use crate::natives::filled_in;
use crate::natives::foreign_bound;
use crate::natives::infos_of;
use crate::natives::native_result;
use crate::number::int_value_heap;
use crate::number::number;
use crate::object::field_position;
use crate::object::field_set_step;
use crate::object::record_declared;
use crate::object::with_field;
use crate::protect::caught;
use crate::protocol::dispatch_type;
use crate::protocol::DispatchType;
use crate::protocol::Implementation;
use crate::protocol::implementation;
use crate::protocol::implementation_from;
use crate::protocol::WellKnown;
use crate::record::copied;
use crate::render::value_text;
use crate::resolve::Resolution;
use crate::resolve::ResolvedModule;
use crate::sealing::details_free;
use crate::sealing::free;
use crate::sealing::group_details;
use crate::sealing::lemma_aside;
use crate::sealing::lemma_copied;
use crate::sealing::lemma_error_made;
use crate::sealing::lemma_inserted;
use crate::sealing::lemma_new_cell;
use crate::sealing::lemma_new_dict;
use crate::sealing::lemma_new_list;
use crate::sealing::lemma_text;
use crate::sealing::lemma_wider;
use crate::sealing::lemma_wider_refl;
use crate::sealing::lemma_wider_trans;
use crate::sealing::lemma_with_cell;
use crate::sealing::lemma_with_field;
use crate::sealing::orderly;
use crate::sealing::sealed_by;
use crate::sealing::wider;
use crate::span::ModuleId;
use crate::span::Span;
use crate::step::dispatched;
use crate::step::materialized;
use crate::step::operator_applied;
use crate::step::unary_applied;
use crate::text::texts;
use crate::turn::raised_or;
use crate::unicode::grapheme_clusters;
use crate::unicode::nfc_text;
use crate::unwind::frame_unwound;
use crate::unwind::undone;
use crate::unwind::unwound;
use crate::upkeep::still;
use crate::value::CellIdx;
use crate::value::DictIdx;
use crate::value::TypeIdx;
use crate::value::Value;
use vstd::prelude::*;

verus! {

/// Whether the float literals of a module hold no NaN but the canonical one.
pub open spec fn calm(resolved: ResolvedModule) -> bool {
    forall|n: NodeId|
        (#[trigger] resolved.node_at(n)) matches Some(Node::FloatLit(x)) ==> nan(x) ==> x
            == CANONICAL_NAN_BITS
}

proof fn lemma_unhashed(
    protocols: Seq<Implementation>,
    on: DispatchType,
    from: nat,
)
    requires
        unhashed(protocols),
    ensures
        implementation_from(protocols, WellKnown::Hashable, on, from) is None,
    decreases protocols.len() - from,
{
    if from < protocols.len() {
        assert(!(protocols[from as int].protocol is Hashable));
        lemma_unhashed(protocols, on, from + 1);
    }
}

proof fn lemma_applied(
    resolved: ResolvedModule,
    modules: Seq<LoadedModule>,
    h: HeapView,
    s: Set<int>,
    m: MachineView,
    call: NodeId,
    callee: Value,
    values: Seq<Value>,
)
    requires
        orderly(h, s),
        machine_free(h, s, m),
        values_free(h, s, values),
    ensures
        ({
            let z = applied(resolved, modules, h, m, call, callee, values);
            stood(h, s, z.heap, s, z.machine, z.raise)
        }),
{
    lemma_wider_refl(h, s);
    let span = resolved.ast.range(call);
    match (resolved.node_at(call), callee) {
        (Some(Node::Call { .. }), Value::Type(idx)) => {
            lemma_constructed(resolved, h, s, m, call, idx, values);
        },
        (Some(Node::Call { args, .. }), Value::Callable(cal)) => {
            if let Some(c) = h.callable(cal) {
                match c.target {
                    CallableTarget::Dispatcher(protocol) => {
                        if values.len() > 0 {
                            if let Some(f) = implementation(m.protocols, protocol, h, values[0]) {
                                if let Some((module, info)) = source_of(modules, h, f) {
                                    let params = params_view(info.params@);
                                    let block = block_binding(resolved, m, call, params, span);
                                    lemma_entering(
                                        modules,
                                        h,
                                        s,
                                        m,
                                        f,
                                        args@,
                                        values,
                                        block,
                                        call,
                                        span,
                                        None,
                                    );
                                }
                            }
                        }
                    },
                    CallableTarget::Source(_) => {
                        if let Some((module, info)) = source_of(modules, h, cal) {
                            let params = params_view(info.params@);
                            let tail_of = if resolved.tail_call(call) {
                                running_kind(resolved, h, m)
                            } else {
                                None
                            };
                            lemma_entering(
                                modules,
                                h,
                                s,
                                m,
                                cal,
                                args@,
                                values,
                                block_binding(resolved, m, call, params, span),
                                call,
                                span,
                                tail_of,
                            );
                        }
                    },
                    _ => {},
                }
            }
        },
        _ => {},
    }
}

proof fn lemma_block_applied(
    resolved: ResolvedModule,
    modules: Seq<LoadedModule>,
    h: HeapView,
    s: Set<int>,
    m: MachineView,
    call: NodeId,
    values: Seq<Value>,
)
    requires
        orderly(h, s),
        machine_free(h, s, m),
        values_free(h, s, values),
    ensures
        ({
            let z = block_applied(resolved, modules, h, m, call, values);
            stood(h, s, z.heap, s, z.machine, z.raise)
        }),
{
    lemma_wider_refl(h, s);
    if let Some(Node::Call { callee, args, .. }) = resolved.node_at(call) {
        if let Some((owner, _)) = slot_owner(m, resolved, callee) {
            if let Some(desc) = m.frames[owner].block_param {
                lemma_block_entering(
                    modules,
                    h,
                    s,
                    m,
                    desc,
                    Consumer::DoodleCall { frame: owner as usize, serial: m.frames[owner].serial },
                    args@,
                    values,
                    Some(call),
                    resolved.ast.range(call),
                );
            }
        }
    }
}

proof fn lemma_call_scheduled(
    resolved: ResolvedModule,
    modules: Seq<LoadedModule>,
    h: HeapView,
    s: Set<int>,
    m: MachineView,
    call: NodeId,
)
    requires
        orderly(h, s),
        machine_free(h, s, m),
    ensures
        ({
            let z = call_scheduled(resolved, modules, h, m, call);
            stood(h, s, z.heap, s, z.machine, z.raise)
        }),
{
    broadcast use group_frames, group_details;

    lemma_wider_refl(h, s);
    lemma_block_applied(resolved, modules, h, s, m, call, Seq::empty());
}

proof fn lemma_callee_known(
    resolved: ResolvedModule,
    modules: Seq<LoadedModule>,
    h: HeapView,
    s: Set<int>,
    m: MachineView,
    call: NodeId,
)
    requires
        orderly(h, s),
        machine_free(h, s, m),
    ensures
        ({
            let z = callee_known(resolved, modules, h, m, call);
            stood(h, s, z.heap, s, z.machine, z.raise)
        }),
{
    broadcast use group_frames, group_details;

    lemma_wider_refl(h, s);
    if let Some(callee) = m.reg {
        lemma_applied(resolved, modules, h, s, m.voided(), call, callee, Seq::empty());
    }
}

proof fn lemma_argument_known(
    resolved: ResolvedModule,
    modules: Seq<LoadedModule>,
    h: HeapView,
    s: Set<int>,
    m: MachineView,
    call: NodeId,
    callee: Value,
    values: Seq<Value>,
    index: int,
)
    requires
        orderly(h, s),
        machine_free(h, s, m),
        free(h, s, callee),
        values_free(h, s, values),
    ensures
        ({
            let z = argument_known(resolved, modules, h, m, call, callee, values, index);
            stood(h, s, z.heap, s, z.machine, z.raise)
        }),
{
    broadcast use group_frames, group_details;

    lemma_wider_refl(h, s);
    if let Some(v) = m.reg {
        let all = values.push(v);
        assert(values_free(h, s, all));
        lemma_applied(resolved, modules, h, s, m.voided(), call, callee, all);
    }
}

proof fn lemma_block_argument_known(
    resolved: ResolvedModule,
    modules: Seq<LoadedModule>,
    h: HeapView,
    s: Set<int>,
    m: MachineView,
    call: NodeId,
    values: Seq<Value>,
    index: int,
)
    requires
        orderly(h, s),
        machine_free(h, s, m),
        values_free(h, s, values),
    ensures
        ({
            let z = block_argument_known(resolved, modules, h, m, call, values, index);
            stood(h, s, z.heap, s, z.machine, z.raise)
        }),
{
    broadcast use group_frames, group_details;

    lemma_wider_refl(h, s);
    if let Some(v) = m.reg {
        let all = values.push(v);
        assert(values_free(h, s, all));
        lemma_block_applied(resolved, modules, h, s, m.voided(), call, all);
    }
}

proof fn lemma_interpolated(
    resolved: ResolvedModule,
    h: HeapView,
    s: Set<int>,
    m: MachineView,
    node: NodeId,
    parts: Seq<StrPart>,
    acc: Seq<char>,
    from: nat,
)
    requires
        orderly(h, s),
        machine_free(h, s, m),
    ensures
        ({
            let (g, z) = interpolated(resolved, h, m, node, parts, acc, from);
            stood(h, s, g, s, z, None)
        }),
    decreases parts.len() - from,
{
    broadcast use group_frames;

    lemma_wider_refl(h, s);
    if from >= parts.len() {
        lemma_text(h, s, acc);
        lemma_machine_wider(h, s, h.new_string(acc), s, m);
    } else if let StrPart::Text(run) = parts[from as int] {
        lemma_interpolated(
            resolved,
            h,
            s,
            m,
            node,
            parts,
            nfc_text(acc + nfc_text(run@)),
            from + 1,
        );
    }
}

proof fn lemma_value_interpolated(
    resolved: ResolvedModule,
    modules: Seq<LoadedModule>,
    h: HeapView,
    s: Set<int>,
    m: MachineView,
    node: NodeId,
    acc: Seq<char>,
    index: int,
)
    requires
        orderly(h, s),
        machine_free(h, s, m),
    ensures
        ({
            let z = value_interpolated(resolved, modules, h, m, node, acc, index);
            stood(h, s, z.heap, s, z.machine, z.raise)
        }),
{
    broadcast use group_frames, group_details;

    lemma_wider_refl(h, s);
    if let (Some(Node::StrLit(parts)), Some(v)) = (resolved.node_at(node), m.reg) {
        if index < parts@.len() && parts@[index] is Interp {
            let span = resolved.ast.range(parts@[index]->Interp_0);
            lemma_interpolated(
                resolved,
                h,
                s,
                m.voided(),
                node,
                parts@,
                nfc_text(acc + value_text(h, v)),
                (index + 1) as nat,
            );
            if let Some(cal) = implementation(m.protocols, WellKnown::Stringable, h, v) {
                let waiting = m.voided().doing(
                    Work::StrInterpRendered { node, acc, index: index as usize },
                );
                assert(machine_free(h, s, waiting));
                lemma_entering_unary(modules, h, s, waiting, cal, v, node, span);
            }
        }
    }
}

proof fn lemma_rendering_known(
    resolved: ResolvedModule,
    h: HeapView,
    s: Set<int>,
    m: MachineView,
    node: NodeId,
    acc: Seq<char>,
    index: int,
)
    requires
        orderly(h, s),
        machine_free(h, s, m),
    ensures
        ({
            let z = rendering_known(resolved, h, m, node, acc, index);
            stood(h, s, z.heap, s, z.machine, z.raise)
        }),
{
    broadcast use group_frames, group_details;

    lemma_wider_refl(h, s);
    if let (Some(Node::StrLit(parts)), Some(Value::Str(i))) = (resolved.node_at(node), m.reg) {
        lemma_interpolated(
            resolved,
            h,
            s,
            m.voided(),
            node,
            parts@,
            nfc_text(acc + h.text(i)),
            (index + 1) as nat,
        );
    }
}

proof fn lemma_built(
    resolved: ResolvedModule,
    modules: Seq<LoadedModule>,
    h: HeapView,
    s: Set<int>,
    m: MachineView,
    node: NodeId,
    dict: DictIdx,
    entries: Seq<(Value, Value)>,
    index: nat,
) -> (t: Set<int>)
    requires
        orderly(h, s),
        machine_free(h, s, m),
        pairs_free(h, s, entries),
    ensures
        ({
            let z = built(resolved, modules, h, m, node, dict, entries, index);
            stood(h, s, z.heap, t, z.machine, z.raise)
        }),
    decreases entries.len() - index,
{
    lemma_wider_refl(h, s);
    if index >= entries.len() {
        s
    } else {
        let (key, value) = entries[index as int];
        lemma_unhashed(m.protocols, dispatch_type(h, key), 0);
        if hashable(h, key) {
            let t = sealed_by(h, s, dict, key, value);
            let g = inserted(h, dict, key, value, key_hash(h, key));
            lemma_inserted(h, s, dict, key, value);
            lemma_machine_wider(h, s, g, t, m);
            assert forall|j: int| 0 <= j < entries.len() implies free(
                g,
                t,
                (#[trigger] entries[j]).0,
            ) && free(g, t, entries[j].1) by {
                lemma_wider(h, s, g, t, entries[j].0);
                lemma_wider(h, s, g, t, entries[j].1);
            }
            let u = lemma_built(
                resolved,
                modules,
                g,
                t,
                m,
                node,
                dict,
                entries,
                index + 1,
            );
            let z = built(resolved, modules, h, m, node, dict, entries, index);
            lemma_wider_trans(h, s, g, t, z.heap, u);
            u
        } else {
            s
        }
    }
}

proof fn lemma_literal_advanced(
    resolved: ResolvedModule,
    modules: Seq<LoadedModule>,
    h: HeapView,
    s: Set<int>,
    m: MachineView,
    node: NodeId,
    entries: Seq<(Value, Value)>,
    index: int,
) -> (t: Set<int>)
    requires
        orderly(h, s),
        machine_free(h, s, m),
        pairs_free(h, s, entries),
    ensures
        ({
            let z = literal_advanced(resolved, modules, h, m, node, entries, index);
            stood(h, s, z.heap, t, z.machine, z.raise)
        }),
{
    broadcast use group_frames;

    lemma_wider_refl(h, s);
    let z = literal_advanced(resolved, modules, h, m, node, entries, index);
    let mut t = s;
    if let Some(Node::Dict(literal)) = resolved.node_at(node) {
        if index >= literal@.len() {
            let g = h.new_dict();
            let idx = DictIdx(h.dicts.len() as usize);
            lemma_new_dict(h, s);
            lemma_machine_wider(h, s, g, s, m);
            assert forall|j: int| 0 <= j < entries.len() implies free(
                g,
                s,
                (#[trigger] entries[j]).0,
            ) && free(g, s, entries[j].1) by {
                lemma_wider(h, s, g, s, entries[j].0);
                lemma_wider(h, s, g, s, entries[j].1);
            }
            t = lemma_built(resolved, modules, g, s, m, node, idx, entries, 0);
            lemma_wider_trans(h, s, g, s, z.heap, t);
        } else if let DictKey::Bare(name) = literal@[index].key {
            let g = text_heap(h, name@);
            lemma_text(h, s, nfc_text(name@));
            lemma_machine_wider(h, s, g, s, m);
            assert forall|j: int| 0 <= j < entries.len() implies free(
                g,
                s,
                (#[trigger] entries[j]).0,
            ) && free(g, s, entries[j].1) by {
                lemma_wider(h, s, g, s, entries[j].0);
                lemma_wider(h, s, g, s, entries[j].1);
            }
        }
    }
    t
}

proof fn lemma_slot_read(
    h: HeapView,
    s: Set<int>,
    m: MachineView,
    frame: int,
    slot: u16,
    name: Seq<char>,
    span: Span,
)
    requires
        orderly(h, s),
        machine_free(h, s, m),
    ensures
        (match slot_reading(h, m, frame, slot, name, span) {
            Ok(v) => free(h, s, v),
            Err(e) => details_free(h, s, e.details),
        }),
{
    reveal(frames_free);
    if let Some(local) = m.slot(frame, slot) {
        assert(frame_free(h, s, m.frames[frame]));
        assert(local_free(h, s, m.frames[frame].locals[slot as int]));
        if let Local::Boxed(c) = local {
            lemma_cell_read(h, s, Some(c), name, span);
        }
    }
}

proof fn lemma_free_cell(
    modules: Seq<LoadedModule>,
    cur: int,
    load: LoadView,
    h: HeapView,
    s: Set<int>,
    name: Seq<char>,
    span: Span,
)
    ensures
        free_cell(modules, cur, load, name, span) matches Err(e) ==> details_free(h, s, e.details),
{
    broadcast use group_details;

}

proof fn lemma_reference_read(
    resolved: ResolvedModule,
    modules: Seq<LoadedModule>,
    h: HeapView,
    s: Set<int>,
    m: MachineView,
    node: NodeId,
)
    requires
        orderly(h, s),
        machine_free(h, s, m),
    ensures
        (match reference_reading(resolved, modules, h, m, node) {
            Ok(v) => free(h, s, v),
            Err(e) => details_free(h, s, e.details),
        }),
{
    let span = resolved.ast.range(node);
    let name = ident_text(resolved, node);
    match resolved.resolution(node) {
        Some(Resolution::LocalSlot(slot)) => {
            lemma_slot_read(h, s, m, m.frames.len() - 1, slot, name, span);
        },
        Some(Resolution::BlockOuter { hops, slot }) => {
            if let Some(frame) = m.enclosing(hops as nat) {
                lemma_slot_read(h, s, m, frame, slot, name, span);
            }
        },
        Some(Resolution::ModuleName(i)) => {
            if let Some(known) = resolved.name_ref(i) {
                let cur = resolved.canonical_id.0 as int;
                lemma_free_cell(modules, cur, m.load, h, s, known, span);
                if let Ok(cell) = free_cell(modules, cur, m.load, known, span) {
                    lemma_cell_read(h, s, Some(cell), known, span);
                }
            }
        },
        None => {},
    }
}

proof fn lemma_evaluated_plainly(
    resolved: ResolvedModule,
    modules: Seq<LoadedModule>,
    h: HeapView,
    s: Set<int>,
    m: MachineView,
    node: NodeId,
)
    requires
        orderly(h, s),
        machine_free(h, s, m),
        calm(resolved),
        !(resolved.node_at(node) matches Some(Node::Dict(_))),
    ensures
        ({
            let z = evaluated(resolved, modules, h, m, node);
            stood(h, s, z.heap, s, z.machine, z.raise)
        }),
{
    broadcast use group_frames, group_details;

    lemma_wider_refl(h, s);
    let z = evaluated(resolved, modules, h, m, node);
    match resolved.node_at(node) {
        Some(Node::BytesLit(bytes)) => {
            lemma_aside(h, s, h.new_bytes(bytes@));
            lemma_machine_wider(h, s, z.heap, s, m);
        },
        Some(Node::StrLit(parts)) => {
            lemma_interpolated(resolved, h, s, m, node, parts@, Seq::empty(), 0);
            let text = runs_text(parts@, parts@.len());
            lemma_text(h, s, nfc_text(text));
            lemma_machine_wider(h, s, text_heap(h, text), s, m);
        },
        Some(Node::BigIntLit { radix, digits }) => {
            if let Some(n) = int_literal(digits@, radix as int) {
                lemma_aside(h, s, int_value_heap(h, n));
                lemma_machine_wider(h, s, int_value_heap(h, n), s, m);
            }
        },
        Some(Node::List(_)) => {
            lemma_new_list(h, s, Seq::empty());
            lemma_machine_wider(h, s, h.new_list(Seq::empty()), s, m);
        },
        Some(Node::Ident(_)) => {
            lemma_reference_read(resolved, modules, h, s, m, node);
        },
        Some(Node::If { .. }) => {
            lemma_choosing(resolved, h, s, m, node);
        },
        Some(Node::Try { .. }) => {
            lemma_trying(resolved, h, s, m, node);
        },
        Some(Node::Call { .. }) => {
            lemma_call_scheduled(resolved, modules, h, s, m, node);
        },
        Some(Node::Callable { .. }) => {
            lemma_aside(h, s, z.heap);
            lemma_machine_wider(h, s, z.heap, s, m);
        },
        Some(Node::Binary { op, rhs, .. }) => {
            assert(work_free(h, s, operator_work(op, rhs, resolved.ast.range(node))));
        },
        _ => {},
    }
}

proof fn lemma_evaluated(
    resolved: ResolvedModule,
    modules: Seq<LoadedModule>,
    h: HeapView,
    s: Set<int>,
    m: MachineView,
    node: NodeId,
) -> (t: Set<int>)
    requires
        orderly(h, s),
        machine_free(h, s, m),
        calm(resolved),
    ensures
        ({
            let z = evaluated(resolved, modules, h, m, node);
            stood(h, s, z.heap, t, z.machine, z.raise)
        }),
{
    if let Some(Node::Dict(_)) = resolved.node_at(node) {
        lemma_literal_advanced(resolved, modules, h, s, m, node, Seq::empty(), 0)
    } else {
        lemma_evaluated_plainly(resolved, modules, h, s, m, node);
        s
    }
}

proof fn lemma_written(
    h: HeapView,
    s: Set<int>,
    m: MachineView,
    frame: int,
    slot: u16,
    v: Value,
)
    requires
        orderly(h, s),
        machine_free(h, s, m),
        free(h, s, v),
    ensures
        ({
            let (g, z) = written(h, m, frame, slot, v);
            stood(h, s, g, s, z, None)
        }),
{
    broadcast use group_frames;

    lemma_wider_refl(h, s);
    if let Some(Local::Boxed(cell)) = m.slot(frame, slot) {
        lemma_with_cell(h, s, cell, Some(v));
        lemma_machine_wider(h, s, h.with_cell(cell, Some(v)), s, m);
    }
}

proof fn lemma_rebound(
    h: HeapView,
    s: Set<int>,
    m: MachineView,
    frame: int,
    slot: u16,
    v: Value,
)
    requires
        orderly(h, s),
        machine_free(h, s, m),
        free(h, s, v),
    ensures
        ({
            let (g, z) = rebound(h, m, frame, slot, v);
            stood(h, s, g, s, z, None)
        }),
{
    broadcast use group_frames;

    lemma_wider_refl(h, s);
    if let Some(Local::Boxed(_)) = m.slot(frame, slot) {
        lemma_new_cell(h, s, CellKind::Let, Some(v));
        lemma_machine_wider(h, s, h.new_cell(CellKind::Let, Some(v)), s, m);
    }
}

proof fn lemma_declared(
    resolved: ResolvedModule,
    h: HeapView,
    s: Set<int>,
    m: MachineView,
    names: Seq<(Seq<char>, CellIdx)>,
    decl: NodeId,
    value: Value,
)
    requires
        orderly(h, s),
        machine_free(h, s, m),
        free(h, s, value),
    ensures
        ({
            let (g, z) = declared(resolved, h, m, names, decl, value);
            stood(h, s, g, s, z, None)
        }),
{
    lemma_copied(h, s, value);
    let (h2, copy) = copied(h, value);
    lemma_machine_wider(h, s, h2, s, m);
    let (g, z) = declared(resolved, h, m, names, decl, value);
    match resolved.resolution(decl) {
        Some(Resolution::LocalSlot(slot)) => {
            lemma_rebound(h2, s, m, m.frames.len() - 1, slot, copy);
            lemma_wider_trans(h, s, h2, s, g, s);
        },
        None => {
            if let Some(name) = declared_name(resolved, decl) {
                if let Some(cell) = named(names, name) {
                    lemma_with_cell(h2, s, cell, Some(copy));
                    lemma_wider_trans(h, s, h2, s, g, s);
                    lemma_machine_wider(h, s, g, s, m);
                }
            }
        },
        _ => {},
    }
}

proof fn lemma_callable_declared(
    resolved: ResolvedModule,
    h: HeapView,
    s: Set<int>,
    m: MachineView,
    names: Seq<(Seq<char>, CellIdx)>,
    decl: NodeId,
)
    requires
        orderly(h, s),
        machine_free(h, s, m),
    ensures
        ({
            let (g, z) = callable_declared(resolved, h, m, names, decl);
            stood(h, s, g, s, z, None)
        }),
{
    broadcast use group_frames, group_details;

    lemma_wider_refl(h, s);
    let (g, z) = callable_declared(resolved, h, m, names, decl);
    let (made, m2, v) = callable_made(resolved, h, m, decl);
    lemma_aside(h, s, made);
    lemma_machine_wider(h, s, made, s, m2);
    lemma_declared(resolved, made, s, m2, names, decl, v);
    let declared_heap = declared(resolved, made, m2, names, decl, v).0;
    lemma_wider_trans(h, s, made, s, declared_heap, s);
    if let Some(Resolution::LocalSlot(slot)) = resolved.resolution(decl) {
        let top = m.frames.len() - 1;
        if shared_cell(m.slot(top, slot)) is Some {
            let cell = CellIdx(h.cells.len() as usize);
            let boxed = h.new_cell(CellKind::Let, None);
            let m3 = m.with_slot(top, slot, Local::Boxed(cell));
            lemma_new_cell(h, s, CellKind::Let, None);
            lemma_machine_wider(h, s, boxed, s, m);
            assert(machine_free(boxed, s, m3));
            let (h2, m4, v) = callable_made(resolved, boxed, m3, decl);
            lemma_aside(boxed, s, h2);
            lemma_machine_wider(boxed, s, h2, s, m4);
            lemma_with_cell(h2, s, cell, Some(v));
            lemma_machine_wider(h2, s, g, s, m4);
            lemma_wider_trans(h, s, boxed, s, h2, s);
            lemma_wider_trans(h, s, h2, s, g, s);
        }
    }
}

proof fn lemma_record_declared(
    resolved: ResolvedModule,
    h: HeapView,
    s: Set<int>,
    m: MachineView,
    names: Seq<(Seq<char>, CellIdx)>,
    decl: NodeId,
)
    requires
        orderly(h, s),
        machine_free(h, s, m),
    ensures
        ({
            let (g, z) = record_declared(resolved, h, m, names, decl);
            stood(h, s, g, s, z, None)
        }),
{
    lemma_wider_refl(h, s);
    if let Some(Node::Record { name, fields, is_ref }) = resolved.node_at(decl) {
        let kind = TypeView::Record(
            SchemaView { name: name@, fields: texts(fields@), is_ref: is_ref },
        );
        let h2 = h.new_type(kind);
        lemma_aside(h, s, h2);
        lemma_machine_wider(h, s, h2, s, m);
        let v = Value::Type(TypeIdx(h.types.len() as usize));
        lemma_declared(resolved, h2, s, m, names, decl, v);
        lemma_wider_trans(h, s, h2, s, declared(resolved, h2, m, names, decl, v).0, s);
    }
}

proof fn lemma_stored_name(
    resolved: ResolvedModule,
    h: HeapView,
    s: Set<int>,
    m: MachineView,
    names: Seq<(Seq<char>, CellIdx)>,
    target: NodeId,
    value: Value,
    span: Span,
)
    requires
        orderly(h, s),
        machine_free(h, s, m),
        free(h, s, value),
    ensures
        ({
            let z = stored_name(resolved, h, m, names, target, value, span);
            stood(h, s, z.heap, s, z.machine, z.raise)
        }),
{
    broadcast use group_frames, group_details;

    lemma_wider_refl(h, s);
    match resolved.resolution(target) {
        Some(Resolution::LocalSlot(slot)) => {
            lemma_written(h, s, m, m.frames.len() - 1, slot, value);
        },
        Some(Resolution::ModuleName(i)) => {
            if let Some(name) = resolved.name_ref(i) {
                if let Some(cell) = named(names, name) {
                    lemma_with_cell(h, s, cell, Some(value));
                    lemma_machine_wider(h, s, h.with_cell(cell, Some(value)), s, m);
                }
            }
        },
        Some(Resolution::BlockOuter { hops, slot }) => {
            if let Some(frame) = m.enclosing(hops as nat) {
                lemma_written(h, s, m, frame, slot, value);
            }
        },
        None => {},
    }
}

proof fn lemma_assigned(
    resolved: ResolvedModule,
    h: HeapView,
    s: Set<int>,
    m: MachineView,
    names: Seq<(Seq<char>, CellIdx)>,
    assign: NodeId,
)
    requires
        orderly(h, s),
        machine_free(h, s, m),
    ensures
        ({
            let z = assigned(resolved, h, m, names, assign);
            stood(h, s, z.heap, s, z.machine, z.raise)
        }),
{
    lemma_wider_refl(h, s);
    if let (Some(Node::Assign { target, .. }), Some(v)) = (resolved.node_at(assign), m.reg) {
        let span = resolved.ast.range(assign);
        lemma_copied(h, s, v);
        let (h2, copy) = copied(h, v);
        lemma_machine_wider(h, s, h2, s, m.voided());
        lemma_stored_name(resolved, h2, s, m.voided(), names, target, copy, span);
        let z = stored_name(resolved, h2, m.voided(), names, target, copy, span);
        lemma_wider_trans(h, s, h2, s, z.heap, s);
    }
}

proof fn lemma_default_bound(
    resolved: ResolvedModule,
    h: HeapView,
    s: Set<int>,
    m: MachineView,
    slot: u16,
    default: NodeId,
)
    requires
        orderly(h, s),
        machine_free(h, s, m),
    ensures
        ({
            let z = default_bound(resolved, h, m, slot, default);
            stood(h, s, z.heap, s, z.machine, z.raise)
        }),
{
    lemma_wider_refl(h, s);
    if let Some(v) = m.reg {
        lemma_copied(h, s, v);
        let (h2, copy) = copied(h, v);
        lemma_machine_wider(h, s, h2, s, m.voided());
        lemma_written(h2, s, m.voided(), m.frames.len() - 1, slot, copy);
        let h3 = written(h2, m.voided(), m.frames.len() - 1, slot, copy).0;
        lemma_wider_trans(h, s, h2, s, h3, s);
    }
}

proof fn lemma_element_known(
    resolved: ResolvedModule,
    h: HeapView,
    s: Set<int>,
    m: MachineView,
    list: NodeId,
    values: Seq<Value>,
    index: int,
)
    requires
        orderly(h, s),
        machine_free(h, s, m),
        values_free(h, s, values),
    ensures
        ({
            let z = element_known(resolved, h, m, list, values, index);
            stood(h, s, z.heap, s, z.machine, z.raise)
        }),
{
    broadcast use group_frames, group_details;

    lemma_wider_refl(h, s);
    if let Some(v) = m.reg {
        lemma_copied(h, s, v);
        let (h2, copy) = copied(h, v);
        lemma_machine_wider(h, s, h2, s, m);
        let all = values.push(copy);
        assert forall|j: int| 0 <= j < all.len() implies free(h2, s, #[trigger] all[j]) by {
            if j < values.len() {
                lemma_wider(h, s, h2, s, values[j]);
            }
        }
        lemma_new_list(h2, s, all);
        let h3 = h2.new_list(all);
        lemma_wider_trans(h, s, h2, s, h3, s);
        lemma_machine_wider(h, s, h3, s, m);
    }
}

proof fn lemma_with_opened(
    resolved: ResolvedModule,
    modules: Seq<LoadedModule>,
    h: HeapView,
    s: Set<int>,
    m: MachineView,
    with_node: NodeId,
)
    requires
        orderly(h, s),
        machine_free(h, s, m),
    ensures
        ({
            let z = with_opened(resolved, modules, h, m, with_node);
            stood(h, s, z.heap, s, z.machine, z.raise)
        }),
{
    broadcast use group_frames, group_details;

    lemma_wider_refl(h, s);
    if let (Some(Node::With { body, .. }), Some(Resolution::ModuleName(i)), Some(v)) = (
        resolved.node_at(with_node),
        resolved.resolution(with_node),
        m.reg,
    ) {
        if let Some(name) = resolved.name_ref(i) {
            let span = resolved.ast.range(with_node);
            let cur = resolved.canonical_id.0 as int;
            lemma_free_cell(modules, cur, m.load, h, s, name, span);
            if let Ok((cell, old_value)) = parameter_reading(modules, cur, m.load, h, name, span) {
                lemma_cell_read(h, s, Some(cell), name, span);
                lemma_copied(h, s, v);
                let (h2, copy) = copied(h, v);
                lemma_with_cell(h2, s, cell, Some(copy));
                let h3 = h2.with_cell(cell, Some(copy));
                lemma_wider_trans(h, s, h2, s, h3, s);
                let saved = MachineView {
                    dyn_stack: m.dyn_stack.push((cell, old_value)),
                    ..m.voided()
                };
                assert(machine_free(h, s, saved));
                lemma_machine_wider(h, s, h3, s, saved);
            }
        }
    }
}

proof fn lemma_restored_heap(h: HeapView, s: Set<int>, saved: Seq<(CellIdx, Value)>, mark: nat)
    requires
        orderly(h, s),
        forall|j: int| 0 <= j < saved.len() ==> free(h, s, (#[trigger] saved[j]).1),
    ensures
        orderly(restored_heap(h, saved, mark), s),
        wider(h, s, restored_heap(h, saved, mark), s),
    decreases saved.len(),
{
    lemma_wider_refl(h, s);
    if saved.len() > mark {
        let last = saved[saved.len() - 1];
        let h2 = h.with_cell(last.0, Some(last.1));
        lemma_with_cell(h, s, last.0, Some(last.1));
        let rest = saved.drop_last();
        assert forall|j: int| 0 <= j < rest.len() implies free(h2, s, (#[trigger] rest[j]).1) by {
            lemma_wider(h, s, h2, s, saved[j].1);
        }
        lemma_restored_heap(h2, s, rest, mark);
        lemma_wider_trans(h, s, h2, s, restored_heap(h2, rest, mark), s);
    }
}

pub proof fn lemma_restored(h: HeapView, s: Set<int>, m: MachineView, mark: nat)
    requires
        orderly(h, s),
        machine_free(h, s, m),
    ensures
        stood(h, s, restored(h, m, mark).0, s, restored(h, m, mark).1, None),
{
    lemma_restored_heap(h, s, m.dyn_stack, mark);
    let (g, z) = restored(h, m, mark);
    assert(machine_free(h, s, z)) by {
        if m.dyn_stack.len() > mark {
            assert forall|j: int| 0 <= j < z.dyn_stack.len() implies free(
                h,
                s,
                (#[trigger] z.dyn_stack[j]).1,
            ) by {
                assert(free(h, s, m.dyn_stack[j].1));
            }
        }
    }
    lemma_machine_wider(h, s, g, s, z);
}

proof fn lemma_field_set(
    resolved: ResolvedModule,
    h: HeapView,
    s: Set<int>,
    m: MachineView,
    assign: NodeId,
    object: Value,
)
    requires
        orderly(h, s),
        machine_free(h, s, m),
        free(h, s, object),
    ensures
        ({
            let z = field_set_step(resolved, h, m, assign, object);
            stood(h, s, z.heap, s, z.machine, z.raise)
        }),
{
    lemma_wider_refl(h, s);
    if let (Some(Node::Assign { target, .. }), Some(v), Value::Record(r)) = (
        resolved.node_at(assign),
        m.reg,
        object,
    ) {
        if let Some(Node::Field { name, .. }) = resolved.node_at(target) {
            lemma_copied(h, s, v);
            let (h2, copy) = copied(h, v);
            lemma_machine_wider(h, s, h2, s, m);
            lemma_wider(h, s, h2, s, object);
            if let Some(p) = field_position(h2, r, name@) {
                lemma_with_field(h2, s, r, p, copy);
                let h3 = with_field(h2, r, p, copy);
                lemma_wider_trans(h, s, h2, s, h3, s);
                lemma_machine_wider(h, s, h3, s, m);
            }
        }
    }
}

proof fn lemma_element_set(
    resolved: ResolvedModule,
    modules: Seq<LoadedModule>,
    h: HeapView,
    s: Set<int>,
    m: MachineView,
    assign: NodeId,
    object: Value,
    key: Value,
) -> (t: Set<int>)
    requires
        orderly(h, s),
        machine_free(h, s, m),
        free(h, s, object),
        free(h, s, key),
    ensures
        ({
            let z = element_set(resolved, modules, h, m, assign, object, key);
            stood(h, s, z.heap, t, z.machine, z.raise)
        }),
{
    lemma_wider_refl(h, s);
    let mut t = s;
    if let (Some(Node::Assign { .. }), Some(v), Value::Dict(d)) = (
        resolved.node_at(assign),
        m.reg,
        object,
    ) {
        lemma_unhashed(m.protocols, dispatch_type(h, key), 0);
        if hashable(h, key) {
            t = sealed_by(h, s, d, key, v);
            lemma_inserted(h, s, d, key, v);
            lemma_machine_wider(h, s, inserted(h, d, key, v, key_hash(h, key)), t, m);
        }
    }
    t
}

proof fn lemma_element_read(
    modules: Seq<LoadedModule>,
    h: HeapView,
    s: Set<int>,
    m: MachineView,
    object: Value,
    key: Value,
    key_node: NodeId,
    span: Span,
)
    requires
        orderly(h, s),
        machine_free(h, s, m),
        free(h, s, object),
        free(h, s, key),
    ensures
        ({
            let z = element_read(modules, h, m, object, key, key_node, span);
            stood(h, s, z.heap, s, z.machine, z.raise)
        }),
{
    broadcast use group_details;

    lemma_wider_refl(h, s);
    match object {
        Value::Dict(d) => {
            lemma_unhashed(m.protocols, dispatch_type(h, key), 0);
            lemma_stored(h, s, d, key, key_hash(h, key));
        },
        Value::List(l) => {
            reveal(orderly);
            if let Ok(p) = position_reading(h, key, h.items(l).len(), span) {
                if h.records.len() <= usize::MAX {
                    assert(free(h, s, h.items(l)[p as int]));
                }
            }
        },
        Value::Str(i) => {
            let clusters = grapheme_clusters(h.text(i));
            if let Ok(p) = position_reading(h, key, clusters.len(), span) {
                lemma_text(h, s, clusters[p as int]);
                lemma_machine_wider(h, s, h.new_string(clusters[p as int]), s, m);
            }
        },
        _ => {},
    }
}

proof fn lemma_computed(c: Computed, span: Span, h: HeapView, s: Set<int>)
    requires
        orderly(h, s),
        c matches Computed::Float(x) ==> finite(x),
    ensures
        ({
            let (r, g) = settled_result(c, span, h);
            &&& orderly(g, s)
            &&& wider(h, s, g, s)
            &&& r is Ok ==> free(g, s, r->Ok_0)
            &&& r is Err ==> details_free(g, s, r->Err_0.details)
        }),
{
    lemma_wider_refl(h, s);
    let (r, g) = settled_result(c, span, h);
    lemma_aside(h, s, g);
}

proof fn lemma_operator_applied(
    h: HeapView,
    s: Set<int>,
    m: MachineView,
    op: BinaryOp,
    lhs: Value,
    span: Span,
)
    requires
        orderly(h, s),
        machine_free(h, s, m),
        free(h, s, lhs),
    ensures
        ({
            let z = operator_applied(h, m, op, lhs, span);
            stood(h, s, z.heap, s, z.machine, z.raise)
        }),
{
    broadcast use group_details;

    lemma_wider_refl(h, s);
    if let Some(rhs) = m.reg {
        if arithmetic(op) {
            if let (Some(a), Some(b)) = (number(h, lhs), number(h, rhs)) {
                let c = computed(op, a, b);
                lemma_computed(c, span, h, s);
                let g = settled_result(c, span, h).1;
                lemma_machine_wider(h, s, g, s, m);
            }
        }
    }
}

proof fn lemma_unary_applied(
    h: HeapView,
    s: Set<int>,
    m: MachineView,
    op: UnaryOp,
    span: Span,
)
    requires
        orderly(h, s),
        machine_free(h, s, m),
    ensures
        ({
            let z = unary_applied(h, m, op, span);
            stood(h, s, z.heap, s, z.machine, z.raise)
        }),
{
    broadcast use group_details;

    lemma_wider_refl(h, s);
    if let Some(v) = m.reg {
        if let Some(n) = number(h, v) {
            lemma_computed(negation(n), span, h, s);
            lemma_machine_wider(h, s, settled_result(negation(n), span, h).1, s, m);
            if let Value::Float(x) = v {
                lemma_computed(checked(x), span, h, s);
                lemma_machine_wider(h, s, settled_result(checked(x), span, h).1, s, m);
            }
        }
    }
}

pub proof fn lemma_dispatched(
    resolved: ResolvedModule,
    modules: Seq<LoadedModule>,
    h: HeapView,
    s: Set<int>,
    m: MachineView,
    c: ContView,
) -> (t: Set<int>)
    requires
        orderly(h, s),
        machine_free(h, s, m),
        work_free(h, s, c),
        calm(resolved),
    ensures
        ({
            let z = dispatched(resolved, modules, h, m, c);
            stood(h, s, z.heap, t, z.machine, z.raise)
        }),
{
    lemma_wider_refl(h, s);
    let mut t = s;
    if still(c) {
        lemma_still(resolved, modules, h, s, m, c);
    } else {
        reveal(dispatched);
        let cur = resolved.canonical_id.0 as int;
        let names = if cur < modules.len() {
            named_view(modules[cur].namespace@)
        } else {
            Seq::empty()
        };
        match c {
            Work::Eval { node } => {
                t = lemma_evaluated(resolved, modules, h, s, m, node);
            },
            Work::BinApply { op, lhs, span } => lemma_operator_applied(h, s, m, op, lhs, span),
            Work::UnaryApply { op, span } => lemma_unary_applied(h, s, m, op, span),
            Work::BindLet { decl } => {
                if let Some(v) = m.reg {
                    lemma_declared(resolved, h, s, m.voided(), names, decl, v);
                }
            },
            Work::AssignTo { assign } => lemma_assigned(resolved, h, s, m, names, assign),
            Work::AssignFieldVal { assign, object } => {
                lemma_field_set(resolved, h, s, m, assign, object);
            },
            Work::AssignIndexVal { assign, object, key } => {
                t = lemma_element_set(resolved, modules, h, s, m, assign, object, key);
            },
            Work::CallGotCallee { call } => lemma_callee_known(resolved, modules, h, s, m, call),
            Work::CallGotArg { call, callee, values, index } => {
                lemma_argument_known(
                    resolved,
                    modules,
                    h,
                    s,
                    m,
                    call,
                    callee,
                    values,
                    index as int,
                );
            },
            Work::BlockGotArg { call, values, index } => {
                lemma_block_argument_known(
                    resolved,
                    modules,
                    h,
                    s,
                    m,
                    call,
                    values,
                    index as int,
                );
            },
            Work::ListGotElem { list, values, index } => {
                lemma_element_known(resolved, h, s, m, list, values, index as int);
            },
            Work::DictGotValue { dict, entries, index, key } => {
                if let Some(v) = m.reg {
                    let all = entries.push((key, v));
                    assert(pairs_free(h, s, all));
                    t = lemma_literal_advanced(
                        resolved,
                        modules,
                        h,
                        s,
                        m.voided(),
                        dict,
                        all,
                        index + 1,
                    );
                    if index >= usize::MAX {
                        t = s;
                    }
                }
            },
            Work::IndexApply { object, span, key_node } => {
                if let Some(key) = m.reg {
                    lemma_element_read(modules, h, s, m.voided(), object, key, key_node, span);
                }
            },
            Work::StrInterp { node, acc, index } => {
                lemma_value_interpolated(resolved, modules, h, s, m, node, acc, index as int);
            },
            Work::StrInterpRendered { node, acc, index } => {
                lemma_rendering_known(resolved, h, s, m, node, acc, index as int);
            },
            Work::BindDefault { slot, default } => {
                lemma_default_bound(resolved, h, s, m, slot, default);
            },
            Work::DefineCallable { decl } => {
                lemma_callable_declared(resolved, h, s, m, names, decl);
            },
            Work::DefineRecord { decl } => {
                lemma_record_declared(resolved, h, s, m, names, decl);
            },
            Work::WithBind { with_node } => {
                lemma_with_opened(resolved, modules, h, s, m, with_node);
            },
            Work::WithRestore { dyn_mark } => lemma_restored(h, s, m, dyn_mark as nat),
            _ => {},
        }
    }
    t
}

proof fn lemma_caught(
    resolved: ResolvedModule,
    h: HeapView,
    s: Set<int>,
    m: MachineView,
    try_node: NodeId,
    value: Value,
    trace: TraceView,
)
    requires
        orderly(h, s),
        machine_free(h, s, m),
        free(h, s, value),
    ensures
        ({
            let (g, z) = caught(resolved, h, m, try_node, value, trace);
            stood(h, s, g, s, z, None)
        }),
{
    broadcast use group_frames;

    lemma_wider_refl(h, s);
    if let Some(Resolution::LocalSlot(slot)) = resolved.resolution(try_node) {
        lemma_copied(h, s, value);
        let (h2, copy) = copied(h, value);
        lemma_machine_wider(h, s, h2, s, m);
        let top = m.frames.len() - 1;
        lemma_rebound(h2, s, m, top, slot, copy);
        let (h3, bound) = rebound(h2, m, top, slot, copy);
        lemma_wider_trans(h, s, h2, s, h3, s);
        lemma_wider(h, s, h3, s, value);
        let handling = MachineView { handling: bound.handling.push((value, trace)), ..bound };
        assert(machine_free(h3, s, handling));
    }
}

proof fn lemma_frame_unwound(
    modules: Seq<LoadedModule>,
    h: HeapView,
    s: Set<int>,
    m: MachineView,
)
    requires
        machine_free(h, s, m),
        m.frames.len() > 0,
    ensures
        ({
            let (z, e) = frame_unwound(modules, h, m);
            machine_free(h, s, z) && raise_free(h, s, e)
        }),
{
    broadcast use group_frames;

    assert(machine_free(h, s, m.left()));
}

pub proof fn lemma_unwound(
    resolved: ResolvedModule,
    modules: Seq<LoadedModule>,
    h: HeapView,
    s: Set<int>,
    m: MachineView,
)
    requires
        orderly(h, s),
        machine_free(h, s, m),
    ensures
        ({
            let (g, z, e) = unwound(resolved, modules, h, m);
            stood(h, s, g, s, z, e)
        }),
{
    broadcast use group_frames;

    reveal(unwound);
    lemma_wider_refl(h, s);
    if m.frames.len() > 0 {
        if m.top().conts.len() == 0 {
            lemma_frame_unwound(modules, h, s, m);
        } else {
            let rest = undone(m);
            lemma_undone(h, s, m);
            assert(machine_free(h, s, rest));
            match (m.top().conts.last(), m.unwind) {
                (Work::WithRestore { dyn_mark }, _) => {
                    lemma_restored(h, s, rest, dyn_mark as nat);
                },
                (Work::TryHandler { try_node }, Some(Unwind::Raise { value, trace, .. })) => {
                    lemma_caught(
                        resolved,
                        h,
                        s,
                        crate::unwind::settled(rest),
                        try_node,
                        value,
                        trace,
                    );
                },
                _ => {},
            }
        }
    }
}

/// Making an exception a value leaves an orderly heap and free values.
pub proof fn lemma_raised_or(
    h: HeapView,
    s: Set<int>,
    m: MachineView,
    e: Option<RaiseView>,
) -> (t: Set<int>)
    requires
        orderly(h, s),
        machine_free(h, s, m),
        raise_free(h, s, e),
    ensures
        ({
            let (g, z) = raised_or(h, m, e);
            stood(h, s, g, t, z, None)
        }),
{
    lemma_wider_refl(h, s);
    if let Some(e) = e {
        reveal(materialized);
        let slug = kind_slug(e.kind);
        let t = lemma_error_made(h, s, m.error_type, slug, e.message, e.details);
        let g = error_made(h, m.error_type, slug, e.message, e.details).0;
        lemma_machine_wider(h, s, g, t, m);
        t
    } else {
        s
    }
}

/// Whether a constant, if there is one, is no NaN but the canonical one.
pub open spec fn const_calm(c: Option<ConstView>) -> bool {
    c matches Some(ConstView::Float(x)) ==> nan(x) ==> x == CANONICAL_NAN_BITS
}

/// Whether the defaults of some parameters are no NaN but the canonical one.
pub open spec fn params_calm(params: Seq<ForeignParamView>) -> bool {
    forall|j: int| 0 <= j < params.len() ==> const_calm((#[trigger] params[j]).default)
}

/// Whether the defaults of some functions are no NaN but the canonical one.
pub open spec fn table_calm(table: Seq<IntrinsicView>) -> bool {
    forall|k: int| 0 <= k < table.len() ==> params_calm((#[trigger] table[k]).params)
}

/// Whether the values that running and parked calls hold are free.
pub open spec fn calls_free(
    h: HeapView,
    s: Set<int>,
    calls: Seq<ActivationView>,
    pending: Option<PendingView>,
) -> bool {
    &&& forall|k: int| 0 <= k < calls.len() ==> values_free(h, s, (#[trigger] calls[k]).args)
    &&& pending is Some ==> values_free(h, s, pending->0.args)
}

/// Whether the values that native functions hold are free.
pub open spec fn natives_free(h: HeapView, s: Set<int>, ns: NativesView) -> bool {
    calls_free(h, s, ns.calls, ns.pending) && table_calm(ns.table)
}

pub proof fn lemma_values_wider(
    h: HeapView,
    s: Set<int>,
    g: HeapView,
    t: Set<int>,
    values: Seq<Value>,
)
    requires
        wider(h, s, g, t),
        values_free(h, s, values),
    ensures
        values_free(g, t, values),
{
    assert forall|j: int| 0 <= j < values.len() implies free(g, t, #[trigger] values[j]) by {
        lemma_wider(h, s, g, t, values[j]);
    }
}

pub proof fn lemma_calls_wider(
    h: HeapView,
    s: Set<int>,
    g: HeapView,
    t: Set<int>,
    calls: Seq<ActivationView>,
    pending: Option<PendingView>,
)
    requires
        wider(h, s, g, t),
        calls_free(h, s, calls, pending),
    ensures
        calls_free(g, t, calls, pending),
{
    assert forall|k: int| 0 <= k < calls.len() implies values_free(
        g,
        t,
        (#[trigger] calls[k]).args,
    ) by {
        lemma_values_wider(h, s, g, t, calls[k].args);
    }
    if pending is Some {
        lemma_values_wider(h, s, g, t, pending->0.args);
    }
}

proof fn lemma_filled_in(
    h: HeapView,
    s: Set<int>,
    params: Seq<ForeignParamView>,
    slots: Seq<Option<Value>>,
    span: Span,
    n: nat,
)
    requires
        orderly(h, s),
        slots_free(h, s, slots),
        slots.len() >= params.len(),
        params_calm(params),
    ensures
        ({
            let (g, r) = filled_in(h, params, slots, span, n);
            &&& orderly(g, s)
            &&& wider(h, s, g, s)
            &&& r is Ok ==> values_free(g, s, r->Ok_0)
            &&& r is Err ==> details_free(g, s, r->Err_0.details)
        }),
    decreases n,
{
    lemma_wider_refl(h, s);
    if n > 0 && n <= params.len() {
        lemma_filled_in(h, s, params, slots, span, (n - 1) as nat);
        let (h1, before) = filled_in(h, params, slots, span, (n - 1) as nat);
        if let Ok(args) = before {
            if slots[n - 1] is Some {
                lemma_wider(h, s, h1, s, slots[n - 1]->0);
            } else if let Some(c) = params[n - 1].default {
                let (h2, v) = const_made(h1, c);
                assert(const_calm(params[n - 1].default));
                lemma_aside(h1, s, h2);
                lemma_wider_trans(h, s, h1, s, h2, s);
                lemma_values_wider(h1, s, h2, s, args);
                assert(free(h2, s, v));
            }
        }
    }
}

proof fn lemma_foreign_bound(
    h: HeapView,
    s: Set<int>,
    params: Seq<ForeignParamView>,
    args: Seq<Arg>,
    values: Seq<Value>,
    span: Span,
)
    requires
        orderly(h, s),
        values_free(h, s, values),
        params_calm(params),
    ensures
        ({
            let (g, r) = foreign_bound(h, params, args, values, span);
            &&& orderly(g, s)
            &&& wider(h, s, g, s)
            &&& r is Ok ==> values_free(g, s, r->Ok_0)
            &&& r is Err ==> details_free(g, s, r->Err_0.details)
        }),
{
    let infos = infos_of(params);
    lemma_arguments_bound(h, s, infos, params.len(), args, values, None, span);
    lemma_arguments_bound_lengths(h, infos, params.len(), args, values, None, span);
    let b = arguments_bound(h, infos, params.len(), args, values, None, span);
    lemma_filled_in(b.heap, s, params, b.slots, span, params.len());
    let g = filled_in(b.heap, params, b.slots, span, params.len()).0;
    lemma_wider_trans(h, s, b.heap, s, g, s);
}

proof fn lemma_native_result(native: Native, h: HeapView, s: Set<int>, v: Value, span: Span)
    requires
        orderly(h, s),
    ensures
        ({
            let z = native_result(native, h, v, span);
            &&& orderly(z.heap, s)
            &&& wider(h, s, z.heap, s)
            &&& z.result matches Ok(Some(v)) ==> free(z.heap, s, v)
            &&& z.result matches Err(e) ==> details_free(z.heap, s, e.details)
        }),
{
    lemma_wider_refl(h, s);
    lemma_aside(h, s, native_result(native, h, v, span).heap);
}

proof fn lemma_call_started(
    h: HeapView,
    s: Set<int>,
    m: MachineView,
    ns: NativesView,
    id: u32,
    args: Seq<Value>,
    block: Option<BlockDescriptor>,
    span: Span,
)
    requires
        orderly(h, s),
        machine_free(h, s, m),
        natives_free(h, s, ns),
        values_free(h, s, args),
    ensures
        ({
            let z = call_started(h, m, ns, id, args, block, span);
            stood(h, s, z.heap, s, z.machine, z.raise) && natives_free(z.heap, s, z.natives)
        }),
{
    lemma_wider_refl(h, s);
    let f = ns.table[id as int];
    if let ForeignBody::Engine(native) = f.body {
        if args.len() > 0 && !(native is Each) {
            lemma_native_result(native, h, s, args[0], span);
            let g = native_result(native, h, args[0], span).heap;
            lemma_machine_wider(h, s, g, s, m);
            lemma_calls_wider(h, s, g, s, ns.calls, ns.pending);
        }
    }
}

pub proof fn lemma_call_begun(
    resolved: ResolvedModule,
    h: HeapView,
    s: Set<int>,
    m: MachineView,
    ns: NativesView,
    c: ForeignCall<Seq<Value>>,
)
    requires
        orderly(h, s),
        machine_free(h, s, m),
        natives_free(h, s, ns),
        values_free(h, s, c.args),
    ensures
        ({
            let z = call_begun(resolved, h, m, ns, c);
            stood(h, s, z.heap, s, z.machine, z.raise) && natives_free(z.heap, s, z.natives)
        }),
{
    reveal(call_begun);
    lemma_wider_refl(h, s);
    let span = resolved.ast.range(c.call);
    if let Some(Node::Call { args, .. }) = resolved.node_at(c.call) {
        if c.id < ns.table.len() {
            let params = ns.table[c.id as int].params;
            assert(params_calm(ns.table[c.id as int].params));
            lemma_foreign_bound(h, s, params, args@, c.args, span);
            let (h2, r) = foreign_bound(h, params, args@, c.args, span);
            lemma_machine_wider(h, s, h2, s, m);
            lemma_calls_wider(h, s, h2, s, ns.calls, ns.pending);
            if let (Ok(values), Ok(block)) = (
                r,
                block_binding(resolved, m, c.call, infos_of(params), span),
            ) {
                lemma_call_started(h2, s, m, ns, c.id, values, block, span);
                let z = call_started(h2, m, ns, c.id, values, block, span);
                lemma_wider_trans(h, s, h2, s, z.heap, s);
            }
        }
    }
}

pub proof fn lemma_block_invoked(
    modules: Seq<LoadedModule>,
    h: HeapView,
    s: Set<int>,
    m: MachineView,
    ns: NativesView,
    values: Seq<Value>,
)
    requires
        orderly(h, s),
        machine_free(h, s, m),
        values_free(h, s, values),
    ensures
        ({
            let z = block_invoked(modules, h, m, ns, values);
            stood(h, s, z.heap, s, z.machine, z.raise) && z.natives == ns
        }),
{
    lemma_wider_refl(h, s);
    let a = ns.calls.last();
    if let Some(desc) = a.block {
        lemma_block_entering(
            modules,
            h,
            s,
            m,
            desc,
            Consumer::Native { boundary: a.boundary },
            unwritten_args(values.len()),
            values,
            None,
            block_range(modules, m, desc),
        );
    }
}

pub proof fn lemma_each_advanced(
    modules: Seq<LoadedModule>,
    h: HeapView,
    s: Set<int>,
    m: MachineView,
    ns: NativesView,
    next: usize,
    count: usize,
)
    requires
        orderly(h, s),
        machine_free(h, s, m),
        natives_free(h, s, ns),
        ns.calls.len() > 0,
    ensures
        ({
            let z = each_advanced(modules, h, m, ns, next, count);
            stood(h, s, z.heap, s, z.machine, z.raise) && natives_free(z.heap, s, z.natives)
        }),
{
    reveal(each_advanced);
    lemma_wider_refl(h, s);
    let a = ns.calls.last();
    assert(values_free(h, s, ns.calls[ns.calls.len() - 1].args));
    assert(natives_free(h, s, ns.left()));
    if m.unwind is None && next < count && a.args.len() > 0 {
        if let Some((h2, element)) = element_at(h, a.args[0], next as int) {
            assert(orderly(h2, s) && wider(h, s, h2, s) && free(h2, s, element)) by {
                match a.args[0] {
                    Value::List(l) => {
                        reveal(orderly);
                        if h.records.len() <= usize::MAX {
                            assert(free(h, s, h.items(l)[next as int]));
                        }
                    },
                    Value::Str(i) => {
                        let clusters = grapheme_clusters(h.text(i));
                        lemma_text(h, s, clusters[next as int]);
                    },
                    _ => {},
                }
            }
            lemma_machine_wider(h, s, h2, s, m);
            let ns2 = ns.progressed(Progress::Each { next: (next + 1) as usize, count });
            lemma_block_invoked(modules, h2, s, m, ns2, seq![element]);
            let z = block_invoked(modules, h2, m, ns2, seq![element]);
            lemma_wider_trans(h, s, h2, s, z.heap, s);
            assert(natives_free(h, s, ns2)) by {
                assert forall|k: int| 0 <= k < ns2.calls.len() implies values_free(
                    h,
                    s,
                    (#[trigger] ns2.calls[k]).args,
                ) by {
                    assert(values_free(h, s, ns.calls[k].args));
                }
            }
            lemma_calls_wider(h, s, z.heap, s, ns2.calls, ns2.pending);
            lemma_calls_wider(h, s, z.heap, s, ns.left().calls, ns.pending);
        }
    }
}

/// Whether the float literals of some modules hold no NaN but the canonical one.
pub open spec fn modules_calm(ms: Seq<ModView>) -> bool {
    forall|k: int| 0 <= k < ms.len() ==> calm((#[trigger] ms[k]).resolved)
}

proof fn lemma_known_target(
    modules: Seq<LoadedModule>,
    h: HeapView,
    s: Set<int>,
    m: MachineView,
    cur: int,
    import: NodeId,
    next: int,
    target: ImportTarget,
    id: ModuleId,
    member: Option<Seq<char>>,
    span: Span,
)
    requires
        orderly(h, s),
        machine_free(h, s, m),
        modules_calm(mods(modules)),
        0 <= cur < modules.len(),
    ensures
        ({
            let z = known_target(modules, h, m, cur, import, next, target, id, member, span);
            &&& stood(h, s, z.step.heap, s, z.step.machine, z.step.raise)
            &&& modules_calm(z.modules)
        }),
{
    broadcast use group_frames, group_details;

    lemma_wider_refl(h, s);
    let ms = mods(modules);
    assert(calm(ms[cur].resolved));
    let cell = h.new_cell(CellKind::Const, Some(Value::Module(id)));
    lemma_new_cell(h, s, CellKind::Const, Some(Value::Module(id)));
    lemma_machine_wider(h, s, cell, s, m);
    if let Some(LoadState::Failed(value)) = m.load.state(id) {
        assert(m.load.states[id.0 as int] is Failed);
    }
}

pub proof fn lemma_import_advanced(
    modules: Seq<LoadedModule>,
    h: HeapView,
    s: Set<int>,
    m: MachineView,
    cur: int,
    import: NodeId,
    next: int,
)
    requires
        orderly(h, s),
        machine_free(h, s, m),
        modules_calm(mods(modules)),
        0 <= cur < modules.len(),
    ensures
        ({
            let z = import_advanced(modules, h, m, cur, import, next);
            &&& stood(h, s, z.step.heap, s, z.step.machine, z.step.raise)
            &&& modules_calm(z.modules)
        }),
{
    broadcast use group_frames, group_details;

    reveal(import_advanced);
    lemma_wider_refl(h, s);
    let resolved = modules[cur].resolved;
    let span = resolved.ast.range(import);
    if let Some(targets) = targets_of(resolved, import) {
        if next < targets.len() {
            let target = targets[next];
            let path = texts(target.path@);
            if let Some(id) = m.load.module_at(path) {
                lemma_known_target(
                    modules,
                    h,
                    s,
                    m,
                    cur,
                    import,
                    next,
                    target,
                    id,
                    None,
                    span,
                );
            } else if path.len() > 1 {
                if let Some(id) = m.load.module_at(path.drop_last()) {
                    lemma_known_target(
                        modules,
                        h,
                        s,
                        m,
                        cur,
                        import,
                        next,
                        target,
                        id,
                        Some(path.last()),
                        span,
                    );
                }
            }
        }
    }
}

} // verus!
