//! Which operation each piece of work is for.

use crate::assign::placed;
use crate::ast::BinaryOp;
use crate::ast::Node;
use crate::ast::NodeId;
use crate::ast::StrPart;
use crate::ast::UnaryOp;
use crate::cont::ContView;
use crate::control_laws::goes_on_with;
use crate::control_laws::pending;
use crate::control_laws::running;
use crate::dict::inserted;
use crate::dict::stored;
use crate::dynamic::restored;
use crate::error::ExceptionKind;
use crate::eval::evaluated;
use crate::eval::interpolated;
use crate::eval::left_known;
use crate::eval::rendering_known;
use crate::eval::short_circuited;
use crate::eval::value_interpolated;
use crate::hash::key_hash;
use crate::heap::HeapView;
use crate::index::assign_hash_known;
use crate::index::element_read;
use crate::index::element_set;
use crate::index::index_object_known;
use crate::index::literal_hash_known;
use crate::index::literal_key_known;
use crate::index::literal_value_known;
use crate::index::read_hash_known;
use crate::machine::MachineView;
use crate::modload::LoadedModule;
use crate::object::field_read_step;
use crate::object::field_reading;
use crate::object::field_set_step;
use crate::resolve::ResolvedModule;
use crate::span::Span;
use crate::step::bool_asserted;
use crate::step::dispatched;
use crate::step::machine_step;
use crate::step::operator_applied;
use crate::step::quiet_step;
use crate::step::unary_applied;
use crate::unicode::nfc_text;
use crate::value::DictIdx;
use crate::value::StrIdx;
use crate::value::Value;
use vstd::prelude::*;

verus! {

/// The work of an expression evaluates it, and the work that an operator leaves applies it.
pub proof fn law_operators_do_their_work(
    resolved: ResolvedModule,
    modules: Seq<LoadedModule>,
    h: HeapView,
    m: MachineView,
    node: NodeId,
    op: BinaryOp,
    u: UnaryOp,
    v: Value,
    span: Span,
)
    ensures
        dispatched(resolved, modules, h, m, ContView::Eval { node }) == evaluated(
            resolved,
            modules,
            h,
            m,
            node,
        ),
        dispatched(resolved, modules, h, m, ContView::BinRhs { op, rhs: node, span })
            == machine_step(h, left_known(m, op, node, span)),
        dispatched(resolved, modules, h, m, ContView::BinApply { op, lhs: v, span })
            == operator_applied(h, m, op, v, span),
        dispatched(resolved, modules, h, m, ContView::AndRhs { rhs: node, span }) == machine_step(
            h,
            short_circuited(m, node, span, true),
        ),
        dispatched(resolved, modules, h, m, ContView::OrRhs { rhs: node, span }) == machine_step(
            h,
            short_circuited(m, node, span, false),
        ),
        dispatched(resolved, modules, h, m, ContView::AssertBool { span }) == machine_step(
            h,
            bool_asserted(m, span),
        ),
        dispatched(resolved, modules, h, m, ContView::UnaryApply { op: u, span }) == unary_applied(
            h,
            m,
            u,
            span,
        ),
{
    reveal(dispatched);
}

/// The work that reading a field, an element or a part of a string leaves goes on with that.
pub proof fn law_reads_do_their_work(
    resolved: ResolvedModule,
    modules: Seq<LoadedModule>,
    h: HeapView,
    m: MachineView,
    node: NodeId,
    object: Value,
    dict: DictIdx,
    acc: Seq<char>,
    index: usize,
    v: Value,
    span: Span,
)
    requires
        m.reg == Some(v),
    ensures
        dispatched(resolved, modules, h, m, ContView::FieldRead { field: node }) == machine_step(
            h,
            field_read_step(resolved, modules, h, m, node),
        ),
        dispatched(resolved, modules, h, m, ContView::IndexGotObject { index: node, span })
            == machine_step(h, index_object_known(m, node, span)),
        dispatched(resolved, modules, h, m, ContView::IndexApply { object, span, key_node: node })
            == element_read(
            modules,
            h,
            MachineView { reg: None, ..m },
            object,
            v,
            node,
            span,
        ),
        dispatched(resolved, modules, h, m, ContView::IndexReadHashed { dict, key: object, span })
            == machine_step(h, read_hash_known(h, m, dict, object, span)),
        dispatched(resolved, modules, h, m, ContView::StrInterp { node, acc, index })
            == value_interpolated(resolved, modules, h, m, node, acc, index as int),
        dispatched(resolved, modules, h, m, ContView::StrInterpRendered { node, acc, index })
            == rendering_known(resolved, h, m, node, acc, index as int),
{
    reveal(dispatched);
}

/// The work that storing in a place or making a dict leaves goes on with that.
pub proof fn law_stores_do_their_work(
    resolved: ResolvedModule,
    modules: Seq<LoadedModule>,
    h: HeapView,
    m: MachineView,
    node: NodeId,
    object: Value,
    key: Value,
    dict: DictIdx,
    entries: Seq<(Value, Value)>,
    index: usize,
    span: Span,
)
    ensures
        dispatched(resolved, modules, h, m, ContView::AssignPlaceObj { assign: node })
            == machine_step(h, placed(resolved, m, node)),
        dispatched(resolved, modules, h, m, ContView::AssignFieldVal { assign: node, object })
            == field_set_step(resolved, h, m, node, object),
        dispatched(resolved, modules, h, m, ContView::AssignIndexKey { assign: node, object })
            == machine_step(h, crate::assign::keyed(resolved, m, node, object)),
        dispatched(resolved, modules, h, m, ContView::AssignIndexVal { assign: node, object, key })
            == element_set(resolved, modules, h, m, node, object, key),
        dispatched(
            resolved,
            modules,
            h,
            m,
            ContView::IndexAssignHashed { dict, key, value: object, span },
        ) == assign_hash_known(h, m, dict, key, object, span),
        dispatched(resolved, modules, h, m, ContView::DictGotKey { dict: node, entries, index })
            == machine_step(h, literal_key_known(resolved, m, node, entries, index as int)),
        dispatched(
            resolved,
            modules,
            h,
            m,
            ContView::DictGotValue { dict: node, entries, index, key },
        ) == literal_value_known(resolved, modules, h, m, node, entries, index as int, key),
        dispatched(
            resolved,
            modules,
            h,
            m,
            ContView::DictBuildHashed { node, dict, entries, index },
        ) == literal_hash_known(resolved, modules, h, m, node, dict, entries, index as nat),
        dispatched(resolved, modules, h, m, ContView::WithRestore { dyn_mark: index })
            == quiet_step(restored(h, m, index as nat)),
{
    reveal(dispatched);
}

/// A field is read of the object that was evaluated, and the value found takes its place.
pub proof fn law_field_reads_leave_the_field(
    resolved: ResolvedModule,
    modules: Seq<LoadedModule>,
    h: HeapView,
    m: MachineView,
    field: NodeId,
    object_node: NodeId,
    name: String,
    object: Value,
)
    requires
        running(m),
        resolved.node_at(field) == Some(Node::Field { object: object_node, name }),
        m.reg == Some(object),
    ensures
        ({
            let (z, e) = field_read_step(resolved, modules, h, m, field);
            let read = field_reading(
                modules,
                m.load,
                h,
                object,
                name@,
                resolved.ast.range(field),
            );
            &&& (read matches Ok(v) ==> e is None && z.reg == Some(v) && goes_on_with(
                m,
                z,
                pending(m),
            ))
            &&& (read matches Err(f) ==> e == Some(f) && z.reg is None)
        }),
{
}

/// The hash of a key that a record's own `hash` gives is that of the integer it gives; anything
/// else is refused. Under it the key is looked up, or stored with its value.
pub proof fn law_given_hashes_are_used(
    h: HeapView,
    m: MachineView,
    dict: DictIdx,
    key: Value,
    value: Value,
    v: Value,
    span: Span,
)
    requires
        running(m),
        m.reg == Some(v),
    ensures
        ({
            let (y, d) = read_hash_known(h, m, dict, key, span);
            let z = assign_hash_known(h, m, dict, key, value, span);
            let hash = key_hash(h, v);
            &&& v is Int || v is BigInt ==> match stored(h, dict, key, hash) {
                Some(w) => d is None && y.reg == Some(w) && goes_on_with(m, y, pending(m)),
                None => d is Some && d->0.kind == ExceptionKind::KeyNotFound,
            }
            &&& v is Int || v is BigInt ==> z.raise is None && z.heap == inserted(
                h,
                dict,
                key,
                value,
                hash,
            ) && z.machine.reg is None && goes_on_with(m, z.machine, pending(m))
            &&& !(v is Int || v is BigInt) ==> {
                &&& d is Some && d->0.kind == ExceptionKind::TypeMismatch
                &&& z.raise is Some && z.raise->0.kind == ExceptionKind::TypeMismatch
                &&& z.heap == h
            }
        }),
{
}

/// A string that a value's own `to_string` gives is joined on where the value stands; anything
/// else is refused.
pub proof fn law_given_texts_are_joined_on(
    resolved: ResolvedModule,
    h: HeapView,
    m: MachineView,
    node: NodeId,
    parts: Vec<StrPart>,
    acc: Seq<char>,
    index: int,
    v: Value,
)
    requires
        running(m),
        resolved.node_at(node) == Some(Node::StrLit(parts)),
        0 <= index < parts@.len(),
        m.reg == Some(v),
        h.strings.len() < usize::MAX,
    ensures
        ({
            let z = rendering_known(resolved, h, m, node, acc, index);
            let s = StrIdx(h.strings.len() as usize);
            &&& (v matches Value::Str(given) ==> index + 1 == parts@.len() ==> z.raise is None
                && z.machine.reg == Some(Value::Str(s)) && z.heap.text(s) == nfc_text(
                acc + h.text(given),
            ) && goes_on_with(m, z.machine, pending(m)))
            &&& !(v is Str) ==> z.raise is Some && z.raise->0.kind == ExceptionKind::TypeMismatch
                && z.heap == h
        }),
{
}

/// A run of text in a string with values in it follows what stands before it.
pub proof fn law_runs_follow_what_stands_before(
    resolved: ResolvedModule,
    h: HeapView,
    m: MachineView,
    node: NodeId,
    parts: Seq<StrPart>,
    acc: Seq<char>,
    from: nat,
    run: String,
)
    requires
        from < parts.len(),
        parts[from as int] == StrPart::Text(run),
    ensures
        interpolated(resolved, h, m, node, parts, acc, from) == interpolated(
            resolved,
            h,
            m,
            node,
            parts,
            nfc_text(acc + nfc_text(run@)),
            from + 1,
        ),
{
}

} // verus!
