//! Assignment: to a name at once; to a place by way of its object, its key and its value,
//! in that order.
use crate::ast::Node;
use crate::ast::NodeId;
use crate::cont::Work;
use crate::error::Raise;
use crate::error::RaiseView;
use crate::heap::Heap;
use crate::heap::HeapView;
use crate::local::written;
use crate::machine::raise_of;
use crate::machine::stepped;
use crate::machine::take_value;
use crate::machine::void_raise;
use crate::machine::Machine;
use crate::machine::MachineView;
use crate::machine::Step;
use crate::named::named;
use crate::named::named_view;
use crate::names::find_cell;
use crate::names::name_not_defined;
use crate::names::undefined_raise;
use crate::record::copied;
use crate::record::copy_on_bind;
use crate::resolve::Resolution;
use crate::resolve::ResolvedModule;
use crate::span::Span;
use crate::value::CellIdx;
use crate::value::Value;
use vstd::prelude::*;

verus! {

/// What storing a value under the name of an assignment's target leaves.
pub open spec fn stored_name(
    resolved: ResolvedModule,
    h: HeapView,
    m: MachineView,
    namespace: Seq<(Seq<char>, CellIdx)>,
    target: NodeId,
    value: Value,
    span: Span,
) -> Step {
    match resolved.resolution(target) {
        Some(Resolution::LocalSlot(slot)) => {
            let (h2, m2) = written(h, m, m.frames.len() - 1, slot, value);
            Step::done(h2, m2)
        },
        Some(Resolution::ModuleName(i)) => match resolved.name_ref(i) {
            Some(name) => match named(namespace, name) {
                Some(cell) => Step::done(h.with_cell(cell, Some(value)), m),
                None => Step::raised(h, m, undefined_raise(name, span)),
            },
            None => Step::done(h, m.broken()),
        },
        Some(Resolution::BlockOuter { hops, slot }) => match m.enclosing(hops as nat) {
            Some(frame) => {
                let (h2, m2) = written(h, m, frame, slot, value);
                Step::done(h2, m2)
            },
            None => Step::done(h, m.broken()),
        },
        None => Step::done(h, m.broken()),
    }
}

/// What an assignment to a name leaves.
pub open spec fn assigned(
    resolved: ResolvedModule,
    h: HeapView,
    m: MachineView,
    namespace: Seq<(Seq<char>, CellIdx)>,
    assign: NodeId,
) -> Step {
    match resolved.node_at(assign) {
        Some(Node::Assign { target, .. }) => {
            let span = resolved.ast.range(assign);
            match m.reg {
                None => Step::raised(h, m, void_raise(span)),
                Some(v) => {
                    let (h2, copy) = copied(h, v);
                    stored_name(resolved, h2, m.voided(), namespace, target, copy, span)
                },
            }
        },
        _ => Step::done(h, m.broken()),
    }
}

/// Assigns the value in the register to a name.
pub fn assign_to(
    resolved: &ResolvedModule,
    heap: &mut Heap,
    machine: &mut Machine,
    namespace: &Vec<(String, CellIdx)>,
    assign: NodeId,
) -> (r: Result<(), Raise>)
    ensures
        stepped(r, final(heap)@, final(machine)@) == assigned(
            *resolved,
            old(heap)@,
            old(machine)@,
            named_view(namespace@),
            assign,
        ),
{
    let target = match resolved.ast.node(assign) {
        Some(Node::Assign { target, .. }) => *target,
        _ => {
            machine.fail();
            return Ok(());
        },
    };
    let span = resolved.ast.span(assign);
    let value = match take_value(machine, span) {
        Ok(v) => copy_on_bind(v, heap),
        Err(e) => {
            return Err(e);
        },
    };
    match resolved.resolution_of(target) {
        Some(Resolution::LocalSlot(slot)) => {
            let n: usize = machine.frames.len();
            if n == 0 {
                machine.fail();
            } else {
                crate::local::write(heap, machine, n - 1, slot, value);
            }
        },
        Some(Resolution::ModuleName(i)) => match resolved.name_ref_text(i) {
            Some(name) => match find_cell(namespace, name) {
                Some(cell) => heap.set_cell(cell, Some(value)),
                None => {
                    return Err(name_not_defined(name, span));
                },
            },
            None => machine.fail(),
        },
        Some(Resolution::BlockOuter { hops, slot }) => match machine.outer_frame(hops) {
            Some(frame) => crate::local::write(heap, machine, frame, slot, value),
            None => machine.fail(),
        },
        None => machine.fail(),
    }
    Ok(())
}

/// What the object of an assigned place leads to: the value for a field, the key for an
/// element.
pub open spec fn placed(resolved: ResolvedModule, m: MachineView, assign: NodeId) -> (
    MachineView,
    Option<RaiseView>,
) {
    match resolved.node_at(assign) {
        Some(Node::Assign { target, value }) => match m.reg {
            None => (m, Some(void_raise(resolved.ast.range(target)))),
            Some(object) => match resolved.node_at(target) {
                Some(Node::Field { .. }) => (
                    m.voided().doing(Work::AssignFieldVal { assign, object }).doing(
                        Work::Eval { node: value },
                    ),
                    None,
                ),
                Some(Node::Index { index, .. }) => (
                    m.voided().doing(Work::AssignIndexKey { assign, object }).doing(
                        Work::Eval { node: index },
                    ),
                    None,
                ),
                _ => (m.voided().broken(), None),
            },
        },
        _ => (m.broken(), None),
    }
}

/// The object of an assigned place is in the register.
pub fn assign_place_obj(resolved: &ResolvedModule, machine: &mut Machine, assign: NodeId) -> (r:
    Result<(), Raise>)
    ensures
        (final(machine)@, raise_of(r)) == placed(*resolved, old(machine)@, assign),
{
    let (target, value) = match resolved.ast.node(assign) {
        Some(Node::Assign { target, value }) => (*target, *value),
        _ => {
            machine.fail();
            return Ok(());
        },
    };
    let object = match take_value(machine, resolved.ast.span(target)) {
        Ok(v) => v,
        Err(e) => {
            return Err(e);
        },
    };
    match resolved.ast.node(target) {
        Some(Node::Field { .. }) => {
            machine.push_cont(Work::AssignFieldVal { assign, object });
            machine.push_cont(Work::Eval { node: value });
        },
        Some(Node::Index { index, .. }) => {
            machine.push_cont(Work::AssignIndexKey { assign, object });
            machine.push_cont(Work::Eval { node: *index });
        },
        _ => machine.fail(),
    }
    Ok(())
}

/// What the key of an assigned element leads to: its value.
pub open spec fn keyed(resolved: ResolvedModule, m: MachineView, assign: NodeId, object: Value) -> (
    MachineView,
    Option<RaiseView>,
) {
    match resolved.node_at(assign) {
        Some(Node::Assign { target, value }) => match m.reg {
            None => (m, Some(void_raise(resolved.ast.range(target)))),
            Some(key) => (
                m.voided().doing(Work::AssignIndexVal { assign, object, key }).doing(
                    Work::Eval { node: value },
                ),
                None,
            ),
        },
        _ => (m.broken(), None),
    }
}

/// The key of an assigned element is in the register.
pub fn assign_index_key(
    resolved: &ResolvedModule,
    machine: &mut Machine,
    assign: NodeId,
    object: Value,
) -> (r: Result<(), Raise>)
    ensures
        (final(machine)@, raise_of(r)) == keyed(*resolved, old(machine)@, assign, object),
{
    let (target, value) = match resolved.ast.node(assign) {
        Some(Node::Assign { target, value }) => (*target, *value),
        _ => {
            machine.fail();
            return Ok(());
        },
    };
    let key = match take_value(machine, resolved.ast.span(target)) {
        Ok(v) => v,
        Err(e) => {
            return Err(e);
        },
    };
    machine.push_cont(Work::AssignIndexVal { assign, object, key });
    machine.push_cont(Work::Eval { node: value });
    Ok(())
}

} // verus!
