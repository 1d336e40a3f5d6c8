//! Protected execution: `try` and `rescue`, and `raise`.
use crate::ast::Node;
use crate::ast::NodeId;
use crate::cont::Work;
use crate::error::Raise;
use crate::error::RaiseView;
use crate::error::Trace;
use crate::error::TraceView;
use crate::heap::Heap;
use crate::heap::HeapView;
use crate::local::rebind;
use crate::local::rebound;
use crate::machine::capture_trace;
use crate::machine::raise_of;
use crate::machine::take_value;
use crate::machine::trace_here;
use crate::machine::void_raise;
use crate::machine::Machine;
use crate::machine::MachineView;
use crate::record::copied;
use crate::record::copy_on_bind;
use crate::resolve::Resolution;
use crate::resolve::ResolvedModule;
use crate::value::Value;
use vstd::prelude::*;

verus! {

/// The machine with a `try` to run.
pub open spec fn trying(resolved: ResolvedModule, m: MachineView, node: NodeId) -> MachineView {
    match resolved.node_at(node) {
        Some(Node::Try { body, .. }) => m.doing(Work::TryHandler { try_node: node }).doing(
            Work::Statements { block: body, next: 0 },
        ),
        _ => m.broken(),
    }
}

/// Schedules a `try`: its body, above the handler.
pub fn schedule_try(machine: &mut Machine, resolved: &ResolvedModule, node: NodeId)
    ensures
        final(machine)@ == trying(*resolved, old(machine)@, node),
{
    match resolved.ast.node(node) {
        Some(Node::Try { body, .. }) => {
            machine.push_cont(Work::TryHandler { try_node: node });
            machine.push_cont(Work::Statements { block: *body, next: 0 });
        },
        _ => machine.fail(),
    }
}

/// What catching an exception leaves: the value bound to the rescue variable, the exception
/// noted as being handled, and the rescue body to run.
pub open spec fn caught(
    resolved: ResolvedModule,
    h: HeapView,
    m: MachineView,
    try_node: NodeId,
    value: Value,
    trace: TraceView,
) -> (HeapView, MachineView) {
    match (resolved.node_at(try_node), resolved.resolution(try_node)) {
        (Some(Node::Try { rescue_body, .. }), Some(Resolution::LocalSlot(slot))) => {
            let (h2, copy) = copied(h, value);
            let (h3, bound) = rebound(h2, m, m.frames.len() - 1, slot, copy);
            let handling = MachineView { handling: bound.handling.push((value, trace)), ..bound };
            (
                h3,
                handling.doing(Work::PopHandler).doing(
                    Work::Statements { block: rescue_body, next: 0 },
                ),
            )
        },
        _ => (h, m.broken()),
    }
}

/// Catches an exception at a `try`.
pub fn catch(
    resolved: &ResolvedModule,
    heap: &mut Heap,
    machine: &mut Machine,
    try_node: NodeId,
    value: Value,
    trace: Trace,
)
    ensures
        (final(heap)@, final(machine)@) == caught(
            *resolved,
            old(heap)@,
            old(machine)@,
            try_node,
            value,
            trace@,
        ),
{
    let rescue_body = match resolved.ast.node(try_node) {
        Some(Node::Try { rescue_body, .. }) => *rescue_body,
        _ => {
            machine.fail();
            return;
        },
    };
    let slot = match resolved.resolution_of(try_node) {
        Some(Resolution::LocalSlot(slot)) => slot,
        _ => {
            machine.fail();
            return;
        },
    };
    let bound = copy_on_bind(value, heap);
    let n: usize = machine.frames.len();
    if n == 0 {
        machine.fail();
    } else {
        rebind(heap, machine, n - 1, slot, bound);
    }
    machine.push_handling(value, trace);
    machine.push_cont(Work::PopHandler);
    machine.push_cont(Work::Statements { block: rescue_body, next: 0 });
}

/// What a `raise` leaves: its value in flight with the trace of here and now, or the
/// exception being handled in flight again with the trace it had.
pub open spec fn raised(resolved: ResolvedModule, m: MachineView, node: NodeId) -> (
    MachineView,
    Option<RaiseView>,
) {
    let span = resolved.ast.range(node);
    match resolved.node_at(node) {
        Some(Node::Raise(Some(_))) => match m.reg {
            Some(v) => (
                m.voided().raising(v, trace_here(m.voided(), Some(span))),
                None,
            ),
            None => (m, Some(void_raise(span))),
        },
        Some(Node::Raise(None)) => if m.handling.len() > 0 {
            (m.raising(m.handling.last().0, m.handling.last().1), None)
        } else {
            (m.broken(), None)
        },
        _ => (m.broken(), None),
    }
}

/// Applies a `raise`.
pub fn raise_apply(resolved: &ResolvedModule, machine: &mut Machine, node: NodeId) -> (r: Result<
    (),
    Raise,
>)
    ensures
        (final(machine)@, raise_of(r)) == raised(*resolved, old(machine)@, node),
{
    let span = resolved.ast.span(node);
    match resolved.ast.node(node) {
        Some(Node::Raise(Some(_))) => match take_value(machine, span) {
            Ok(value) => {
                let trace = capture_trace(machine, Some(span));
                machine.arm_raise_value(value, trace);
                Ok(())
            },
            Err(e) => Err(e),
        },
        Some(Node::Raise(None)) => {
            match machine.current_handling() {
                Some((value, trace)) => machine.arm_raise_value(value, trace),
                None => machine.fail(),
            }
            Ok(())
        },
        _ => {
            machine.fail();
            Ok(())
        },
    }
}

/// Raising again what is being handled raises the same value, with the trace it had when it
/// was caught.
pub proof fn law_reraise_keeps_value_and_trace(
    resolved: ResolvedModule,
    h: HeapView,
    m: MachineView,
    try_node: NodeId,
    value: Value,
    trace: TraceView,
    again: NodeId,
)
    requires
        resolved.node_at(try_node) is Some && resolved.node_at(try_node)->0 is Try,
        resolved.resolution(try_node) is Some && resolved.resolution(try_node)->0 is LocalSlot,
        resolved.node_at(again) == Some(Node::Raise(None)),
    ensures
        ({
            let (h2, m2) = caught(resolved, h, m, try_node, value, trace);
            raised(resolved, m2, again) == (m2.raising(value, trace), None::<RaiseView>)
        }),
{
}

} // verus!
