//! Dynamic parameters: `with` rebinds one for as long as its body runs, and every way out
//! of the body puts the old value back.
use crate::ast::Node;
use crate::ast::NodeId;
use crate::cont::Work;
use crate::error::Raise;
use crate::heap::Heap;
use crate::heap::HeapView;
use crate::machine::stepped;
use crate::machine::take_value;
use crate::machine::void_raise;
use crate::machine::Machine;
use crate::machine::MachineView;
use crate::machine::Step;
use crate::modload::LoadedModule;
use crate::names::param_cell;
use crate::names::parameter_reading;
use crate::record::copied;
use crate::record::copy_on_bind;
use crate::resolve::Resolution;
use crate::resolve::ResolvedModule;
use crate::value::CellIdx;
use crate::value::Value;
use vstd::prelude::*;

verus! {

/// What opening a `with` leaves: the old value saved, the new one bound, and the body to
/// run before the old one is restored.
pub open spec fn with_opened(
    resolved: ResolvedModule,
    modules: Seq<LoadedModule>,
    h: HeapView,
    m: MachineView,
    with_node: NodeId,
) -> Step {
    match (resolved.node_at(with_node), resolved.resolution(with_node)) {
        (Some(Node::With { body, .. }), Some(Resolution::ModuleName(i))) => {
            let span = resolved.ast.range(with_node);
            match (m.reg, resolved.name_ref(i)) {
                (None, _) => Step::raised(h, m, void_raise(span)),
                (Some(_), None) => Step::done(h, m.voided().broken()),
                (Some(v), Some(name)) => match parameter_reading(
                    modules,
                    resolved.canonical_id.0 as int,
                    m.load,
                    h,
                    name,
                    span,
                ) {
                    Err(e) => Step::raised(h, m.voided(), e),
                    Ok((cell, old_value)) => {
                        let (h2, copy) = copied(h, v);
                        let saved = MachineView {
                            dyn_stack: m.dyn_stack.push((cell, old_value)),
                            ..m.voided()
                        };
                        Step::done(
                            h2.with_cell(cell, Some(copy)),
                            saved.doing(
                                Work::WithRestore { dyn_mark: m.dyn_stack.len() as usize },
                            ).doing(Work::Statements { block: body, next: 0 }),
                        )
                    },
                },
            }
        },
        _ => Step::done(h, m.broken()),
    }
}

/// Opens a `with` whose value is in the register.
pub fn with_bind(
    resolved: &ResolvedModule,
    modules: &Vec<LoadedModule>,
    heap: &mut Heap,
    machine: &mut Machine,
    with_node: NodeId,
) -> (r: Result<(), Raise>)
    ensures
        stepped(r, final(heap)@, final(machine)@) == with_opened(
            *resolved,
            modules@,
            old(heap)@,
            old(machine)@,
            with_node,
        ),
{
    let body = match resolved.ast.node(with_node) {
        Some(Node::With { body, .. }) => *body,
        _ => {
            machine.fail();
            return Ok(());
        },
    };
    let i = match resolved.resolution_of(with_node) {
        Some(Resolution::ModuleName(i)) => i,
        _ => {
            machine.fail();
            return Ok(());
        },
    };
    let span = resolved.ast.span(with_node);
    let value = match take_value(machine, span) {
        Ok(v) => v,
        Err(e) => {
            return Err(e);
        },
    };
    let name = match resolved.name_ref_text(i) {
        Some(name) => name,
        None => {
            machine.fail();
            return Ok(());
        },
    };
    let cur: usize = resolved.canonical_id.0 as usize;
    match param_cell(modules, cur, &machine.load, heap, name, span) {
        Err(e) => Err(e),
        Ok((cell, old_value)) => {
            let value = copy_on_bind(value, heap);
            let dyn_mark: usize = machine.dyn_stack.len();
            machine.dyn_stack.push((cell, old_value));
            heap.set_cell(cell, Some(value));
            machine.push_cont(Work::WithRestore { dyn_mark });
            machine.push_cont(Work::Statements { block: body, next: 0 });
            Ok(())
        },
    }
}

/// The heap with saved bindings put back, innermost first, down to a mark.
pub open spec fn restored_heap(h: HeapView, saved: Seq<(CellIdx, Value)>, mark: nat) -> HeapView
    decreases saved.len(),
{
    if saved.len() <= mark {
        h
    } else {
        restored_heap(h.with_cell(saved.last().0, Some(saved.last().1)), saved.drop_last(), mark)
    }
}

/// Heap and machine with saved bindings put back down to a mark.
pub open spec fn restored(h: HeapView, m: MachineView, mark: nat) -> (HeapView, MachineView) {
    (
        restored_heap(h, m.dyn_stack, mark),
        MachineView {
            dyn_stack: if m.dyn_stack.len() <= mark {
                m.dyn_stack
            } else {
                m.dyn_stack.take(mark as int)
            },
            ..m
        },
    )
}

/// Puts saved bindings back, innermost first, down to a mark.
pub fn restore(heap: &mut Heap, machine: &mut Machine, dyn_mark: usize)
    ensures
        (final(heap)@, final(machine)@) == restored(
            old(heap)@,
            old(machine)@,
            dyn_mark as nat,
        ),
{
    let ghost saved = machine.dyn_stack@;
    assert(saved.take(saved.len() as int) =~= saved);
    while machine.dyn_stack.len() > dyn_mark
        invariant
            saved == old(machine)@.dyn_stack,
            machine.dyn_stack@.len() <= saved.len(),
            machine.dyn_stack@ == saved.take(machine.dyn_stack@.len() as int),
            machine.dyn_stack@.len() >= dyn_mark || machine.dyn_stack@ == saved,
            machine@ == (MachineView { dyn_stack: machine.dyn_stack@, ..old(machine)@ }),
            restored_heap(heap@, machine.dyn_stack@, dyn_mark as nat) == restored_heap(
                old(heap)@,
                saved,
                dyn_mark as nat,
            ),
        decreases machine.dyn_stack@.len(),
    {
        let ghost before = machine.dyn_stack@;
        if let Some((cell, value)) = machine.dyn_stack.pop() {
            heap.set_cell(cell, Some(value));
        }
        assert(machine.dyn_stack@ =~= before.drop_last());
        assert(machine.dyn_stack@ =~= saved.take(machine.dyn_stack@.len() as int));
    }
}

/// Opening a `with` and then restoring it puts the parameter back to what it was: the
/// cell's value, and the saved bindings.
pub proof fn law_with_restores(h: HeapView, m: MachineView, cell: CellIdx, v: Value)
    requires
        h.cell(cell) is Some,
        h.cell_value(cell) is Some,
    ensures
        ({
            let old_value = h.cell_value(cell)->0;
            let opened = MachineView { dyn_stack: m.dyn_stack.push((cell, old_value)), ..m };
            restored(h.with_cell(cell, Some(v)), opened, m.dyn_stack.len()) == (h, m)
        }),
{
    let old_value = h.cell_value(cell)->0;
    let saved = m.dyn_stack.push((cell, old_value));
    let rebound = h.with_cell(cell, Some(v));
    let back = rebound.with_cell(cell, Some(old_value));
    assert(saved.drop_last() =~= m.dyn_stack);
    assert(saved.take(m.dyn_stack.len() as int) =~= m.dyn_stack);
    assert(back.cells =~= h.cells);
    assert(back == h);
    reveal_with_fuel(restored_heap, 2);
}

} // verus!
