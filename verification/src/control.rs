//! Statements and control flow: reading and binding names, `if`, `while` and `loop`.
use crate::ast::Node;
use crate::ast::NodeId;
use crate::compare::as_bool;
use crate::compare::not_bool_raise;
use crate::cont::Work;
use crate::error::result_view;
use crate::error::Raise;
use crate::error::RaiseView;
use crate::heap::Heap;
use crate::heap::HeapView;
use crate::local::local_value;
use crate::local::read;
use crate::local::rebind;
use crate::local::rebound;
use crate::machine::raise_of;
use crate::machine::stepped;
use crate::machine::take_value;
use crate::machine::void_raise;
use crate::machine::Machine;
use crate::machine::MachineView;
use crate::machine::Step;
use crate::modload::LoadedModule;
use crate::named::named;
use crate::named::named_view;
use crate::names::decl_name;
use crate::names::declared_name;
use crate::names::early_raise;
use crate::names::find_cell;
use crate::names::free_reading;
use crate::names::ident_name;
use crate::names::ident_text;
use crate::names::lookup_free;
use crate::names::name_not_defined;
use crate::names::undefined_raise;
use crate::names::used_before_defined;
use crate::record::copied;
use crate::record::copy_on_bind;
use crate::resolve::Resolution;
use crate::resolve::ResolvedModule;
use crate::span::Span;
use crate::value::CellIdx;
use crate::value::Value;
use vstd::prelude::*;

verus! {

/// What reading a frame's slot gives.
pub open spec fn slot_reading(
    h: HeapView,
    m: MachineView,
    frame: int,
    slot: u16,
    name: Seq<char>,
    span: Span,
) -> Result<Value, RaiseView> {
    match m.slot(frame, slot) {
        Some(local) => match local_value(h, local) {
            Some(v) => Ok(v),
            None => Err(early_raise(name, span)),
        },
        None => Err(early_raise(name, span)),
    }
}

fn read_slot_at(
    machine: &Machine,
    heap: &Heap,
    frame: usize,
    slot: u16,
    name: &str,
    span: Span,
) -> (r: Result<Value, Raise>)
    ensures
        result_view(r) == slot_reading(heap@, machine@, frame as int, slot, name@, span),
{
    match machine.local(frame, slot) {
        Some(local) => match read(heap, local) {
            Some(v) => Ok(v),
            None => Err(used_before_defined(name, span)),
        },
        None => Err(used_before_defined(name, span)),
    }
}

/// What a reference reads: a local, a local of an enclosing frame, or a free name.
pub open spec fn reference_reading(
    resolved: ResolvedModule,
    modules: Seq<LoadedModule>,
    h: HeapView,
    m: MachineView,
    node: NodeId,
) -> Result<Value, RaiseView> {
    let span = resolved.ast.range(node);
    let name = ident_text(resolved, node);
    match resolved.resolution(node) {
        Some(Resolution::LocalSlot(slot)) => slot_reading(
            h,
            m,
            m.frames.len() - 1,
            slot,
            name,
            span,
        ),
        Some(Resolution::ModuleName(i)) => match resolved.name_ref(i) {
            Some(free) => free_reading(
                modules,
                resolved.canonical_id.0 as int,
                m.load,
                h,
                free,
                span,
            ),
            None => Err(undefined_raise(name, span)),
        },
        Some(Resolution::BlockOuter { hops, slot }) => match m.enclosing(hops as nat) {
            Some(frame) => slot_reading(h, m, frame, slot, name, span),
            None => Err(early_raise(name, span)),
        },
        None => Err(undefined_raise(name, span)),
    }
}

/// Reads what a reference means.
pub fn read_ref(
    resolved: &ResolvedModule,
    modules: &Vec<LoadedModule>,
    heap: &Heap,
    machine: &Machine,
    node: NodeId,
) -> (r: Result<Value, Raise>)
    ensures
        result_view(r) == reference_reading(*resolved, modules@, heap@, machine@, node),
{
    let span = resolved.ast.span(node);
    let name = ident_name(resolved, node);
    match resolved.resolution_of(node) {
        Some(Resolution::LocalSlot(slot)) => {
            let n: usize = machine.frames.len();
            if n == 0 {
                return Err(used_before_defined(name, span));
            }
            read_slot_at(machine, heap, n - 1, slot, name, span)
        },
        Some(Resolution::ModuleName(i)) => match resolved.name_ref_text(i) {
            Some(free) => lookup_free(
                modules,
                resolved.canonical_id.0 as usize,
                &machine.load,
                heap,
                free,
                span,
            ),
            None => Err(name_not_defined(name, span)),
        },
        Some(Resolution::BlockOuter { hops, slot }) => match machine.outer_frame(hops) {
            Some(frame) => read_slot_at(machine, heap, frame, slot, name, span),
            None => Err(used_before_defined(name, span)),
        },
        None => Err(name_not_defined(name, span)),
    }
}

/// Heap and machine after a declaration bound a value: in a slot of the innermost frame, or
/// in the cell of its module-level name.
pub open spec fn declared(
    resolved: ResolvedModule,
    h: HeapView,
    m: MachineView,
    namespace: Seq<(Seq<char>, CellIdx)>,
    decl: NodeId,
    value: Value,
) -> (HeapView, MachineView) {
    let (h2, copy) = copied(h, value);
    match resolved.resolution(decl) {
        Some(Resolution::LocalSlot(slot)) => rebound(h2, m, m.frames.len() - 1, slot, copy),
        None => match declared_name(resolved, decl) {
            Some(name) => match named(namespace, name) {
                Some(cell) => (h2.with_cell(cell, Some(copy)), m),
                None => (h2, m.broken()),
            },
            None => (h2, m.broken()),
        },
        Some(_) => (h2, m.broken()),
    }
}

/// Binds a declared value.
pub fn bind_decl(
    resolved: &ResolvedModule,
    heap: &mut Heap,
    machine: &mut Machine,
    namespace: &Vec<(String, CellIdx)>,
    decl: NodeId,
    value: Value,
)
    ensures
        (final(heap)@, final(machine)@) == declared(
            *resolved,
            old(heap)@,
            old(machine)@,
            named_view(namespace@),
            decl,
            value,
        ),
{
    let value = copy_on_bind(value, heap);
    match resolved.resolution_of(decl) {
        Some(Resolution::LocalSlot(slot)) => {
            let n: usize = machine.frames.len();
            if n == 0 {
                machine.fail();
            } else {
                rebind(heap, machine, n - 1, slot, value);
            }
        },
        None => match decl_name(resolved, decl) {
            Some(name) => match find_cell(namespace, name) {
                Some(cell) => heap.set_cell(cell, Some(value)),
                None => machine.fail(),
            },
            None => machine.fail(),
        },
        Some(_) => machine.fail(),
    }
}

/// Binds the initializer in the register to its declaration.
pub fn bind_let(
    resolved: &ResolvedModule,
    heap: &mut Heap,
    machine: &mut Machine,
    namespace: &Vec<(String, CellIdx)>,
    decl: NodeId,
) -> (r: Result<(), Raise>)
    ensures
        stepped(r, final(heap)@, final(machine)@) == (match old(machine)@.reg {
            Some(v) => {
                let (h, m) = declared(
                    *resolved,
                    old(heap)@,
                    old(machine)@.voided(),
                    named_view(namespace@),
                    decl,
                    v,
                );
                Step::done(h, m)
            },
            None => Step::raised(
                old(heap)@,
                old(machine)@,
                void_raise(resolved.ast.range(decl)),
            ),
        }),
{
    match take_value(machine, resolved.ast.span(decl)) {
        Ok(value) => {
            bind_decl(resolved, heap, machine, namespace, decl, value);
            Ok(())
        },
        Err(e) => Err(e),
    }
}

/// The machine with an `if` to run.
pub open spec fn choosing(resolved: ResolvedModule, m: MachineView, node: NodeId) -> MachineView {
    match resolved.node_at(node) {
        Some(Node::If { arms, .. }) => if arms@.len() > 0 {
            m.doing(Work::IfChoose { node, index: 0 }).doing(Work::Eval { node: arms@[0].cond })
        } else {
            m.broken()
        },
        _ => m.broken(),
    }
}

/// Schedules an `if`: its first condition, then the choice.
pub fn schedule_if(machine: &mut Machine, resolved: &ResolvedModule, node: NodeId)
    ensures
        final(machine)@ == choosing(*resolved, old(machine)@, node),
{
    match resolved.ast.node(node) {
        Some(Node::If { arms, .. }) => {
            if arms.len() > 0 {
                machine.push_cont(Work::IfChoose { node, index: 0 });
                machine.push_cont(Work::Eval { node: arms[0].cond });
            } else {
                machine.fail();
            }
        },
        _ => machine.fail(),
    }
}

/// What an `if` arm's condition leads to.
pub open spec fn chosen(resolved: ResolvedModule, m: MachineView, node: NodeId, index: int) -> (
    MachineView,
    Option<RaiseView>,
) {
    match resolved.node_at(node) {
        Some(Node::If { arms, else_body }) => if index < arms@.len() {
            let span = resolved.ast.range(arms@[index].cond);
            match m.reg {
                None => (m, Some(void_raise(span))),
                Some(Value::Bool(true)) => (
                    m.voided().doing(Work::Statements { block: arms@[index].body, next: 0 }),
                    None,
                ),
                Some(Value::Bool(false)) => if index + 1 < arms@.len() {
                    (
                        m.voided().doing(
                            Work::IfChoose { node, index: (index + 1) as usize },
                        ).doing(Work::Eval { node: arms@[index + 1].cond }),
                        None,
                    )
                } else {
                    match else_body {
                        Some(body) => (
                            m.voided().doing(Work::Statements { block: body, next: 0 }),
                            None,
                        ),
                        None => (m.voided(), None),
                    }
                },
                Some(v) => (m.voided(), Some(not_bool_raise(v, "if"@, span))),
            }
        } else {
            (m.broken(), None)
        },
        _ => (m.broken(), None),
    }
}

/// The condition of an `if` arm is in the register: runs that arm, tries the next, or runs
/// the `else`.
pub fn if_choose(resolved: &ResolvedModule, machine: &mut Machine, node: NodeId, index: usize) -> (r:
    Result<(), Raise>)
    ensures
        (final(machine)@, raise_of(r)) == chosen(
            *resolved,
            old(machine)@,
            node,
            index as int,
        ),
{
    match resolved.ast.node(node) {
        Some(Node::If { arms, else_body }) => {
            if index >= arms.len() {
                machine.fail();
                return Ok(());
            }
            let span = resolved.ast.span(arms[index].cond);
            let cond = match take_value(machine, span) {
                Ok(v) => v,
                Err(e) => {
                    return Err(e);
                },
            };
            match as_bool(cond, "if", span) {
                Err(e) => {
                    return Err(e);
                },
                Ok(true) => {
                    machine.push_cont(Work::Statements { block: arms[index].body, next: 0 });
                },
                Ok(false) => {
                    if index + 1 < arms.len() {
                        machine.push_cont(Work::IfChoose { node, index: index + 1 });
                        machine.push_cont(Work::Eval { node: arms[index + 1].cond });
                    } else if let Some(body) = else_body {
                        machine.push_cont(Work::Statements { block: *body, next: 0 });
                    }
                },
            }
            Ok(())
        },
        _ => {
            machine.fail();
            Ok(())
        },
    }
}

/// What a `while` condition leads to.
pub open spec fn rechecked(resolved: ResolvedModule, m: MachineView, node: NodeId) -> (
    MachineView,
    Option<RaiseView>,
) {
    match resolved.node_at(node) {
        Some(Node::While { cond, body }) => match m.reg {
            None => (m, Some(void_raise(resolved.ast.range(cond)))),
            Some(Value::Bool(true)) => (
                m.voided().doing(Work::WhileCheck { node }).doing(Work::Eval { node: cond }).doing(
                    Work::Statements { block: body, next: 0 },
                ),
                None,
            ),
            Some(Value::Bool(false)) => (m.voided(), None),
            Some(v) => (
                m.voided(),
                Some(not_bool_raise(v, "while"@, resolved.ast.range(cond))),
            ),
        },
        _ => (m.broken(), None),
    }
}

/// The condition of a `while` is in the register: runs the body and checks again, or is
/// done.
pub fn while_check(resolved: &ResolvedModule, machine: &mut Machine, node: NodeId) -> (r: Result<
    (),
    Raise,
>)
    ensures
        (final(machine)@, raise_of(r)) == rechecked(*resolved, old(machine)@, node),
{
    match resolved.ast.node(node) {
        Some(Node::While { cond, body }) => {
            let span = resolved.ast.span(*cond);
            let value = match take_value(machine, span) {
                Ok(v) => v,
                Err(e) => {
                    return Err(e);
                },
            };
            match as_bool(value, "while", span) {
                Err(e) => {
                    return Err(e);
                },
                Ok(true) => {
                    machine.push_cont(Work::WhileCheck { node });
                    machine.push_cont(Work::Eval { node: *cond });
                    machine.push_cont(Work::Statements { block: *body, next: 0 });
                },
                Ok(false) => {},
            }
            Ok(())
        },
        _ => {
            machine.fail();
            Ok(())
        },
    }
}

/// The machine with the body of a `loop` to run again.
pub open spec fn relooped(resolved: ResolvedModule, m: MachineView, node: NodeId) -> MachineView {
    match resolved.node_at(node) {
        Some(Node::Loop { body }) => m.doing(Work::LoopReloop { node }).doing(
            Work::Statements { block: body, next: 0 },
        ),
        _ => m.broken(),
    }
}

/// Runs the body of a `loop` again.
pub fn loop_reloop(resolved: &ResolvedModule, machine: &mut Machine, node: NodeId)
    ensures
        final(machine)@ == relooped(*resolved, old(machine)@, node),
{
    match resolved.ast.node(node) {
        Some(Node::Loop { body }) => {
            machine.push_cont(Work::LoopReloop { node });
            machine.push_cont(Work::Statements { block: *body, next: 0 });
        },
        _ => machine.fail(),
    }
}

} // verus!
