//! What control flow does: which statements and bodies come next, and where a transfer ends.

use crate::ast::IfArm;
use crate::ast::Node;
use crate::ast::NodeId;
use crate::cont::ContView;
use crate::cont::Work;
use crate::error::ExceptionKind;
use crate::error::Raise;
use crate::error::TraceView;
use crate::frame::FrameView;
use crate::frame::Local;
use crate::heap::HeapView;
use crate::intrinsic::Native;
use crate::machine::Exit;
use crate::machine::MachineView;
use crate::machine::Step;
use crate::machine::Unwind;
use crate::modload::LoadedModule;
use crate::resolve::ExitTarget;
use crate::resolve::Resolution;
use crate::resolve::ResolvedModule;
use crate::step::dispatched;
use crate::unwind::home_frame;
use crate::unwind::unwound;
use crate::value::Value;
use vstd::prelude::*;

verus! {

/// The work of the innermost frame, the next last.
pub open spec fn pending(m: MachineView) -> Seq<ContView> {
    m.frames.last().conts
}

/// Whether two machines have the same frames but for the work of the innermost, which is
/// given, and nothing in flight in the second.
pub open spec fn goes_on_with(m: MachineView, z: MachineView, works: Seq<ContView>) -> bool {
    &&& z.frames.len() == m.frames.len()
    &&& z.frames.drop_last() == m.frames.drop_last()
    &&& z.frames.last() == (FrameView { conts: works, ..m.frames.last() })
    &&& z.unwind is None
    &&& z.handling == m.handling
    &&& z.dyn_stack == m.dyn_stack
    &&& z.load == m.load
    &&& z.meter == m.meter
    &&& z.foreign == m.foreign
    &&& z.pending_import == m.pending_import
}

/// A machine that runs: it has a frame, and no transfer is in flight.
pub open spec fn running(m: MachineView) -> bool {
    m.frames.len() > 0 && m.unwind is None
}

/// A statement list goes on with its next statement, and with those after it when that is
/// done; at its end nothing is left of it, and the last value stays.
pub proof fn law_statements_run_in_order(
    resolved: ResolvedModule,
    modules: Seq<LoadedModule>,
    h: HeapView,
    m: MachineView,
    block: NodeId,
    stmts: Seq<NodeId>,
    next: usize,
)
    requires
        running(m),
        match resolved.node_at(block) {
            Some(Node::Block(s)) => s@ == stmts,
            Some(Node::Module { stmts: s, .. }) => s@ == stmts,
            _ => false,
        },
        stmts.len() <= usize::MAX,
    ensures
        ({
            let z = dispatched(resolved, modules, h, m, Work::Statements { block, next });
            &&& z.heap == h
            &&& z.raise is None
            &&& next >= stmts.len() ==> z.machine == m
            &&& next < stmts.len() ==> {
                let rest = pending(m).push(
                    Work::Statements { block, next: (next + 1) as usize },
                );
                let stmt = stmts[next as int];
                let works = pending(z.machine);
                &&& z.machine.reg is None
                &&& (match resolved.node_at(stmt) {
                    Some(Node::If { arms, .. }) => arms@.len() == 0,
                    _ => false,
                }) || goes_on_with(m, z.machine, works)
                &&& works.take(rest.len() as int) == rest
                &&& match resolved.node_at(stmt) {
                    Some(Node::Let { value, .. }) => works == rest.push(
                        Work::BindLet { decl: stmt },
                    ).push(Work::Eval { node: value }),
                    Some(Node::Const { value, .. }) => works == rest.push(
                        Work::BindLet { decl: stmt },
                    ).push(Work::Eval { node: value }),
                    Some(Node::Parameter { value, .. }) => works == rest.push(
                        Work::BindLet { decl: stmt },
                    ).push(Work::Eval { node: value }),
                    Some(Node::If { arms, .. }) => arms@.len() > 0 ==> works == rest.push(
                        Work::IfChoose { node: stmt, index: 0 },
                    ).push(Work::Eval { node: arms@[0].cond }),
                    Some(Node::While { cond, .. }) => works == rest.push(
                        Work::WhileCheck { node: stmt },
                    ).push(Work::Eval { node: cond }),
                    Some(Node::Loop { .. }) => works == rest.push(
                        Work::LoopReloop { node: stmt },
                    ),
                    Some(Node::Try { body, .. }) => works == rest.push(
                        Work::TryHandler { try_node: stmt },
                    ).push(Work::Statements { block: body, next: 0 }),
                    Some(Node::With { value, .. }) => works == rest.push(
                        Work::WithBind { with_node: stmt },
                    ).push(Work::Eval { node: value }),
                    Some(Node::Raise(Some(e))) => works == rest.push(
                        Work::RaiseApply { node: stmt },
                    ).push(Work::Eval { node: e }),
                    Some(Node::Raise(None)) => works == rest.push(
                        Work::RaiseApply { node: stmt },
                    ),
                    Some(Node::Return(Some(e))) => works == rest.push(
                        Work::ExitApply { exit: stmt },
                    ).push(Work::Eval { node: e }),
                    Some(Node::Return(None)) => works == rest.push(
                        Work::ExitApply { exit: stmt },
                    ),
                    Some(Node::Break(Some(e))) => works == rest.push(
                        Work::ExitApply { exit: stmt },
                    ).push(Work::Eval { node: e }),
                    Some(Node::Break(None)) => works == rest.push(
                        Work::ExitApply { exit: stmt },
                    ),
                    Some(Node::Continue(Some(e))) => works == rest.push(
                        Work::ExitApply { exit: stmt },
                    ).push(Work::Eval { node: e }),
                    Some(Node::Continue(None)) => works == rest.push(
                        Work::ExitApply { exit: stmt },
                    ),
                    Some(Node::Callable { name: Some(_), .. }) => works == rest.push(
                        Work::DefineCallable { decl: stmt },
                    ),
                    Some(Node::Record { .. }) => works == rest.push(
                        Work::DefineRecord { decl: stmt },
                    ),
                    Some(Node::Import(_)) => works == rest.push(
                        Work::ImportTargets { import: stmt, next: 0 },
                    ),
                    Some(Node::Assign { target, value }) => match resolved.node_at(target) {
                        Some(Node::Field { object, .. }) => works == rest.push(
                            Work::AssignPlaceObj { assign: stmt },
                        ).push(Work::Eval { node: object }),
                        Some(Node::Index { object, .. }) => works == rest.push(
                            Work::AssignPlaceObj { assign: stmt },
                        ).push(Work::Eval { node: object }),
                        _ => works == rest.push(Work::AssignTo { assign: stmt }).push(
                            Work::Eval { node: value },
                        ),
                    },
                    _ => works == rest.push(Work::Eval { node: stmt }),
                }
            }
        }),
{
    reveal(dispatched);
    let z = dispatched(resolved, modules, h, m, Work::Statements { block, next });
    if next < stmts.len() {
        let rest = pending(m).push(Work::Statements { block, next: (next + 1) as usize });
        assert(pending(z.machine).take(rest.len() as int) =~= rest);
        assert(z.machine.frames.drop_last() =~= m.frames.drop_last());
    }
}

/// A condition picks its own body: the first arm whose condition holds, else the one without
/// a condition, if there is one. A condition that does not hold leads to the next one.
pub proof fn law_the_first_true_arm_is_chosen(
    resolved: ResolvedModule,
    modules: Seq<LoadedModule>,
    h: HeapView,
    m: MachineView,
    node: NodeId,
    arms: Seq<IfArm>,
    else_body: Option<NodeId>,
    index: usize,
)
    requires
        running(m),
        resolved.node_at(node) matches Some(Node::If { arms: a, else_body: e }) && a@ == arms && e
            == else_body,
        arms.len() <= usize::MAX,
        index < arms.len(),
    ensures
        ({
            let z = dispatched(resolved, modules, h, m, Work::IfChoose { node, index });
            &&& z.heap == h
            &&& m.reg == Some(Value::Bool(true)) ==> z.raise is None && z.machine.reg is None
                && goes_on_with(
                m,
                z.machine,
                pending(m).push(Work::Statements { block: arms[index as int].body, next: 0 }),
            )
            &&& m.reg == Some(Value::Bool(false)) ==> z.raise is None && z.machine.reg is None
                && if index + 1 < arms.len() {
                goes_on_with(
                    m,
                    z.machine,
                    pending(m).push(
                        Work::IfChoose { node, index: (index + 1) as usize },
                    ).push(Work::Eval { node: arms[index + 1].cond }),
                )
            } else if else_body is Some {
                goes_on_with(
                    m,
                    z.machine,
                    pending(m).push(Work::Statements { block: else_body->0, next: 0 }),
                )
            } else {
                goes_on_with(m, z.machine, pending(m))
            }
            &&& m.reg is None ==> z.raise is Some && z.raise->0.kind
                == ExceptionKind::ProcedureInExpression
            &&& m.reg is Some && !(m.reg->0 is Bool) ==> z.raise is Some && z.raise->0.kind
                == ExceptionKind::TypeMismatch
        }),
{
    reveal(dispatched);
    let z = dispatched(resolved, modules, h, m, Work::IfChoose { node, index });
    assert(z.machine.frames.len() > 0 ==> z.machine.frames.drop_last()
        =~= m.frames.drop_last());
    assert(m.frames =~= m.frames.drop_last().push(m.frames.last()));
}

/// A `while` runs its body while its condition holds: then the body comes next, the condition
/// after it and the choice after that; when it does not, nothing of the loop is left.
pub proof fn law_while_runs_while_its_condition_holds(
    resolved: ResolvedModule,
    modules: Seq<LoadedModule>,
    h: HeapView,
    m: MachineView,
    node: NodeId,
    cond: NodeId,
    body: NodeId,
)
    requires
        running(m),
        resolved.node_at(node) == Some(Node::While { cond, body }),
    ensures
        ({
            let z = dispatched(resolved, modules, h, m, Work::WhileCheck { node });
            &&& z.heap == h
            &&& m.reg == Some(Value::Bool(true)) ==> z.raise is None && z.machine.reg is None
                && goes_on_with(
                m,
                z.machine,
                pending(m).push(Work::WhileCheck { node }).push(Work::Eval { node: cond }).push(
                    Work::Statements { block: body, next: 0 },
                ),
            )
            &&& m.reg == Some(Value::Bool(false)) ==> z.raise is None && z.machine.reg is None
                && goes_on_with(m, z.machine, pending(m))
            &&& m.reg is None || !(m.reg->0 is Bool) ==> z.raise is Some
        }),
{
    reveal(dispatched);
    let z = dispatched(resolved, modules, h, m, Work::WhileCheck { node });
    assert(z.machine.frames.len() > 0 ==> z.machine.frames.drop_last()
        =~= m.frames.drop_last());
    assert(m.frames =~= m.frames.drop_last().push(m.frames.last()));
}

/// A `loop` runs its body, from the first statement, with itself to come after it.
pub proof fn law_loop_runs_its_body_again(
    resolved: ResolvedModule,
    modules: Seq<LoadedModule>,
    h: HeapView,
    m: MachineView,
    node: NodeId,
    body: NodeId,
)
    requires
        running(m),
        resolved.node_at(node) == Some(Node::Loop { body }),
    ensures
        ({
            let z = dispatched(resolved, modules, h, m, Work::LoopReloop { node });
            &&& z.heap == h
            &&& z.raise is None
            &&& z.machine.reg == m.reg
            &&& goes_on_with(
                m,
                z.machine,
                pending(m).push(Work::LoopReloop { node }).push(
                    Work::Statements { block: body, next: 0 },
                ),
            )
        }),
{
    reveal(dispatched);
    let z = dispatched(resolved, modules, h, m, Work::LoopReloop { node });
    assert(z.machine.frames.drop_last() =~= m.frames.drop_last());
}

/// One turn of a machine in which a transfer is in flight, and then, once it has arrived, the
/// work on top.
pub open spec fn then_worked(
    resolved: ResolvedModule,
    modules: Seq<LoadedModule>,
    h: HeapView,
    m: MachineView,
) -> Step {
    dispatched(
        resolved,
        modules,
        h,
        MachineView {
            frames: m.frames.drop_last().push(
                FrameView { conts: pending(m).drop_last(), ..m.frames.last() },
            ),
            ..m
        },
        pending(m).last(),
    )
}

/// A transfer that is to go round again and reaches the `loop` it targets is over, and one
/// step later the loop's body runs from its first statement with the loop beneath it. One that
/// is to leave takes the loop away, and what it carries is the loop's value. One that targets
/// another loop, or that of another frame, goes on.
pub proof fn law_transfers_end_at_their_loop(
    resolved: ResolvedModule,
    modules: Seq<LoadedModule>,
    h: HeapView,
    m: MachineView,
    node: NodeId,
    body: NodeId,
    frame: usize,
    target: NodeId,
    again: bool,
    value: Option<Value>,
)
    requires
        m.frames.len() > 0,
        m.frames.len() <= usize::MAX,
        pending(m).len() > 0,
        pending(m).last() == (ContView::LoopReloop { node }),
        resolved.node_at(node) == Some(Node::Loop { body }),
        m.unwind == Some(
            Unwind::<TraceView>::Leave { exit: Exit::Loop { frame, node: target, again }, value },
        ),
    ensures
        ({
            let (h2, z, e) = unwound(resolved, modules, h, m);
            let below = pending(m).drop_last();
            let here = frame == m.frames.len() - 1 && target == node;
            &&& h2 == h
            &&& e is None
            &&& here && again ==> {
                let y = then_worked(resolved, modules, h, z);
                &&& goes_on_with(m, z, pending(m))
                &&& y.heap == h
                &&& y.raise is None
                &&& goes_on_with(
                    m,
                    y.machine,
                    below.push(Work::LoopReloop { node }).push(
                        Work::Statements { block: body, next: 0 },
                    ),
                )
            }
            &&& here && !again ==> goes_on_with(m, z, below) && z.reg == value
            &&& !here ==> z.unwind == m.unwind && z.reg == m.reg && pending(z) == below
                && z.frames.drop_last() == m.frames.drop_last()
        }),
{
    reveal(unwound);
    reveal(dispatched);
    let (h2, z, e) = unwound(resolved, modules, h, m);
    let below = pending(m).drop_last();
    let here = frame == m.frames.len() - 1 && target == node;
    assert(z.frames.drop_last() =~= m.frames.drop_last());
    assert(below.push(Work::LoopReloop { node }) =~= pending(m));
    if here && again {
        assert(pending(z) =~= pending(m));
        assert(pending(z).drop_last() =~= below);
        let y = then_worked(resolved, modules, h, z);
        assert(y.machine.frames.drop_last() =~= m.frames.drop_last());
    }
}

/// A transfer that is to go round again and reaches the `while` it targets is over, and the
/// loop's condition comes next, with the choice beneath it. One that is to leave takes the loop
/// away. One that targets another loop, or that of another frame, goes on.
pub proof fn law_transfers_end_at_their_while(
    resolved: ResolvedModule,
    modules: Seq<LoadedModule>,
    h: HeapView,
    m: MachineView,
    node: NodeId,
    cond: NodeId,
    body: NodeId,
    frame: usize,
    target: NodeId,
    again: bool,
    value: Option<Value>,
)
    requires
        m.frames.len() > 0,
        m.frames.len() <= usize::MAX,
        pending(m).len() > 0,
        pending(m).last() == (ContView::WhileCheck { node }),
        resolved.node_at(node) == Some(Node::While { cond, body }),
        m.unwind == Some(
            Unwind::<TraceView>::Leave { exit: Exit::Loop { frame, node: target, again }, value },
        ),
    ensures
        ({
            let (h2, z, e) = unwound(resolved, modules, h, m);
            let below = pending(m).drop_last();
            let here = frame == m.frames.len() - 1 && target == node;
            &&& h2 == h
            &&& e is None
            &&& here && again ==> goes_on_with(
                m,
                z,
                below.push(Work::WhileCheck { node }).push(Work::Eval { node: cond }),
            )
            &&& here && !again ==> goes_on_with(m, z, below) && z.reg == m.reg
            &&& !here ==> z.unwind == m.unwind && z.reg == m.reg && pending(z) == below
                && z.frames.drop_last() == m.frames.drop_last()
        }),
{
    reveal(unwound);
    let (h2, z, e) = unwound(resolved, modules, h, m);
    assert(z.frames.drop_last() =~= m.frames.drop_last());
}

/// A `return` that reaches the end of its own body is over there, with what it carries for the
/// result; the frame is left from there. That of another frame goes on.
pub proof fn law_returns_end_at_their_body(
    resolved: ResolvedModule,
    modules: Seq<LoadedModule>,
    h: HeapView,
    m: MachineView,
    frame: usize,
    value: Option<Value>,
)
    requires
        m.frames.len() > 0,
        m.frames.len() <= usize::MAX,
        pending(m).len() > 0,
        pending(m).last() == (ContView::ReturnBarrier),
        m.unwind == Some(
            Unwind::<TraceView>::Leave { exit: Exit::BodyEnd { frame }, value },
        ),
    ensures
        ({
            let (h2, z, e) = unwound(resolved, modules, h, m);
            &&& h2 == h
            &&& e is None
            &&& frame == m.frames.len() - 1 ==> goes_on_with(m, z, pending(m)) && z.reg == value
            &&& frame != m.frames.len() - 1 ==> z.unwind == m.unwind && z.reg == m.reg && pending(
                z,
            ) == pending(m).drop_last() && z.frames.drop_last() == m.frames.drop_last()
        }),
{
    reveal(unwound);
    let (h2, z, e) = unwound(resolved, modules, h, m);
    assert(z.frames.drop_last() =~= m.frames.drop_last());
    assert(pending(m).drop_last().push(Work::ReturnBarrier) =~= pending(m));
}

/// Every other piece of work is simply taken away by a transfer, which stays in flight.
pub proof fn law_transfers_pass_other_work(
    resolved: ResolvedModule,
    modules: Seq<LoadedModule>,
    h: HeapView,
    m: MachineView,
)
    requires
        m.frames.len() > 0,
        pending(m).len() > 0,
        m.unwind is Some,
        !(pending(m).last() is WithRestore),
        !(pending(m).last() is PopHandler),
        !(pending(m).last() is TryHandler && m.unwind->0 is Raise),
        !(pending(m).last() is WhileCheck && m.unwind->0 is Leave),
        !(pending(m).last() is LoopReloop && m.unwind->0 is Leave),
        !(pending(m).last() is ReturnBarrier && m.unwind->0 is Leave),
    ensures
        ({
            let (h2, z, e) = unwound(resolved, modules, h, m);
            &&& h2 == h
            &&& e is None
            &&& z.unwind == m.unwind
            &&& z.reg == m.reg
            &&& z.handling == m.handling
            &&& z.dyn_stack == m.dyn_stack
            &&& z.load == m.load
            &&& pending(z) == pending(m).drop_last()
            &&& z.frames.drop_last() == m.frames.drop_last()
            &&& z.frames.len() == m.frames.len()
        }),
{
    reveal(unwound);
    let (h2, z, e) = unwound(resolved, modules, h, m);
    assert(z.frames.drop_last() =~= m.frames.drop_last());
}

/// The innermost handler takes an exception: it is over, its value is bound to the handler's
/// name and is what is being handled, and the handler's body runs, with the end of the
/// handling after it. The bound value is equal to the raised one.
pub proof fn law_handlers_run_their_body(
    resolved: ResolvedModule,
    modules: Seq<LoadedModule>,
    h: HeapView,
    m: MachineView,
    try_node: NodeId,
    body: NodeId,
    rescue_body: NodeId,
    slot: u16,
    value: Value,
    trace: TraceView,
    trapped: bool,
)
    requires
        m.frames.len() > 0,
        pending(m).len() > 0,
        pending(m).last() == (ContView::TryHandler { try_node }),
        resolved.node_at(try_node) == Some(Node::Try { body, rescue_body }),
        resolved.resolution(try_node) == Some(Resolution::LocalSlot(slot)),
        slot < m.frames.last().locals.len(),
        m.frames.last().locals[slot as int] is Direct,
        m.unwind == Some(Unwind::Raise { value, trace, trapped }),
        !(value is Record),
    ensures
        ({
            let (h2, z, e) = unwound(resolved, modules, h, m);
            &&& h2 == h
            &&& e is None
            &&& z.unwind is None
            &&& z.reg == m.reg
            &&& z.handling == m.handling.push((value, trace))
            &&& z.frames.drop_last() == m.frames.drop_last()
            &&& z.frames.len() == m.frames.len()
            &&& z.frames.last().locals == m.frames.last().locals.update(
                slot as int,
                Local::Direct(Some(value)),
            )
            &&& pending(z) == pending(m).drop_last().push(Work::PopHandler).push(
                Work::Statements { block: rescue_body, next: 0 },
            )
        }),
{
    reveal(unwound);
    let (h2, z, e) = unwound(resolved, modules, h, m);
    assert(z.frames.drop_last() =~= m.frames.drop_last());
}

/// A handling ends with its body, whether it comes to its end or a transfer leaves it: then the
/// innermost exception is no longer being handled. A `try` whose body came to its end leaves
/// nothing.
pub proof fn law_handling_ends_with_its_body(
    resolved: ResolvedModule,
    modules: Seq<LoadedModule>,
    h: HeapView,
    m: MachineView,
    try_node: NodeId,
)
    requires
        m.frames.len() > 0,
        m.handling.len() > 0,
    ensures
        ({
            let z = dispatched(resolved, modules, h, m, Work::PopHandler);
            &&& z.heap == h
            &&& z.raise is None
            &&& z.machine == (MachineView { handling: m.handling.drop_last(), ..m })
        }),
        ({
            let z = dispatched(resolved, modules, h, m, Work::TryHandler { try_node });
            z.heap == h && z.raise is None && z.machine == m
        }),
        m.unwind is Some && pending(m).len() > 0 && pending(m).last() is PopHandler ==> {
            let (h2, z, e) = unwound(resolved, modules, h, m);
            &&& h2 == h
            &&& e is None
            &&& z.handling == m.handling.drop_last()
            &&& z.unwind == m.unwind
            &&& pending(z) == pending(m).drop_last()
        },
{
    reveal(dispatched);
    reveal(unwound);
}

/// Raising puts the value in flight, as raised here; raising again puts in flight what is being
/// handled, as it was raised first.
pub proof fn law_raising_puts_the_value_in_flight(
    resolved: ResolvedModule,
    modules: Seq<LoadedModule>,
    h: HeapView,
    m: MachineView,
    node: NodeId,
    operand: Option<NodeId>,
)
    requires
        running(m),
        resolved.node_at(node) == Some(Node::Raise(operand)),
    ensures
        ({
            let z = dispatched(resolved, modules, h, m, Work::RaiseApply { node });
            &&& z.heap == h
            &&& z.machine.frames == m.frames
            &&& operand is Some && m.reg is Some ==> {
                &&& z.raise is None
                &&& z.machine.unwind matches Some(Unwind::Raise { value, trace, trapped })
                &&& value == m.reg->0
                &&& !trapped
                &&& trace.raised_at == Some(resolved.ast.range(node))
                &&& trace.frames.len() == m.frames.len()
            }
            &&& operand is Some && m.reg is None ==> z.raise is Some && z.machine.unwind is None
            &&& operand is None && m.handling.len() > 0 ==> {
                &&& z.raise is None
                &&& z.machine.unwind matches Some(Unwind::Raise { value, trace, trapped })
                &&& value == m.handling.last().0
                &&& trace == m.handling.last().1
                &&& !trapped
            }
        }),
{
    reveal(dispatched);
}

/// An exit puts a transfer in flight, with its value: out of the loop it names or round it
/// again, to the end of the block or past the call that runs it, or to the end of the body of
/// the callable that it is written in.
pub proof fn law_exits_lead_to_their_target(
    resolved: ResolvedModule,
    modules: Seq<LoadedModule>,
    h: HeapView,
    m: MachineView,
    node: NodeId,
    operand: Option<NodeId>,
    again: bool,
)
    requires
        running(m),
        m.frames.len() <= usize::MAX,
        match resolved.node_at(node) {
            Some(Node::Return(e)) => e == operand && !again,
            Some(Node::Break(e)) => e == operand && !again,
            Some(Node::Continue(e)) => e == operand && again,
            _ => false,
        },
        operand is Some ==> m.reg is Some,
    ensures
        ({
            let z = dispatched(resolved, modules, h, m, Work::ExitApply { exit: node });
            let top = (m.frames.len() - 1) as usize;
            let carried = if operand is Some {
                m.reg
            } else {
                None
            };
            let leaves = |exit: Exit| z.machine.unwind == Some(
                Unwind::<TraceView>::Leave { exit, value: carried },
            );
            &&& z.heap == h
            &&& z.raise is None
            &&& z.machine.frames == m.frames
            &&& z.machine.reg is None
            &&& resolved.exit_target(node) matches Some(ExitTarget::Loop(l)) ==> leaves(
                Exit::Loop { frame: top, node: l, again },
            )
            &&& resolved.exit_target(node) == Some(ExitTarget::Block)
                && m.frames.last().kind is Block ==> {
                &&& again ==> leaves(Exit::BodyEnd { frame: top })
                &&& !again && m.frames.last().kind->consumer is DoodleCall ==> leaves(
                    Exit::PastCall { frame: m.frames.last().kind->consumer->frame },
                )
                &&& !again && m.frames.last().kind->consumer is Native ==> leaves(
                    Exit::PastNative { boundary: m.frames.last().kind->consumer->boundary },
                )
            }
            &&& resolved.exit_target(node) == Some(ExitTarget::Callable)
                && m.frames.last().kind is Callable ==> leaves(Exit::BodyEnd { frame: top })
        }),
{
    reveal(dispatched);
}

/// A `return` inside blocks leads to the end of the body of the callable that the blocks are
/// written in: each block one further out.
pub proof fn law_returns_leave_through_their_blocks(m: MachineView, from: int, fuel: nat)
    requires
        0 <= from < m.frames.len(),
    ensures
        m.frames[from].kind is Callable ==> home_frame(m, from, fuel) == Some(from),
        m.frames[from].kind is ModuleTopLevel ==> home_frame(m, from, fuel) is None,
        m.frames[from].kind is Block && m.frames[from].kind->defining < m.frames.len() && fuel > 0
            ==> home_frame(m, from, fuel) == home_frame(
            m,
            m.frames[from].kind->defining as int,
            (fuel - 1) as nat,
        ),
{
}

/// A frame without work is left by a transfer. A `break` past a call is over when the frame of
/// that call is gone, with what it carries for the result; anything else stays in flight.
pub proof fn law_transfers_leave_frames(
    resolved: ResolvedModule,
    modules: Seq<LoadedModule>,
    h: HeapView,
    m: MachineView,
)
    requires
        m.frames.len() > 0,
        m.frames.len() <= usize::MAX,
        pending(m).len() == 0,
        m.unwind is Some,
    ensures
        ({
            let (h2, z, e) = unwound(resolved, modules, h, m);
            &&& h2 == h
            &&& z.frames == m.frames.drop_last()
            &&& match m.unwind->0 {
                Unwind::Leave { exit: Exit::PastCall { frame }, value } => if frame
                    == m.frames.len() - 1 {
                    &&& z.unwind is None
                    &&& e is None ==> z.reg == value
                    &&& value is None ==> e is None
                    &&& !(m.frames.last().kind is Callable) ==> e is None
                } else {
                    z.unwind == m.unwind && e is None && z.reg == m.reg
                },
                _ => z.unwind == m.unwind && e is None && z.reg == m.reg,
            }
        }),
{
    reveal(unwound);
}

} // verus!
