//! Transfers of control: `return`, `break` and `continue`, exceptions and cancellation. A
//! transfer takes a frame's pending work away piece by piece, doing on the way what has to
//! be done on every way out.
use crate::ast::Node;
use crate::ast::NodeId;
use crate::cont::ContView;
use crate::cont::Work;
use crate::dynamic::restore;
use crate::dynamic::restored;
use crate::error::ExceptionKind;
use crate::error::Raise;
use crate::error::RaiseView;
use crate::error::TraceView;
use crate::frame::Consumer;
use crate::frame::FrameKind;
use crate::frame::FrameView;
use crate::heap::CallableTarget;
use crate::heap::Heap;
use crate::heap::HeapView;
use crate::machine::raise_of;
use crate::machine::take_value;
use crate::machine::void_raise;
use crate::machine::Exit;
use crate::machine::Machine;
use crate::machine::MachineView;
use crate::machine::Unwind;
use crate::modload::LoadState;
use crate::modload::LoadedModule;
use crate::protect::catch;
use crate::protect::caught;
use crate::resolve::BodyKind;
use crate::resolve::ExitTarget;
use crate::resolve::ResolvedModule;
use crate::span::Span;
use crate::value::Value;
use vstd::prelude::*;

verus! {

/// The callable frame that a block frame was written in, through the blocks around it.
pub open spec fn home_frame(m: MachineView, from: int, fuel: nat) -> Option<int>
    decreases fuel,
{
    if from < 0 || from >= m.frames.len() {
        None
    } else {
        match m.frames[from].kind {
            FrameKind::Callable { .. } => Some(from),
            FrameKind::Block { defining, .. } => if fuel == 0 {
                None
            } else {
                home_frame(m, defining as int, (fuel - 1) as nat)
            },
            FrameKind::ModuleTopLevel => None,
        }
    }
}

/// Where an exit leads.
pub open spec fn exit_of(resolved: ResolvedModule, m: MachineView, node: NodeId, again: bool) -> Option<
    Exit,
> {
    if m.frames.len() == 0 {
        None
    } else {
        let top = m.frames.len() - 1;
        match resolved.exit_target(node) {
            Some(ExitTarget::Loop(l)) => Some(
                Exit::Loop { frame: top as usize, node: l, again },
            ),
            Some(ExitTarget::Block) => match m.top().kind {
                FrameKind::Block { consumer, .. } => if again {
                    Some(Exit::BodyEnd { frame: top as usize })
                } else {
                    match consumer {
                        Consumer::DoodleCall { frame, .. } => Some(Exit::PastCall { frame }),
                        Consumer::Native { boundary } => Some(Exit::PastNative { boundary }),
                    }
                },
                _ => None,
            },
            Some(ExitTarget::Callable) => match home_frame(m, top, m.frames.len()) {
                Some(frame) => Some(Exit::BodyEnd { frame: frame as usize }),
                None => None,
            },
            None => None,
        }
    }
}

/// What an exit leaves: the transfer in flight, with the value it carries.
pub open spec fn exited(resolved: ResolvedModule, m: MachineView, node: NodeId) -> (
    MachineView,
    Option<RaiseView>,
) {
    let (operand, again) = match resolved.node_at(node) {
        Some(Node::Return(e)) => (Some(e), false),
        Some(Node::Break(e)) => (Some(e), false),
        Some(Node::Continue(e)) => (Some(e), true),
        _ => (None, false),
    };
    match operand {
        None => (m.broken(), None),
        Some(e) => if e is Some && m.reg is None {
            (m, Some(void_raise(resolved.ast.range(node))))
        } else {
            let value = if e is Some {
                m.reg
            } else {
                None
            };
            match exit_of(resolved, m, node, again) {
                Some(exit) => (m.voided().leaving(exit, value), None),
                None => (m.voided().broken(), None),
            }
        },
    }
}

fn find_home(machine: &Machine) -> (r: Option<usize>)
    requires
        machine@.frames.len() > 0,
    ensures
        (match r {
            Some(i) => home_frame(
                machine@,
                machine@.frames.len() - 1,
                machine@.frames.len(),
            ) == Some(i as int),
            None => home_frame(
                machine@,
                machine@.frames.len() - 1,
                machine@.frames.len(),
            ) is None,
        }),
{
    let n: usize = machine.frames.len();
    let mut at: usize = n - 1;
    let mut fuel: usize = n;
    loop
        invariant
            n == machine.frames@.len(),
            at < n,
            home_frame(machine@, n - 1, n as nat) == home_frame(
                machine@,
                at as int,
                fuel as nat,
            ),
        decreases fuel,
    {
        assert(machine@.frames[at as int] == machine.frames@[at as int]@);
        match machine.frames[at].kind {
            FrameKind::Callable { .. } => {
                return Some(at);
            },
            FrameKind::Block { defining, .. } => {
                if fuel == 0 {
                    return None;
                }
                if defining >= n {
                    assert(home_frame(machine@, defining as int, (fuel - 1) as nat) is None);
                    return None;
                }
                at = defining;
                fuel = fuel - 1;
            },
            FrameKind::ModuleTopLevel => {
                return None;
            },
        }
    }
}

fn find_exit(resolved: &ResolvedModule, machine: &Machine, node: NodeId, again: bool) -> (r: Option<
    Exit,
>)
    ensures
        r == exit_of(*resolved, machine@, node, again),
{
    let n: usize = machine.frames.len();
    if n == 0 {
        return None;
    }
    assert(machine@.top() == machine.frames@[n - 1]@);
    match resolved.exit_target_of(node) {
        Some(ExitTarget::Loop(l)) => Some(Exit::Loop { frame: n - 1, node: l, again }),
        Some(ExitTarget::Block) => match machine.frames[n - 1].kind {
            FrameKind::Block { consumer, .. } => if again {
                Some(Exit::BodyEnd { frame: n - 1 })
            } else {
                match consumer {
                    Consumer::DoodleCall { frame, .. } => Some(Exit::PastCall { frame }),
                    Consumer::Native { boundary } => Some(Exit::PastNative { boundary }),
                }
            },
            _ => None,
        },
        Some(ExitTarget::Callable) => match find_home(machine) {
            Some(frame) => Some(Exit::BodyEnd { frame }),
            None => None,
        },
        None => None,
    }
}

/// Puts an exit in flight; its operand, if it has one, is in the register.
pub fn exit_apply(resolved: &ResolvedModule, machine: &mut Machine, node: NodeId) -> (r: Result<
    (),
    Raise,
>)
    ensures
        (final(machine)@, raise_of(r)) == exited(*resolved, old(machine)@, node),
{
    let (valued, again): (bool, bool) = match resolved.ast.node(node) {
        Some(Node::Return(e)) => (e.is_some(), false),
        Some(Node::Break(e)) => (e.is_some(), false),
        Some(Node::Continue(e)) => (e.is_some(), true),
        _ => {
            machine.fail();
            return Ok(());
        },
    };
    let exit = find_exit(resolved, machine, node, again);
    let value = if valued {
        match take_value(machine, resolved.ast.span(node)) {
            Ok(v) => Some(v),
            Err(e) => {
                return Err(e);
            },
        }
    } else {
        machine.reg = None;
        None
    };
    match exit {
        Some(exit) => machine.arm_exit(exit, value),
        None => machine.fail(),
    }
    Ok(())
}

/// The machine with no transfer in flight.
pub open spec fn settled(m: MachineView) -> MachineView {
    MachineView { unwind: None, ..m }
}

/// The machine without the next work of its innermost frame.
pub open spec fn undone(m: MachineView) -> MachineView {
    m.with_top(FrameView { conts: m.top().conts.drop_last(), ..m.top() })
}

/// The condition of a `while`.
pub open spec fn while_condition(resolved: ResolvedModule, node: NodeId) -> Option<NodeId> {
    match resolved.node_at(node) {
        Some(Node::While { cond, .. }) => Some(cond),
        _ => None,
    }
}

/// Whether the innermost frame runs a procedure.
pub open spec fn runs_procedure(modules: Seq<LoadedModule>, h: HeapView, f: FrameView) -> bool {
    match f.kind {
        FrameKind::Callable { cal } => match crate::call::source_of(modules, h, cal) {
            Some((_, info)) => info.kind == BodyKind::Proc,
            None => false,
        },
        _ => false,
    }
}

/// The raise for a valued `break` out of a procedure's call.
pub open spec fn destinationless_raise(span: Span) -> RaiseView {
    RaiseView::new(
        ExceptionKind::NoValueDestination,
        "this `break` carries a value, but the call it leaves doesn't produce one"@,
        span,
    )
}

fn no_destination(span: Span) -> (r: Raise)
    ensures
        r@ == destinationless_raise(span),
{
    Raise::new(
        ExceptionKind::NoValueDestination,
        "this `break` carries a value, but the call it leaves doesn't produce one".to_owned(),
        span,
    )
}

/// What leaving the innermost frame in flight leads to: an exit past that frame's call has
/// arrived, and an exception out of a module's top level makes the module fail.
pub open spec fn frame_unwound(modules: Seq<LoadedModule>, h: HeapView, m: MachineView) -> (
    MachineView,
    Option<RaiseView>,
) {
    let f = m.top();
    let left = m.left();
    match m.unwind {
        Some(Unwind::Leave { exit: Exit::PastCall { frame }, value }) => if frame == left.frames.len() {
            if value is Some && runs_procedure(modules, h, f) {
                (settled(left), Some(destinationless_raise(Span::nowhere())))
            } else {
                (MachineView { reg: value, ..settled(left) }, None)
            }
        } else {
            (left, None)
        },
        Some(Unwind::Raise { value, .. }) => if f.kind is ModuleTopLevel {
            (
                MachineView {
                    load: left.load.with_state(f.module, LoadState::Failed(value)),
                    ..left
                },
                None,
            )
        } else {
            (left, None)
        },
        _ => (left, None),
    }
}

/// What one step of a transfer leads to.
#[verifier::opaque]
pub open spec fn unwound(
    resolved: ResolvedModule,
    modules: Seq<LoadedModule>,
    h: HeapView,
    m: MachineView,
) -> (HeapView, MachineView, Option<RaiseView>) {
    if m.frames.len() == 0 {
        (h, m, None)
    } else if m.top().conts.len() == 0 {
        let (m2, e) = frame_unwound(modules, h, m);
        (h, m2, e)
    } else {
        let top = m.frames.len() - 1;
        let rest = undone(m);
        match (m.top().conts.last(), m.unwind) {
            (Work::WithRestore { dyn_mark }, _) => {
                let (h2, m2) = restored(h, rest, dyn_mark as nat);
                (h2, m2, None)
            },
            (Work::PopHandler, _) => (
                h,
                if rest.handling.len() == 0 {
                    rest
                } else {
                    MachineView { handling: rest.handling.drop_last(), ..rest }
                },
                None,
            ),
            (Work::TryHandler { try_node }, Some(Unwind::Raise { value, trace, .. })) => {
                let (h2, m2) = caught(resolved, h, settled(rest), try_node, value, trace);
                (h2, m2, None)
            },
            (
                Work::WhileCheck { node },
                Some(Unwind::Leave { exit: Exit::Loop { frame, node: l, again }, .. }),
            ) => if frame == top && l == node {
                if again {
                    match while_condition(resolved, node) {
                        Some(cond) => (
                            h,
                            settled(rest).doing(Work::WhileCheck { node }).doing(
                                Work::Eval { node: cond },
                            ),
                            None,
                        ),
                        None => (h, settled(rest).broken(), None),
                    }
                } else {
                    (h, settled(rest), None)
                }
            } else {
                (h, rest, None)
            },
            (
                Work::LoopReloop { node },
                Some(Unwind::Leave { exit: Exit::Loop { frame, node: l, again }, value }),
            ) => if frame == top && l == node {
                if again {
                    (h, settled(rest).doing(Work::LoopReloop { node }), None)
                } else {
                    (h, MachineView { reg: value, ..settled(rest) }, None)
                }
            } else {
                (h, rest, None)
            },
            (
                Work::ReturnBarrier,
                Some(Unwind::Leave { exit: Exit::BodyEnd { frame }, value }),
            ) => if frame == top {
                (
                    h,
                    MachineView { reg: value, ..settled(rest) }.doing(Work::ReturnBarrier),
                    None,
                )
            } else {
                (h, rest, None)
            },
            _ => (h, rest, None),
        }
    }
}

fn leave_frame(modules: &Vec<LoadedModule>, heap: &Heap, machine: &mut Machine) -> (r: Result<
    (),
    Raise,
>)
    requires
        old(machine)@.frames.len() > 0,
    ensures
        (final(machine)@, raise_of(r)) == frame_unwound(modules@, heap@, old(machine)@),
{
    let frame = match machine.pop_frame() {
        Some(f) => f,
        None => {
            return Ok(());
        },
    };
    match &machine.unwind {
        Some(Unwind::Leave { exit: Exit::PastCall { frame: target }, value }) => {
            if *target == machine.frames.len() {
                let value = *value;
                machine.unwind = None;
                let procedure: bool = match frame.kind {
                    FrameKind::Callable { cal } => match heap.callable(cal) {
                        Some(c) => match c.target {
                            CallableTarget::Source(id) => {
                                (c.module.0 as usize) < modules.len() && (id as usize)
                                    < modules[c.module.0 as usize].resolved.callables.len()
                                    && modules[c.module.0 as usize].resolved.callables[id as usize].kind
                                    == BodyKind::Proc
                            },
                            _ => false,
                        },
                        None => false,
                    },
                    _ => false,
                };
                if value.is_some() && procedure {
                    return Err(no_destination(Span::dummy()));
                }
                machine.reg = value;
            }
        },
        Some(Unwind::Raise { value, .. }) => {
            let value = *value;
            if let FrameKind::ModuleTopLevel = frame.kind {
                machine.load.set_state(frame.module, LoadState::Failed(value));
            }
        },
        _ => {},
    }
    Ok(())
}

/// Does one step of the transfer in flight.
#[verifier::rlimit(60)]
pub fn advance(
    resolved: &ResolvedModule,
    modules: &Vec<LoadedModule>,
    heap: &mut Heap,
    machine: &mut Machine,
) -> (r: Result<(), Raise>)
    ensures
        (final(heap)@, final(machine)@, raise_of(r)) == unwound(
            *resolved,
            modules@,
            old(heap)@,
            old(machine)@,
        ),
{
    proof {
        reveal(unwound);
    }
    let n: usize = machine.frames.len();
    if n == 0 {
        return Ok(());
    }
    let work = match machine.pop_cont() {
        Some(c) => c,
        None => {
            return leave_frame(modules, heap, machine);
        },
    };
    let ghost rest = machine@;
    let top: usize = n - 1;
    match work {
        Work::WithRestore { dyn_mark } => {
            restore(heap, machine, dyn_mark);
        },
        Work::PopHandler => {
            machine.pop_handling();
        },
        Work::TryHandler { try_node } => {
            let raising: bool = match &machine.unwind {
                Some(Unwind::Raise { .. }) => true,
                _ => false,
            };
            if raising {
                let unwind = machine.unwind.take();
                if let Some(Unwind::Raise { value, trace, .. }) = unwind {
                    catch(resolved, heap, machine, try_node, value, trace);
                }
            }
        },
        Work::WhileCheck { node } => {
            let landing: Option<bool> = match &machine.unwind {
                Some(Unwind::Leave { exit: Exit::Loop { frame, node: l, again }, .. }) => {
                    if *frame == top && *l == node {
                        Some(*again)
                    } else {
                        None
                    }
                },
                _ => None,
            };
            if let Some(again) = landing {
                machine.unwind = None;
                if again {
                    match resolved.ast.node(node) {
                        Some(Node::While { cond, .. }) => {
                            machine.push_cont(Work::WhileCheck { node });
                            machine.push_cont(Work::Eval { node: *cond });
                        },
                        _ => machine.fail(),
                    }
                }
            }
        },
        Work::LoopReloop { node } => {
            let landing: Option<(bool, Option<Value>)> = match &machine.unwind {
                Some(Unwind::Leave { exit: Exit::Loop { frame, node: l, again }, value }) => {
                    if *frame == top && *l == node {
                        Some((*again, *value))
                    } else {
                        None
                    }
                },
                _ => None,
            };
            if let Some((again, value)) = landing {
                machine.unwind = None;
                if again {
                    machine.push_cont(Work::LoopReloop { node });
                } else {
                    machine.reg = value;
                }
            }
        },
        Work::ReturnBarrier => {
            let landing: Option<Option<Value>> = match &machine.unwind {
                Some(Unwind::Leave { exit: Exit::BodyEnd { frame }, value }) => {
                    if *frame == top {
                        Some(*value)
                    } else {
                        None
                    }
                },
                _ => None,
            };
            if let Some(value) = landing {
                machine.unwind = None;
                machine.reg = value;
                machine.push_cont(Work::ReturnBarrier);
            }
        },
        _ => {},
    }
    Ok(())
}

/// What a transfer that reached a native call's boundary leads to: a `break` out of that
/// very call has arrived, anything else goes on.
pub open spec fn boundary_resumed(m: MachineView, boundary: int, kind: BodyKind) -> (
    MachineView,
    Option<RaiseView>,
) {
    match m.unwind {
        Some(Unwind::Leave { exit: Exit::PastNative { boundary: b }, value }) => if b == boundary {
            if kind == BodyKind::Proc && value is Some {
                (settled(m), Some(destinationless_raise(Span::nowhere())))
            } else {
                (MachineView { reg: value, ..settled(m) }, None)
            }
        } else {
            (m, None)
        },
        _ => (m, None),
    }
}

/// Resumes a transfer that reached a native call's boundary.
pub fn resume_native_boundary(machine: &mut Machine, boundary: usize, kind: BodyKind) -> (r: Result<
    (),
    Raise,
>)
    ensures
        (final(machine)@, raise_of(r)) == boundary_resumed(
            old(machine)@,
            boundary as int,
            kind,
        ),
{
    let arrived: Option<Option<Value>> = match &machine.unwind {
        Some(Unwind::Leave { exit: Exit::PastNative { boundary: b }, value }) => {
            if *b == boundary {
                Some(*value)
            } else {
                None
            }
        },
        _ => None,
    };
    match arrived {
        Some(value) => {
            machine.unwind = None;
            if kind == BodyKind::Proc && value.is_some() {
                return Err(no_destination(Span::dummy()));
            }
            machine.reg = value;
            Ok(())
        },
        None => Ok(()),
    }
}

/// An exception stops at the nearest handler: it is no longer in flight, and it is what is
/// being handled.
pub proof fn law_handler_stops_a_raise(
    resolved: ResolvedModule,
    modules: Seq<LoadedModule>,
    h: HeapView,
    m: MachineView,
    try_node: NodeId,
)
    requires
        m.frames.len() > 0,
        m.top().conts.len() > 0,
        m.top().conts.last() == (ContView::TryHandler { try_node }),
        m.unwind is Some && m.unwind->0 is Raise,
        resolved.node_at(try_node) is Some && resolved.node_at(try_node)->0 is Try,
        resolved.resolution(try_node) is Some && resolved.resolution(try_node)->0 is LocalSlot,
    ensures
        ({
            let (h2, m2, e) = unwound(resolved, modules, h, m);
            &&& m2.unwind is None
            &&& e is None
            &&& m2.handling == m.handling.push((m.unwind->0->Raise_value, m.unwind->0->Raise_trace))
        }),
{
    reveal(unwound);
    match m.unwind {
        Some(Unwind::Raise { value, trace, .. }) => {
            let rest = settled(undone(m));
            let (h2, m2) = caught(resolved, h, rest, try_node, value, trace);
            let (hc, copy) = crate::record::copied(h, value);
        },
        _ => {},
    }
}

/// A transfer runs the restoring of every `with` it leaves.
pub proof fn law_transfers_restore_bindings(
    resolved: ResolvedModule,
    modules: Seq<LoadedModule>,
    h: HeapView,
    m: MachineView,
    dyn_mark: usize,
)
    requires
        m.frames.len() > 0,
        m.top().conts.len() > 0,
        m.top().conts.last() == (ContView::WithRestore { dyn_mark }),
    ensures
        ({
            let (h2, m2, e) = unwound(resolved, modules, h, m);
            let (h3, m3) = restored(h, undone(m), dyn_mark as nat);
            h2 == h3 && m2 == m3 && e is None
        }),
{
    reveal(unwound);
}

/// Only an exception is caught: a cancellation, a `break`, a `continue` or a `return` passes
/// every handler.
pub proof fn law_handlers_catch_only_exceptions(
    resolved: ResolvedModule,
    modules: Seq<LoadedModule>,
    h: HeapView,
    m: MachineView,
    try_node: NodeId,
)
    requires
        m.frames.len() > 0,
        m.top().conts.len() > 0,
        m.top().conts.last() == (ContView::TryHandler { try_node }),
        m.unwind is Some && !(m.unwind->0 is Raise),
    ensures
        unwound(resolved, modules, h, m) == (h, undone(m), None::<RaiseView>),
{
    reveal(unwound);
}

/// A cancellation goes all the way out: each step of it takes away some work or a frame,
/// raises nothing, makes no module fail, and leaves it in flight.
pub proof fn law_cancellation_goes_all_the_way_out(
    resolved: ResolvedModule,
    modules: Seq<LoadedModule>,
    h: HeapView,
    m: MachineView,
)
    requires
        m.frames.len() > 0,
        m.unwind == Some(Unwind::<TraceView>::Cancel),
    ensures
        ({
            let (h2, m2, e) = unwound(resolved, modules, h, m);
            &&& m2.unwind == m.unwind
            &&& m2.load == m.load
            &&& e is None
            &&& m.top().conts.len() > 0 ==> m2.frames == undone(m).frames
            &&& m.top().conts.len() == 0 ==> m2.frames == m.frames.drop_last()
        }),
{
    reveal(unwound);
}

/// An exception that leaves a module's top level makes the module fail with that very value.
pub proof fn law_an_escaping_exception_fails_the_module(
    resolved: ResolvedModule,
    modules: Seq<LoadedModule>,
    h: HeapView,
    m: MachineView,
)
    requires
        m.frames.len() > 0,
        m.top().conts.len() == 0,
        m.top().kind is ModuleTopLevel,
        m.unwind is Some && m.unwind->0 is Raise,
        m.load.state(m.top().module) is Some,
    ensures
        unwound(resolved, modules, h, m).1.load.state(m.top().module) == Some(
            LoadState::Failed(m.unwind->0->Raise_value),
        ),
{
    reveal(unwound);
}

} // verus!
