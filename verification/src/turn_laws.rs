//! What a turn does: which work it takes up, and what it comes to when there is none.

use crate::ast::Node;
use crate::ast::NodeId;
use crate::cont::ContView;
use crate::error::EngineFault;
use crate::error::LimitKind;
use crate::error::RaiseView;
use crate::frame::FrameView;
use crate::heap::HeapView;
use crate::importing::mods;
use crate::instance::Instance;
use crate::machine::MachineView;
use crate::machine::Unwind;
use crate::modload::LoadState;
use crate::step::dispatched;
use crate::step::materialized;
use crate::turn::raised_or;
use crate::turn::turned;
use crate::turn::TurnKind;
use crate::unwind::undone;
use crate::unwind::unwound;
use vstd::prelude::*;

verus! {

/// An instance whose next turn takes up work: no fault is parked, no call of a host's function
/// comes first, and a frame of a module is innermost.
pub open spec fn at_work(i: Instance, cur: int) -> bool {
    &&& i.machine@.meter.pending_fault is None
    &&& i.natives@.calls.len() == 0 || i.machine@.frames.len() > i.natives@.calls.last().boundary
    &&& i.machine@.frames.len() > 0
    &&& cur == i.machine@.frames.last().module.0
    &&& 0 <= cur < i.modules@.len()
    &&& i.modules@[cur].resolved.canonical_id.0 < i.modules@.len()
}

/// The machine without the next work of its innermost frame.
pub open spec fn taken_up(m: MachineView) -> MachineView {
    MachineView {
        frames: m.frames.update(
            m.frames.len() - 1,
            FrameView { conts: m.frames.last().conts.drop_last(), ..m.frames.last() },
        ),
        ..m
    }
}

/// Work that raises nothing, enters or leaves no frame, and asks for nothing outside leaves in
/// the instance just what it did: the next work is the last of the innermost frame, and it is
/// taken off.
pub proof fn law_turns_do_the_last_work(i: Instance, cancelled: bool, cur: int, c: ContView)
    requires
        at_work(i, cur),
        i.machine@.unwind is None,
        i.machine@.frames.last().conts.len() > 0,
        c == i.machine@.frames.last().conts.last(),
        !(c is Statements),
        !(c is ImportTargets),
    ensures
        ({
            let s = dispatched(
                i.modules@[cur].resolved,
                i.modules@,
                i.heap@,
                taken_up(i.machine@),
                c,
            );
            let z = turned(i, cancelled);
            s.raise is None && s.machine.frames.len() == i.machine@.frames.len()
                && s.machine.frames.last().tail_count == i.machine@.frames.last().tail_count
                && s.machine.frames.len() <= s.machine.meter.limits.stack_depth
                && s.machine.foreign is None && s.machine.pending_import is None ==> {
                &&& z.heap == s.heap
                &&& z.machine == s.machine
                &&& z.natives == i.natives@
                &&& z.modules == mods(i.modules@)
                &&& z.finalizations == i.finalizations@
                &&& z.turn is Ran || z.turn is FinePoint
                &&& z.turn is FinePoint ==> i.observation_mode is Subexpression
                    && s.machine.reg is Some
            }
        }),
{
    let m = i.machine@;
    assert(undone(m) == taken_up(m));
}

/// An exception of the engine's own becomes an error in flight, with nothing else done.
pub proof fn law_raises_go_in_flight(h: HeapView, m: MachineView, e: RaiseView)
    ensures
        ({
            let (g, z) = raised_or(h, m, Some(e));
            &&& z.unwind matches Some(Unwind::Raise { value, trace, .. })
            &&& value is Record
            &&& trace.raised_at == e.trace.raised_at
            &&& z.frames == m.frames
            &&& z.dyn_stack == m.dyn_stack
            &&& raised_or(h, m, None) == (h, m)
        }),
{
    reveal(materialized);
}

/// A transfer in flight is what a turn goes on with before any other work.
pub proof fn law_transfers_come_before_work(i: Instance, cancelled: bool, cur: int)
    requires
        at_work(i, cur),
        i.machine@.unwind is Some,
    ensures
        ({
            let (h, m, e) = unwound(
                i.modules@[cur].resolved,
                i.modules@,
                i.heap@,
                i.machine@,
            );
            let z = turned(i, cancelled);
            &&& z.turn is Ran
            &&& z.natives == i.natives@
            &&& z.modules == mods(i.modules@)
            &&& e is None ==> z.heap == h && z.machine == m
        }),
{
}

/// Without a frame the program is done; a transfer that no frame is left for is what it came
/// to: the value raised, or that it was cancelled.
pub proof fn law_programs_end_without_frames(i: Instance, cancelled: bool)
    requires
        i.machine@.meter.pending_fault is None,
        i.natives@.calls.len() == 0,
        i.machine@.frames.len() == 0,
    ensures
        ({
            let z = turned(i, cancelled);
            &&& z.heap == i.heap@
            &&& z.machine == (MachineView { unwind: None, ..i.machine@ })
            &&& match i.machine@.unwind {
                None => z.turn is Done,
                Some(Unwind::Raise { value, trace, .. }) => z.turn == TurnKind::Raised(
                    value,
                    trace,
                ),
                Some(Unwind::Cancel) => z.turn == TurnKind::Faulted(EngineFault::Cancelled),
                Some(_) => z.turn == TurnKind::Faulted(EngineFault::Internal),
            }
        }),
{
}

/// A parked fault is reported once, before anything else.
pub proof fn law_parked_faults_are_reported(i: Instance, cancelled: bool, f: EngineFault)
    requires
        i.machine@.meter.pending_fault == Some(f),
    ensures
        ({
            let z = turned(i, cancelled);
            &&& z.turn == TurnKind::Faulted(f)
            &&& z.heap == i.heap@
            &&& z.machine.meter.pending_fault is None
            &&& z.machine.frames == i.machine@.frames
            &&& z.machine.reg == i.machine@.reg
            &&& z.machine.unwind == i.machine@.unwind
        }),
{
}

/// A statement is not begun when the program is cancelled, and not when no step is left; else
/// one step is spent on it, and it is where the program stands.
pub proof fn law_statements_are_safe_points(
    i: Instance,
    cancelled: bool,
    cur: int,
    block: NodeId,
    next: usize,
    stmts: Vec<NodeId>,
)
    requires
        at_work(i, cur),
        i.machine@.unwind is None,
        i.machine@.frames.last().conts.len() > 0,
        i.machine@.frames.last().conts.last() == (ContView::Statements { block, next }),
        i.modules@[cur].resolved.node_at(block) == Some(Node::Block(stmts)),
        next < stmts@.len(),
    ensures
        ({
            let z = turned(i, cancelled);
            let m = i.machine@;
            &&& cancelled ==> z.heap == i.heap@ && z.machine == (MachineView {
                unwind: Some(Unwind::Cancel),
                ..m
            })
            &&& !cancelled && m.meter.fuel.budget == 0 ==> z.machine == m && z.turn
                == TurnKind::Faulted(EngineFault::LimitExceeded(LimitKind::StepBudget))
            &&& !cancelled && m.meter.fuel.budget > 0 && !i.gc_every_safe_point
                && i.heap@.allocated <= i.gc_threshold && i.heap@.allocated
                <= m.meter.limits.heap_bytes ==> z.stmt == Some(stmts@[next as int])
        }),
{
}

/// A module whose top level has no work left is loaded, and its frame is gone.
pub proof fn law_modules_are_loaded_at_their_end(i: Instance, cur: int)
    requires
        at_work(i, cur),
        i.machine@.unwind is None,
        i.machine@.frames.last().conts.len() == 0,
        i.machine@.frames.last().kind is ModuleTopLevel,
    ensures
        ({
            let z = turned(i, false);
            &&& z.machine.load == i.machine@.load.with_state(
                i.machine@.frames.last().module,
                LoadState::Loaded,
            )
            &&& z.machine.frames == i.machine@.frames.drop_last()
            &&& z.machine.reg is None
            &&& z.machine.unwind is None
        }),
{
    assert(i.machine@.left().frames =~= i.machine@.frames.drop_last());
}

} // verus!
