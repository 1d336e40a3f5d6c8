//! The instance: one loaded program with its heap, machine, modules and handles, and what a
//! host may ask of it between drives.
use crate::activation::Activation;
use crate::activation::Natives;
use crate::activation::PendingRequest;
use crate::ast::NodeId;
use crate::breakpoint::Breakpoints;
use crate::collect::Finalization;
use crate::error::Trace;
use crate::exception::describe;
use crate::exception::description;
use crate::exception::Diagnostic;
use crate::handle::Handle;
use crate::handle::HandleError;
use crate::handle::HandleTable;
use crate::handle::TableView;
use crate::heap::Heap;
use crate::machine::Machine;
use crate::modload::LoadedModule;
use crate::span::ModuleId;
use crate::span::Span;
use crate::tokens::CancelToken;
use crate::tokens::PauseToken;
use crate::value::Value;
use crate::values;
use vstd::prelude::*;

verus! {

/// Where an instance is in its life.
#[derive(Clone, Copy, PartialEq, Eq, Debug, Structural)]
pub enum InstanceState {
    /// Loaded, not driven yet.
    Ready,
    /// Stopped where it can go on.
    Paused,
    /// Waiting for the host.
    Suspended,
    /// Done.
    Completed,
    /// Ended by an exception that nothing caught.
    Raised,
    /// Ended by a fault.
    Faulted,
}

/// How a drive is to go.
#[derive(Clone, Copy, PartialEq, Eq, Debug, Structural)]
pub enum Directive {
    /// To the end, past breakpoints.
    RunToCompletion,
    /// To the next breakpoint.
    Continue,
    /// To the next safe point.
    Step,
}

/// The name of a breakpoint.
#[derive(Clone, Copy, PartialEq, Eq, Debug, Structural)]
pub struct BreakpointId(pub u32);

/// Why a drive stopped where it can go on.
#[derive(Clone, Copy, PartialEq, Eq, Debug, Structural)]
pub enum PauseReason {
    /// Its fuel is spent.
    SliceEnd,
    /// The host asked for it.
    HostPause,
    /// The step is done.
    Step,
    /// A breakpoint was reached.
    Breakpoint(BreakpointId),
    /// An exception was raised, and the host asked to see it first.
    RaiseTrap,
}

/// How fine the safe points are at which a step may stop.
#[derive(Clone, Copy, PartialEq, Eq, Debug, Structural)]
pub enum ObservationMode {
    /// At statements.
    Statement,
    /// At completed subexpressions too.
    Subexpression,
}

/// What an evaluation on the side sets aside: the program's own machine and calls, as they
/// were.
pub struct SetAside {
    /// The machine; what is known of the modules and the protocols stays in use.
    pub machine: Machine,
    /// The running calls.
    pub calls: Vec<Activation>,
    /// The parked call.
    pub pending: Option<PendingRequest>,
    /// The statement about to run.
    pub safe_point_stmt: Option<NodeId>,
    /// The subexpression just completed.
    pub fine_span: Option<Span>,
    /// How large the heap may grow before it is collected.
    pub gc_threshold: u64,
}

/// An instance.
pub struct Instance {
    /// The modules; the entry module first.
    pub modules: Vec<LoadedModule>,
    /// The heap.
    pub heap: Heap,
    /// The machine.
    pub machine: Machine,
    /// The host-registered functions and their calls.
    pub natives: Natives,
    /// The handles the host holds.
    pub handles: HandleTable,
    /// The module of the names that every program sees.
    pub prelude: ModuleId,
    /// Where the instance is in its life.
    pub state: InstanceState,
    /// How large the heap may grow before it is collected.
    pub gc_threshold: u64,
    /// Whether to collect at every safe point.
    pub gc_every_safe_point: bool,
    /// The finalizers the host is to run.
    pub finalizations: Vec<Finalization>,
    /// The stop button.
    pub cancel: CancelToken,
    /// The pause button.
    pub host_pause: PauseToken,
    /// How the current drive is to go.
    pub directive: Directive,
    /// The breakpoints.
    pub breakpoints: Breakpoints,
    /// The statement about to run, at a safe point.
    pub safe_point_stmt: Option<NodeId>,
    /// The subexpression just completed, at a fine safe point.
    pub fine_span: Option<Span>,
    /// How fine the safe points are.
    pub observation_mode: ObservationMode,
    /// Whether the host wants to see exceptions before they are handled.
    pub raise_trap_enabled: bool,
    /// The trace of the exception that ended the program.
    pub raised_trace: Option<Trace>,
    /// What loading found out about the modules' sources.
    pub load_diagnostics: Vec<Diagnostic>,
    /// What evaluations on the side have set aside, outermost first.
    pub aside: Vec<SetAside>,
}

/// The result register as a handle, if it holds a value.
pub open spec fn result_given(before: TableView, after: TableView, reg: Option<Value>, r: Option<
    Handle,
>) -> bool {
    match reg {
        Some(v) => r == Some(before.next_handle()) && after == before.interned(v),
        None => r is None && after == before,
    }
}

impl Instance {
    /// Whether a further handle can be given out.
    pub open spec fn ready(self) -> bool {
        self.handles@.wf() && self.handles@.room(1)
    }

    /// Where the instance is in its life.
    pub fn state(&self) -> (r: InstanceState)
        ensures
            r == self.state,
    {
        self.state
    }

    /// The value in the result register.
    pub fn result(&self) -> (r: Option<Value>)
        ensures
            r == self.machine@.reg,
    {
        self.machine.reg
    }

    /// What the program has written.
    pub fn output(&self) -> (r: &[u8])
        ensures
            r@ == self.natives@.output,
    {
        self.natives.output.as_slice()
    }

    /// Gives the value in the result register a handle.
    pub fn retain_result(&mut self) -> (r: Option<Handle>)
        requires
            old(self).ready(),
        ensures
            result_given(
                old(self).handles@,
                final(self).handles@,
                old(self).machine@.reg,
                r,
            ),
            final(self).handles@.wf(),
            *final(self) == (Instance { handles: final(self).handles, ..*old(self) }),
    {
        match self.machine.reg {
            Some(value) => Some(self.handles.intern(value)),
            None => None,
        }
    }

    /// Adds a reference to a handle.
    pub fn retain(&mut self, handle: Handle) -> (r: Result<Handle, HandleError>)
        requires
            old(self).handles@.wf(),
            old(self).handles@.refs(handle) < u32::MAX,
        ensures
            final(self).handles@.wf(),
            old(self).handles@.live(handle) ==> r == Ok::<Handle, HandleError>(handle) && final(self).handles@ == old(self).handles@.retained(handle),
            !old(self).handles@.live(handle) ==> r == Err::<Handle, HandleError>(
                HandleError::Stale,
            ) && final(self).handles@ == old(self).handles@,
            *final(self) == (Instance { handles: final(self).handles, ..*old(self) }),
    {
        self.handles.retain(handle)
    }

    /// Drops a reference of a handle.
    pub fn release(&mut self, handle: Handle) -> (r: Result<(), HandleError>)
        requires
            old(self).handles@.wf(),
        ensures
            final(self).handles@.wf(),
            old(self).handles@.live(handle) ==> r is Ok && final(self).handles@ == old(self).handles@.released(handle),
            !old(self).handles@.live(handle) ==> r == Err::<(), HandleError>(HandleError::Stale)
                && final(self).handles@ == old(self).handles@,
            *final(self) == (Instance { handles: final(self).handles, ..*old(self) }),
    {
        values::release(&mut self.handles, handle)
    }

    /// The stop button of the instance: every one that it hands out is the same.
    pub fn cancel_token(&self) -> (r: CancelToken)
        ensures
            r == self.cancel,
    {
        self.cancel.share()
    }

    /// The pause button of the instance: every one that it hands out is the same.
    pub fn pause_token(&self) -> (r: PauseToken)
        ensures
            r == self.host_pause,
    {
        self.host_pause.share()
    }

    /// Describes a raised value: the slug and message of an error, or a generic pair.
    pub fn describe_raised(&self, value: Value) -> (r: (String, String))
        ensures
            (r.0@, r.1@) == description(self.heap@, self.machine@.error_type, value),
    {
        describe(&self.heap, self.machine.error_type, value)
    }
}

} // verus!
