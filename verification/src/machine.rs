//! The machine: the frame stack, the result register and what else a transition reads or
//! changes. Work on a link that leads nowhere (a node of the wrong shape, a frame that is
//! gone) parks an internal fault and does nothing else.
use crate::ast::NodeId;
use crate::cont::Cont;
use crate::cont::ContView;
use crate::error::EngineFault;
use crate::error::ExceptionKind;
use crate::error::Raise;
use crate::error::RaiseView;
use crate::error::Trace;
use crate::error::TraceFrame;
use crate::error::TraceView;
use crate::frame::conts_view;
use crate::frame::Frame;
use crate::frame::FrameKind;
use crate::frame::FrameView;
use crate::frame::Local;
use crate::heap::HeapView;
use crate::limits::Limits;
use crate::limits::Meter;
use crate::modload::LoadView;
use crate::modload::ModuleLoad;
use crate::modload::PendingImport;
use crate::modload::PendingImportView;
use crate::protocol::Implementation;
use crate::ring::recent_callables;
use crate::ring::recorded;
use crate::ring::ElidedFrame;
use crate::ring::RingBuffer;
use crate::span::Span;
use crate::value::CalIdx;
use crate::value::CellIdx;
use crate::value::TypeIdx;
use crate::value::Value;
use vstd::prelude::*;

verus! {

/// Where a `return`, `break` or `continue` leads.
#[derive(Clone, Copy, PartialEq, Eq, Debug, Structural)]
pub enum Exit {
    /// To a loop of a frame: past it, or around it again.
    Loop {
        /// The frame.
        frame: usize,
        /// The loop.
        node: NodeId,
        /// Whether around it again.
        again: bool,
    },
    /// To the end of a frame's body.
    BodyEnd {
        /// The frame.
        frame: usize,
    },
    /// Past the call of a frame.
    PastCall {
        /// The frame.
        frame: usize,
    },
    /// Past a native call with that many frames beneath it.
    PastNative {
        /// The number of frames beneath.
        boundary: usize,
    },
}

/// A transfer in flight, over a type of traces.
#[allow(inconsistent_fields)]
pub enum Unwind<T> {
    /// An exception on its way to a handler.
    Raise {
        /// The raised value.
        value: Value,
        /// Where it was raised.
        trace: T,
        /// Whether the host has been shown it already.
        trapped: bool,
    },
    /// An exit on its way to its target.
    Leave {
        /// The target.
        exit: Exit,
        /// The value it carries.
        value: Option<Value>,
    },
    /// A cancellation.
    Cancel,
}

/// A transfer in flight, as mathematics sees it.
pub open spec fn unwind_view(u: Option<Unwind<Trace>>) -> Option<Unwind<TraceView>> {
    match u {
        Some(Unwind::Raise { value, trace, trapped }) => Some(
            Unwind::Raise { value, trace: trace@, trapped },
        ),
        Some(Unwind::Leave { exit, value }) => Some(Unwind::Leave { exit, value }),
        Some(Unwind::Cancel) => Some(Unwind::Cancel),
        None => None,
    }
}

/// A call of a host-registered function that is ready to run, over a type of value lists.
pub struct ForeignCall<L> {
    /// The function.
    pub id: u32,
    /// The evaluated arguments, as written.
    pub args: L,
    /// The call.
    pub call: NodeId,
}

/// A ready foreign call, as mathematics sees it.
pub open spec fn foreign_view(c: Option<ForeignCall<Vec<Value>>>) -> Option<ForeignCall<Seq<Value>>> {
    match c {
        Some(c) => Some(ForeignCall { id: c.id, args: c.args@, call: c.call }),
        None => None,
    }
}

/// A parked import, as mathematics sees it.
pub open spec fn import_view(p: Option<PendingImport>) -> Option<PendingImportView> {
    match p {
        Some(p) => Some(p@),
        None => None,
    }
}

/// The machine.
pub struct Machine {
    /// The frames, innermost last.
    pub frames: Vec<Frame>,
    /// The result register.
    pub reg: Option<Value>,
    /// The transfer in flight.
    pub unwind: Option<Unwind<Trace>>,
    /// The limits and what is left of them.
    pub meter: Meter,
    /// The next frame's serial.
    pub frame_serial: u64,
    /// The saved values of rebound dynamic parameters, innermost last.
    pub dyn_stack: Vec<(CellIdx, Value)>,
    /// The exceptions being handled, innermost last.
    pub handling: Vec<(Value, Trace)>,
    /// The frames tail calls took over.
    pub ring: RingBuffer,
    /// What is known of the modules.
    pub load: ModuleLoad,
    /// The foreign call to run.
    pub foreign: Option<ForeignCall<Vec<Value>>>,
    /// The import to ask the host for.
    pub pending_import: Option<PendingImport>,
    /// The implementations of the dispatched protocols.
    pub protocols: Vec<Implementation>,
    /// The type of errors.
    pub error_type: TypeIdx,
}

/// The machine, as mathematics sees it.
pub struct MachineView {
    /// The frames, innermost last.
    pub frames: Seq<FrameView>,
    /// The result register.
    pub reg: Option<Value>,
    /// The transfer in flight.
    pub unwind: Option<Unwind<TraceView>>,
    /// The limits and what is left of them.
    pub meter: Meter,
    /// The next frame's serial.
    pub frame_serial: u64,
    /// The saved values of rebound dynamic parameters, innermost last.
    pub dyn_stack: Seq<(CellIdx, Value)>,
    /// The exceptions being handled, innermost last.
    pub handling: Seq<(Value, TraceView)>,
    /// The frames tail calls took over.
    pub ring: Seq<ElidedFrame>,
    /// What is known of the modules.
    pub load: LoadView,
    /// The foreign call to run.
    pub foreign: Option<ForeignCall<Seq<Value>>>,
    /// The import to ask the host for.
    pub pending_import: Option<PendingImportView>,
    /// The implementations of the dispatched protocols.
    pub protocols: Seq<Implementation>,
    /// The type of errors.
    pub error_type: TypeIdx,
}

/// The contents of some frames.
pub open spec fn frames_view(frames: Seq<Frame>) -> Seq<FrameView> {
    frames.map_values(|f: Frame| f@)
}

/// The contents of the exceptions being handled.
pub open spec fn handling_view(handling: Seq<(Value, Trace)>) -> Seq<(Value, TraceView)> {
    handling.map_values(|e: (Value, Trace)| (e.0, e.1@))
}

impl View for Machine {
    type V = MachineView;

    open spec fn view(&self) -> MachineView {
        MachineView {
            frames: frames_view(self.frames@),
            reg: self.reg,
            unwind: unwind_view(self.unwind),
            meter: self.meter,
            frame_serial: self.frame_serial,
            dyn_stack: self.dyn_stack@,
            handling: handling_view(self.handling@),
            ring: self.ring@,
            load: self.load@,
            foreign: foreign_view(self.foreign),
            pending_import: import_view(self.pending_import),
            protocols: self.protocols@,
            error_type: self.error_type,
        }
    }
}

impl MachineView {
    /// A machine with nothing on its stack.
    pub open spec fn idle(limits: Limits, load: LoadView, error_type: TypeIdx) -> MachineView {
        MachineView {
            frames: Seq::empty(),
            reg: None,
            unwind: None,
            meter: Meter::fresh(limits),
            frame_serial: 0,
            dyn_stack: Seq::empty(),
            handling: Seq::empty(),
            ring: Seq::empty(),
            load,
            foreign: None,
            pending_import: None,
            protocols: Seq::empty(),
            error_type,
        }
    }

    /// The innermost frame.
    pub open spec fn top(self) -> FrameView {
        self.frames.last()
    }

    /// The machine with an internal fault parked.
    pub open spec fn broken(self) -> MachineView {
        MachineView { meter: self.meter.parked(EngineFault::Internal), ..self }
    }

    /// The machine with a value in the register.
    pub open spec fn valued(self, v: Value) -> MachineView {
        MachineView { reg: Some(v), ..self }
    }

    /// The machine with nothing in the register.
    pub open spec fn voided(self) -> MachineView {
        MachineView { reg: None, ..self }
    }

    /// The machine with further work on the innermost frame.
    pub open spec fn doing(self, c: ContView) -> MachineView {
        if self.frames.len() == 0 {
            self.broken()
        } else {
            self.with_top(FrameView { conts: self.top().conts.push(c), ..self.top() })
        }
    }

    /// The machine with its innermost frame replaced.
    pub open spec fn with_top(self, f: FrameView) -> MachineView {
        MachineView { frames: self.frames.update(self.frames.len() - 1, f), ..self }
    }

    /// The machine with a further frame.
    pub open spec fn entered(self, f: FrameView) -> MachineView {
        MachineView { frames: self.frames.push(f), ..self }
    }

    /// The machine without its innermost frame.
    pub open spec fn left(self) -> MachineView {
        MachineView { frames: self.frames.drop_last(), ..self }
    }

    /// A frame's slot.
    pub open spec fn slot(self, frame: int, slot: u16) -> Option<Local> {
        if 0 <= frame < self.frames.len() && slot < self.frames[frame].locals.len() {
            Some(self.frames[frame].locals[slot as int])
        } else {
            None
        }
    }

    /// The machine with a frame's slot replaced.
    pub open spec fn with_slot(self, frame: int, slot: u16, local: Local) -> MachineView {
        if self.slot(frame, slot) is Some {
            MachineView {
                frames: self.frames.update(
                    frame,
                    FrameView {
                        locals: self.frames[frame].locals.update(slot as int, local),
                        ..self.frames[frame]
                    },
                ),
                ..self
            }
        } else {
            self.broken()
        }
    }

    /// The machine after handing out a frame serial.
    pub open spec fn numbered(self) -> MachineView {
        if self.frame_serial < u64::MAX {
            MachineView { frame_serial: (self.frame_serial + 1) as u64, ..self }
        } else {
            self.broken()
        }
    }

    /// The machine with an exception in flight.
    pub open spec fn raising(self, value: Value, trace: TraceView) -> MachineView {
        MachineView { unwind: Some(Unwind::Raise { value, trace, trapped: false }), ..self }
    }

    /// The machine with an exit in flight.
    pub open spec fn leaving(self, exit: Exit, value: Option<Value>) -> MachineView {
        MachineView { unwind: Some(Unwind::Leave { exit, value }), ..self }
    }

    /// The frame that a number of defining links lead to.
    pub open spec fn outer(self, from: int, hops: nat) -> Option<int>
        decreases hops,
    {
        if from < 0 || from >= self.frames.len() {
            None
        } else if hops == 0 {
            Some(from)
        } else {
            match self.frames[from].kind {
                FrameKind::Block { defining, .. } => self.outer(
                    defining as int,
                    (hops - 1) as nat,
                ),
                _ => None,
            }
        }
    }

    /// The frame that a number of defining links lead to from the innermost.
    pub open spec fn enclosing(self, hops: nat) -> Option<int> {
        self.outer(self.frames.len() - 1, hops)
    }
}

/// The raise for a call without a value where one is needed.
pub open spec fn void_raise(span: Span) -> RaiseView {
    RaiseView::new(
        ExceptionKind::ProcedureInExpression,
        "this procedure doesn't produce a value to use here"@,
        span,
    )
}

/// A frame as a trace shows it.
pub open spec fn frame_trace(f: FrameView) -> TraceFrame {
    TraceFrame {
        callable: match f.kind {
            FrameKind::Callable { cal } => Some(cal),
            _ => None,
        },
        call_site: match f.call_site {
            Some(site) => Some(site.span),
            None => None,
        },
        tail_count: f.tail_count,
    }
}

/// The trace of a raise here and now: the position, the frames innermost first, and the
/// frames tail calls took over.
pub open spec fn trace_here(m: MachineView, raised_at: Option<Span>) -> TraceView {
    TraceView {
        raised_at,
        frames: Seq::new(
            m.frames.len(),
            |i: int| frame_trace(m.frames[m.frames.len() - 1 - i]),
        ),
        tail_elided: recent_callables(m.ring),
    }
}

impl Machine {
    /// A machine with nothing on its stack.
    pub fn new(limits: Limits, load: ModuleLoad, error_type: TypeIdx) -> (r: Machine)
        ensures
            r@ == MachineView::idle(limits, load@, error_type),
    {
        let r = Machine {
            frames: Vec::new(),
            reg: None,
            unwind: None,
            meter: Meter::new(limits),
            frame_serial: 0,
            dyn_stack: Vec::new(),
            handling: Vec::new(),
            ring: RingBuffer::new(),
            load,
            foreign: None,
            pending_import: None,
            protocols: Vec::new(),
            error_type,
        };
        assert(r@.frames =~= Seq::empty());
        assert(r@.handling =~= Seq::empty());
        r
    }

    /// Parks an internal fault.
    pub fn fail(&mut self)
        ensures
            final(self)@ == old(self)@.broken(),
    {
        self.meter.set_pending_fault(EngineFault::Internal);
    }

    /// Adds work to the innermost frame.
    pub fn push_cont(&mut self, c: Cont)
        ensures
            final(self)@ == old(self)@.doing(c@),
    {
        let n: usize = self.frames.len();
        if n == 0 {
            self.fail();
            return;
        }
        self.frames[n - 1].conts.push(c);
        proof {
            let before = old(self)@.top();
            assert(conts_view(self.frames@[n - 1].conts@) =~= before.conts.push(c@));
            assert(self@.frames =~= old(self)@.doing(c@).frames);
        }
    }

    /// Takes the next work of the innermost frame.
    pub fn pop_cont(&mut self) -> (r: Option<Cont>)
        ensures
            old(self)@.frames.len() == 0 || old(self)@.top().conts.len() == 0 ==> r is None
                && final(self)@ == old(self)@,
            old(self)@.frames.len() > 0 && old(self)@.top().conts.len() > 0 ==> {
                &&& r is Some
                &&& r->0@ == old(self)@.top().conts.last()
                &&& final(self)@ == old(self)@.with_top(
                    (FrameView {
                        conts: old(self)@.top().conts.drop_last(),
                        ..old(self)@.top()
                    }),
                )
            },
    {
        let n: usize = self.frames.len();
        if n == 0 {
            return None;
        }
        if self.frames[n - 1].conts.len() == 0 {
            return None;
        }
        let r = self.frames[n - 1].conts.pop();
        proof {
            let before = old(self)@.top();
            assert(conts_view(self.frames@[n - 1].conts@) =~= before.conts.drop_last());
            assert(self@.frames =~= old(self)@.with_top(
                FrameView { conts: before.conts.drop_last(), ..before },
            ).frames);
        }
        r
    }

    /// Enters a frame.
    pub fn push_frame(&mut self, f: Frame)
        ensures
            final(self)@ == old(self)@.entered(f@),
    {
        self.frames.push(f);
        assert(self@.frames =~= old(self)@.frames.push(f@));
    }

    /// Leaves the innermost frame.
    pub fn pop_frame(&mut self) -> (r: Option<Frame>)
        ensures
            old(self)@.frames.len() == 0 ==> r is None && final(self)@ == old(self)@,
            old(self)@.frames.len() > 0 ==> r is Some && r->0@ == old(self)@.top() && final(self)@
                == old(self)@.left(),
    {
        if self.frames.len() == 0 {
            return None;
        }
        let r = self.frames.pop();
        assert(self@.frames =~= old(self)@.frames.drop_last());
        r
    }

    /// A frame's slot.
    pub fn local(&self, frame: usize, slot: u16) -> (r: Option<Local>)
        ensures
            r == self@.slot(frame as int, slot),
    {
        if frame < self.frames.len() && (slot as usize) < self.frames[frame].locals.len() {
            Some(self.frames[frame].locals[slot as usize])
        } else {
            None
        }
    }

    /// Replaces a frame's slot.
    pub fn set_local(&mut self, frame: usize, slot: u16, local: Local)
        ensures
            final(self)@ == old(self)@.with_slot(frame as int, slot, local),
    {
        if frame < self.frames.len() && (slot as usize) < self.frames[frame].locals.len() {
            self.frames[frame].locals.set(slot as usize, local);
            assert(self@.frames =~= old(self)@.with_slot(frame as int, slot, local).frames);
        } else {
            self.fail();
        }
    }

    /// Hands out a frame serial.
    pub fn next_frame_serial(&mut self) -> (r: u64)
        ensures
            r == old(self)@.frame_serial,
            final(self)@ == old(self)@.numbered(),
    {
        let serial: u64 = self.frame_serial;
        if serial == u64::MAX {
            self.fail();
        } else {
            self.frame_serial = serial + 1;
        }
        serial
    }

    /// Puts an exception in flight.
    pub fn arm_raise_value(&mut self, value: Value, trace: Trace)
        ensures
            final(self)@ == old(self)@.raising(value, trace@),
    {
        self.unwind = Some(Unwind::Raise { value, trace, trapped: false });
    }

    /// Puts an exit in flight.
    pub fn arm_exit(&mut self, exit: Exit, value: Option<Value>)
        ensures
            final(self)@ == old(self)@.leaving(exit, value),
    {
        self.unwind = Some(Unwind::Leave { exit, value });
    }

    /// Notes the exception that a rescue body now handles.
    pub fn push_handling(&mut self, value: Value, trace: Trace)
        ensures
            final(self)@ == (MachineView {
                handling: old(self)@.handling.push((value, trace@)),
                ..old(self)@
            }),
    {
        self.handling.push((value, trace));
        assert(self@.handling =~= old(self)@.handling.push((value, trace@)));
    }

    /// The exception being handled.
    pub fn current_handling(&self) -> (r: Option<(Value, Trace)>)
        ensures
            (match r {
                Some(e) => self@.handling.len() > 0 && (e.0, e.1@) == self@.handling.last(),
                None => self@.handling.len() == 0,
            }),
    {
        let n: usize = self.handling.len();
        if n == 0 {
            None
        } else {
            Some((self.handling[n - 1].0, self.handling[n - 1].1.copy()))
        }
    }

    /// Forgets the exception being handled.
    pub fn pop_handling(&mut self)
        ensures
            final(self)@ == (if old(self)@.handling.len() == 0 {
                old(self)@
            } else {
                MachineView { handling: old(self)@.handling.drop_last(), ..old(self)@ }
            }),
    {
        let popped = self.handling.pop();
        proof {
            if old(self)@.handling.len() > 0 {
                assert(self@.handling =~= old(self)@.handling.drop_last());
            } else {
                assert(self@.handling =~= old(self)@.handling);
            }
        }
    }

    /// Remembers a frame that a tail call takes over.
    pub fn record_elided(&mut self, callable: CalIdx, consuming_serial: u64)
        ensures
            final(self)@ == (MachineView {
                ring: recorded(old(self)@.ring, ElidedFrame { callable, consuming_serial }),
                ..old(self)@
            }),
    {
        self.ring.record(ElidedFrame { callable, consuming_serial });
    }

    /// The frame that a number of defining links lead to from the innermost.
    pub fn outer_frame(&self, hops: u16) -> (r: Option<usize>)
        ensures
            (match r {
                Some(i) => self@.enclosing(hops as nat) == Some(i as int) && i
                    < self@.frames.len(),
                None => self@.enclosing(hops as nat) is None,
            }),
    {
        if self.frames.len() == 0 {
            return None;
        }
        let mut at: usize = self.frames.len() - 1;
        let mut left: u16 = hops;
        while left > 0
            invariant
                at < self.frames@.len(),
                self@.enclosing(hops as nat) == self@.outer(at as int, left as nat),
            decreases left,
        {
            assert(self@.frames[at as int].kind == self.frames@[at as int].kind);
            match self.frames[at].kind {
                FrameKind::Block { defining, .. } => {
                    if defining >= self.frames.len() {
                        assert(self@.outer(defining as int, (left - 1) as nat) is None);
                        return None;
                    }
                    at = defining;
                    left = left - 1;
                },
                _ => {
                    return None;
                },
            }
        }
        Some(at)
    }
}

/// What a transition leaves: the heap, the machine, and the exception it raised.
pub struct Step {
    /// The heap.
    pub heap: HeapView,
    /// The machine.
    pub machine: MachineView,
    /// The exception.
    pub raise: Option<RaiseView>,
}

impl Step {
    /// A transition that raised nothing.
    pub open spec fn done(heap: HeapView, machine: MachineView) -> Step {
        Step { heap, machine, raise: None }
    }

    /// A transition that raised.
    pub open spec fn raised(heap: HeapView, machine: MachineView, raise: RaiseView) -> Step {
        Step { heap, machine, raise: Some(raise) }
    }
}

/// The exception of a result.
pub open spec fn raise_of<T>(r: Result<T, Raise>) -> Option<RaiseView> {
    match r {
        Ok(_) => None,
        Err(e) => Some(e@),
    }
}

/// What a transition with that result left.
pub open spec fn stepped(r: Result<(), Raise>, heap: HeapView, machine: MachineView) -> Step {
    Step { heap, machine, raise: raise_of(r) }
}

/// Takes the value in the register; without one, raises.
pub fn take_value(machine: &mut Machine, span: Span) -> (r: Result<Value, Raise>)
    ensures
        (match old(machine)@.reg {
            Some(v) => r is Ok && r->Ok_0 == v && final(machine)@ == old(machine)@.voided(),
            None => r is Err && r->Err_0@ == void_raise(span) && final(machine)@ == old(
                machine,
            )@,
        }),
{
    match machine.reg {
        Some(v) => {
            machine.reg = None;
            Ok(v)
        },
        None => Err(
            Raise::new(
                ExceptionKind::ProcedureInExpression,
                "this procedure doesn't produce a value to use here".to_owned(),
                span,
            ),
        ),
    }
}

/// Captures the trace of a raise here and now.
pub fn capture_trace(machine: &Machine, raised_at: Option<Span>) -> (r: Trace)
    ensures
        r@ == trace_here(machine@, raised_at),
{
    let mut frames: Vec<TraceFrame> = Vec::new();
    let n: usize = machine.frames.len();
    let mut i: usize = 0;
    while i < n
        invariant
            i <= n,
            n == machine.frames@.len(),
            frames@ =~= trace_here(machine@, raised_at).frames.take(i as int),
        decreases n - i,
    {
        let f = &machine.frames[n - 1 - i];
        assert(machine@.frames[n - 1 - i] == f@);
        let callable = match f.kind {
            FrameKind::Callable { cal } => Some(cal),
            _ => None,
        };
        let call_site = match f.call_site {
            Some(site) => Some(site.span),
            None => None,
        };
        frames.push(TraceFrame { callable, call_site, tail_count: f.tail_count });
        i = i + 1;
    }
    assert(frames@ =~= trace_here(machine@, raised_at).frames);
    Trace { raised_at, frames, tail_elided: machine.ring.most_recent_first() }
}

} // verus!
