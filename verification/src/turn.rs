//! One turn of an instance: the next step of whatever is next, be it a transfer in flight, a
//! running call of a host-registered function, or the work of the innermost frame.
use crate::activation::append_values;
use crate::activation::apply;
use crate::activation::call_begun;
use crate::activation::call_values;
use crate::activation::calls_view;
use crate::activation::each_advance;
use crate::activation::each_advanced;
use crate::activation::NativesView;
use crate::activation::Progress;
use crate::ast::NodeId;
use crate::collect::children;
use crate::collect::collected;
use crate::collect::orphaned;
use crate::collect::reachable;
use crate::collect::reached;
use crate::collect::value_ref;
use crate::collect::value_refs;
use crate::collect::Finalization;
use crate::collect::Ref;
use crate::cont::ContView;
use crate::cont::Work;
use crate::error::EngineFault;
use crate::error::LimitKind;
use crate::error::Raise;
use crate::error::RaiseView;
use crate::error::Trace;
use crate::error::TraceView;
use crate::frame::FrameKind;
use crate::gc::gather_roots;
use crate::gc::machine_values;
use crate::gc::roots_of;
use crate::gc::trace_values;
use crate::gc::values_of_trace;
use crate::handle::occupied_values;
use crate::handle::Handle;
use crate::handle::Slot;
use crate::heap::HeapView;
use crate::importing::import_advanced;
use crate::importing::mods;
use crate::importing::step_import_targets;
use crate::importing::ModView;
use crate::instance::Instance;
use crate::instance::ObservationMode;
use crate::instance::SetAside;
use crate::limits::next_threshold;
use crate::limits::rearmed_threshold;
use crate::limits::Meter;
use crate::machine::ForeignCall;
use crate::machine::MachineView;
use crate::machine::Step;
use crate::machine::Unwind;
use crate::modload::LoadState;
use crate::modload::LoadedModule;
use crate::resolve::ResolvedModule;
use crate::span::Span;
use crate::step::dispatch;
use crate::step::dispatched;
use crate::step::find_statement;
use crate::step::materialize;
use crate::step::materialized;
use crate::step::statement_at;
use crate::unwind;
use crate::unwind::undone;
use crate::unwind::unwound;
use crate::value::Value;
use vstd::prelude::*;

verus! {

/// How a block that the host had run came out.
#[derive(Clone, Copy, PartialEq, Eq, Debug, Structural)]
pub enum BlockOutcome {
    /// It ran to its end.
    Completed,
    /// A transfer left it for somewhere outside the call: the host has to answer at once,
    /// with nothing.
    NonLocalExit,
    /// It could not be run: a fault is on its way.
    Halted,
}

/// What a turn came to, over a type of traces.
pub enum TurnOf<T> {
    /// It ran.
    Ran,
    /// It ran, and a statement is about to.
    SafePoint,
    /// It ran, and completed a subexpression.
    FinePoint,
    /// An exception that nothing caught ended the program.
    Raised(Value, T),
    /// A fault ended the program.
    Faulted(EngineFault),
    /// The program waits for the host.
    Suspended,
    /// The host is to run a function.
    HostCall,
    /// The block that the host had run is done.
    BlockDone(BlockOutcome),
    /// There is nothing left to do.
    Done,
}

/// What a turn came to.
pub type Turn = TurnOf<Trace>;

/// What a turn came to, as mathematics sees it.
pub type TurnKind = TurnOf<TraceView>;

/// What a turn came to, as mathematics sees it.
pub open spec fn turn_kind(t: Turn) -> TurnKind {
    match t {
        TurnOf::Ran => TurnOf::Ran,
        TurnOf::SafePoint => TurnOf::SafePoint,
        TurnOf::FinePoint => TurnOf::FinePoint,
        TurnOf::Raised(v, t) => TurnOf::Raised(v, t@),
        TurnOf::Faulted(f) => TurnOf::Faulted(f),
        TurnOf::Suspended => TurnOf::Suspended,
        TurnOf::HostCall => TurnOf::HostCall,
        TurnOf::BlockDone(o) => TurnOf::BlockDone(o),
        TurnOf::Done => TurnOf::Done,
    }
}

/// What a turn leaves.
pub struct TurnView {
    /// The modules.
    pub modules: Seq<ModView>,
    /// The heap.
    pub heap: HeapView,
    /// The machine.
    pub machine: MachineView,
    /// The host-registered functions and their calls.
    pub natives: NativesView,
    /// How large the heap may grow before it is collected.
    pub threshold: u64,
    /// The finalizers the host is to run.
    pub finalizations: Seq<Finalization>,
    /// The statement about to run.
    pub stmt: Option<NodeId>,
    /// The subexpression just completed.
    pub fine: Option<Span>,
    /// What it came to.
    pub turn: TurnKind,
}

/// An instance and what a turn of it came to.
pub open spec fn left_by(i: Instance, turn: TurnKind) -> TurnView {
    TurnView {
        modules: mods(i.modules@),
        heap: i.heap@,
        machine: i.machine@,
        natives: i.natives@,
        threshold: i.gc_threshold,
        finalizations: i.finalizations@,
        stmt: i.safe_point_stmt,
        fine: i.fine_span,
        turn,
    }
}

/// A turn that has changed nothing yet.
pub open spec fn untouched(i: Instance) -> TurnView {
    TurnView { stmt: None, fine: None, ..left_by(i, TurnOf::Ran) }
}

/// The values that are reached neither by the machine nor by a name, during a turn.
pub open spec fn further_values(i: Instance, t: TurnView) -> Seq<Value> {
    t.natives.held() + occupied_values(i.handles@.slots) + match i.raised_trace {
        Some(t) => trace_values(t@),
        None => Seq::empty(),
    }
}

/// The values that set-aside calls hold.
pub open spec fn aside_held(s: SetAside) -> Seq<Value> {
    call_values(calls_view(s.calls@)) + match s.pending {
        Some(p) => p@.args,
        None => Seq::empty(),
    }
}

/// What set-aside machines and calls reach directly.
pub open spec fn aside_roots(aside: Seq<SetAside>) -> Seq<Ref>
    decreases aside.len(),
{
    if aside.len() == 0 {
        Seq::empty()
    } else {
        aside_roots(aside.drop_last()) + roots_of(
            aside.last().machine@,
            Seq::empty(),
            aside_held(aside.last()),
        )
    }
}

/// The roots of a collection during a turn.
pub open spec fn roots_at(i: Instance, t: TurnView) -> Seq<Ref> {
    roots_of(t.machine, i.modules@, further_values(i, t)) + aside_roots(i.aside@)
}

/// The roots of a collection.
pub open spec fn instance_roots(i: Instance) -> Seq<Ref> {
    roots_at(i, untouched(i))
}

/// The module whose tree the innermost frame runs.
pub open spec fn current(i: Instance) -> Option<int> {
    if i.machine@.frames.len() == 0 {
        None
    } else {
        let m = i.machine@.top().module.0 as int;
        if m < i.modules@.len() && (i.modules@[m].resolved.canonical_id.0 as int)
            < i.modules@.len() {
            Some(m)
        } else {
            None
        }
    }
}

/// Heap and machine with an exception put in flight, if there is one.
pub open spec fn raised_or(h: HeapView, m: MachineView, e: Option<RaiseView>) -> (
    HeapView,
    MachineView,
) {
    match e {
        Some(e) => materialized(h, m, e),
        None => (h, m),
    }
}

/// Whether a collection is due during a turn.
pub open spec fn collection_due(i: Instance, t: TurnView) -> bool {
    ||| i.gc_every_safe_point
    ||| t.heap.allocated > t.threshold
    ||| t.heap.allocated > t.machine.meter.limits.heap_bytes
}

/// What the accounts of a safe point come to: one safe point is spent, the heap is
/// collected where that is due, and exceeding a limit is a fault.
pub open spec fn accounted(i: Instance, t: TurnView) -> (TurnView, Option<EngineFault>) {
    let meter = t.machine.meter;
    if meter.fuel.budget == 0 {
        (t, Some(EngineFault::LimitExceeded(LimitKind::StepBudget)))
    } else {
        let m = MachineView { meter: Meter { fuel: meter.fuel.spent(), ..meter }, ..t.machine };
        let roots = roots_at(i, t);
        let t2 = if collection_due(i, t) {
            TurnView {
                machine: m,
                heap: collected(t.heap, roots),
                threshold: next_threshold(collected(t.heap, roots).allocated),
                finalizations: t.finalizations + orphaned(t.heap, roots),
                ..t
            }
        } else {
            TurnView { machine: m, ..t }
        };
        (
            t2,
            if t2.heap.allocated > meter.limits.heap_bytes {
                Some(EngineFault::LimitExceeded(LimitKind::Heap))
            } else {
                None
            },
        )
    }
}

/// Whether a transition entered or left a frame. A tail call does both.
pub open spec fn moved(before: MachineView, after: MachineView) -> bool {
    ||| before.frames.len() != after.frames.len()
    ||| before.frames.len() > 0 && before.top().tail_count != after.top().tail_count
}

/// What follows a transition: where it entered or left a frame, that is a safe point too,
/// unless something else comes first or no frame is left.
pub open spec fn rested(i: Instance, cancelled: bool, t: TurnView) -> TurnView {
    if (t.turn is Ran || t.turn is FinePoint) && t.machine.unwind is None && t.machine.frames.len()
        > 0 && moved(i.machine@, t.machine) {
        if cancelled {
            TurnView {
                machine: MachineView { unwind: Some(Unwind::Cancel), ..t.machine },
                fine: None,
                turn: TurnOf::Ran,
                ..t
            }
        } else {
            let (t2, fault) = accounted(i, t);
            TurnView {
                fine: None,
                turn: match fault {
                    Some(f) => TurnOf::Faulted(f),
                    None => TurnOf::SafePoint,
                },
                ..t2
            }
        }
    } else {
        t
    }
}

/// The subexpression a piece of work completes when it leaves a value.
pub open spec fn completes(resolved: ResolvedModule, c: ContView) -> Option<Span> {
    match c {
        Work::BinApply { span, .. } => Some(span),
        Work::UnaryApply { span, .. } => Some(span),
        Work::AndRhs { span, .. } => Some(span),
        Work::OrRhs { span, .. } => Some(span),
        Work::AssertBool { span } => Some(span),
        Work::CallGotCallee { call } => Some(resolved.ast.range(call)),
        Work::CallGotArg { call, .. } => Some(resolved.ast.range(call)),
        Work::BlockGotArg { call, .. } => Some(resolved.ast.range(call)),
        Work::ListGotElem { list, .. } => Some(resolved.ast.range(list)),
        Work::DictGotValue { dict, .. } => Some(resolved.ast.range(dict)),
        Work::DictBuildHashed { node, .. } => Some(resolved.ast.range(node)),
        Work::FieldRead { field } => Some(resolved.ast.range(field)),
        Work::IndexApply { span, .. } => Some(span),
        Work::IndexReadHashed { span, .. } => Some(span),
        Work::StrInterp { node, .. } => Some(resolved.ast.range(node)),
        Work::StrInterpRendered { node, .. } => Some(resolved.ast.range(node)),
        _ => None,
    }
}

/// What follows a piece of work that completes a subexpression when it leaves a value:
/// where subexpressions are watched, that is a fine safe point.
pub open spec fn watched(mode: ObservationMode, span: Option<Span>, t: TurnView) -> TurnView {
    if mode is Subexpression && t.turn is Ran && t.machine.unwind is None && t.machine.reg is Some
        && span is Some {
        TurnView { fine: span, turn: TurnOf::FinePoint, ..t }
    } else {
        t
    }
}

/// What follows a piece of work: a stack grown too deep is a fault, a call of a
/// host-registered function begins, and a parked call or import suspends.
pub open spec fn concluded(t: TurnView, resolved: ResolvedModule) -> TurnView {
    if t.machine.frames.len() > t.machine.meter.limits.stack_depth {
        TurnView {
            turn: TurnOf::Faulted(EngineFault::LimitExceeded(LimitKind::StackDepth)),
            ..t
        }
    } else {
        match t.machine.foreign {
            Some(c) => {
                let s = call_begun(
                    resolved,
                    t.heap,
                    MachineView { foreign: None, ..t.machine },
                    t.natives,
                    c,
                );
                let (heap, machine) = raised_or(s.heap, s.machine, s.raise);
                TurnView {
                    heap,
                    machine,
                    natives: s.natives,
                    turn: if s.natives.pending is Some {
                        TurnOf::Suspended
                    } else {
                        t.turn
                    },
                    ..t
                }
            },
            None => if t.machine.pending_import is Some {
                TurnView { turn: TurnOf::Suspended, ..t }
            } else {
                t
            },
        }
    }
}

/// What a step of work leads to.
pub open spec fn settled_work(t: TurnView, resolved: ResolvedModule, s: Step) -> TurnView {
    let (heap, machine) = raised_or(s.heap, s.machine, s.raise);
    if s.raise is Some {
        TurnView { heap, machine, ..t }
    } else {
        concluded(TurnView { heap, machine, ..t }, resolved)
    }
}

/// The statement that a piece of work is about to run.
pub open spec fn next_statement(resolved: ResolvedModule, c: ContView) -> Option<NodeId> {
    match c {
        Work::Statements { block, next } => statement_at(resolved, block, next as int),
        _ => None,
    }
}

/// What the next work of the innermost frame leads to.
pub open spec fn worked(i: Instance, cancelled: bool, cur: int) -> TurnView {
    let resolved = i.modules@[cur].resolved;
    let c = i.machine@.top().conts.last();
    let t = untouched(i);
    match (next_statement(resolved, c), c) {
        (Some(stmt), _) => if cancelled {
            TurnView {
                machine: MachineView { unwind: Some(Unwind::Cancel), ..t.machine },
                ..t
            }
        } else {
            let (t2, fault) = accounted(i, t);
            match fault {
                Some(f) => TurnView { turn: TurnOf::Faulted(f), ..t2 },
                None => settled_work(
                    TurnView { stmt: Some(stmt), turn: TurnOf::SafePoint, ..t2 },
                    resolved,
                    dispatched(resolved, i.modules@, t2.heap, undone(t2.machine), c),
                ),
            }
        },
        (None, Work::ImportTargets { import, next }) => {
            let s = import_advanced(
                i.modules@,
                t.heap,
                undone(t.machine),
                cur,
                import,
                next as int,
            );
            settled_work(TurnView { modules: s.modules, ..t }, resolved, s.step)
        },
        (None, _) => {
            let s = dispatched(resolved, i.modules@, t.heap, undone(t.machine), c);
            rested(
                i,
                cancelled,
                watched(
                    i.observation_mode,
                    completes(resolved, c),
                    settled_work(t, resolved, s),
                ),
            )
        },
    }
}

/// What an innermost frame without work leads to: a module's top level is done, and the
/// module is loaded.
pub open spec fn frame_done(i: Instance, cancelled: bool) -> TurnView {
    let t = untouched(i);
    let f = i.machine@.top();
    if f.kind is ModuleTopLevel {
        rested(
            i,
            cancelled,
            TurnView {
                machine: MachineView {
                    reg: None,
                    load: t.machine.load.with_state(f.module, LoadState::Loaded),
                    ..t.machine.left()
                },
                ..t
            },
        )
    } else {
        TurnView { machine: t.machine.broken(), ..t }
    }
}

/// What a transfer with no frame left to unwind comes to.
pub open spec fn drained(i: Instance) -> TurnView {
    let t = untouched(i);
    let m = MachineView { unwind: None, ..t.machine };
    match i.machine@.unwind {
        Some(Unwind::Raise { value, trace, .. }) => TurnView {
            machine: m,
            turn: TurnOf::Raised(value, trace),
            ..t
        },
        Some(Unwind::Cancel) => TurnView {
            machine: m,
            turn: TurnOf::Faulted(EngineFault::Cancelled),
            ..t
        },
        _ => TurnView { machine: m, turn: TurnOf::Faulted(EngineFault::Internal), ..t },
    }
}

/// What the innermost running call does when the frames above its boundary are gone.
pub open spec fn call_turned(i: Instance, cur: Option<int>) -> TurnView {
    let t = untouched(i);
    match i.natives@.calls.last().progress {
        Progress::Each { next, count } => match cur {
            Some(cur) => {
                let s = each_advanced(i.modules@, t.heap, t.machine, t.natives, next, count);
                let (heap, machine) = raised_or(s.heap, s.machine, s.raise);
                TurnView { heap, machine, natives: s.natives, ..t }
            },
            None => TurnView { machine: t.machine.broken(), ..t },
        },
        Progress::Running => if i.machine@.unwind is Some {
            TurnView {
                natives: t.natives.progressed(Progress::Exited),
                turn: TurnOf::BlockDone(BlockOutcome::NonLocalExit),
                ..t
            }
        } else {
            TurnView {
                natives: t.natives.progressed(Progress::Waiting),
                turn: TurnOf::BlockDone(BlockOutcome::Completed),
                ..t
            }
        },
        _ => TurnView { turn: TurnOf::HostCall, ..t },
    }
}

/// Whether the innermost running call is next: the frames above its boundary are gone.
pub open spec fn call_next(i: Instance) -> bool {
    i.natives@.calls.len() > 0 && i.machine@.frames.len() <= i.natives@.calls.last().boundary
}

/// What a turn leads to: a parked fault first, then a running call whose frames are gone,
/// then a transfer in flight, then the work of the innermost frame.
pub open spec fn turned(i: Instance, cancelled: bool) -> TurnView {
    let t = untouched(i);
    match i.machine@.meter.pending_fault {
        Some(f) => TurnView {
            machine: MachineView {
                meter: Meter { pending_fault: None, ..t.machine.meter },
                ..t.machine
            },
            turn: TurnOf::Faulted(f),
            ..t
        },
        None => if call_next(i) {
            call_turned(i, current(i))
        } else if i.machine@.frames.len() == 0 {
            if i.machine@.unwind is Some {
                drained(i)
            } else {
                TurnView { turn: TurnOf::Done, ..t }
            }
        } else {
            match current(i) {
                None => TurnView { machine: t.machine.broken(), ..t },
                Some(cur) => if i.machine@.unwind is Some {
                    let (h, m, e) = unwound(
                        i.modules@[cur].resolved,
                        i.modules@,
                        t.heap,
                        t.machine,
                    );
                    let (heap, machine) = raised_or(h, m, e);
                    TurnView { heap, machine, ..t }
                } else if i.machine@.top().conts.len() == 0 {
                    frame_done(i, cancelled)
                } else {
                    worked(i, cancelled, cur)
                },
            }
        },
    }
}

/// The rest of an instance that a turn leaves alone.
pub open spec fn kept_by_turns(before: Instance, after: Instance) -> bool {
    after == (Instance {
        modules: after.modules,
        heap: after.heap,
        machine: after.machine,
        natives: after.natives,
        gc_threshold: after.gc_threshold,
        finalizations: after.finalizations,
        safe_point_stmt: after.safe_point_stmt,
        fine_span: after.fine_span,
        ..before
    })
}

fn append_finalizations(out: &mut Vec<Finalization>, more: &Vec<Finalization>)
    ensures
        final(out)@ == old(out)@ + more@,
{
    let mut i: usize = 0;
    while i < more.len()
        invariant
            i <= more@.len(),
            out@ =~= old(out)@ + more@.take(i as int),
        decreases more@.len() - i,
    {
        out.push(more[i]);
        i = i + 1;
    }
    assert(more@.take(i as int) =~= more@);
}

fn completed_span(resolved: &ResolvedModule, c: &crate::cont::Cont) -> (r: Option<Span>)
    ensures
        r == completes(*resolved, c@),
{
    match c {
        Work::BinApply { span, .. } => Some(*span),
        Work::UnaryApply { span, .. } => Some(*span),
        Work::AndRhs { span, .. } => Some(*span),
        Work::OrRhs { span, .. } => Some(*span),
        Work::AssertBool { span } => Some(*span),
        Work::CallGotCallee { call } => Some(resolved.ast.span(*call)),
        Work::CallGotArg { call, .. } => Some(resolved.ast.span(*call)),
        Work::BlockGotArg { call, .. } => Some(resolved.ast.span(*call)),
        Work::ListGotElem { list, .. } => Some(resolved.ast.span(*list)),
        Work::DictGotValue { dict, .. } => Some(resolved.ast.span(*dict)),
        Work::DictBuildHashed { node, .. } => Some(resolved.ast.span(*node)),
        Work::FieldRead { field } => Some(resolved.ast.span(*field)),
        Work::IndexApply { span, .. } => Some(*span),
        Work::IndexReadHashed { span, .. } => Some(*span),
        Work::StrInterp { node, .. } => Some(resolved.ast.span(*node)),
        Work::StrInterpRendered { node, .. } => Some(resolved.ast.span(*node)),
        _ => None,
    }
}

fn held_aside(s: &SetAside) -> (r: Vec<Value>)
    ensures
        r@ == aside_held(*s),
{
    let mut r: Vec<Value> = Vec::new();
    let mut i: usize = 0;
    let ghost all = calls_view(s.calls@);
    assert(all.take(0) =~= Seq::empty());
    while i < s.calls.len()
        invariant
            i <= s.calls@.len(),
            all == calls_view(s.calls@),
            r@ == call_values(all.take(i as int)),
        decreases s.calls@.len() - i,
    {
        assert(all.take(i + 1).drop_last() =~= all.take(i as int));
        assert(all.take(i + 1).last() == s.calls@[i as int]@);
        append_values(&mut r, &s.calls[i].args);
        i = i + 1;
    }
    assert(all.take(i as int) =~= all);
    if let Some(p) = &s.pending {
        append_values(&mut r, &p.args);
    }
    assert(r@ =~= aside_held(*s));
    r
}

fn gather_aside(aside: &Vec<SetAside>, roots: &mut Vec<Ref>)
    ensures
        final(roots)@ == old(roots)@ + aside_roots(aside@),
{
    let ghost start = roots@;
    let none: Vec<LoadedModule> = Vec::new();
    assert(none@ =~= Seq::empty());
    let mut i: usize = 0;
    assert(aside@.take(0) =~= Seq::empty());
    while i < aside.len()
        invariant
            i <= aside@.len(),
            none@ == Seq::<LoadedModule>::empty(),
            roots@ =~= start + aside_roots(aside@.take(i as int)),
        decreases aside@.len() - i,
    {
        let held = held_aside(&aside[i]);
        let more = gather_roots(&aside[i].machine, &none, &held);
        assert(aside@.take(i + 1).drop_last() =~= aside@.take(i as int));
        assert(aside@.take(i + 1).last() == aside@[i as int]);
        let ghost before = roots@;
        let mut k: usize = 0;
        while k < more.len()
            invariant
                k <= more@.len(),
                roots@ =~= before + more@.take(k as int),
            decreases more@.len() - k,
        {
            roots.push(more[k]);
            k = k + 1;
        }
        assert(more@.take(k as int) =~= more@);
        i = i + 1;
    }
    assert(aside@.take(i as int) =~= aside@);
}

impl Instance {
    fn further(&self) -> (r: Vec<Value>)
        ensures
            r@ == further_values(*self, untouched(*self)),
    {
        let mut r = self.natives.held_values();
        let held = self.handles.root_values();
        let ghost start = r@;
        let mut i: usize = 0;
        while i < held.len()
            invariant
                i <= held@.len(),
                r@ =~= start + held@.take(i as int),
            decreases held@.len() - i,
        {
            r.push(held[i]);
            i = i + 1;
        }
        assert(held@.take(i as int) =~= held@);
        if let Some(t) = &self.raised_trace {
            let traced = values_of_trace(t);
            let ghost before = r@;
            let mut k: usize = 0;
            while k < traced.len()
                invariant
                    k <= traced@.len(),
                    r@ =~= before + traced@.take(k as int),
                decreases traced@.len() - k,
            {
                r.push(traced[k]);
                k = k + 1;
            }
            assert(traced@.take(k as int) =~= traced@);
        }
        assert(r@ =~= further_values(*self, untouched(*self)));
        r
    }

    /// Collects the heap: what the program and the host can no longer reach is emptied, and
    /// the finalizers of foreign objects among it are left for the host to run.
    pub fn force_collect(&mut self)
        ensures
            final(self).heap@ == collected(old(self).heap@, instance_roots(*old(self))),
            final(self).finalizations@ == old(self).finalizations@ + orphaned(
                old(self).heap@,
                instance_roots(*old(self)),
            ),
            *final(self) == (Instance {
                heap: final(self).heap,
                finalizations: final(self).finalizations,
                ..*old(self)
            }),
    {
        let more = self.further();
        let mut roots = gather_roots(&self.machine, &self.modules, &more);
        gather_aside(&self.aside, &mut roots);
        let dead = self.heap.collect(roots);
        append_finalizations(&mut self.finalizations, &dead);
    }

    /// Has the heap collected at every safe point.
    pub fn collect_at_every_safe_point(&mut self)
        ensures
            *final(self) == (Instance { gc_every_safe_point: true, ..*old(self) }),
    {
        self.gc_every_safe_point = true;
    }

    fn account(&mut self) -> (r: Option<EngineFault>)
        ensures
            ({
                let (t, fault) = accounted(*old(self), untouched(*old(self)));
                &&& r == fault
                &&& left_by(*final(self), TurnOf::Ran) == (TurnView {
                    stmt: old(self).safe_point_stmt,
                    fine: old(self).fine_span,
                    ..t
                })
            }),
            kept_by_turns(*old(self), *final(self)),
            final(self).modules == old(self).modules,
    {
        if let Err(f) = self.machine.meter.fuel.spend() {
            return Some(f);
        }
        let limit: u64 = self.machine.meter.limits.heap_bytes;
        let size: u64 = self.heap.bytes_allocated();
        if self.gc_every_safe_point || size > self.gc_threshold || size > limit {
            proof {
                assert(instance_roots(*self) == instance_roots(*old(self))) by {
                    reveal(roots_of);
                }
            }
            self.force_collect();
            self.gc_threshold = rearmed_threshold(self.heap.bytes_allocated());
        }
        if self.heap.bytes_allocated() > limit {
            Some(EngineFault::LimitExceeded(LimitKind::Heap))
        } else {
            None
        }
    }

    fn current_module(&self) -> (r: Option<usize>)
        ensures
            (match r {
                Some(m) => current(*self) == Some(m as int) && m < self.modules@.len(),
                None => current(*self) is None,
            }),
    {
        let n: usize = self.machine.frames.len();
        if n == 0 {
            return None;
        }
        let m: usize = self.machine.frames[n - 1].module.0 as usize;
        assert(self.machine@.top() == self.machine.frames@[n - 1]@);
        if m < self.modules.len() && (self.modules[m].resolved.canonical_id.0 as usize)
            < self.modules.len() {
            Some(m)
        } else {
            None
        }
    }

    fn raise_here(&mut self, r: Result<(), Raise>)
        ensures
            (final(self).heap@, final(self).machine@) == raised_or(
                old(self).heap@,
                old(self).machine@,
                crate::machine::raise_of(r),
            ),
            *final(self) == (Instance {
                heap: final(self).heap,
                machine: final(self).machine,
                ..*old(self)
            }),
    {
        if let Err(e) = r {
            materialize(&mut self.heap, &mut self.machine, e);
        }
    }

    fn conclude(&mut self, cur: usize, turn: Turn) -> (r: Turn)
        requires
            cur < old(self).modules@.len(),
        ensures
            left_by(*final(self), turn_kind(r)) == concluded(
                left_by(*old(self), turn_kind(turn)),
                old(self).modules@[cur as int].resolved,
            ),
            kept_by_turns(*old(self), *final(self)),
            final(self).modules == old(self).modules,
    {
        if let Err(f) = self.machine.meter.check_stack_depth(self.machine.frames.len()) {
            return TurnOf::Faulted(f);
        }
        match self.machine.foreign.take() {
            Some(call) => {
                let ghost seen = ForeignCall { id: call.id, args: call.args@, call: call.call };
                assert(old(self).machine@.foreign == Some(seen));
                let r = apply(
                    &self.modules[cur].resolved,
                    &mut self.heap,
                    &mut self.machine,
                    &mut self.natives,
                    call,
                );
                self.raise_here(r);
                if self.natives.pending.is_some() {
                    TurnOf::Suspended
                } else {
                    turn
                }
            },
            None => {
                if self.machine.pending_import.is_some() {
                    TurnOf::Suspended
                } else {
                    turn
                }
            },
        }
    }

    fn settle(&mut self, cur: usize, r: Result<(), Raise>, turn: Turn) -> (t: Turn)
        requires
            cur < old(self).modules@.len(),
        ensures
            left_by(*final(self), turn_kind(t)) == settled_work(
                left_by(*old(self), turn_kind(turn)),
                old(self).modules@[cur as int].resolved,
                crate::machine::stepped(r, old(self).heap@, old(self).machine@),
            ),
            kept_by_turns(*old(self), *final(self)),
            final(self).modules == old(self).modules,
    {
        if r.is_err() {
            self.raise_here(r);
            turn
        } else {
            self.conclude(cur, turn)
        }
    }

    fn work_statement(&mut self, cur: usize, stmt: NodeId, cancelled: bool) -> (r: Turn)
        requires
            current(*old(self)) == Some(cur as int),
            old(self).machine@.frames.len() > 0,
            old(self).machine@.top().conts.len() > 0,
            old(self).safe_point_stmt is None,
            old(self).fine_span is None,
            next_statement(
                old(self).modules@[cur as int].resolved,
                old(self).machine@.top().conts.last(),
            ) == Some(stmt),
        ensures
            left_by(*final(self), turn_kind(r)) == worked(*old(self), cancelled, cur as int),
            kept_by_turns(*old(self), *final(self)),
    {
        if cancelled {
            self.machine.unwind = Some(Unwind::Cancel);
            return TurnOf::Ran;
        }
        if let Some(f) = self.account() {
            return TurnOf::Faulted(f);
        }
        assert(self.machine@.frames == old(self).machine@.frames);
        let c = match self.machine.pop_cont() {
            Some(c) => c,
            None => {
                return TurnOf::Ran;
            },
        };
        let r = dispatch(
            &self.modules[cur].resolved,
            &self.modules,
            &mut self.heap,
            &mut self.machine,
            c,
        );
        self.safe_point_stmt = Some(stmt);
        self.settle(cur, r, TurnOf::SafePoint)
    }

    fn rest(
        &mut self,
        Ghost(start): Ghost<Instance>,
        frames: usize,
        tail_count: u64,
        cancelled: bool,
        turn: Turn,
    ) -> (r: Turn)
        requires
            frames > 0,
            frames == start.machine@.frames.len(),
            tail_count == start.machine@.top().tail_count,
            kept_by_turns(start, *old(self)),
            old(self).modules == start.modules,
            old(self).safe_point_stmt is None,
        ensures
            left_by(*final(self), turn_kind(r)) == rested(
                start,
                cancelled,
                left_by(*old(self), turn_kind(turn)),
            ),
            kept_by_turns(*old(self), *final(self)),
    {
        let runs: bool = match turn {
            TurnOf::Ran => true,
            TurnOf::FinePoint => true,
            _ => false,
        };
        let n: usize = self.machine.frames.len();
        if !runs || self.machine.unwind.is_some() || n == 0 {
            return turn;
        }
        assert(self.machine@.top() == self.machine.frames@[n - 1]@);
        if n == frames && self.machine.frames[n - 1].tail_count == tail_count {
            return turn;
        }
        self.fine_span = None;
        if cancelled {
            self.machine.unwind = Some(Unwind::Cancel);
            return TurnOf::Ran;
        }
        let ghost seen = left_by(*old(self), turn_kind(turn));
        assert(roots_at(*self, untouched(*self)) == roots_at(start, seen));
        match self.account() {
            Some(f) => TurnOf::Faulted(f),
            None => TurnOf::SafePoint,
        }
    }

    fn watch(&mut self, span: Option<Span>, turn: Turn) -> (r: Turn)
        ensures
            left_by(*final(self), turn_kind(r)) == watched(
                old(self).observation_mode,
                span,
                left_by(*old(self), turn_kind(turn)),
            ),
            kept_by_turns(*old(self), *final(self)),
            final(self).modules == old(self).modules,
            final(self).safe_point_stmt == old(self).safe_point_stmt,
    {
        let ran: bool = match turn {
            TurnOf::Ran => true,
            _ => false,
        };
        if self.observation_mode == ObservationMode::Subexpression && ran
            && self.machine.unwind.is_none() && self.machine.reg.is_some() && span.is_some() {
            self.fine_span = span;
            TurnOf::FinePoint
        } else {
            turn
        }
    }

    fn work_on(&mut self, cur: usize, cancelled: bool) -> (r: Turn)
        requires
            current(*old(self)) == Some(cur as int),
            old(self).machine@.frames.len() > 0,
            old(self).machine@.top().conts.len() > 0,
            old(self).safe_point_stmt is None,
            old(self).fine_span is None,
            next_statement(
                old(self).modules@[cur as int].resolved,
                old(self).machine@.top().conts.last(),
            ) is None,
        ensures
            left_by(*final(self), turn_kind(r)) == worked(*old(self), cancelled, cur as int),
            kept_by_turns(*old(self), *final(self)),
    {
        let n: usize = self.machine.frames.len();
        assert(self.machine@.top() == self.machine.frames@[n - 1]@);
        let tail_count: u64 = self.machine.frames[n - 1].tail_count;
        let c = match self.machine.pop_cont() {
            Some(c) => c,
            None => {
                return TurnOf::Ran;
            },
        };
        match c {
            Work::ImportTargets { import, next } => {
                let r = step_import_targets(
                    &mut self.modules,
                    &mut self.heap,
                    &mut self.machine,
                    cur,
                    import,
                    next,
                );
                proof {
                    lemma_imports_keep_trees(
                        old(self).modules@,
                        old(self).heap@,
                        undone(old(self).machine@),
                        cur as int,
                        import,
                        next as int,
                    );
                    lemma_same_tree(old(self).modules@, self.modules@, cur as int);
                }
                self.settle(cur, r, TurnOf::Ran)
            },
            _ => {
                let span = completed_span(&self.modules[cur].resolved, &c);
                let r = dispatch(
                    &self.modules[cur].resolved,
                    &self.modules,
                    &mut self.heap,
                    &mut self.machine,
                    c,
                );
                let t = self.settle(cur, r, TurnOf::Ran);
                let t = self.watch(span, t);
                self.rest(Ghost(*old(self)), n, tail_count, cancelled, t)
            },
        }
    }

    fn work(&mut self, cur: usize, cancelled: bool) -> (r: Turn)
        requires
            current(*old(self)) == Some(cur as int),
            old(self).machine@.frames.len() > 0,
            old(self).machine@.top().conts.len() > 0,
            old(self).safe_point_stmt is None,
            old(self).fine_span is None,
        ensures
            left_by(*final(self), turn_kind(r)) == worked(*old(self), cancelled, cur as int),
            kept_by_turns(*old(self), *final(self)),
    {
        let n: usize = self.machine.frames.len();
        assert(self.machine@.top() == self.machine.frames@[n - 1]@);
        let k: usize = self.machine.frames[n - 1].conts.len();
        assert(self.machine@.top().conts.last() == self.machine.frames@[n - 1].conts@[k - 1]@);
        let stmt = match &self.machine.frames[n - 1].conts[k - 1] {
            Work::Statements { block, next } => find_statement(
                &self.modules[cur].resolved,
                *block,
                *next,
            ),
            _ => None,
        };
        match stmt {
            Some(stmt) => self.work_statement(cur, stmt, cancelled),
            None => self.work_on(cur, cancelled),
        }
    }

    fn finish_frame(&mut self, cancelled: bool) -> (r: Turn)
        requires
            old(self).machine@.frames.len() > 0,
            old(self).safe_point_stmt is None,
            old(self).fine_span is None,
        ensures
            left_by(*final(self), turn_kind(r)) == frame_done(*old(self), cancelled),
            kept_by_turns(*old(self), *final(self)),
    {
        let n: usize = self.machine.frames.len();
        assert(self.machine@.top() == self.machine.frames@[n - 1]@);
        let tail_count: u64 = self.machine.frames[n - 1].tail_count;
        if self.machine.frames[n - 1].kind == FrameKind::ModuleTopLevel {
            let module = self.machine.frames[n - 1].module;
            let done = self.machine.pop_frame();
            self.machine.load.set_state(module, LoadState::Loaded);
            self.machine.reg = None;
            self.rest(Ghost(*old(self)), n, tail_count, cancelled, TurnOf::Ran)
        } else {
            self.machine.fail();
            TurnOf::Ran
        }
    }

    fn drain(&mut self) -> (r: Turn)
        requires
            old(self).machine@.unwind is Some,
            old(self).safe_point_stmt is None,
            old(self).fine_span is None,
        ensures
            left_by(*final(self), turn_kind(r)) == drained(*old(self)),
            kept_by_turns(*old(self), *final(self)),
    {
        match self.machine.unwind.take() {
            Some(Unwind::Raise { value, trace, .. }) => TurnOf::Raised(value, trace),
            Some(Unwind::Cancel) => TurnOf::Faulted(EngineFault::Cancelled),
            _ => TurnOf::Faulted(EngineFault::Internal),
        }
    }

    fn turn_call(&mut self) -> (r: Turn)
        requires
            old(self).natives@.calls.len() > 0,
            old(self).safe_point_stmt is None,
            old(self).fine_span is None,
        ensures
            left_by(*final(self), turn_kind(r)) == call_turned(*old(self), current(*old(self))),
            kept_by_turns(*old(self), *final(self)),
    {
        let n: usize = self.natives.calls.len();
        assert(self.natives@.calls.last() == self.natives.calls@[n - 1]@);
        match self.natives.calls[n - 1].progress {
            Progress::Each { next, count } => {
                match self.current_module() {
                    Some(cur) => {
                        let r = each_advance(
                            &self.modules,
                            &mut self.heap,
                            &mut self.machine,
                            &mut self.natives,
                            next,
                            count,
                        );
                        self.raise_here(r);
                    },
                    None => self.machine.fail(),
                }
                TurnOf::Ran
            },
            Progress::Running => {
                if self.machine.unwind.is_some() {
                    self.natives.progress(Progress::Exited);
                    TurnOf::BlockDone(BlockOutcome::NonLocalExit)
                } else {
                    self.natives.progress(Progress::Waiting);
                    TurnOf::BlockDone(BlockOutcome::Completed)
                }
            },
            _ => TurnOf::HostCall,
        }
    }

    /// Takes one turn, given whether cancellation has been requested.
    pub fn turn_with(&mut self, cancelled: bool) -> (r: Turn)
        ensures
            left_by(*final(self), turn_kind(r)) == turned(*old(self), cancelled),
            kept_by_turns(*old(self), *final(self)),
    {
        self.safe_point_stmt = None;
        self.fine_span = None;
        let ghost start = *self;
        assert(untouched(start) == untouched(*old(self)));
        proof {
            lemma_turn_starts_afresh(*old(self), start);
        }
        if let Some(f) = self.machine.meter.take_pending_fault() {
            return TurnOf::Faulted(f);
        }
        assert(self.machine@ == old(self).machine@);
        let n: usize = self.machine.frames.len();
        let k: usize = self.natives.calls.len();
        if k > 0 {
            assert(self.natives@.calls.last() == self.natives.calls@[k - 1]@);
            if n <= self.natives.calls[k - 1].boundary {
                let t = self.turn_call();
                return t;
            }
        }
        if n == 0 {
            if self.machine.unwind.is_some() {
                return self.drain();
            }
            return TurnOf::Done;
        }
        let cur: usize = match self.current_module() {
            Some(cur) => cur,
            None => {
                self.machine.fail();
                return TurnOf::Ran;
            },
        };
        if self.machine.unwind.is_some() {
            let r = unwind::advance(
                &self.modules[cur].resolved,
                &self.modules,
                &mut self.heap,
                &mut self.machine,
            );
            self.raise_here(r);
            return TurnOf::Ran;
        }
        assert(self.machine@.top() == self.machine.frames@[n - 1]@);
        if self.machine.frames[n - 1].conts.len() == 0 {
            return self.finish_frame(cancelled);
        }
        self.work(cur, cancelled)
    }

    /// Takes one turn; a cancellation requested meanwhile takes effect at the next safe
    /// point. What it comes to is what `turned` says for one of the two answers that the
    /// flag can give.
    pub fn turn(&mut self) -> (r: Turn)
        ensures
            left_by(*final(self), turn_kind(r)) == turned(*old(self), true) || left_by(
                *final(self),
                turn_kind(r),
            ) == turned(*old(self), false),
            kept_by_turns(*old(self), *final(self)),
    {
        let cancelled: bool = self.cancel.is_cancelled();
        self.turn_with(cancelled)
    }
}

/// A turn does not depend on where the turn before it stopped.
proof fn lemma_turn_starts_afresh(a: Instance, b: Instance)
    requires
        b == (Instance { safe_point_stmt: None, fine_span: None, ..a }),
    ensures
        forall|cancelled: bool| #[trigger] turned(a, cancelled) == turned(b, cancelled),
{
    assert(untouched(a) == untouched(b));
    assert(current(a) == current(b));
    assert forall|t: TurnView| #[trigger] accounted(a, t) == accounted(b, t) by {
        assert(roots_at(a, t) == roots_at(b, t));
    }
}

proof fn lemma_imports_keep_trees(
    modules: Seq<LoadedModule>,
    h: HeapView,
    m: MachineView,
    cur: int,
    import: NodeId,
    next: int,
)
    requires
        0 <= cur < modules.len(),
    ensures
        import_advanced(modules, h, m, cur, import, next).modules.len() == modules.len(),
        import_advanced(modules, h, m, cur, import, next).modules[cur].resolved
            == modules[cur].resolved,
{
    reveal(import_advanced);
}

proof fn lemma_same_tree(before: Seq<LoadedModule>, after: Seq<LoadedModule>, cur: int)
    requires
        0 <= cur < before.len(),
        mods(after).len() == before.len(),
        mods(after)[cur].resolved == before[cur].resolved,
    ensures
        cur < after.len(),
        after[cur].resolved == before[cur].resolved,
{
    assert(mods(after)[cur] == after[cur]@);
}

/// A turn depends on neither the state label nor the directive.
pub proof fn lemma_turn_ignores_state(a: Instance, b: Instance)
    requires
        b.modules == a.modules,
        b.heap == a.heap,
        b.machine@ == a.machine@,
        b == (Instance { state: b.state, machine: b.machine, ..a }),
    ensures
        turned(b, false).heap == turned(a, false).heap,
        turned(b, false).machine == turned(a, false).machine,
{
    assert(untouched(a) == untouched(b));
    assert(current(a) == current(b));
    assert forall|t: TurnView| #[trigger] accounted(a, t) == accounted(b, t) by {
        assert(roots_at(a, t) == roots_at(b, t));
    }
}

/// A cancellation is not for the program to catch: at the next safe point, whatever the
/// statement is, it is put in flight and the statement does not run.
pub proof fn law_cancellation_beats_the_next_statement(i: Instance, cur: int)
    requires
        i.machine@.meter.pending_fault is None,
        !call_next(i),
        i.machine@.frames.len() > 0,
        current(i) == Some(cur),
        i.machine@.unwind is None,
        i.machine@.top().conts.len() > 0,
        next_statement(i.modules@[cur].resolved, i.machine@.top().conts.last()) is Some,
    ensures
        turned(i, true).machine.unwind == Some(Unwind::<TraceView>::Cancel),
        turned(i, true).machine.frames == i.machine@.frames,
        turned(i, true).heap == i.heap@,
{
}

/// The lifetime budget only ever shrinks, whatever a safe point does.
pub proof fn law_safe_points_spend_the_budget(i: Instance, t: TurnView)
    ensures
        accounted(i, t).0.machine.meter.fuel.budget <= t.machine.meter.fuel.budget,
        accounted(i, t).1 is None ==> accounted(i, t).0.machine.meter.fuel.budget
            == t.machine.meter.fuel.budget - 1,
        accounted(i, t).1 is None ==> accounted(i, t).0.heap.allocated
            <= t.machine.meter.limits.heap_bytes,
{
}

/// A parked fault comes before anything else: no work is done, nothing is unwound, and a
/// cancellation waits.
pub proof fn law_parked_faults_come_first(i: Instance, fault: EngineFault, cancelled: bool)
    requires
        i.machine@.meter.pending_fault == Some(fault),
    ensures
        turned(i, cancelled).turn == TurnOf::<TraceView>::Faulted(fault),
        turned(i, cancelled).heap == i.heap@,
        turned(i, cancelled).machine.frames == i.machine@.frames,
        turned(i, cancelled).machine.unwind == i.machine@.unwind,
{
}

/// Whether two turns did the same, except perhaps for a fine safe point in place of none.
pub open spec fn same_effect(a: TurnView, b: TurnView) -> bool {
    &&& a == (TurnView { fine: a.fine, turn: a.turn, ..b })
    &&& a.turn == b.turn || (a.turn is Ran && b.turn is FinePoint) || (a.turn is FinePoint
        && b.turn is Ran)
}

/// Watching subexpressions changes only where stepping may stop: a turn does the same to
/// the heap, the machine and the accounts, and comes to the same but for a fine safe point.
pub proof fn law_watching_changes_nothing(i: Instance, mode: ObservationMode, cancelled: bool)
    ensures
        same_effect(
            turned(i, cancelled),
            turned((Instance { observation_mode: mode, ..i }), cancelled),
        ),
{
    let j = Instance { observation_mode: mode, ..i };
    assert(untouched(j) == untouched(i));
    assert(current(j) == current(i));
    assert(call_next(j) == call_next(i));
    assert forall|t: TurnView| accounted(j, t) == #[trigger] accounted(i, t) by {
        assert(roots_at(j, t) == roots_at(i, t));
        assert(collection_due(j, t) == collection_due(i, t));
    }
}

pub proof fn lemma_values_are_roots(values: Seq<Value>, v: Value)
    requires
        values.contains(v),
        value_ref(v) is Some,
    ensures
        value_refs(values).contains(value_ref(v)->0),
    decreases values.len(),
{
    let rest = values.drop_last();
    let r = value_ref(v)->0;
    if values.last() == v {
        assert(value_refs(values).last() == r);
    } else {
        let k = choose|k: int| 0 <= k < values.len() && values[k] == v;
        assert(rest[k] == v);
        lemma_values_are_roots(rest, v);
        let j = choose|j: int| 0 <= j < value_refs(rest).len() && value_refs(rest)[j] == r;
        assert(value_refs(values)[j] == r);
    }
}

pub proof fn lemma_occupied(slots: Seq<Slot>, k: int)
    requires
        0 <= k < slots.len(),
        slots[k].refs > 0,
    ensures
        occupied_values(slots).contains(slots[k].value),
    decreases slots.len(),
{
    let rest = slots.drop_last();
    if k == slots.len() - 1 {
        assert(occupied_values(slots).last() == slots[k].value);
    } else {
        lemma_occupied(rest, k);
        let j = choose|j: int|
            0 <= j < occupied_values(rest).len() && occupied_values(rest)[j] == rest[k].value;
        assert(occupied_values(slots)[j] == slots[k].value);
    }
}

/// A live handle keeps its value: a collection leaves the object it names where it is.
pub proof fn law_handles_keep_their_values(i: Instance, handle: Handle, v: Value)
    requires
        i.handles@.resolve(handle) == Some(v),
        value_ref(v) is Some,
    ensures
        reachable(i.heap@, instance_roots(i), value_ref(v)->0),
        children(collected(i.heap@, instance_roots(i)), value_ref(v)->0) == children(
            i.heap@,
            value_ref(v)->0,
        ),
{
    let k = handle.slot();
    lemma_occupied(i.handles@.slots, k);
    let held = i.natives@.held();
    let occupied = occupied_values(i.handles@.slots);
    let all = machine_values(i.machine@) + further_values(i, untouched(i));
    let j = choose|j: int| 0 <= j < occupied.len() && occupied[j] == v;
    assert(all[machine_values(i.machine@).len() + held.len() + j] == v);
    lemma_values_are_roots(all, v);
    reveal(roots_of);
    reveal(collected);
    let r = value_ref(v)->0;
    let refs = value_refs(all);
    let n = choose|n: int| 0 <= n < refs.len() && refs[n] == r;
    assert(instance_roots(i)[n] == r);
    assert(reached(i.heap@, instance_roots(i), r, 0));
    assert(r == (Ref { place: r.place, index: r.index as int as usize }));
}

/// Entering and leaving a frame are safe points: limits are checked there too, a drive may
/// stop there, and a cancellation takes effect there.
pub proof fn law_calls_and_returns_are_safe_points(i: Instance, t: TurnView)
    requires
        t.turn is Ran,
        t.machine.unwind is None,
        t.machine.frames.len() > 0,
        t.machine.frames.len() != i.machine@.frames.len(),
    ensures
        rested(i, false, t).turn == (match accounted(i, t).1 {
            Some(f) => TurnOf::<TraceView>::Faulted(f),
            None => TurnOf::<TraceView>::SafePoint,
        }),
        rested(i, true, t).machine.unwind == Some(Unwind::<TraceView>::Cancel),
{
}

} // verus!
