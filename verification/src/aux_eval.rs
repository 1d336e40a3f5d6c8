//! Rendering a value as the program itself would, at a stopped instance: where its type says
//! how, that code runs on a machine of its own, and the program's machine is set aside
//! meanwhile, so that the stop stays as it is.
use crate::activation::Activation;
use crate::activation::ActivationView;
use crate::activation::calls_view;
use crate::activation::MAX_REENTRY_DEPTH;
use crate::activation::NativesView;
use crate::activation::Progress;
use crate::ast::NodeId;
use crate::call::enter_unary;
use crate::call::entering_unary;
use crate::drive::counted;
use crate::drive::follows;
use crate::drive::goes_on;
use crate::drive::host_number;
use crate::drive::lemma_all_counted;
use crate::drive::lemma_none_counted;
use crate::drive::lemma_one_more;
use crate::drive::plodded;
use crate::drive::runs;
use crate::drive::runs_to;
use crate::dynamic::restore;
use crate::dynamic::restored;
use crate::dynamic::restored_heap;
use crate::error::EngineFault;
use crate::error::ExceptionKind;
use crate::error::kind_slug;
use crate::error::LimitKind;
use crate::error::Raise;
use crate::error::RaiseView;
use crate::error::Trace;
use crate::exception::error_made;
use crate::exception::make_error;
use crate::exception::type_mismatch_detail;
use crate::exception::type_mismatch_details;
use crate::exception::type_text;
use crate::handle::Handle;
use crate::heap::CallableTarget;
use crate::heap::HeapView;
use crate::instance::Instance;
use crate::instance::SetAside;
use crate::intrinsic::ForeignBody;
use crate::limits::Limits;
use crate::machine::handling_view;
use crate::machine::Machine;
use crate::machine::MachineView;
use crate::machine::raise_of;
use crate::machine::Step;
use crate::machine::Unwind;
use crate::modload::LoadedModule;
use crate::modload::ModuleLoad;
use crate::protocol::implementation;
use crate::protocol::WellKnown;
use crate::protocol;
use crate::render::render;
use crate::render::value_text;
use crate::resolve::BodyKind;
use crate::span::Span;
use crate::turn::BlockOutcome;
use crate::turn::Turn;
use crate::turn::turn_kind;
use crate::turn::TurnKind;
use crate::turn::TurnOf;
use crate::value::CalIdx;
use crate::value::CellIdx;
use crate::value::StrIdx;
use crate::value::Value;
use crate::values::read;
use crate::values;
use vstd::prelude::*;

verus! {

/// How rendering a value came out. Handles are the host's to release.
#[derive(Clone, Copy, PartialEq, Eq, Debug, Structural)]
pub enum AuxOutcome {
    /// The text, as a string.
    Rendered(Handle),
    /// The value that was raised instead.
    Raised(Handle),
    /// It could not be completed.
    Faulted(EngineFault),
    /// The host is to run one of its functions, by its number, and go on with the rendering
    /// after it has answered.
    HostCall(u32),
    /// The block that the host had run is done.
    BlockDone(BlockOutcome),
}

/// What the code that renders a value came to.
#[derive(Clone, Copy, PartialEq, Eq, Debug, Structural)]
pub enum AuxResult {
    /// A text.
    Completed(Value),
    /// An exception.
    Raised(Value),
    /// A fault.
    Faulted(EngineFault),
}

/// Where a callable of a module is declared: the node and its source range.
pub open spec fn render_site(modules: Seq<LoadedModule>, h: HeapView, cal: CalIdx) -> (
    NodeId,
    Span,
) {
    match h.callable(cal) {
        Some(c) => match c.target {
            CallableTarget::Source(id) => {
                let m = c.module.0 as int;
                if m < modules.len() && id < modules[m].resolved.callables@.len() {
                    let decl = modules[m].resolved.callables@[id as int].decl;
                    (decl, modules[m].resolved.ast.range(decl))
                } else {
                    (NodeId(0), Span::nowhere())
                }
            },
            _ => (NodeId(0), Span::nowhere()),
        },
        None => (NodeId(0), Span::nowhere()),
    }
}

/// The limits of an evaluation on the side: its own steps, and the stack that the program
/// has left.
pub open spec fn side_limits(m: MachineView, fuel: u64) -> Limits {
    Limits {
        step_budget: fuel,
        stack_depth: if m.frames.len() <= m.meter.limits.stack_depth {
            (m.meter.limits.stack_depth - m.frames.len()) as u32
        } else {
            0
        },
        ..m.meter.limits
    }
}

/// The machine of an evaluation on the side.
pub open spec fn side_machine(m: MachineView, fuel: u64) -> MachineView {
    MachineView {
        frame_serial: m.frame_serial,
        handling: m.handling,
        protocols: m.protocols,
        ..MachineView::idle(side_limits(m, fuel), m.load, m.error_type)
    }
}

/// The call that an evaluation on the side is: the machine below it is empty, and nothing
/// inside it can suspend.
pub open spec fn side_call(value: Value, span: Span) -> ActivationView {
    ActivationView {
        id: 0,
        kind: BodyKind::Func,
        args: seq![value],
        block: None,
        span,
        boundary: 0,
        progress: Progress::Running,
    }
}

/// Whether the program's machine and calls have been set aside.
pub open spec fn put_aside(a: Instance, s: SetAside) -> bool {
    &&& s.machine@ == (MachineView {
        load: s.machine@.load,
        protocols: s.machine@.protocols,
        ..a.machine@
    })
    &&& calls_view(s.calls@) == a.natives@.calls
    &&& (match s.pending {
        Some(p) => a.natives@.pending == Some(p@),
        None => a.natives@.pending is None,
    })
    &&& s.safe_point_stmt == a.safe_point_stmt
    &&& s.fine_span == a.fine_span
    &&& s.gc_threshold == a.gc_threshold
}

/// What an evaluation on the side of a callable on a value starts from, and the exception
/// that calling it raises.
pub open spec fn aux_begun(
    a: Instance,
    cal: CalIdx,
    value: Value,
    fuel: u64,
    b: Instance,
    raise: Option<RaiseView>,
) -> bool {
    let (node, span) = render_site(a.modules@, a.heap@, cal);
    &&& b.aside@.len() == a.aside@.len() + 1
    &&& b.aside@.drop_last() == a.aside@
    &&& put_aside(a, b.aside@.last())
    &&& b.natives@ == (NativesView {
        calls: seq![side_call(value, span)],
        pending: None,
        ..a.natives@
    })
    &&& (Step { heap: b.heap@, machine: b.machine@, raise }) == entering_unary(
        a.modules@,
        a.heap@,
        side_machine(a.machine@, fuel),
        cal,
        value,
        node,
        span,
    )
    &&& b == (Instance {
        heap: b.heap,
        machine: b.machine,
        natives: b.natives,
        aside: b.aside,
        ..a
    })
}

/// The error for a rendering that is no string.
pub open spec fn unstringy(h: HeapView, m: MachineView, value: Value) -> (HeapView, Value) {
    error_made(
        h,
        m.error_type,
        kind_slug(ExceptionKind::TypeMismatch),
        "a `to_string` implementation must return a String"@,
        type_mismatch_detail("to_string"@, "String"@, type_text(h, value)),
    )
}

/// What an evaluation on the side that is done came to, and the heap with it.
pub open spec fn side_result(d: Instance) -> (HeapView, AuxResult) {
    match d.machine@.unwind {
        None => {
            let value = match d.machine@.reg {
                Some(v) => v,
                None => Value::Nil,
            };
            if value is Str {
                (d.heap@, AuxResult::Completed(value))
            } else {
                let (h, e) = unstringy(d.heap@, d.machine@, value);
                (h, AuxResult::Raised(e))
            }
        },
        Some(Unwind::Raise { value, .. }) => (d.heap@, AuxResult::Raised(value)),
        Some(Unwind::Cancel) => (d.heap@, AuxResult::Faulted(EngineFault::Cancelled)),
        Some(Unwind::Leave { .. }) => (d.heap@, AuxResult::Faulted(EngineFault::Internal)),
    }
}

/// What a turn of an evaluation on the side settles, if anything.
pub open spec fn settled(d: Instance, t: TurnKind) -> Option<(HeapView, AuxResult)> {
    match t {
        TurnOf::BlockDone(_) => if d.natives@.calls.len() <= 1 {
            Some(side_result(d))
        } else {
            None
        },
        TurnOf::HostCall => if host_number(d) is Some {
            None
        } else {
            Some((d.heap@, AuxResult::Faulted(EngineFault::Internal)))
        },
        TurnOf::Faulted(f) => Some((d.heap@, AuxResult::Faulted(f))),
        TurnOf::Suspended => Some((d.heap@, AuxResult::Faulted(EngineFault::NestedSuspend))),
        TurnOf::Raised(v, _) => Some((d.heap@, AuxResult::Raised(v))),
        TurnOf::Done => Some((d.heap@, AuxResult::Faulted(EngineFault::Internal))),
        _ => None,
    }
}

/// Whether the program's machine and calls are back after an evaluation on the side: what
/// that rebound is restored, and its result has a handle.
pub open spec fn put_back(d: Instance, h: HeapView, result: AuxResult, z: Instance, out: AuxOutcome) -> bool {
    let s = d.aside@.last();
    let (heap, m) = restored(h, d.machine@, 0);
    &&& z.heap@ == heap
    &&& z.machine@ == (MachineView {
        load: m.load,
        protocols: m.protocols,
        frame_serial: m.frame_serial,
        ..s.machine@
    })
    &&& z.natives@ == (NativesView {
        calls: calls_view(s.calls@),
        pending: match s.pending {
            Some(p) => Some(p@),
            None => None,
        },
        ..d.natives@
    })
    &&& z.safe_point_stmt == s.safe_point_stmt
    &&& z.fine_span == s.fine_span
    &&& z.gc_threshold == s.gc_threshold
    &&& z.aside@ == d.aside@.drop_last()
    &&& (match result {
        AuxResult::Completed(v) => out == AuxOutcome::Rendered(d.handles@.next_handle())
            && z.handles@ == d.handles@.interned(v),
        AuxResult::Raised(v) => out == AuxOutcome::Raised(d.handles@.next_handle())
            && z.handles@ == d.handles@.interned(v),
        AuxResult::Faulted(f) => out == AuxOutcome::Faulted(f) && z.handles@ == d.handles@,
    })
    &&& z == (Instance {
        heap: z.heap,
        machine: z.machine,
        natives: z.natives,
        handles: z.handles,
        safe_point_stmt: z.safe_point_stmt,
        fine_span: z.fine_span,
        gc_threshold: z.gc_threshold,
        aside: z.aside,
        ..d
    })
}

/// What a turn that ends or interrupts an evaluation on the side leads to.
pub open spec fn aux_stopped(d: Instance, t: TurnKind, z: Instance, out: AuxOutcome) -> bool {
    match settled(d, t) {
        Some((h, result)) => put_back(d, h, result, z, out),
        None => match t {
            TurnOf::BlockDone(o) => z == d && out == AuxOutcome::BlockDone(o),
            TurnOf::HostCall => z == d && out == AuxOutcome::HostCall(host_number(d)->0),
            _ => false,
        },
    }
}

/// How an evaluation on the side came out: it ran for some turns, and the one after them
/// ended or interrupted it. One without a safe point for as many turns as can be counted is
/// given up.
pub open spec fn aux_driven(a: Instance, z: Instance, out: AuxOutcome) -> bool {
    ||| exists|b: Instance, c: Instance, t: TurnKind, n: nat|
        #![trigger runs(a, b, n), follows(b, t, c), aux_stopped(c, t, z, out)]
        runs(a, b, n) && follows(b, t, c) && aux_stopped(c, t, z, out)
    ||| exists|b: Instance, n: nat| #[trigger]
        runs(a, b, n) && plodded(a, b) && put_back(
            b,
            b.heap@,
            AuxResult::Faulted(EngineFault::LimitExceeded(LimitKind::StepBudget)),
            z,
            out,
        )
}

/// The error value of an engine exception.
pub open spec fn raised_error(h: HeapView, m: MachineView, e: RaiseView) -> (HeapView, Value) {
    error_made(h, m.error_type, kind_slug(e.kind), e.message, e.details)
}

/// Whether one more evaluation on the side would nest too deep.
pub open spec fn too_deep(i: Instance) -> bool {
    i.aside@.len() + i.natives@.calls.len() >= MAX_REENTRY_DEPTH
}

fn copy_handling(all: &Vec<(Value, Trace)>) -> (r: Vec<(Value, Trace)>)
    ensures
        handling_view(r@) == handling_view(all@),
{
    let mut r: Vec<(Value, Trace)> = Vec::new();
    let mut i: usize = 0;
    assert(handling_view(r@) =~= handling_view(all@).take(0));
    while i < all.len()
        invariant
            i <= all@.len(),
            handling_view(r@) == handling_view(all@).take(i as int),
        decreases all@.len() - i,
    {
        let ghost before = r@;
        let e = (all[i].0, all[i].1.copy());
        r.push(e);
        assert(handling_view(r@) =~= handling_view(before).push((e.0, e.1@)));
        assert(handling_view(all@)[i as int] == (e.0, e.1@));
        assert(handling_view(r@) =~= handling_view(all@).take(i + 1));
        i = i + 1;
    }
    assert(handling_view(all@).take(i as int) =~= handling_view(all@));
    r
}

impl Instance {
    fn site_of(&self, cal: CalIdx) -> (r: (NodeId, Span))
        ensures
            r == render_site(self.modules@, self.heap@, cal),
    {
        if let Some(c) = self.heap.callable(cal) {
            if let CallableTarget::Source(id) = c.target {
                let m: usize = c.module.0 as usize;
                if m < self.modules.len() && (id as usize)
                    < self.modules[m].resolved.callables.len() {
                    let decl = self.modules[m].resolved.callables[id as usize].decl;
                    return (decl, self.modules[m].resolved.ast.span(decl));
                }
            }
        }
        (NodeId(0), Span::dummy())
    }

    fn make_side_machine(&mut self, fuel: u64) -> (r: Machine)
        ensures
            r@ == side_machine(old(self).machine@, fuel),
            final(self).machine@ == (MachineView {
                load: final(self).machine@.load,
                protocols: final(self).machine@.protocols,
                ..old(self).machine@
            }),
            *final(self) == (Instance { machine: final(self).machine, ..*old(self) }),
    {
        let mut load = ModuleLoad::new("");
        std::mem::swap(&mut load, &mut self.machine.load);
        let used: usize = self.machine.frames.len();
        let most: u32 = self.machine.meter.limits.stack_depth;
        let stack_depth: u32 = if used <= most as usize {
            most - used as u32
        } else {
            0
        };
        let limits = Limits {
            step_budget: fuel,
            heap_bytes: self.machine.meter.limits.heap_bytes,
            stack_depth,
            max_op_result_bytes: self.machine.meter.limits.max_op_result_bytes,
        };
        let mut m = Machine::new(limits, load, self.machine.error_type);
        m.frame_serial = self.machine.frame_serial;
        m.handling = copy_handling(&self.machine.handling);
        std::mem::swap(&mut m.protocols, &mut self.machine.protocols);
        m
    }

    /// Sets the program aside and calls a callable on a value, on a machine of its own.
    fn begin_aux(&mut self, cal: CalIdx, value: Value, fuel: u64) -> (r: Result<(), Raise>)
        ensures
            aux_begun(*old(self), cal, value, fuel, *final(self), raise_of(r)),
    {
        let (node, span) = self.site_of(cal);
        let mut machine = self.make_side_machine(fuel);
        std::mem::swap(&mut machine, &mut self.machine);
        let mut calls: Vec<Activation> = Vec::new();
        std::mem::swap(&mut calls, &mut self.natives.calls);
        let pending = self.natives.pending.take();
        let mut args: Vec<Value> = Vec::new();
        args.push(value);
        assert(args@ =~= seq![value]);
        self.natives.calls.push(
            Activation {
                id: 0,
                kind: BodyKind::Func,
                args,
                block: None,
                span,
                boundary: 0,
                progress: Progress::Running,
            },
        );
        assert(calls_view(self.natives.calls@) =~= seq![side_call(value, span)]);
        self.aside.push(
            SetAside {
                machine,
                calls,
                pending,
                safe_point_stmt: self.safe_point_stmt,
                fine_span: self.fine_span,
                gc_threshold: self.gc_threshold,
            },
        );
        assert(self.aside@.drop_last() =~= old(self).aside@);
        enter_unary(&self.modules, &mut self.heap, &mut self.machine, cal, value, node, span)
    }

    /// Puts the program back and gives the result of the evaluation on the side a handle.
    fn finish_aux(&mut self, result: AuxResult) -> (out: AuxOutcome)
        requires
            old(self).aside@.len() > 0,
            old(self).ready(),
        ensures
            put_back(*old(self), old(self).heap@, result, *final(self), out),
            final(self).handles@.wf(),
    {
        restore(&mut self.heap, &mut self.machine, 0);
        let mut used = match self.aside.pop() {
            Some(s) => s,
            None => {
                return AuxOutcome::Faulted(EngineFault::Internal);
            },
        };
        assert(used == old(self).aside@.last());
        assert(self.aside@ =~= old(self).aside@.drop_last());
        std::mem::swap(&mut used.machine.load, &mut self.machine.load);
        std::mem::swap(&mut used.machine.protocols, &mut self.machine.protocols);
        used.machine.frame_serial = self.machine.frame_serial;
        self.machine = used.machine;
        self.natives.calls = used.calls;
        self.natives.pending = used.pending;
        self.safe_point_stmt = used.safe_point_stmt;
        self.fine_span = used.fine_span;
        self.gc_threshold = used.gc_threshold;
        match result {
            AuxResult::Completed(v) => AuxOutcome::Rendered(self.handles.intern(v)),
            AuxResult::Raised(v) => AuxOutcome::Raised(self.handles.intern(v)),
            AuxResult::Faulted(f) => AuxOutcome::Faulted(f),
        }
    }

    /// What an evaluation on the side that is done came to.
    fn side_outcome(&mut self) -> (r: AuxResult)
        ensures
            (final(self).heap@, r) == side_result(*old(self)),
            *final(self) == (Instance { heap: final(self).heap, ..*old(self) }),
    {
        match &self.machine.unwind {
            None => {
                let value = match self.machine.reg {
                    Some(v) => v,
                    None => Value::Nil,
                };
                match value {
                    Value::Str(_) => AuxResult::Completed(value),
                    _ => {
                        let details = type_mismatch_details(
                            "to_string",
                            "String",
                            value,
                            &self.heap,
                        );
                        AuxResult::Raised(
                            make_error(
                                &mut self.heap,
                                self.machine.error_type,
                                ExceptionKind::TypeMismatch.slug(),
                                "a `to_string` implementation must return a String",
                                &details,
                            ),
                        )
                    },
                }
            },
            Some(Unwind::Raise { value, .. }) => AuxResult::Raised(*value),
            Some(Unwind::Cancel) => AuxResult::Faulted(EngineFault::Cancelled),
            Some(Unwind::Leave { .. }) => AuxResult::Faulted(EngineFault::Internal),
        }
    }

    fn side_host_number(&self) -> (r: Option<u32>)
        ensures
            r == host_number(*self),
    {
        let n: usize = self.natives.calls.len();
        if n == 0 {
            return None;
        }
        let id: usize = self.natives.calls[n - 1].id as usize;
        assert(self.natives@.calls.last() == self.natives.calls@[n - 1]@);
        if id < self.natives.table.len() {
            assert(self.natives@.table[id as int] == self.natives.table@[id as int]@);
            if let ForeignBody::Host(number) = self.natives.table[id].body {
                return Some(number);
            }
        }
        None
    }

    fn stop_aux(&mut self, t: Turn) -> (r: Option<AuxOutcome>)
        requires
            old(self).aside@.len() > 0,
            old(self).ready(),
        ensures
            final(self).handles@.wf(),
            (match r {
                Some(out) => aux_stopped(*old(self), turn_kind(t), *final(self), out),
                None => goes_on(turn_kind(t)) && *final(self) == *old(self),
            }),
    {
        match t {
            TurnOf::Ran => None,
            TurnOf::SafePoint => None,
            TurnOf::FinePoint => None,
            TurnOf::BlockDone(o) => {
                assert(self.natives@.calls.len() == self.natives.calls@.len());
                if self.natives.calls.len() <= 1 {
                    let result = self.side_outcome();
                    Some(self.finish_aux(result))
                } else {
                    Some(AuxOutcome::BlockDone(o))
                }
            },
            TurnOf::HostCall => match self.side_host_number() {
                Some(n) => Some(AuxOutcome::HostCall(n)),
                None => Some(self.finish_aux(AuxResult::Faulted(EngineFault::Internal))),
            },
            TurnOf::Faulted(f) => Some(self.finish_aux(AuxResult::Faulted(f))),
            TurnOf::Suspended => Some(
                self.finish_aux(AuxResult::Faulted(EngineFault::NestedSuspend)),
            ),
            TurnOf::Raised(v, _) => Some(self.finish_aux(AuxResult::Raised(v))),
            TurnOf::Done => Some(self.finish_aux(AuxResult::Faulted(EngineFault::Internal))),
        }
    }

    /// Goes on with a rendering, after the host answered a call or had a block run.
    pub fn resume_to_string(&mut self) -> (out: AuxOutcome)
        requires
            old(self).aside@.len() > 0,
            old(self).ready(),
        ensures
            aux_driven(*old(self), *final(self), out),
            final(self).handles@.wf(),
    {
        let ghost start = *self;
        let ghost mut safe = *self;
        let ghost mut n: nat = 0;
        let ghost mut k: nat = 0;
        let mut since: u64 = 0;
        proof {
            lemma_none_counted(start);
        }
        while since < u64::MAX
            invariant
                self.ready(),
                self.aside@.len() > 0,
                start == *old(self),
                counted(start, safe, *self, n, k, since as nat),
            decreases self.machine@.meter.fuel.budget, u64::MAX - since,
        {
            let ghost before = *self;
            let t = self.turn();
            let at_safe_point: bool = matches!(t, TurnOf::SafePoint);
            let ghost kind = turn_kind(t);
            let ghost after = *self;
            assert(follows(before, kind, after));
            if let Some(out) = self.stop_aux(t) {
                proof {
                    lemma_all_counted(start, safe, before, n, k, since as nat);
                }
                assert(aux_stopped(after, kind, *self, out));
                return out;
            }
            proof {
                lemma_one_more(start, safe, before, n, k, since as nat, kind, after);
                n = n + 1;
            }
            if at_safe_point {
                since = 0;
                proof {
                    safe = *self;
                    k = n;
                }
            } else {
                since = since + 1;
            }
        }
        proof {
            lemma_all_counted(start, safe, *self, n, k, since as nat);
        }
        self.finish_aux(
            AuxResult::Faulted(EngineFault::LimitExceeded(LimitKind::StepBudget)),
        )
    }

    /// Renders a handle's value as the program would: by the code that its type says, for at
    /// most so many steps, or plainly where the type says nothing. The stop is left as it is.
    pub fn eval_to_string(&mut self, handle: Handle, fuel: u64) -> (out: AuxOutcome)
        requires
            old(self).ready(),
        ensures
            final(self).handles@.wf(),
            (match read(old(self).handles@, handle) {
                Err(_) => out == AuxOutcome::Faulted(EngineFault::Internal) && *final(self)
                    == *old(self),
                Ok(value) => match implementation(
                    old(self).machine@.protocols,
                    WellKnown::Stringable,
                    old(self).heap@,
                    value,
                ) {
                    None => {
                        &&& out == AuxOutcome::Rendered(old(self).handles@.next_handle())
                        &&& final(self).heap@ == old(self).heap@.new_string(
                            value_text(old(self).heap@, value),
                        )
                        &&& final(self).handles@ == old(self).handles@.interned(
                            Value::Str(StrIdx(old(self).heap@.strings.len() as usize)),
                        )
                        &&& *final(self) == (Instance {
                            heap: final(self).heap,
                            handles: final(self).handles,
                            ..*old(self)
                        })
                    },
                    Some(cal) => if too_deep(*old(self)) {
                        &&& out == AuxOutcome::Faulted(
                            EngineFault::LimitExceeded(LimitKind::StackDepth),
                        )
                        &&& *final(self) == *old(self)
                    } else {
                        ||| exists|b: Instance| #[trigger]
                            aux_begun(*old(self), cal, value, fuel, b, None) && aux_driven(
                                b,
                                *final(self),
                                out,
                            )
                        ||| exists|b: Instance, e: RaiseView| #[trigger]
                            aux_begun(*old(self), cal, value, fuel, b, Some(e)) && put_back(
                                b,
                                raised_error(b.heap@, b.machine@, e).0,
                                AuxResult::Raised(raised_error(b.heap@, b.machine@, e).1),
                                *final(self),
                                out,
                            )
                    },
                },
            }),
    {
        let value = match values::value_of(&self.handles, handle) {
            Ok(v) => v,
            Err(_) => {
                return AuxOutcome::Faulted(EngineFault::Internal);
            },
        };
        let cal = match protocol::resolve(
            &self.machine.protocols,
            WellKnown::Stringable,
            &self.heap,
            value,
        ) {
            Some(cal) => cal,
            None => {
                let text = render(&self.heap, value);
                let idx = self.heap.alloc_string(text);
                return AuxOutcome::Rendered(self.handles.intern(Value::Str(idx)));
            },
        };
        assert(self.natives@.calls.len() == self.natives.calls@.len());
        let deep: u128 = self.aside.len() as u128 + self.natives.calls.len() as u128;
        if deep >= MAX_REENTRY_DEPTH as u128 {
            return AuxOutcome::Faulted(EngineFault::LimitExceeded(LimitKind::StackDepth));
        }
        match self.begin_aux(cal, value, fuel) {
            Ok(_) => {
                assert(aux_begun(*old(self), cal, value, fuel, *self, None));
                self.resume_to_string()
            },
            Err(raise) => {
                let ghost begun = *self;
                let ghost e = raise@;
                assert(aux_begun(*old(self), cal, value, fuel, begun, Some(e)));
                let error = make_error(
                    &mut self.heap,
                    self.machine.error_type,
                    raise.exception.kind.slug(),
                    raise.exception.message.as_str(),
                    &raise.details,
                );
                let ghost made = *self;
                let out = self.finish_aux(AuxResult::Raised(error));
                assert(put_back(
                    begun,
                    raised_error(begun.heap@, begun.machine@, e).0,
                    AuxResult::Raised(raised_error(begun.heap@, begun.machine@, e).1),
                    *self,
                    out,
                ));
                out
            },
        }
    }
}

/// Whether everything that says where the program stopped, and what it goes on with, is the
/// same in two instances.
pub open spec fn stop_kept(a: Instance, z: Instance) -> bool {
    &&& z.machine@ == (MachineView {
        load: z.machine@.load,
        protocols: z.machine@.protocols,
        frame_serial: z.machine@.frame_serial,
        ..a.machine@
    })
    &&& z.natives@.calls == a.natives@.calls
    &&& z.natives@.pending == a.natives@.pending
    &&& z.safe_point_stmt == a.safe_point_stmt
    &&& z.fine_span == a.fine_span
    &&& z.gc_threshold == a.gc_threshold
    &&& z.state == a.state
    &&& z.directive == a.directive
    &&& z.breakpoints == a.breakpoints
    &&& z.raised_trace == a.raised_trace
    &&& z.aside@ == a.aside@
}

/// Whether the host did something while one of its functions ran: it answered the call, had
/// a block run, or made, read, kept or let go of values.
pub open spec fn host_worked(a: Instance, b: Instance) -> bool {
    b == (Instance {
        heap: b.heap,
        machine: b.machine,
        natives: b.natives,
        handles: b.handles,
        finalizations: b.finalizations,
        ..a
    })
}

/// One step of a rendering: a turn, something the host does while one of its functions runs,
/// or the beginning or the end of a further rendering inside it.
pub open spec fn side_step(a: Instance, b: Instance, depth: nat) -> bool {
    ||| exists|t: TurnKind| #[trigger] follows(a, t, b)
    ||| host_worked(a, b)
    ||| exists|cal: CalIdx, value: Value, fuel: u64, raise: Option<RaiseView>| #[trigger]
        aux_begun(a, cal, value, fuel, b, raise)
    ||| a.aside@.len() > depth && exists|h: HeapView, result: AuxResult, out: AuxOutcome| #[trigger]
        put_back(a, h, result, b, out)
}

/// Whether a number of such steps leads from an instance to another, none of which ends the
/// rendering itself.
pub open spec fn side_steps(a: Instance, b: Instance, depth: nat, n: nat) -> bool
    decreases n,
{
    if n == 0 {
        a == b
    } else {
        exists|c: Instance|
            side_steps(a, c, depth, (n - 1) as nat) && #[trigger] side_step(c, b, depth)
    }
}

proof fn lemma_side_steps_keep_what_is_aside(a: Instance, b: Instance, depth: nat, n: nat)
    requires
        side_steps(a, b, depth, n),
        a.aside@.len() >= depth,
    ensures
        b.aside@.len() >= depth,
        b.aside@.take(depth as int) == a.aside@.take(depth as int),
        b.state == a.state,
        b.directive == a.directive,
        b.breakpoints == a.breakpoints,
        b.raised_trace == a.raised_trace,
    decreases n,
{
    if n > 0 {
        let c = choose|c: Instance|
            side_steps(a, c, depth, (n - 1) as nat) && #[trigger] side_step(c, b, depth);
        lemma_side_steps_keep_what_is_aside(a, c, depth, (n - 1) as nat);
        if b.aside@.len() == c.aside@.len() + 1 && b.aside@.drop_last() == c.aside@ {
            assert(b.aside@.drop_last().take(depth as int) =~= b.aside@.take(depth as int));
        } else if c.aside@.len() > depth && b.aside@ == c.aside@.drop_last() {
            assert(c.aside@.drop_last().take(depth as int) =~= c.aside@.take(depth as int));
        }
    }
}

/// The first value that was saved of a parameter, from a position on.
pub open spec fn first_saved(saved: Seq<(CellIdx, Value)>, cell: CellIdx, from: nat) -> Option<Value>
    decreases saved.len() - from,
{
    if from >= saved.len() {
        None
    } else if saved[from as int].0 == cell {
        Some(saved[from as int].1)
    } else {
        first_saved(saved, cell, from + 1)
    }
}

proof fn lemma_first_saved_of_fewer(saved: Seq<(CellIdx, Value)>, cell: CellIdx, from: nat)
    requires
        saved.len() > 0,
        from < saved.len(),
    ensures
        first_saved(saved, cell, from) == (match first_saved(saved.drop_last(), cell, from) {
            Some(v) => Some(v),
            None => if saved.last().0 == cell {
                Some(saved.last().1)
            } else {
                None
            },
        }),
    decreases saved.len() - from,
{
    if from + 1 < saved.len() {
        lemma_first_saved_of_fewer(saved, cell, from + 1);
    } else {
        reveal_with_fuel(first_saved, 2);
    }
}

proof fn lemma_rebindings_are_undone(h: HeapView, saved: Seq<(CellIdx, Value)>, cell: CellIdx)
    requires
        h.cell(cell) is Some,
    ensures
        restored_heap(h, saved, 0).cell_value(cell) == (match first_saved(saved, cell, 0) {
            Some(v) => Some(v),
            None => h.cell_value(cell),
        }),
    decreases saved.len(),
{
    if saved.len() > 0 {
        let (c, v) = saved.last();
        let back = h.with_cell(c, Some(v));
        lemma_first_saved_of_fewer(saved, cell, 0);
        lemma_rebindings_are_undone(back, saved.drop_last(), cell);
    }
}

/// A rendering leaves the stop as it is, whatever its code and the host's functions that it
/// calls do, and however it comes out: the frames, the register, the transfer in flight, the
/// budget, the rebound parameters, the running and the parked calls are what they were, and
/// so is everything that says where the program stopped. Every parameter that it leaves
/// rebound gets the value back that it had before, and what is rendered is a string.
pub proof fn law_rendering_leaves_the_stop_alone(
    a: Instance,
    cal: CalIdx,
    value: Value,
    fuel: u64,
    b: Instance,
    raise: Option<RaiseView>,
    n: nat,
    d: Instance,
    h: HeapView,
    result: AuxResult,
    z: Instance,
    out: AuxOutcome,
    cell: CellIdx,
)
    requires
        aux_begun(a, cal, value, fuel, b, raise),
        side_steps(b, d, b.aside@.len(), n),
        d.aside@.len() == b.aside@.len(),
        result is Completed ==> exists|t: TurnKind| #[trigger] settled(d, t) == Some((h, result)),
        put_back(d, h, result, z, out),
    ensures
        stop_kept(a, z),
        h.cell(cell) is Some ==> z.heap@.cell_value(cell) == (match first_saved(
            d.machine@.dyn_stack,
            cell,
            0,
        ) {
            Some(v) => Some(v),
            None => h.cell_value(cell),
        }),
        d.ready() ==> (match out {
            AuxOutcome::Rendered(r) => z.handles@.resolve(r) is Some && z.handles@.resolve(r)->0
                is Str,
            _ => true,
        }),
{
    lemma_side_steps_keep_what_is_aside(b, d, b.aside@.len(), n);
    assert(b.aside@.take(b.aside@.len() as int) =~= b.aside@);
    assert(d.aside@.take(d.aside@.len() as int) =~= d.aside@);
    if h.cell(cell) is Some {
        lemma_rebindings_are_undone(h, d.machine@.dyn_stack, cell);
    }
    if let (true, AuxResult::Completed(v)) = (d.ready(), result) {
        crate::handle::law_a_new_handle_names_its_value(d.handles@, v);
    }
}

proof fn lemma_turns_are_side_steps(a: Instance, b: Instance, depth: nat, n: nat)
    requires
        runs_to(a, b, n),
    ensures
        side_steps(a, b, depth, n),
    decreases n,
{
    if n > 0 {
        let (c, t) = choose|c: Instance, t: TurnKind|
            runs_to(a, c, (n - 1) as nat) && #[trigger] follows(c, t, b) && goes_on(t);
        lemma_turns_are_side_steps(a, c, depth, (n - 1) as nat);
        assert(side_step(c, b, depth));
    }
}

/// So it is with a rendering that one drive brings to its end.
pub proof fn law_a_rendering_in_one_drive_leaves_the_stop_alone(
    a: Instance,
    cal: CalIdx,
    value: Value,
    fuel: u64,
    b: Instance,
    z: Instance,
    out: AuxOutcome,
)
    requires
        aux_begun(a, cal, value, fuel, b, None),
        aux_driven(b, z, out),
        !(out is HostCall),
        !(out is BlockDone),
    ensures
        stop_kept(a, z),
{
    let depth = b.aside@.len();
    if exists|c: Instance, d: Instance, t: TurnKind, n: nat|
        #![trigger runs(b, c, n), follows(c, t, d), aux_stopped(d, t, z, out)]
        runs(b, c, n) && follows(c, t, d) && aux_stopped(d, t, z, out) {
        let (c, d, t, n) = choose|c: Instance, d: Instance, t: TurnKind, n: nat|
            #![trigger runs(b, c, n), follows(c, t, d), aux_stopped(d, t, z, out)]
            runs(b, c, n) && follows(c, t, d) && aux_stopped(d, t, z, out);
        lemma_turns_are_side_steps(b, c, depth, n);
        lemma_turns_keep_what_is_aside(b, c, n);
        assert(side_step(c, d, depth));
        assert(side_steps(b, d, depth, n + 1));
        let (h, result) = settled(d, t)->0;
        law_rendering_leaves_the_stop_alone(
            a,
            cal,
            value,
            fuel,
            b,
            None,
            n + 1,
            d,
            h,
            result,
            z,
            out,
            CellIdx(0),
        );
    } else {
        let result = AuxResult::Faulted(EngineFault::LimitExceeded(LimitKind::StepBudget));
        let (d, n) = choose|d: Instance, n: nat| #[trigger]
            runs(b, d, n) && plodded(b, d) && put_back(d, d.heap@, result, z, out);
        lemma_turns_are_side_steps(b, d, depth, n);
        lemma_turns_keep_what_is_aside(b, d, n);
        law_rendering_leaves_the_stop_alone(
            a,
            cal,
            value,
            fuel,
            b,
            None,
            n,
            d,
            d.heap@,
            result,
            z,
            out,
            CellIdx(0),
        );
    }
}

proof fn lemma_turns_keep_what_is_aside(a: Instance, b: Instance, n: nat)
    requires
        runs_to(a, b, n),
    ensures
        b.aside == a.aside,
    decreases n,
{
    if n > 0 {
        let (c, t) = choose|c: Instance, t: TurnKind|
            runs_to(a, c, (n - 1) as nat) && #[trigger] follows(c, t, b) && goes_on(t);
        lemma_turns_keep_what_is_aside(a, c, (n - 1) as nat);
    }
}

} // verus!
