//! Driving an instance: turn after turn until the program ends, waits for the host, or is
//! to stop where it can go on; and the host's answers.
use crate::activation::block_invoked;
use crate::activation::invoke_block;
use crate::activation::Progress;
use crate::breakpoint::breakpoint_at;
use crate::collect::all_finalizations;
use crate::collect::Finalization;
use crate::error::EngineFault;
use crate::error::Trace;
use crate::error::TraceView;
use crate::handle::Handle;
use crate::handle::HandleTable;
use crate::handle::TableView;
use crate::heap::HeapView;
use crate::instance::Directive;
use crate::instance::Instance;
use crate::instance::InstanceState;
use crate::instance::PauseReason;
use crate::intrinsic::ForeignBody;
use crate::intrinsic::HostReply;
use crate::machine::capture_trace;
use crate::machine::MachineView;
use crate::machine::trace_here;
use crate::machine::Unwind;
use crate::object::copy_texts;
use crate::resolve::BodyKind;
use crate::step::materialize;
use crate::text::texts;
use crate::turn::BlockOutcome;
use crate::turn::kept_by_turns;
use crate::turn::left_by;
use crate::turn::raised_or;
use crate::turn::Turn;
use crate::turn::turn_kind;
use crate::turn::turned;
use crate::turn::TurnKind;
use crate::turn::TurnOf;
use crate::unwind::boundary_resumed;
use crate::unwind::resume_native_boundary;
use crate::upkeep::law_turns_spend_the_budget;
use crate::value::Value;
use crate::values::read;
use crate::values;
use vstd::prelude::*;

verus! {

/// The identity of a suspending function: its registration number.
#[derive(Clone, Copy, PartialEq, Eq, Debug, Structural)]
pub struct CapabilityId(pub u32);

/// A suspending function's call, for the host to fulfil.
#[derive(Debug)]
pub struct CapabilityRequest {
    /// The function.
    pub capability: CapabilityId,
    /// Handles to the arguments, which the host owns.
    pub args: Vec<Handle>,
}

/// An import, for the host to fulfil.
#[derive(Debug)]
pub struct ImportRequest {
    /// The requested path, by segments.
    pub path: Vec<String>,
    /// The importing module.
    pub importer: u32,
}

/// How a drive came out.
#[derive(Debug)]
pub enum Outcome {
    /// The program is done; a module yields no value.
    Completed(Option<Value>),
    /// It stopped where it can go on.
    Paused(PauseReason),
    /// It waits for the host to fulfil a suspending function's call.
    Suspended(CapabilityRequest),
    /// It waits for the host to supply a module.
    SuspendedImport(ImportRequest),
    /// An exception that nothing caught ended it.
    Raised(Value, Trace),
    /// A fault ended it.
    Faulted(EngineFault),
    /// The host is to run one of its functions, by its number.
    HostCall(u32),
    /// The block that the host had run is done.
    BlockDone(BlockOutcome),
}

/// The host's answer to a suspending function's call.
#[derive(Clone, Copy, PartialEq, Eq, Debug, Structural)]
pub enum Resolution {
    /// A value.
    Value(Handle),
    /// An exception.
    Raise(Handle),
}

/// The table with some values given handles, and the handles.
pub open spec fn interned_all(t: TableView, values: Seq<Value>, n: nat) -> (TableView, Seq<Handle>)
    decreases n,
{
    if n == 0 || n > values.len() {
        (t, Seq::empty())
    } else {
        let (before, handles) = interned_all(t, values, (n - 1) as nat);
        (before.interned(values[n - 1]), handles.push(before.next_handle()))
    }
}

impl HandleTable {
    /// Whether `n` more handles fit.
    pub fn has_room(&self, n: usize) -> (r: bool)
        ensures
            r == self@.room(n as int),
    {
        let taken: u128 = self.slot_count() as u128 + n as u128;
        taken <= crate::handle::INDEX_WEIGHT as u128 + self.free_count() as u128
    }
}

/// Gives some values handles.
pub fn intern_all(handles: &mut HandleTable, values: &Vec<Value>) -> (r: Vec<Handle>)
    requires
        old(handles)@.wf(),
        old(handles)@.room(values@.len() as int),
    ensures
        (final(handles)@, r@) == interned_all(old(handles)@, values@, values@.len()),
        final(handles)@.wf(),
{
    let mut r: Vec<Handle> = Vec::new();
    let mut i: usize = 0;
    assert(r@ =~= Seq::empty());
    while i < values.len()
        invariant
            i <= values@.len(),
            handles@.wf(),
            handles@.room(values@.len() - i),
            (handles@, r@) == interned_all(old(handles)@, values@, i as nat),
        decreases values@.len() - i,
    {
        r.push(handles.intern(values[i]));
        i = i + 1;
    }
    r
}

/// Whether one turn leads from an instance to another.
pub open spec fn follows(a: Instance, t: TurnKind, b: Instance) -> bool {
    &&& left_by(b, t) == turned(a, true) || left_by(b, t) == turned(a, false)
    &&& kept_by_turns(a, b)
}

/// Whether a turn can be followed by another without anyone looking.
pub open spec fn goes_on(t: TurnKind) -> bool {
    t is Ran || t is SafePoint || t is FinePoint
}

/// Whether a number of turns leads from an instance to another, none of which ended or
/// suspended the program.
pub open spec fn runs_to(a: Instance, b: Instance, n: nat) -> bool
    decreases n,
{
    if n == 0 {
        a == b
    } else {
        exists|c: Instance, t: TurnKind|
            runs_to(a, c, (n - 1) as nat) && #[trigger] follows(c, t, b) && goes_on(t)
    }
}

/// Whether a number of turns leads from an instance to another, none of which was a safe point.
pub open spec fn plods_to(a: Instance, b: Instance, n: nat) -> bool
    decreases n,
{
    if n == 0 {
        a == b
    } else {
        exists|c: Instance, t: TurnKind|
            plods_to(a, c, (n - 1) as nat) && #[trigger] follows(c, t, b) && goes_on(t) && !(
            t is SafePoint)
    }
}

/// Whether the last turns on the way from an instance to another, as many as can be counted,
/// had no safe point among them. Only a loop that runs on without a statement or a call in it
/// does so.
pub open spec fn plodded(a: Instance, b: Instance) -> bool {
    exists|c: Instance, n: nat| #[trigger]
        runs_to(a, c, n) && plods_to(c, b, u64::MAX as nat)
}

/// Whether so many such turns lead from an instance to another.
pub open spec fn runs(a: Instance, b: Instance, n: nat) -> bool {
    runs_to(a, b, n)
}

/// Whether a run led from one instance to another, the last turns of it without a safe point.
#[verifier::opaque]
pub open spec fn counted(
    start: Instance,
    safe: Instance,
    cur: Instance,
    n: nat,
    k: nat,
    since: nat,
) -> bool {
    runs_to(start, cur, n) && runs_to(start, safe, k) && plods_to(safe, cur, since)
}

pub proof fn lemma_none_counted(start: Instance)
    ensures
        counted(start, start, start, 0, 0, 0),
{
    reveal(counted);
}

/// One more turn of a run, and what it leaves of the budget.
pub proof fn lemma_one_more(
    start: Instance,
    safe: Instance,
    before: Instance,
    n: nat,
    k: nat,
    since: nat,
    t: TurnKind,
    after: Instance,
)
    requires
        counted(start, safe, before, n, k, since),
        follows(before, t, after),
        goes_on(t),
    ensures
        t is SafePoint ==> counted(start, after, after, n + 1, n + 1, 0),
        !(t is SafePoint) ==> counted(start, safe, after, n + 1, k, since + 1),
        after.machine@.meter.fuel.budget <= before.machine@.meter.fuel.budget,
        t is SafePoint ==> after.machine@.meter.fuel.budget < before.machine@.meter.fuel.budget,
{
    reveal(counted);
    law_turns_spend_the_budget(before, t, after);
}

pub proof fn lemma_all_counted(
    start: Instance,
    safe: Instance,
    cur: Instance,
    n: nat,
    k: nat,
    since: nat,
)
    requires
        counted(start, safe, cur, n, k, since),
    ensures
        runs(start, cur, n),
        since == u64::MAX ==> plodded(start, cur),
{
    reveal(counted);
}

/// Whether an exception is in flight that the host wants to see first.
pub open spec fn trap_due(i: Instance) -> bool {
    &&& i.raise_trap_enabled
    &&& !(i.directive is RunToCompletion)
    &&& i.machine@.unwind matches Some(Unwind::Raise { trapped, .. }) && !trapped
}

/// Whether a drive came out as an internal fault.
pub open spec fn internal_fault(r: Outcome) -> bool {
    r == Outcome::Faulted(EngineFault::Internal)
}

/// Whether a drive can pause after a turn: at a safe point, fine ones included, outside every
/// running call of a host-registered function.
pub open spec fn pausable(i: Instance, t: TurnKind) -> bool {
    &&& i.natives@.calls.len() == 0
    &&& t is SafePoint || t is FinePoint
}

/// Why a drive is to stop after a turn, given whether the host asked it to pause. Inside a
/// running call of a host-registered function it never is.
pub open spec fn pause_due(i: Instance, t: TurnKind, host_pause: bool) -> Option<PauseReason> {
    if i.natives@.calls.len() > 0 {
        None
    } else if trap_due(i) {
        Some(PauseReason::RaiseTrap)
    } else if t is SafePoint {
        if host_pause {
            Some(PauseReason::HostPause)
        } else if i.machine@.meter.fuel.exhausted {
            Some(PauseReason::SliceEnd)
        } else if i.directive is RunToCompletion {
            None
        } else if breakpoint_at(i) is Some {
            Some(PauseReason::Breakpoint(breakpoint_at(i)->0))
        } else if i.directive is Step {
            Some(PauseReason::Step)
        } else {
            None
        }
    } else if t is FinePoint {
        if host_pause {
            Some(PauseReason::HostPause)
        } else if i.directive is Step {
            Some(PauseReason::Step)
        } else {
            None
        }
    } else {
        None
    }
}

/// The machine with the exception in flight shown to the host.
pub open spec fn trapped(m: MachineView) -> MachineView {
    match m.unwind {
        Some(Unwind::Raise { value, trace, .. }) => MachineView {
            unwind: Some(Unwind::Raise { value, trace, trapped: true }),
            ..m
        },
        _ => m,
    }
}

/// What is asked of the host for a parked call: the function, and handles to the arguments.
pub open spec fn request_made(before: Instance, after: Instance, r: Outcome) -> bool {
    match before.natives@.pending {
        Some(p) => if before.handles@.room(p.args.len() as int) {
            let (table, args) = interned_all(before.handles@, p.args, p.args.len());
            &&& r matches Outcome::Suspended(request)
            &&& request.capability == CapabilityId(p.capability)
            &&& request.args@ == args
            &&& after.handles@ == table
            &&& after.state == InstanceState::Suspended
        } else {
            &&& r matches Outcome::Faulted(f)
            &&& f == EngineFault::Internal
            &&& after.handles@ == before.handles@
            &&& after.state == InstanceState::Faulted
        },
        None => match before.machine@.pending_import {
            Some(p) => {
                &&& r matches Outcome::SuspendedImport(request)
                &&& texts(request.path@) == p.path
                &&& request.importer == p.importer.0
                &&& after.handles@ == before.handles@
                &&& after.state == InstanceState::Suspended
            },
            None => {
                &&& r matches Outcome::Faulted(f)
                &&& f == EngineFault::Internal
                &&& after.handles@ == before.handles@
                &&& after.state == InstanceState::Faulted
            },
        },
    }
}

/// The host's number of the function it is to run.
pub open spec fn host_number(i: Instance) -> Option<u32> {
    if i.natives@.calls.len() == 0 {
        None
    } else {
        let id = i.natives@.calls.last().id as int;
        if id < i.natives@.table.len() {
            match i.natives@.table[id].body {
                ForeignBody::Host(n) => Some(n),
                _ => None,
            }
        } else {
            None
        }
    }
}

/// What stopping after a turn comes to, or that the drive goes on.
pub open spec fn stopped(before: Instance, t: TurnKind, host_pause: bool, after: Instance, r: Option<
    Outcome,
>) -> bool {
    match t {
        TurnOf::Raised(value, trace) => {
            &&& r matches Some(Outcome::Raised(v, tr))
            &&& v == value
            &&& tr@ == trace
            &&& after.raised_trace matches Some(kept)
            &&& kept@ == trace
            &&& after == (Instance {
                state: InstanceState::Raised,
                raised_trace: after.raised_trace,
                ..before
            })
        },
        TurnOf::Faulted(f) => {
            &&& r matches Some(Outcome::Faulted(g))
            &&& g == f
            &&& after == (Instance { state: InstanceState::Faulted, ..before })
        },
        TurnOf::Suspended => {
            &&& r is Some
            &&& request_made(before, after, r->0)
            &&& after == (Instance { state: after.state, handles: after.handles, ..before })
        },
        TurnOf::HostCall => match host_number(before) {
            Some(n) => {
                &&& r matches Some(Outcome::HostCall(m))
                &&& m == n
                &&& after == (Instance { state: InstanceState::Suspended, ..before })
            },
            None => {
                &&& r matches Some(Outcome::Faulted(f))
                &&& f == EngineFault::Internal
                &&& after == (Instance { state: InstanceState::Faulted, ..before })
            },
        },
        TurnOf::BlockDone(o) => {
            &&& r matches Some(Outcome::BlockDone(p))
            &&& p == o
            &&& after == (Instance { state: InstanceState::Suspended, ..before })
        },
        TurnOf::Done => {
            &&& r matches Some(Outcome::Completed(v))
            &&& v == before.machine@.reg
            &&& after == (Instance { state: InstanceState::Completed, ..before })
        },
        _ => match pause_due(before, t, host_pause) {
            Some(reason) => {
                &&& r matches Some(Outcome::Paused(p))
                &&& p == reason
                &&& after.machine@ == (if reason is RaiseTrap {
                    trapped(before.machine@)
                } else {
                    before.machine@
                })
                &&& after == (Instance {
                    state: InstanceState::Paused,
                    machine: after.machine,
                    ..before
                })
            },
            None => r is None && after == before,
        },
    }
}

/// Whether one turn leads from an instance to another, and neither ends nor suspends the
/// program nor is one to stop after.
pub open spec fn passes(a: Instance, t: TurnKind, b: Instance) -> bool {
    &&& follows(a, t, b)
    &&& goes_on(t)
    &&& pause_due(b, t, false) is None
}

/// Whether a number of such turns leads from an instance to another.
pub open spec fn passes_to(a: Instance, b: Instance, n: nat) -> bool
    decreases n,
{
    if n == 0 {
        a == b
    } else {
        exists|c: Instance, t: TurnKind|
            passes_to(a, c, (n - 1) as nat) && #[trigger] passes(c, t, b)
    }
}

/// Whether so many such turns lead from an instance to another.
pub open spec fn passed(a: Instance, b: Instance, n: nat) -> bool {
    passes_to(a, b, n)
}

/// How a drive from an instance came out: it ran for some turns, none of which was one to
/// stop after, and the one after them ended or suspended the program or was one to stop
/// after. One without a safe point for as many turns as can be counted pauses, and goes on
/// from there when it is driven again.
pub open spec fn driven(a: Instance, z: Instance, r: Outcome) -> bool {
    ||| exists|b: Instance, c: Instance, t: TurnKind, n: nat, host_pause: bool|
        #![trigger passed(a, b, n), follows(b, t, c), stopped(c, t, host_pause, z, Some(r))]
        passed(a, b, n) && follows(b, t, c) && stopped(c, t, host_pause, z, Some(r)) && (
        host_pause ==> pausable(c, t))
    ||| exists|b: Instance, n: nat| #[trigger]
        passed(a, b, n) && plodded(a, b) && r == Outcome::Paused(PauseReason::SliceEnd) && z == (
        Instance { state: InstanceState::Paused, ..b })
}

impl Instance {
    fn stop_with(&mut self, t: Turn, host_pause: bool) -> (r: Option<Outcome>)
        requires
            old(self).handles@.wf(),
        ensures
            stopped(*old(self), turn_kind(t), host_pause, *final(self), r),
            final(self).handles@.wf(),
    {
        match t {
            TurnOf::Raised(value, trace) => {
                self.state = InstanceState::Raised;
                self.raised_trace = Some(trace.copy());
                Some(Outcome::Raised(value, trace))
            },
            TurnOf::Faulted(f) => {
                self.state = InstanceState::Faulted;
                Some(Outcome::Faulted(f))
            },
            TurnOf::Suspended => Some(self.request()),
            TurnOf::HostCall => {
                let n: usize = self.natives.calls.len();
                if n > 0 {
                    let id: usize = self.natives.calls[n - 1].id as usize;
                    assert(self.natives@.calls.last() == self.natives.calls@[n - 1]@);
                    if id < self.natives.table.len() {
                        assert(self.natives@.table[id as int] == self.natives.table@[id as int]@);
                        if let ForeignBody::Host(number) = self.natives.table[id].body {
                            self.state = InstanceState::Suspended;
                            return Some(Outcome::HostCall(number));
                        }
                    }
                }
                self.state = InstanceState::Faulted;
                Some(Outcome::Faulted(EngineFault::Internal))
            },
            TurnOf::BlockDone(o) => {
                self.state = InstanceState::Suspended;
                Some(Outcome::BlockDone(o))
            },
            TurnOf::Done => {
                self.state = InstanceState::Completed;
                Some(Outcome::Completed(self.machine.reg))
            },
            TurnOf::Ran => self.pause_if(false, false, host_pause),
            TurnOf::SafePoint => self.pause_if(true, false, host_pause),
            TurnOf::FinePoint => self.pause_if(false, true, host_pause),
        }
    }

    fn due(&self, safe: bool, fine: bool, host_pause: bool) -> (r: Option<PauseReason>)
        requires
            !(safe && fine),
        ensures
            r == pause_due(
                *self,
                if safe {
                    TurnOf::SafePoint
                } else if fine {
                    TurnOf::FinePoint
                } else {
                    TurnOf::Ran
                },
                host_pause,
            ),
    {
        if self.natives.calls.len() > 0 {
            assert(self.natives@.calls.len() == self.natives.calls@.len());
            return None;
        }
        assert(self.natives@.calls.len() == 0);
        let untrapped: bool = match &self.machine.unwind {
            Some(Unwind::Raise { trapped, .. }) => !*trapped,
            _ => false,
        };
        if self.raise_trap_enabled && self.directive != Directive::RunToCompletion && untrapped {
            return Some(PauseReason::RaiseTrap);
        }
        if safe {
            if host_pause {
                return Some(PauseReason::HostPause);
            }
            if self.machine.meter.fuel.sliced_out() {
                return Some(PauseReason::SliceEnd);
            }
            if self.directive == Directive::RunToCompletion {
                return None;
            }
            if let Some(id) = self.breakpoint_hit() {
                return Some(PauseReason::Breakpoint(id));
            }
            if self.directive == Directive::Step {
                return Some(PauseReason::Step);
            }
            None
        } else if fine {
            if host_pause {
                return Some(PauseReason::HostPause);
            }
            if self.directive == Directive::Step {
                return Some(PauseReason::Step);
            }
            None
        } else {
            None
        }
    }

    fn pause_if(&mut self, safe: bool, fine: bool, host_pause: bool) -> (r: Option<Outcome>)
        requires
            !(safe && fine),
            old(self).handles@.wf(),
        ensures
            stopped(
                *old(self),
                if safe {
                    TurnOf::SafePoint
                } else if fine {
                    TurnOf::FinePoint
                } else {
                    TurnOf::Ran
                },
                host_pause,
                *final(self),
                r,
            ),
            final(self).handles@.wf(),
    {
        match self.due(safe, fine, host_pause) {
            Some(reason) => {
                if reason == PauseReason::RaiseTrap {
                    match self.machine.unwind.take() {
                        Some(Unwind::Raise { value, trace, .. }) => {
                            self.machine.unwind = Some(
                                Unwind::Raise { value, trace, trapped: true },
                            );
                        },
                        other => {
                            self.machine.unwind = other;
                        },
                    }
                }
                self.state = InstanceState::Paused;
                Some(Outcome::Paused(reason))
            },
            None => None,
        }
    }

    fn request(&mut self) -> (r: Outcome)
        requires
            old(self).handles@.wf(),
        ensures
            request_made(*old(self), *final(self), r),
            *final(self) == (Instance {
                state: final(self).state,
                handles: final(self).handles,
                ..*old(self)
            }),
            final(self).handles@.wf(),
    {
        if let Some(p) = &self.natives.pending {
            if !self.handles.has_room(p.args.len()) {
                self.state = InstanceState::Faulted;
                return Outcome::Faulted(EngineFault::Internal);
            }
            let capability = CapabilityId(p.capability);
            let args = intern_all(&mut self.handles, &p.args);
            self.state = InstanceState::Suspended;
            return Outcome::Suspended(CapabilityRequest { capability, args });
        }
        if let Some(p) = &self.machine.pending_import {
            self.state = InstanceState::Suspended;
            return Outcome::SuspendedImport(
                ImportRequest { path: copy_texts(&p.path), importer: p.importer.0 },
            );
        }
        self.state = InstanceState::Faulted;
        Outcome::Faulted(EngineFault::Internal)
    }

    /// Drives on, under the directive and fuel that are armed.
    pub fn drive(&mut self) -> (r: Outcome)
        requires
            old(self).handles@.wf(),
        ensures
            driven(*old(self), *final(self), r),
            final(self).handles@.wf(),
    {
        let ghost start = *self;
        let ghost mut safe = *self;
        let ghost mut n: nat = 0;
        let ghost mut k: nat = 0;
        let mut since: u64 = 0;
        proof {
            lemma_none_counted(start);
        }
        while since < u64::MAX
            invariant
                self.handles@.wf(),
                start == *old(self),
                passes_to(start, *self, n),
                counted(start, safe, *self, n, k, since as nat),
            decreases self.machine@.meter.fuel.budget, u64::MAX - since,
        {
            let ghost before = *self;
            let t = self.turn();
            let ghost kind = turn_kind(t);
            let ghost after = *self;
            assert(follows(before, kind, after));
            let host_pause: bool = self.poll_pause(&t);
            let at_safe_point: bool = matches!(t, TurnOf::SafePoint);
            let stop = self.stop_with(t, host_pause);
            if let Some(r) = stop {
                assert(stopped(after, kind, host_pause, *self, Some(r)));
                assert(passed(start, before, n));
                return r;
            }
            proof {
                assert(*self == after);
                assert(passes(before, kind, after));
                lemma_one_more(start, safe, before, n, k, since as nat, kind, after);
                n = n + 1;
                assert(passes_to(start, *self, n));
            }
            if at_safe_point {
                since = 0;
                proof {
                    safe = *self;
                    k = n;
                }
            } else {
                since = since + 1;
            }
        }
        assert(passed(start, *self, n));
        proof {
            lemma_all_counted(start, safe, *self, n, k, since as nat);
        }
        self.state = InstanceState::Paused;
        Outcome::Paused(PauseReason::SliceEnd)
    }

    /// Takes a pause request of the host's, if there is one and the drive can pause here:
    /// where it cannot, the request stays for a later safe point. Whether there is one
    /// rests on the host; one that is taken stops the drive.
    fn poll_pause(&self, t: &Turn) -> (r: bool)
        ensures
            r ==> pausable(*self, turn_kind(*t)),
            r ==> pause_due(*self, turn_kind(*t), true) is Some,
    {
        assert(self.natives@.calls.len() == self.natives.calls@.len());
        match t {
            TurnOf::SafePoint => if self.natives.calls.len() == 0 {
                self.host_pause.take()
            } else {
                false
            },
            TurnOf::FinePoint => if self.natives.calls.len() == 0 {
                self.host_pause.take()
            } else {
                false
            },
            _ => false,
        }
    }
}

/// Whether an instance can be driven: it has neither ended nor is it waiting for the host.
pub open spec fn drivable(s: InstanceState) -> bool {
    s is Ready || s is Paused
}

/// The instance with a drive's directive and fuel armed.
pub open spec fn armed(a: Instance, b: Instance, directive: Directive, fuel: Option<u64>) -> bool {
    &&& b.machine@ == (MachineView {
        meter: crate::limits::Meter {
            fuel: a.machine@.meter.fuel.armed(fuel),
            ..a.machine@.meter
        },
        ..a.machine@
    })
    &&& b == (Instance { machine: b.machine, directive, ..a })
}

/// Drives an instance under a directive until it ends, suspends or is to stop; one that has
/// ended or waits for the host is left alone.
pub fn run(inst: &mut Instance, directive: Directive) -> (r: Outcome)
    requires
        old(inst).handles@.wf(),
    ensures
        final(inst).handles@.wf(),
        !drivable(old(inst).state) ==> *final(inst) == *old(inst) && internal_fault(r),
        drivable(old(inst).state) ==> exists|b: Instance| #[trigger]
            armed(*old(inst), b, directive, None) && driven(b, *final(inst), r),
{
    run_with_fuel(inst, directive, None)
}

/// Drives an instance for at most that many safe points.
pub fn run_bounded(inst: &mut Instance, directive: Directive, fuel: u64) -> (r: Outcome)
    requires
        old(inst).handles@.wf(),
    ensures
        final(inst).handles@.wf(),
        !drivable(old(inst).state) ==> *final(inst) == *old(inst) && internal_fault(r),
        drivable(old(inst).state) ==> exists|b: Instance| #[trigger]
            armed(*old(inst), b, directive, Some(fuel)) && driven(b, *final(inst), r),
{
    run_with_fuel(inst, directive, Some(fuel))
}

fn run_with_fuel(inst: &mut Instance, directive: Directive, fuel: Option<u64>) -> (r: Outcome)
    requires
        old(inst).handles@.wf(),
    ensures
        final(inst).handles@.wf(),
        !drivable(old(inst).state) ==> *final(inst) == *old(inst) && internal_fault(r),
        drivable(old(inst).state) ==> exists|b: Instance| #[trigger]
            armed(*old(inst), b, directive, fuel) && driven(b, *final(inst), r),
{
    match inst.state {
        InstanceState::Ready | InstanceState::Paused => {},
        _ => {
            return Outcome::Faulted(EngineFault::Internal);
        },
    }
    inst.directive = directive;
    inst.machine.meter.fuel.arm_slice(fuel);
    assert(armed(*old(inst), *inst, directive, fuel));
    inst.drive()
}

/// The machine and state that a value or exception of the host's leaves in place of a parked
/// call.
pub open spec fn resolved_call(i: Instance, r: Resolution) -> (MachineView, bool) {
    let p = i.natives@.pending->0;
    match r {
        Resolution::Value(h) => match read(i.handles@, h) {
            Ok(v) => (
                MachineView {
                    reg: if i.natives@.table[p.capability as int].kind == BodyKind::Proc {
                        None
                    } else {
                        Some(v)
                    },
                    ..i.machine@
                },
                true,
            ),
            Err(_) => (i.machine@, false),
        },
        Resolution::Raise(h) => match read(i.handles@, h) {
            Ok(v) => (i.machine@.raising(v, TraceView::at(Some(p.span))), true),
            Err(_) => (i.machine@, false),
        },
    }
}

impl Instance {
    /// Puts the host's answer in place of a parked call; a stale handle is refused, and the
    /// call is no longer parked either way.
    pub fn answer_request(&mut self, r: Resolution) -> (ok: bool)
        requires
            old(self).natives@.pending is Some,
            old(self).natives@.pending->0.capability < old(self).natives@.table.len(),
        ensures
            (final(self).machine@, ok) == resolved_call(*old(self), r),
            !ok ==> final(self).machine == old(self).machine,
            final(self).natives@ == (crate::activation::NativesView {
                pending: None,
                ..old(self).natives@
            }),
            *final(self) == (Instance {
                machine: final(self).machine,
                natives: final(self).natives,
                ..*old(self)
            }),
    {
        let p = match self.natives.pending.take() {
            Some(p) => p,
            None => {
                return false;
            },
        };
        let ghost seen = old(self).natives@.pending->0;
        assert(p@ == seen);
        assert(self.natives@.table[p.capability as int] == self.natives.table@[p.capability as int]@);
        match r {
            Resolution::Value(h) => match values::value_of(&self.handles, h) {
                Ok(v) => {
                    self.machine.reg = if self.natives.table[p.capability as usize].kind
                        == BodyKind::Proc {
                        None
                    } else {
                        Some(v)
                    };
                    true
                },
                Err(_) => false,
            },
            Resolution::Raise(h) => match values::value_of(&self.handles, h) {
                Ok(v) => {
                    self.machine.arm_raise_value(v, Trace::at(Some(p.span)));
                    true
                },
                Err(_) => false,
            },
        }
    }

    /// Discards a parked call or import and puts a cancellation in flight, so that nothing
    /// of the host's answer is seen.
    pub fn discard_pending_and_cancel(&mut self)
        ensures
            final(self).natives@ == (crate::activation::NativesView {
                pending: None,
                ..old(self).natives@
            }),
            final(self).machine@ == (MachineView {
                pending_import: None,
                unwind: Some(Unwind::Cancel),
                ..old(self).machine@
            }),
            *final(self) == (Instance {
                machine: final(self).machine,
                natives: final(self).natives,
                ..*old(self)
            }),
    {
        self.natives.pending = None;
        self.machine.pending_import = None;
        self.machine.unwind = Some(Unwind::Cancel);
    }
}

/// What resuming with an answer starts from, given whether cancellation was requested.
pub open spec fn resumed(a: Instance, r: Resolution, cancelled: bool, b: Instance) -> bool {
    &&& b.natives@ == (crate::activation::NativesView { pending: None, ..a.natives@ })
    &&& b.machine@ == (if cancelled {
        MachineView { pending_import: None, unwind: Some(Unwind::Cancel), ..a.machine@ }
    } else {
        resolved_call(a, r).0
    })
    &&& b == (Instance { machine: b.machine, natives: b.natives, ..a })
}

/// Whether a suspending function's call is parked.
pub open spec fn parked(i: Instance) -> bool {
    &&& i.natives@.pending is Some
    &&& i.natives@.pending->0.capability < i.natives@.table.len()
}

/// What an answer with a stale handle leaves: the call is no longer parked, and nothing else
/// of the program has changed, but it has ended.
pub open spec fn answer_refused(a: Instance, z: Instance) -> bool {
    &&& z.natives@ == (crate::activation::NativesView { pending: None, ..a.natives@ })
    &&& z == (Instance { state: InstanceState::Faulted, natives: z.natives, ..a })
}

/// How answering a parked call comes out, given whether cancellation was requested.
pub open spec fn resolved_as(
    a: Instance,
    r: Resolution,
    cancelled: bool,
    z: Instance,
    out: Outcome,
) -> bool {
    if cancelled || resolved_call(a, r).1 {
        exists|b: Instance| #[trigger] resumed(a, r, cancelled, b) && driven(b, z, out)
    } else {
        internal_fault(out) && answer_refused(a, z)
    }
}

/// Answers a suspending function's call and drives on, given whether cancellation was
/// requested meanwhile: then the cancellation wins over the answer. A stale handle faults.
pub fn resolve_with(inst: &mut Instance, r: Resolution, cancelled: bool) -> (out: Outcome)
    requires
        old(inst).handles@.wf(),
    ensures
        final(inst).handles@.wf(),
        !parked(*old(inst)) ==> *final(inst) == *old(inst) && internal_fault(out),
        parked(*old(inst)) ==> resolved_as(*old(inst), r, cancelled, *final(inst), out),
{
    let waiting: bool = match &inst.natives.pending {
        Some(p) => (p.capability as usize) < inst.natives.table.len(),
        None => false,
    };
    assert(inst.natives@.table.len() == inst.natives.table@.len());
    if !waiting {
        return Outcome::Faulted(EngineFault::Internal);
    }
    if cancelled {
        inst.discard_pending_and_cancel();
        assert(resumed(*old(inst), r, true, *inst));
        return inst.drive();
    }
    if !inst.answer_request(r) {
        inst.state = InstanceState::Faulted;
        return Outcome::Faulted(EngineFault::Internal);
    }
    assert(resumed(*old(inst), r, false, *inst));
    inst.drive()
}

/// Answers a suspending function's call and drives on: a cancellation requested meanwhile
/// wins over the answer, and a stale handle faults.
pub fn resolve(inst: &mut Instance, r: Resolution) -> (out: Outcome)
    requires
        old(inst).handles@.wf(),
    ensures
        final(inst).handles@.wf(),
        !parked(*old(inst)) ==> *final(inst) == *old(inst) && internal_fault(out),
        parked(*old(inst)) ==> resolved_as(*old(inst), r, true, *final(inst), out) || resolved_as(
            *old(inst),
            r,
            false,
            *final(inst),
            out,
        ),
{
    let cancelled: bool = inst.cancel.is_cancelled();
    resolve_with(inst, r, cancelled)
}

/// The heap, machine and calls that the host's answer to a running call leaves.
pub struct Answered {
    /// The heap.
    pub heap: HeapView,
    /// The machine.
    pub machine: MachineView,
    /// The calls.
    pub natives: crate::activation::NativesView,
}

/// The machine with an internal fault parked and nothing in flight: the host broke its
/// contract.
pub open spec fn broken_contract(m: MachineView) -> MachineView {
    MachineView { unwind: None, ..m.broken() }
}

/// What the host's answer to a running call leads to. A parked fault comes first: nothing of
/// the answer is seen. After a transfer left its block, the
/// host may only answer with nothing: then the transfer goes on, and any other answer breaks
/// the contract.
pub open spec fn host_answered(i: Instance, reply: HostReply) -> Answered {
    let a = i.natives@.calls.last();
    let natives = i.natives@.left();
    if i.machine@.meter.pending_fault is Some {
        Answered { heap: i.heap@, machine: i.machine@, natives }
    } else if i.machine@.unwind is Some {
        if reply == HostReply::Value(None) {
            let (m, e) = boundary_resumed(i.machine@, a.boundary as int, a.kind);
            let (heap, machine) = raised_or(i.heap@, m, e);
            Answered { heap, machine, natives }
        } else {
            Answered { heap: i.heap@, machine: broken_contract(i.machine@), natives }
        }
    } else {
        match reply {
            HostReply::Value(None) => Answered {
                heap: i.heap@,
                machine: MachineView { reg: None, ..i.machine@ },
                natives,
            },
            HostReply::Value(Some(h)) => match read(i.handles@, h) {
                Ok(v) => Answered {
                    heap: i.heap@,
                    machine: MachineView {
                        reg: if a.kind == BodyKind::Proc {
                            None
                        } else {
                            Some(v)
                        },
                        ..i.machine@
                    },
                    natives,
                },
                Err(_) => Answered {
                    heap: i.heap@,
                    machine: broken_contract(i.machine@),
                    natives,
                },
            },
            HostReply::Raise(h) => match read(i.handles@, h) {
                Ok(v) => Answered {
                    heap: i.heap@,
                    machine: i.machine@.raising(v, trace_here(i.machine@, Some(a.span))),
                    natives,
                },
                Err(_) => Answered {
                    heap: i.heap@,
                    machine: broken_contract(i.machine@),
                    natives,
                },
            },
        }
    }
}

/// Whether the host is running one of its functions.
pub open spec fn host_running(i: Instance) -> bool {
    &&& i.natives@.calls.len() > 0
    &&& i.natives@.calls.last().progress is Waiting || i.natives@.calls.last().progress is Exited
}

/// The table with the handle of an answer released.
pub open spec fn answer_released(t: TableView, reply: HostReply) -> TableView {
    match reply {
        HostReply::Value(Some(h)) => if t.live(h) {
            t.released(h)
        } else {
            t
        },
        HostReply::Raise(h) => if t.live(h) {
            t.released(h)
        } else {
            t
        },
        HostReply::Value(None) => t,
    }
}

/// What having a block run for the host comes to.
pub open spec fn host_invoked(i: Instance, handles: Seq<Handle>) -> (
    Answered,
    Option<BlockOutcome>,
) {
    let same = Answered { heap: i.heap@, machine: i.machine@, natives: i.natives@ };
    if i.machine@.unwind is Some {
        (
            Answered { machine: broken_contract(i.machine@), ..same },
            Some(BlockOutcome::Halted),
        )
    } else {
        match handle_values(i.handles@, handles, handles.len()) {
            None => (
                Answered { machine: broken_contract(i.machine@), ..same },
                Some(BlockOutcome::Halted),
            ),
            Some(values) => {
                let s = block_invoked(i.modules@, i.heap@, i.machine@, i.natives@, values);
                let (heap, machine) = raised_or(s.heap, s.machine, s.raise);
                if s.raise is Some {
                    (
                        Answered { heap, machine, natives: s.natives.progressed(Progress::Exited) },
                        Some(BlockOutcome::NonLocalExit),
                    )
                } else if machine.meter.pending_fault is Some {
                    (
                        Answered { heap, machine, natives: s.natives },
                        Some(BlockOutcome::Halted),
                    )
                } else {
                    (
                        Answered {
                            heap,
                            machine,
                            natives: s.natives.progressed(Progress::Running),
                        },
                        None,
                    )
                }
            },
        }
    }
}

/// The values of some handles, if none is stale.
pub open spec fn handle_values(t: TableView, handles: Seq<Handle>, n: nat) -> Option<Seq<Value>>
    decreases n,
{
    if n == 0 || n > handles.len() {
        Some(Seq::empty())
    } else {
        match (handle_values(t, handles, (n - 1) as nat), t.resolve(handles[n - 1])) {
            (Some(before), Some(v)) => Some(before.push(v)),
            _ => None,
        }
    }
}

proof fn lemma_stays_stale(t: TableView, handles: Seq<Handle>, n: nat, m: nat)
    requires
        n <= m <= handles.len(),
        handle_values(t, handles, n) is None,
    ensures
        handle_values(t, handles, m) is None,
    decreases m - n,
{
    if n < m {
        lemma_stays_stale(t, handles, n, (m - 1) as nat);
    }
}

fn values_of_handles(table: &HandleTable, handles: &[Handle]) -> (r: Option<Vec<Value>>)
    ensures
        (match r {
            Some(v) => handle_values(table@, handles@, handles@.len()) == Some(v@),
            None => handle_values(table@, handles@, handles@.len()) is None,
        }),
{
    let mut r: Vec<Value> = Vec::new();
    let mut i: usize = 0;
    assert(r@ =~= Seq::empty());
    while i < handles.len()
        invariant
            i <= handles@.len(),
            handle_values(table@, handles@, i as nat) == Some(r@),
        decreases handles@.len() - i,
    {
        match table.resolve(handles[i]) {
            Ok(v) => r.push(v),
            Err(_) => {
                proof {
                    lemma_stays_stale(table@, handles@, i as nat + 1, handles@.len());
                }
                return None;
            },
        }
        i = i + 1;
    }
    Some(r)
}

impl Instance {
    /// Gives an argument of the function that the host is running a handle.
    pub fn arg_handle(&mut self, index: usize) -> (r: Option<Handle>)
        requires
            old(self).ready(),
            old(self).natives@.calls.len() > 0,
        ensures
            final(self).handles@.wf(),
            (if index < old(self).natives@.calls.last().args.len() {
                &&& r == Some(old(self).handles@.next_handle())
                &&& final(self).handles@ == old(self).handles@.interned(
                    old(self).natives@.calls.last().args[index as int],
                )
            } else {
                r is None && final(self).handles@ == old(self).handles@
            }),
            *final(self) == (Instance { handles: final(self).handles, ..*old(self) }),
    {
        let n: usize = self.natives.calls.len();
        assert(self.natives@.calls.last() == self.natives.calls@[n - 1]@);
        if index < self.natives.calls[n - 1].args.len() {
            let v = self.natives.calls[n - 1].args[index];
            Some(self.handles.intern(v))
        } else {
            None
        }
    }

    /// Answers the call that the host was running. The answer's handle is released.
    pub fn answer_call(&mut self, reply: HostReply)
        requires
            host_running(*old(self)),
            old(self).handles@.wf(),
        ensures
            final(self).handles@.wf(),
            (Answered {
                heap: final(self).heap@,
                machine: final(self).machine@,
                natives: final(self).natives@,
            }) == host_answered(*old(self), reply),
            final(self).handles@ == answer_released(old(self).handles@, reply),
            *final(self) == (Instance {
                heap: final(self).heap,
                machine: final(self).machine,
                natives: final(self).natives,
                handles: final(self).handles,
                ..*old(self)
            }),
    {
        let n: usize = self.natives.calls.len();
        assert(self.natives@.calls.last() == self.natives.calls@[n - 1]@);
        let boundary: usize = self.natives.calls[n - 1].boundary;
        let kind = self.natives.calls[n - 1].kind;
        let span = self.natives.calls[n - 1].span;
        self.natives.leave();
        let value: Option<Result<Value, crate::values::ValueError>> = match reply {
            HostReply::Value(Some(h)) => {
                let v = values::value_of(&self.handles, h);
                let released = self.handles.release(h);
                Some(v)
            },
            HostReply::Raise(h) => {
                let v = values::value_of(&self.handles, h);
                let released = self.handles.release(h);
                Some(v)
            },
            HostReply::Value(None) => None,
        };
        if self.machine.meter.pending_fault.is_some() {
            return;
        }
        if self.machine.unwind.is_some() {
            match reply {
                HostReply::Value(None) => {
                    let r = resume_native_boundary(&mut self.machine, boundary, kind);
                    if let Err(e) = r {
                        materialize(&mut self.heap, &mut self.machine, e);
                    }
                },
                _ => {
                    self.machine.unwind = None;
                    self.machine.fail();
                },
            }
            return;
        }
        match value {
            None => {
                self.machine.reg = None;
            },
            Some(Ok(v)) => match reply {
                HostReply::Value(_) => {
                    self.machine.reg = if kind == BodyKind::Proc {
                        None
                    } else {
                        Some(v)
                    };
                },
                HostReply::Raise(_) => {
                    let trace = capture_trace(&self.machine, Some(span));
                    self.machine.arm_raise_value(v, trace);
                },
            },
            Some(Err(_)) => {
                self.machine.unwind = None;
                self.machine.fail();
            },
        }
    }

    /// Has the block of the function that the host is running run on some values. Nothing
    /// returned means that it is to be driven: the drive says when it is done.
    pub fn invoke_block_handles(&mut self, handles: &[Handle]) -> (r: Option<BlockOutcome>)
        requires
            host_running(*old(self)),
        ensures
            (
                (Answered {
                    heap: final(self).heap@,
                    machine: final(self).machine@,
                    natives: final(self).natives@,
                }),
                r,
            ) == host_invoked(*old(self), handles@),
            *final(self) == (Instance {
                heap: final(self).heap,
                machine: final(self).machine,
                natives: final(self).natives,
                ..*old(self)
            }),
    {
        if self.machine.unwind.is_some() {
            self.machine.unwind = None;
            self.machine.fail();
            return Some(BlockOutcome::Halted);
        }
        let values = match values_of_handles(&self.handles, handles) {
            Some(v) => v,
            None => {
                self.machine.unwind = None;
                self.machine.fail();
                return Some(BlockOutcome::Halted);
            },
        };
        let r = invoke_block(
            &self.modules,
            &mut self.heap,
            &mut self.machine,
            &self.natives,
            &values,
        );
        match r {
            Err(e) => {
                materialize(&mut self.heap, &mut self.machine, e);
                self.natives.progress(Progress::Exited);
                Some(BlockOutcome::NonLocalExit)
            },
            Ok(_) => {
                if self.machine.meter.pending_fault.is_some() {
                    Some(BlockOutcome::Halted)
                } else {
                    self.natives.progress(Progress::Running);
                    None
                }
            },
        }
    }

    /// Parks an internal fault: the host cannot do what it is to.
    pub fn fault_host(&mut self)
        ensures
            final(self).machine@ == old(self).machine@.broken(),
            *final(self) == (Instance { machine: final(self).machine, ..*old(self) }),
    {
        self.machine.fail();
    }

    /// Takes the finalizers that the host is to run, each of them once.
    pub fn take_finalizations(&mut self) -> (r: Vec<Finalization>)
        ensures
            r@ == old(self).finalizations@,
            final(self).finalizations@ == Seq::<Finalization>::empty(),
            *final(self) == (Instance { finalizations: final(self).finalizations, ..*old(self) }),
    {
        let mut r: Vec<Finalization> = Vec::new();
        std::mem::swap(&mut r, &mut self.finalizations);
        assert(self.finalizations@ =~= Seq::<Finalization>::empty());
        r
    }

    /// Ends the instance: the finalizers of all its foreign objects, and those that the host
    /// has not taken yet, are the host's to run.
    pub fn destroy(self) -> (r: Vec<Finalization>)
        ensures
            r@ == self.finalizations@ + all_finalizations(self.heap@),
    {
        let mut heap = self.heap;
        let mut r = self.finalizations;
        let ghost before = r@;
        let rest = heap.finalize_all();
        let mut i: usize = 0;
        while i < rest.len()
            invariant
                i <= rest@.len(),
                r@ =~= before + rest@.take(i as int),
            decreases rest@.len() - i,
        {
            r.push(rest[i]);
            i = i + 1;
        }
        assert(rest@.take(i as int) =~= rest@);
        r
    }

    /// Goes on after the host answered a call or had a block run: drives on under the
    /// directive of the drive that was interrupted.
    pub fn go_on(&mut self) -> (r: Outcome)
        requires
            old(self).handles@.wf(),
        ensures
            driven(*old(self), *final(self), r),
            final(self).handles@.wf(),
    {
        self.drive()
    }
}

/// A drive that a running call interrupts never pauses inside it: whatever the directive,
/// the fuel and the pause button say, it goes on to the end of the call.
pub proof fn law_calls_are_not_interrupted(i: Instance, t: TurnKind, host_pause: bool)
    requires
        i.natives@.calls.len() > 0,
    ensures
        pause_due(i, t, host_pause) is None,
{
}

/// A breakpoint does not stop a run to completion, and the pause button stops any drive.
pub proof fn law_directives_at_a_safe_point(i: Instance)
    requires
        i.natives@.calls.len() == 0,
        i.machine@.unwind is None,
    ensures
        pause_due(i, TurnOf::SafePoint, true) == Some(PauseReason::HostPause),
        i.directive is RunToCompletion && !i.machine@.meter.fuel.exhausted ==> pause_due(
            i,
            TurnOf::SafePoint,
            false,
        ) is None,
        i.directive is Step ==> pause_due(i, TurnOf::SafePoint, false) is Some,
{
}

/// A pause leaves the program as it was: driving on from it runs what an uninterrupted drive
/// would have run next.
pub proof fn law_pausing_changes_nothing(
    before: Instance,
    t: TurnKind,
    host_pause: bool,
    after: Instance,
    r: Option<Outcome>,
)
    requires
        goes_on(t),
        stopped(before, t, host_pause, after, r),
        !trap_due(before),
    ensures
        after.machine@ == before.machine@,
        after.heap == before.heap,
        after.modules == before.modules,
        after.natives == before.natives,
        turned(after, false).heap == turned(before, false).heap,
        turned(after, false).machine == turned(before, false).machine,
{
    crate::turn::lemma_turn_ignores_state(before, after);
}

/// A drive passes no safe point that it is to stop at: outside the calls of host-registered
/// functions its fuel is not spent there, and unless it runs to completion, no breakpoint is
/// there and it does not step.
pub proof fn law_no_stop_is_passed(a: Instance, t: TurnKind, b: Instance)
    requires
        passes(a, t, b),
        t is SafePoint,
        b.natives@.calls.len() == 0,
    ensures
        !b.machine@.meter.fuel.exhausted,
        b.directive is RunToCompletion || (breakpoint_at(b) is None && !(b.directive is Step)),
        !trap_due(b),
{
}

} // verus!
