//! The dicts of an instance are well keyed: they are when it is loaded, and whatever the
//! program or the host does then, they still are. Left out are programs with hashes of their
//! own, modules with other NaNs than the canonical one, and hosts that hand a record out of a
//! key back to the program: handles to those are marked.

use crate::activation::ActivationView;
use crate::activation::call_begun;
use crate::activation::calls_view;
use crate::activation::each_advanced;
use crate::activation::PendingRequest;
use crate::activation::PendingView;
use crate::activation::Progress;
use crate::collect::collected;
use crate::cont::ContView;
use crate::cont::Work;
use crate::drive::armed;
use crate::drive::driven;
use crate::drive::follows;
use crate::drive::goes_on;
use crate::drive::interned_all;
use crate::drive::Outcome;
use crate::drive::passed;
use crate::drive::passes;
use crate::drive::passes_to;
use crate::drive::plodded;
use crate::drive::resolved_as;
use crate::drive::resolved_call;
use crate::drive::resumed;
use crate::drive::runs_to;
use crate::drive::stopped;
use crate::error::ExceptionKind;
use crate::error::kind_slug;
use crate::error::TraceView;
use crate::exception::Diagnostic;
use crate::exception::diagnostics_view;
use crate::exception::error_made;
use crate::exception::module_load_detail;
use crate::exception::module_ref_detail;
use crate::float::CANONICAL_NAN_BITS;
use crate::float::nan;
use crate::frame::FrameView;
use crate::frame::Local;
use crate::handle::Handle;
use crate::handle::TableView;
use crate::heap::at;
use crate::heap::HeapView;
use crate::holding::frame_free;
use crate::holding::frames_free;
use crate::holding::group_frames;
use crate::holding::lemma_entry_locals;
use crate::holding::lemma_machine_wider;
use crate::holding::lemma_undone;
use crate::holding::local_free;
use crate::holding::machine_free;
use crate::holding::stood;
use crate::holding::unhashed;
use crate::holding::values_free;
use crate::holding::work_free;
use crate::holding_steps::calls_free;
use crate::holding_steps::calm;
use crate::holding_steps::lemma_call_begun;
use crate::holding_steps::lemma_calls_wider;
use crate::holding_steps::lemma_dispatched;
use crate::holding_steps::lemma_each_advanced;
use crate::holding_steps::lemma_import_advanced;
use crate::holding_steps::lemma_raised_or;
use crate::holding_steps::lemma_unwound;
use crate::holding_steps::modules_calm;
use crate::holding_steps::natives_free;
use crate::importing::import_advanced;
use crate::importing::mods;
use crate::instance::Directive;
use crate::instance::Instance;
use crate::instance::InstanceState;
use crate::instance::PauseReason;
use crate::instance::SetAside;
use crate::load::by_start;
use crate::load::global_cell;
use crate::load::seeded;
use crate::local::entry_locals;
use crate::machine::MachineView;
use crate::machine::Step;
use crate::machine::Unwind;
use crate::modload::LoadState;
use crate::modload::LoadView;
use crate::resolve::GlobalDecl;
use crate::resolve::ResolvedModule;
use crate::resolve::top_level_of;
use crate::sealing::aside;
use crate::sealing::free;
use crate::sealing::group_details;
use crate::sealing::lemma_aside;
use crate::sealing::lemma_collected;
use crate::sealing::lemma_error_made;
use crate::sealing::lemma_extended;
use crate::sealing::lemma_module_load_free;
use crate::sealing::lemma_new_cell;
use crate::sealing::lemma_new_list;
use crate::sealing::lemma_wider;
use crate::sealing::lemma_wider_refl;
use crate::sealing::lemma_wider_trans;
use crate::sealing::made;
use crate::sealing::orderly;
use crate::sealing::wider;
use crate::sourcing::answerable;
use crate::sourcing::error_from;
use crate::sourcing::import_answered;
use crate::sourcing::import_cancelled;
use crate::sourcing::import_resolved;
use crate::sourcing::ImportResolution;
use crate::sourcing::missing;
use crate::sourcing::sourced;
use crate::sourcing::unloadable;
use crate::sourcing::unparked;
use crate::span::ModuleId;
use crate::step::dispatched;
use crate::turn::accounted;
use crate::turn::call_next;
use crate::turn::completes;
use crate::turn::current;
use crate::turn::instance_roots;
use crate::turn::left_by;
use crate::turn::next_statement;
use crate::turn::raised_or;
use crate::turn::rested;
use crate::turn::roots_at;
use crate::turn::settled_work;
use crate::turn::turned;
use crate::turn::TurnKind;
use crate::turn::TurnOf;
use crate::turn::TurnView;
use crate::turn::untouched;
use crate::turn::watched;
use crate::turn::worked;
use crate::unwind::undone;
use crate::unwind::unwound;
use crate::value::CellIdx;
use crate::value::DictIdx;
use crate::value::ListIdx;
use crate::value::Value;
use crate::values::list_grown;
use crate::values::read;
use crate::values::ValueError;
use vstd::prelude::*;

verus! {

/// A machine without what it shares with the one that runs beside it.
pub open spec fn bare(m: MachineView) -> MachineView {
    MachineView {
        load: LoadView { states: Seq::empty(), ..m.load },
        protocols: Seq::empty(),
        ..m
    }
}

/// Whether the values that set-aside programs hold are free.
pub open spec fn aside_free(h: HeapView, s: Set<int>, aside: Seq<SetAside>) -> bool {
    forall|k: int|
        0 <= k < aside.len() ==> machine_free(
            h,
            s,
            bare((#[trigger] aside[k]).machine@),
        ) && calls_free(
            h,
            s,
            calls_view(aside[k].calls@),
            pending_view(aside[k].pending),
        )
}

/// A parked call by its contents.
pub open spec fn pending_view(p: Option<PendingRequest>) -> Option<PendingView> {
    match p {
        Some(p) => Some(p@),
        None => None,
    }
}

/// Whether the values of the live handles that are not marked are free.
pub open spec fn handles_free(h: HeapView, s: Set<int>, t: TableView, x: Set<int>) -> bool {
    &&& forall|k: int|
        0 <= k < t.slots.len() && (#[trigger] t.slots[k]).refs > 0 && !x.contains(k) ==> free(
            h,
            s,
            t.slots[k].value,
        )
    &&& forall|k: int| 0 <= k < t.free.len() ==> (#[trigger] t.free[k]) < t.slots.len()
}

/// Whether an instance has well keyed dicts, with these records for their keys, and nothing
/// but its dicts and the marked handles holds one of them.
pub open spec fn tidy(i: Instance, x: Set<int>, s: Set<int>) -> bool {
    &&& orderly(i.heap@, s)
    &&& machine_free(i.heap@, s, i.machine@)
    &&& natives_free(i.heap@, s, i.natives@)
    &&& modules_calm(mods(i.modules@))
    &&& handles_free(i.heap@, s, i.handles@, x)
    &&& aside_free(i.heap@, s, i.aside@)
}

/// Whether an instance has well keyed dicts, and nothing but its dicts and the marked handles
/// holds a record of one of their keys.
pub open spec fn well_keyed(i: Instance, x: Set<int>) -> bool {
    exists|s: Set<int>| #[trigger] tidy(i, x, s)
}

pub proof fn lemma_rest_wider(
    h: HeapView,
    s: Set<int>,
    g: HeapView,
    t: Set<int>,
    aside: Seq<SetAside>,
    table: TableView,
    x: Set<int>,
)
    requires
        wider(h, s, g, t),
        aside_free(h, s, aside),
        handles_free(h, s, table, x),
    ensures
        aside_free(g, t, aside),
        handles_free(g, t, table, x),
{
    assert forall|k: int| 0 <= k < aside.len() implies machine_free(
        g,
        t,
        bare((#[trigger] aside[k]).machine@),
    ) && calls_free(g, t, calls_view(aside[k].calls@), pending_view(aside[k].pending)) by {
        lemma_machine_wider(h, s, g, t, bare(aside[k].machine@));
        lemma_calls_wider(
            h,
            s,
            g,
            t,
            calls_view(aside[k].calls@),
            pending_view(aside[k].pending),
        );
    }
    assert forall|k: int|
        0 <= k < table.slots.len() && (#[trigger] table.slots[k]).refs > 0 && !x.contains(
            k,
        ) implies free(g, t, table.slots[k].value) by {
        lemma_wider(h, s, g, t, table.slots[k].value);
    }
}

/// Whether a turn leads from an orderly heap to one, with free values.
spec fn turn_stood(h: HeapView, s: Set<int>, z: TurnView, t: Set<int>) -> bool {
    &&& stood(h, s, z.heap, t, z.machine, None)
    &&& natives_free(z.heap, t, z.natives)
    &&& modules_calm(z.modules)
    &&& z.turn matches TurnOf::Raised(v, _) ==> free(z.heap, t, v)
}

proof fn lemma_accounted(i: Instance, z: TurnView, h: HeapView, s: Set<int>, t: Set<int>)
    requires
        turn_stood(h, s, z, t),
    ensures
        turn_stood(h, s, accounted(i, z).0, t),
        accounted(i, z).0.turn == z.turn,
{
    let roots = roots_at(i, z);
    let g = collected(z.heap, roots);
    lemma_collected(z.heap, t, roots);
    lemma_wider_trans(h, s, z.heap, t, g, t);
    lemma_machine_wider(z.heap, t, g, t, z.machine);
    lemma_calls_wider(z.heap, t, g, t, z.natives.calls, z.natives.pending);
    if let TurnOf::Raised(v, _) = z.turn {
        lemma_wider(z.heap, t, g, t, v);
    }
}

proof fn lemma_settled_work(
    z: TurnView,
    resolved: ResolvedModule,
    p: Step,
    h: HeapView,
    s: Set<int>,
    t: Set<int>,
) -> (u: Set<int>)
    requires
        stood(h, s, p.heap, t, p.machine, p.raise),
        natives_free(h, s, z.natives),
        modules_calm(z.modules),
        !(z.turn is Raised),
    ensures
        turn_stood(h, s, settled_work(z, resolved, p), u),
{
    let u = lemma_raised_or(p.heap, t, p.machine, p.raise);
    let (heap, machine) = raised_or(p.heap, p.machine, p.raise);
    lemma_wider_trans(h, s, p.heap, t, heap, u);
    lemma_calls_wider(h, s, heap, u, z.natives.calls, z.natives.pending);
    if p.raise is None && machine.frames.len() <= machine.meter.limits.stack_depth {
        if let Some(c) = machine.foreign {
            let called = MachineView { foreign: None, ..machine };
            lemma_call_begun(resolved, heap, u, called, z.natives, c);
            let b = call_begun(resolved, heap, called, z.natives, c);
            let w = lemma_raised_or(b.heap, u, b.machine, b.raise);
            let after = raised_or(b.heap, b.machine, b.raise).0;
            lemma_wider_trans(heap, u, b.heap, u, after, w);
            lemma_wider_trans(h, s, heap, u, after, w);
            lemma_calls_wider(b.heap, u, after, w, b.natives.calls, b.natives.pending);
            w
        } else {
            u
        }
    } else {
        u
    }
}

proof fn lemma_next_work(i: Instance, s: Set<int>)
    requires
        machine_free(i.heap@, s, i.machine@),
        i.machine@.frames.len() > 0,
        i.machine@.top().conts.len() > 0,
    ensures
        work_free(i.heap@, s, i.machine@.top().conts.last()),
        machine_free(i.heap@, s, undone(i.machine@)),
{
    let m = i.machine@;
    lemma_undone(i.heap@, s, m);
    reveal(frames_free);
    assert(frame_free(i.heap@, s, m.frames[m.frames.len() - 1]));
    let f = m.frames[m.frames.len() - 1];
    assert(work_free(i.heap@, s, f.conts[f.conts.len() - 1]));
}

proof fn lemma_rested(
    i: Instance,
    cancelled: bool,
    z: TurnView,
    h: HeapView,
    s: Set<int>,
    t: Set<int>,
)
    requires
        turn_stood(h, s, z, t),
    ensures
        turn_stood(h, s, rested(i, cancelled, z), t),
{
    lemma_accounted(i, z, h, s, t);
}

proof fn lemma_worked(i: Instance, x: Set<int>, s: Set<int>, cancelled: bool, cur: int) -> (t: Set<
    int,
>)
    requires
        tidy(i, x, s),
        current(i) == Some(cur),
        i.machine@.top().conts.len() > 0,
    ensures
        turn_stood(i.heap@, s, worked(i, cancelled, cur), t),
{
    let resolved = i.modules@[cur].resolved;
    let c = i.machine@.top().conts.last();
    let z = untouched(i);
    let h = i.heap@;
    assert(calm(mods(i.modules@)[cur].resolved));
    lemma_wider_refl(h, s);
    assert(turn_stood(h, s, z, s));
    lemma_next_work(i, s);
    match (next_statement(resolved, c), c) {
        (Some(stmt), _) => {
            lemma_accounted(i, z, h, s, s);
            let z2 = accounted(i, z).0;
            assert(wider(h, s, z2.heap, s));
            lemma_machine_wider(h, s, z2.heap, s, undone(i.machine@));
            lemma_work_wider(h, s, z2.heap, s, c);
            let m = undone(z2.machine);
            assert(machine_free(z2.heap, s, m));
            let t = lemma_dispatched(resolved, i.modules@, z2.heap, s, m, c);
            let p = dispatched(resolved, i.modules@, z2.heap, m, c);
            let next = TurnView { stmt: Some(stmt), turn: TurnOf::SafePoint, ..z2 };
            let u = lemma_settled_work(next, resolved, p, z2.heap, s, t);
            if cancelled || accounted(i, z).1 is Some {
                s
            } else {
                lemma_wider_trans(h, s, z2.heap, s, worked(i, cancelled, cur).heap, u);
                u
            }
        },
        (None, Work::ImportTargets { import, next }) => {
            let m = undone(z.machine);
            lemma_import_advanced(i.modules@, h, s, m, cur, import, next as int);
            let p = import_advanced(i.modules@, h, m, cur, import, next as int);
            lemma_settled_work(
                TurnView { modules: p.modules, ..z },
                resolved,
                p.step,
                h,
                s,
                s,
            )
        },
        (None, _) => {
            let m = undone(z.machine);
            let t = lemma_dispatched(resolved, i.modules@, h, s, m, c);
            let p = dispatched(resolved, i.modules@, h, m, c);
            let u = lemma_settled_work(z, resolved, p, h, s, t);
            let w = watched(
                i.observation_mode,
                completes(resolved, c),
                settled_work(z, resolved, p),
            );
            lemma_rested(i, cancelled, w, h, s, u);
            u
        },
    }
}

proof fn lemma_work_wider(h: HeapView, s: Set<int>, g: HeapView, t: Set<int>, c: ContView)
    requires
        wider(h, s, g, t),
        work_free(h, s, c),
    ensures
        work_free(g, t, c),
{
    reveal(wider);
}

proof fn lemma_turned(i: Instance, x: Set<int>, s: Set<int>, cancelled: bool) -> (t: Set<int>)
    requires
        tidy(i, x, s),
    ensures
        turn_stood(i.heap@, s, turned(i, cancelled), t),
{
    broadcast use group_frames;

    let z = untouched(i);
    let h = i.heap@;
    lemma_wider_refl(h, s);
    assert(turn_stood(h, s, z, s));
    if i.machine@.meter.pending_fault is Some {
        s
    } else if call_next(i) {
        let calls = i.natives@.calls;
        if let (Progress::Each { next, count }, Some(cur)) = (calls.last().progress, current(i)) {
            lemma_each_advanced(i.modules@, h, s, z.machine, z.natives, next, count);
            let p = each_advanced(i.modules@, h, z.machine, z.natives, next, count);
            let t = lemma_raised_or(p.heap, s, p.machine, p.raise);
            let after = raised_or(p.heap, p.machine, p.raise).0;
            lemma_wider_trans(h, s, p.heap, s, after, t);
            lemma_calls_wider(p.heap, s, after, t, p.natives.calls, p.natives.pending);
            t
        } else {
            assert forall|progress: Progress| natives_free(
                h,
                s,
                #[trigger] i.natives@.progressed(progress),
            ) by {
                let after = i.natives@.progressed(progress).calls;
                assert forall|k: int| 0 <= k < after.len() implies values_free(
                    h,
                    s,
                    (#[trigger] after[k]).args,
                ) by {
                    assert(values_free(h, s, calls[k].args));
                }
            }
            s
        }
    } else if i.machine@.frames.len() == 0 {
        s
    } else if let Some(cur) = current(i) {
        if i.machine@.unwind is Some {
            let resolved = i.modules@[cur].resolved;
            lemma_unwound(resolved, i.modules@, h, s, z.machine);
            let (g, m, e) = unwound(resolved, i.modules@, h, z.machine);
            let t = lemma_raised_or(g, s, m, e);
            let after = raised_or(g, m, e).0;
            lemma_wider_trans(h, s, g, s, after, t);
            lemma_calls_wider(h, s, after, t, z.natives.calls, z.natives.pending);
            t
        } else if i.machine@.top().conts.len() == 0 {
            let f = i.machine@.top();
            if f.kind is ModuleTopLevel {
                let load = z.machine.load.with_state(f.module, LoadState::Loaded);
                let machine = MachineView { reg: None, load, ..z.machine.left() };
                assert(machine_free(h, s, z.machine.left()));
                assert(machine_free(h, s, machine));
                lemma_rested(i, cancelled, TurnView { machine, ..z }, h, s, s);
            }
            s
        } else {
            lemma_worked(i, x, s, cancelled, cur)
        }
    } else {
        s
    }
}

pub proof fn lemma_follows(a: Instance, x: Set<int>, s: Set<int>, t: TurnKind, b: Instance) -> (u: Set<
    int,
>)
    requires
        follows(a, t, b),
        tidy(a, x, s),
    ensures
        tidy(b, x, u),
        t matches TurnOf::Raised(v, _) ==> free(b.heap@, u, v),
{
    let cancelled = left_by(b, t) == turned(a, true);
    let u = lemma_turned(a, x, s, cancelled);
    let z = turned(a, cancelled);
    assert(left_by(b, t) == z);
    assert(b.heap@ == left_by(b, t).heap);
    assert(b.machine@ == left_by(b, t).machine);
    assert(b.natives@ == left_by(b, t).natives);
    assert(mods(b.modules@) == left_by(b, t).modules);
    assert(t == left_by(b, t).turn);
    lemma_rest_wider(a.heap@, s, b.heap@, u, a.aside@, a.handles@, x);
    u
}

/// Every turn leaves the dicts well keyed, whatever the program does in it.
pub proof fn law_turns_leave_dicts_keyed(a: Instance, x: Set<int>, t: TurnKind, b: Instance)
    requires
        follows(a, t, b),
        well_keyed(a, x),
    ensures
        well_keyed(b, x),
{
    let s = choose|s: Set<int>| #[trigger] tidy(a, x, s);
    let u = lemma_follows(a, x, s, t, b);
}

proof fn lemma_passes(a: Instance, x: Set<int>, b: Instance, n: nat)
    requires
        passes_to(a, b, n),
        well_keyed(a, x),
    ensures
        well_keyed(b, x),
    decreases n,
{
    if n > 0 {
        let (c, t) = choose|c: Instance, t: TurnKind|
            passes_to(a, c, (n - 1) as nat) && #[trigger] passes(c, t, b);
        lemma_passes(a, x, c, (n - 1) as nat);
        law_turns_leave_dicts_keyed(c, x, t, b);
    }
}

pub proof fn lemma_runs(a: Instance, x: Set<int>, b: Instance, n: nat)
    requires
        runs_to(a, b, n),
        well_keyed(a, x),
    ensures
        well_keyed(b, x),
        b.aside == a.aside,
    decreases n,
{
    if n > 0 {
        let (c, t) = choose|c: Instance, t: TurnKind|
            runs_to(a, c, (n - 1) as nat) && #[trigger] follows(c, t, b) && goes_on(t);
        lemma_runs(a, x, c, (n - 1) as nat);
        law_turns_leave_dicts_keyed(c, x, t, b);
    }
}

pub proof fn lemma_interned(h: HeapView, s: Set<int>, t: TableView, x: Set<int>, v: Value)
    requires
        handles_free(h, s, t, x),
        free(h, s, v),
    ensures
        handles_free(h, s, t.interned(v), x),
{
    let after = t.interned(v);
    if t.free.len() > 0 {
        assert(t.free[t.free.len() - 1] < t.slots.len());
    }
    assert forall|k: int|
        0 <= k < after.slots.len() && (#[trigger] after.slots[k]).refs > 0 && !x.contains(
            k,
        ) implies free(h, s, after.slots[k].value) by {
        if k < t.slots.len() && after.slots[k] == t.slots[k] {
            assert(t.slots[k].refs > 0);
        }
    }
}

proof fn lemma_interned_all(
    h: HeapView,
    s: Set<int>,
    t: TableView,
    x: Set<int>,
    values: Seq<Value>,
    n: nat,
)
    requires
        handles_free(h, s, t, x),
        values_free(h, s, values),
    ensures
        handles_free(h, s, interned_all(t, values, n).0, x),
    decreases n,
{
    if n > 0 && n <= values.len() {
        lemma_interned_all(h, s, t, x, values, (n - 1) as nat);
        let before = interned_all(t, values, (n - 1) as nat).0;
        assert(free(h, s, values[n - 1]));
        lemma_interned(h, s, before, x, values[n - 1]);
    }
}

/// The value that a drive came out with.
pub open spec fn outcome_value(out: Outcome) -> Option<Value> {
    match out {
        Outcome::Completed(v) => v,
        Outcome::Raised(v, _) => Some(v),
        _ => None,
    }
}

/// Whether an instance has well keyed dicts, and a value is no record of one of their keys.
spec fn keyed_beside(i: Instance, x: Set<int>, v: Option<Value>) -> bool {
    exists|s: Set<int>| #[trigger] tidy(i, x, s) && (v is Some ==> free(i.heap@, s, v->0))
}

proof fn lemma_stopped(
    c: Instance,
    x: Set<int>,
    s: Set<int>,
    t: TurnKind,
    pause: bool,
    z: Instance,
    out: Outcome,
)
    requires
        stopped(c, t, pause, z, Some(out)),
        tidy(c, x, s),
        t matches TurnOf::Raised(v, _) ==> free(c.heap@, s, v),
    ensures
        tidy(z, x, s),
        outcome_value(out) matches Some(v) ==> free(z.heap@, s, v),
{
    if t is Suspended {
        if let Some(p) = c.natives@.pending {
            lemma_interned_all(c.heap@, s, c.handles@, x, p.args, p.args.len());
        }
    }
}

proof fn lemma_driven(a: Instance, x: Set<int>, z: Instance, r: Outcome)
    requires
        driven(a, z, r),
        well_keyed(a, x),
    ensures
        keyed_beside(z, x, outcome_value(r)),
{
    if exists|b: Instance, c: Instance, t: TurnKind, n: nat, pause: bool|
        #![trigger passed(a, b, n), follows(b, t, c), stopped(c, t, pause, z, Some(r))]
        passed(a, b, n) && follows(b, t, c) && stopped(c, t, pause, z, Some(r)) {
        let (b, c, t, n, pause) = choose|b: Instance, c: Instance, t: TurnKind, n: nat, pause: bool|
            #![trigger passed(a, b, n), follows(b, t, c), stopped(c, t, pause, z, Some(r))]
            passed(a, b, n) && follows(b, t, c) && stopped(c, t, pause, z, Some(r));
        lemma_passes(a, x, b, n);
        let s = choose|s: Set<int>| #[trigger] tidy(b, x, s);
        let u = lemma_follows(b, x, s, t, c);
        lemma_stopped(c, x, u, t, pause, z, r);
        assert(tidy(z, x, u));
    } else {
        let (b, n) = choose|b: Instance, n: nat| #[trigger]
            passed(a, b, n) && plodded(a, b) && r == Outcome::Paused(PauseReason::SliceEnd) && z
                == (Instance { state: InstanceState::Paused, ..b });
        lemma_passes(a, x, b, n);
        let s = choose|s: Set<int>| #[trigger] tidy(b, x, s);
        assert(tidy(z, x, s));
    }
}

/// A drive leaves the dicts well keyed, however it came out.
pub proof fn law_drives_leave_dicts_keyed(a: Instance, x: Set<int>, z: Instance, r: Outcome)
    requires
        driven(a, z, r),
        well_keyed(a, x),
    ensures
        well_keyed(z, x),
{
    lemma_driven(a, x, z, r);
}

/// Whether a handle is not marked.
pub open spec fn unmarked(x: Set<int>, h: Handle) -> bool {
    !x.contains(h.slot())
}

pub proof fn lemma_handed(i: Instance, x: Set<int>, s: Set<int>, h: Handle)
    requires
        tidy(i, x, s),
        unmarked(x, h),
    ensures
        read(i.handles@, h) matches Ok(v) ==> free(i.heap@, s, v),
{
    if read(i.handles@, h) is Ok {
        assert(i.handles@.slots[h.slot()].refs > 0);
    }
}

/// Whether an answer to a parked call is not a marked handle.
pub open spec fn answer_unmarked(x: Set<int>, r: crate::drive::Resolution) -> bool {
    match r {
        crate::drive::Resolution::Value(h) => unmarked(x, h),
        crate::drive::Resolution::Raise(h) => unmarked(x, h),
    }
}

/// Whether an answer to an import is not a marked handle, nor a module with a NaN literal but
/// the canonical one.
pub open spec fn import_unmarked(x: Set<int>, r: ImportResolution) -> bool {
    match r {
        ImportResolution::Raise(h) => unmarked(x, h),
        ImportResolution::Source { module, .. } => calm(module),
        ImportResolution::NotFound => true,
    }
}

/// Whether the host had an instance driven, with no marked handle for an answer.
pub open spec fn drove(a: Instance, x: Set<int>, b: Instance, out: Outcome) -> bool {
    ||| driven(a, b, out)
    ||| exists|c: Instance, directive: Directive, fuel: Option<u64>| #[trigger]
        armed(a, c, directive, fuel) && driven(c, b, out)
    ||| exists|r: crate::drive::Resolution, cancelled: bool| #[trigger]
        resolved_as(a, r, cancelled, b, out) && answer_unmarked(x, r)
    ||| exists|r: ImportResolution, cancelled: bool| #[trigger]
        import_resolved(a, r, cancelled, b, out) && import_unmarked(x, r)
}

pub proof fn lemma_seeded(h: HeapView, s: Set<int>, globals: Seq<GlobalDecl>, n: nat)
    requires
        orderly(h, s),
    ensures
        orderly(seeded(h, globals, n).0, s),
        wider(h, s, seeded(h, globals, n).0, s),
    decreases n,
{
    lemma_wider_refl(h, s);
    if n > 0 && n <= globals.len() {
        lemma_seeded(h, s, globals, (n - 1) as nat);
        let before = seeded(h, globals, (n - 1) as nat).0;
        let kind = global_cell(globals[n - 1].kind);
        lemma_new_cell(before, s, kind, None);
        lemma_wider_trans(h, s, before, s, before.new_cell(kind, None), s);
    }
}

proof fn lemma_sourced(
    a: Instance,
    x: Set<int>,
    s: Set<int>,
    module: ResolvedModule,
    diags: Seq<Diagnostic>,
    canonical: Seq<char>,
    b: Instance,
) -> (t: Set<int>)
    requires
        sourced(a, module, diags, canonical, b),
        tidy(a, x, s),
        calm(module),
    ensures
        tidy(b, x, t),
{
    broadcast use group_frames;

    let p = a.machine@.pending_import->0;
    let m = unparked(a.machine@);
    let h = a.heap@;
    lemma_wider_refl(h, s);
    if m.load.module_of(canonical) is Some {
        s
    } else {
        let id = ModuleId(a.modules@.len() as u32);
        let (g, names) = seeded(h, module.globals@, module.globals@.len());
        lemma_seeded(h, s, module.globals@, module.globals@.len());
        let ms = mods(b.modules@);
        assert(modules_calm(ms)) by {
            assert forall|k: int| 0 <= k < ms.len() implies calm((#[trigger] ms[k]).resolved) by {
                if k < mods(a.modules@).len() {
                    assert(calm(mods(a.modules@)[k].resolved));
                }
            }
        }
        lemma_machine_wider(h, s, g, s, m);
        let all = by_start(diagnostics_view(diags));
        if let Some(error) = error_from(diagnostics_view(diags), 0) {
            let slug = kind_slug(ExceptionKind::ModuleLoadError);
            let details = module_load_detail(p.path, canonical, all);
            lemma_module_load_free(g, s, p.path, canonical, all);
            let t = lemma_error_made(
                g,
                s,
                m.error_type,
                slug,
                unloadable(p.path, error),
                details,
            );
            let (after, value) = error_made(
                g,
                m.error_type,
                slug,
                unloadable(p.path, error),
                details,
            );
            lemma_wider_trans(h, s, g, s, after, t);
            lemma_machine_wider(g, s, after, t, m);
            lemma_calls_wider(h, s, after, t, a.natives@.calls, a.natives@.pending);
            lemma_rest_wider(h, s, after, t, a.aside@, a.handles@, x);
            let load = m.load.begun(p.path, canonical, id).with_state(
                id,
                LoadState::Failed(value),
            );
            assert forall|j: int|
                0 <= j < load.states.len() && (#[trigger] load.states[j]) is Failed implies free(
                after,
                t,
                load.states[j]->Failed_0,
            ) by {
                if j < m.load.states.len() && load.states[j] == m.load.states[j] {
                    assert(m.load.states[j] is Failed);
                }
            }
            t
        } else {
            let info = module.callables@[top_level_of(module.callables@, 0)->0 as int];
            let none = Seq::new(info.slot_count as nat, |i: int| None::<Value>);
            lemma_entry_locals(g, s, info, none, Seq::empty());
            let (after, locals) = entry_locals(g, info, none, Seq::empty());
            lemma_wider_trans(h, s, g, s, after, s);
            lemma_machine_wider(g, s, after, s, m);
            lemma_calls_wider(h, s, after, s, a.natives@.calls, a.natives@.pending);
            lemma_rest_wider(h, s, after, s, a.aside@, a.handles@, x);
            let f = FrameView::top_level(id, locals, module.root, m.frame_serial);
            assert(frame_free(after, s, f));
            let begun = MachineView {
                load: m.load.begun(p.path, canonical, id),
                ..m.numbered()
            };
            assert forall|j: int|
                0 <= j < begun.load.states.len() && (
                #[trigger] begun.load.states[j]) is Failed implies free(
                after,
                s,
                begun.load.states[j]->Failed_0,
            ) by {
                assert(m.load.states[j] is Failed);
            }
            assert(machine_free(after, s, begun));
            assert(machine_free(after, s, begun.entered(f)));
            s
        }
    }
}

proof fn lemma_import_answered(
    a: Instance,
    x: Set<int>,
    s: Set<int>,
    r: ImportResolution,
    b: Instance,
) -> (t: Set<int>)
    requires
        import_answered(a, r, b),
        import_unmarked(x, r),
        tidy(a, x, s),
    ensures
        tidy(b, x, t),
{
    broadcast use group_details;

    let h = a.heap@;
    let m = unparked(a.machine@);
    let p = a.machine@.pending_import->0;
    lemma_wider_refl(h, s);
    match r {
        ImportResolution::Source { module, diagnostics, canonical_id } => {
            lemma_sourced(a, x, s, module, diagnostics@, canonical_id@, b)
        },
        ImportResolution::NotFound => {
            if p.path.len() > 1 && !m.load.not_module(p.path) {
                s
            } else {
                let slug = kind_slug(ExceptionKind::ModuleNotFound);
                let details = module_ref_detail(p.path, p.importer);
                let t = lemma_error_made(h, s, m.error_type, slug, missing(p.path), details);
                let g = error_made(h, m.error_type, slug, missing(p.path), details).0;
                lemma_machine_wider(h, s, g, t, m);
                lemma_calls_wider(h, s, g, t, a.natives@.calls, a.natives@.pending);
                lemma_rest_wider(h, s, g, t, a.aside@, a.handles@, x);
                t
            }
        },
        ImportResolution::Raise(handle) => {
            lemma_handed(a, x, s, handle);
            s
        },
    }
}

proof fn lemma_armed(a: Instance, x: Set<int>, c: Instance, directive: Directive, fuel: Option<u64>)
    requires
        armed(a, c, directive, fuel),
        well_keyed(a, x),
    ensures
        well_keyed(c, x),
{
    let s = choose|s: Set<int>| #[trigger] tidy(a, x, s);
    assert(tidy(c, x, s));
}

proof fn lemma_resolved(
    a: Instance,
    x: Set<int>,
    r: crate::drive::Resolution,
    cancelled: bool,
    b: Instance,
    out: Outcome,
)
    requires
        resolved_as(a, r, cancelled, b, out),
        answer_unmarked(x, r),
        well_keyed(a, x),
    ensures
        keyed_beside(b, x, outcome_value(out)),
{
    let s = choose|s: Set<int>| #[trigger] tidy(a, x, s);
    match r {
        crate::drive::Resolution::Value(h) => lemma_handed(a, x, s, h),
        crate::drive::Resolution::Raise(h) => lemma_handed(a, x, s, h),
    }
    if cancelled || resolved_call(a, r).1 {
        let c = choose|c: Instance| #[trigger] resumed(a, r, cancelled, c) && driven(c, b, out);
        assert(tidy(c, x, s));
        lemma_driven(c, x, b, out);
    } else {
        assert(tidy(b, x, s));
    }
}

proof fn lemma_import_resolved(
    a: Instance,
    x: Set<int>,
    r: ImportResolution,
    cancelled: bool,
    b: Instance,
    out: Outcome,
)
    requires
        import_resolved(a, r, cancelled, b, out),
        import_unmarked(x, r),
        well_keyed(a, x),
    ensures
        keyed_beside(b, x, outcome_value(out)),
{
    let s = choose|s: Set<int>| #[trigger] tidy(a, x, s);
    if cancelled {
        let c = choose|c: Instance| #[trigger] import_cancelled(a, c) && driven(c, b, out);
        assert(tidy(c, x, s));
        lemma_driven(c, x, b, out);
    } else if answerable(a, r) {
        let c = choose|c: Instance| #[trigger] import_answered(a, r, c) && driven(c, b, out);
        let t = lemma_import_answered(a, x, s, r, c);
        lemma_driven(c, x, b, out);
    } else {
        assert(tidy(b, x, s));
    }
}

proof fn lemma_drove(a: Instance, x: Set<int>, b: Instance, out: Outcome)
    requires
        drove(a, x, b, out),
        well_keyed(a, x),
    ensures
        keyed_beside(b, x, outcome_value(out)),
{
    if driven(a, b, out) {
        lemma_driven(a, x, b, out);
    } else if exists|c: Instance, directive: Directive, fuel: Option<u64>| #[trigger]
        armed(a, c, directive, fuel) && driven(c, b, out) {
        let (c, directive, fuel) = choose|
            c: Instance,
            directive: Directive,
            fuel: Option<u64>,
        | #[trigger]
            armed(a, c, directive, fuel) && driven(c, b, out);
        lemma_armed(a, x, c, directive, fuel);
        lemma_driven(c, x, b, out);
    } else if exists|r: crate::drive::Resolution, cancelled: bool| #[trigger]
        resolved_as(a, r, cancelled, b, out) && answer_unmarked(x, r) {
        let (r, cancelled) = choose|r: crate::drive::Resolution, cancelled: bool| #[trigger]
            resolved_as(a, r, cancelled, b, out) && answer_unmarked(x, r);
        lemma_resolved(a, x, r, cancelled, b, out);
    } else {
        let (r, cancelled) = choose|r: ImportResolution, cancelled: bool| #[trigger]
            import_resolved(a, r, cancelled, b, out) && import_unmarked(x, r);
        lemma_import_resolved(a, x, r, cancelled, b, out);
    }
}

/// Whether a value is no record, its object has been made, and it is no NaN but the canonical
/// one.
pub open spec fn plain(h: HeapView, v: Value) -> bool {
    &&& !(v is Record)
    &&& made(h, v)
    &&& v matches Value::Float(x) ==> nan(x) ==> x == CANONICAL_NAN_BITS
}

/// Whether a machine holds a value in a local or as a result.
pub open spec fn machine_offers(m: MachineView, v: Value) -> bool {
    ||| m.reg == Some(v)
    ||| exists|k: int, j: int|
        0 <= k < m.frames.len() && 0 <= j < m.frames[k].locals.len() && (
        #[trigger] m.frames[k].locals[j]) == Local::Direct(Some(v))
}

/// Whether a value is an element of a list, a value of a dict or the contents of a cell.
pub open spec fn heap_offers(h: HeapView, v: Value) -> bool {
    ||| exists|l: ListIdx, j: int| 0 <= j < h.items(l).len() && #[trigger] h.items(l)[j] == v
    ||| exists|d: DictIdx, j: int|
        0 <= j < h.dict(d).entries.len() && (#[trigger] h.dict(d).entries[j]).1 == v
    ||| exists|c: CellIdx| #[trigger] h.cell_value(c) == Some(v)
}

/// Whether a value is a field of a record that a handle which is not marked leads to.
pub open spec fn field_offered(i: Instance, x: Set<int>, v: Value) -> bool {
    exists|k: int, j: int| #[trigger] field_of_handle(i, x, k, j) == Some(v)
}

/// A field of the record that a live handle which is not marked leads to.
pub open spec fn field_of_handle(i: Instance, x: Set<int>, k: int, j: int) -> Option<Value> {
    let slots = i.handles@.slots;
    if 0 <= k < slots.len() && slots[k].refs > 0 && !x.contains(k) {
        match slots[k].value {
            Value::Record(r) => match i.heap@.record(r) {
                Some(rec) => if 0 <= j < rec.fields.len() {
                    Some(rec.fields[j])
                } else {
                    None
                },
                None => None,
            },
            _ => None,
        }
    } else {
        None
    }
}

/// Whether a running call holds a value.
pub open spec fn call_offers(calls: Seq<ActivationView>, v: Value) -> bool {
    exists|k: int, j: int|
        0 <= k < calls.len() && 0 <= j < calls[k].args.len() && #[trigger] calls[k].args[j] == v
}

/// Whether the host can have a value of an instance other than out of a dict's key.
pub open spec fn offered(i: Instance, x: Set<int>, v: Value) -> bool {
    ||| heap_offers(i.heap@, v)
    ||| machine_offers(i.machine@, v)
    ||| field_offered(i, x, v)
    ||| call_offers(i.natives@.calls, v)
}

/// Whether every live handle after is marked, was one before that was not marked, or leads to
/// a value that the host can have other than out of a dict's key.
pub open spec fn handles_taken(
    a: Instance,
    x: Set<int>,
    b: Instance,
    y: Set<int>,
    extra: Option<Value>,
) -> bool {
    &&& b.handles@.wf()
    &&& forall|k: int|
        0 <= k < b.handles@.slots.len() && (#[trigger] b.handles@.slots[k]).refs > 0
            && !y.contains(k) ==> {
            let v = b.handles@.slots[k].value;
            ||| 0 <= k < a.handles@.slots.len() && a.handles@.slots[k].refs > 0 && !x.contains(k)
                && a.handles@.slots[k].value == v
            ||| plain(b.heap@, v)
            ||| offered(a, x, v)
            ||| extra == Some(v)
        }
}

proof fn lemma_heap_offered(h: HeapView, s: Set<int>, v: Value)
    requires
        orderly(h, s),
        heap_offers(h, v),
    ensures
        free(h, s, v),
{
    reveal(orderly);
    if h.records.len() <= usize::MAX {
        if exists|l: ListIdx, j: int| 0 <= j < h.items(l).len() && #[trigger] h.items(l)[j] == v {
        } else if exists|d: DictIdx, j: int|
            0 <= j < h.dict(d).entries.len() && (#[trigger] h.dict(d).entries[j]).1 == v {
        } else {
            let c = choose|c: CellIdx| #[trigger] h.cell_value(c) == Some(v);
            assert(h.cell(c) is Some);
        }
    }
}

proof fn lemma_offered(i: Instance, x: Set<int>, s: Set<int>, v: Value)
    requires
        tidy(i, x, s),
        offered(i, x, v),
    ensures
        free(i.heap@, s, v),
{
    let h = i.heap@;
    if heap_offers(h, v) {
        lemma_heap_offered(h, s, v);
    } else if machine_offers(i.machine@, v) {
        let m = i.machine@;
        if m.reg != Some(v) {
            reveal(frames_free);
            let (k, j) = choose|k: int, j: int|
                0 <= k < m.frames.len() && 0 <= j < m.frames[k].locals.len() && (
                #[trigger] m.frames[k].locals[j]) == Local::Direct(Some(v));
            assert(frame_free(h, s, m.frames[k]));
            assert(local_free(h, s, m.frames[k].locals[j]));
        }
    } else if field_offered(i, x, v) {
        let (k, j) = choose|k: int, j: int| #[trigger] field_of_handle(i, x, k, j) == Some(v);
        let slot = i.handles@.slots[k];
        assert(free(h, s, slot.value));
        reveal(orderly);
        if h.records.len() <= usize::MAX {
            let r = slot.value->Record_0;
            assert(free(h, s, h.record(r)->0.fields[j]));
        }
    } else {
        let calls = i.natives@.calls;
        let (k, j) = choose|k: int, j: int|
            0 <= k < calls.len() && 0 <= j < calls[k].args.len() && #[trigger] calls[k].args[j]
                == v;
        assert(values_free(h, s, calls[k].args));
    }
}

pub proof fn lemma_taken(
    a: Instance,
    x: Set<int>,
    s: Set<int>,
    b: Instance,
    y: Set<int>,
    t: Set<int>,
    extra: Option<Value>,
)
    requires
        tidy(a, x, s),
        wider(a.heap@, s, b.heap@, t),
        handles_taken(a, x, b, y, extra),
        extra is Some ==> free(a.heap@, s, extra->0),
    ensures
        handles_free(b.heap@, t, b.handles@, y),
{
    let slots = b.handles@.slots;
    assert forall|k: int|
        0 <= k < slots.len() && (#[trigger] slots[k]).refs > 0 && !y.contains(k) implies free(
        b.heap@,
        t,
        slots[k].value,
    ) by {
        let v = slots[k].value;
        if !plain(b.heap@, v) {
            if offered(a, x, v) {
                lemma_offered(a, x, s, v);
            } else if extra == Some(v) {
            } else {
                assert(a.handles@.slots[k].refs > 0);
            }
            lemma_wider(a.heap@, s, b.heap@, t, v);
        }
    }
}

/// Whether the host had an instance driven, and took no more than it can have.
pub open spec fn host_drove(a: Instance, x: Set<int>, b: Instance, y: Set<int>) -> bool {
    exists|c: Instance, out: Outcome|
        #[trigger] drove(a, x, c, out) && b == (Instance { handles: b.handles, ..c })
            && handles_taken(c, x, b, y, outcome_value(out))
}

/// Whatever the host has an instance driven for, its dicts are well keyed afterwards.
pub proof fn law_driving_leaves_dicts_keyed(a: Instance, x: Set<int>, b: Instance, y: Set<int>)
    requires
        host_drove(a, x, b, y),
        well_keyed(a, x),
    ensures
        well_keyed(b, y),
{
    let (c, out) = choose|c: Instance, out: Outcome|
        #[trigger] drove(a, x, c, out) && b == (Instance { handles: b.handles, ..c })
            && handles_taken(c, x, b, y, outcome_value(out));
    lemma_drove(a, x, c, out);
    let v = outcome_value(out);
    let s = choose|s: Set<int>| #[trigger]
        tidy(c, x, s) && (v is Some ==> free(c.heap@, s, v->0));
    lemma_wider_refl(c.heap@, s);
    lemma_taken(c, x, s, b, y, s, v);
    assert(tidy(b, y, s));
}

/// Whether the host changed a heap: it made objects but records and dicts, appended to a list
/// what a handle that is not marked leads to, or had the heap collected.
pub open spec fn heap_changed(a: Instance, x: Set<int>, g: HeapView) -> bool {
    ||| aside(a.heap@, g)
    ||| g == a.heap@.new_list(Seq::empty())
    ||| exists|list: Handle, value: Handle| #[trigger]
        list_grown(a.handles@, a.heap@, list, value) == Ok::<HeapView, ValueError>(g) && unmarked(
            x,
            value,
        )
    ||| g == collected(a.heap@, instance_roots(a))
}

/// Whether a machine goes on with what it was at, if not cancelled, and with no hash of the
/// program's.
pub open spec fn machine_set(m: MachineView, z: MachineView) -> bool {
    &&& z == (MachineView {
        meter: z.meter,
        unwind: z.unwind,
        pending_import: z.pending_import,
        protocols: z.protocols,
        ..m
    })
    &&& z.unwind == m.unwind || z.unwind is None || z.unwind == Some(Unwind::<TraceView>::Cancel)
    &&& unhashed(z.protocols)
}

/// Whether the host made, read or let go of values, had the heap collected, or set how the
/// instance goes on.
pub open spec fn host_stored(a: Instance, x: Set<int>, b: Instance, y: Set<int>) -> bool {
    &&& heap_changed(a, x, b.heap@)
    &&& machine_set(a.machine@, b.machine@)
    &&& b.natives@.calls == a.natives@.calls
    &&& b.natives@.table == a.natives@.table
    &&& b.natives@.pending == a.natives@.pending || b.natives@.pending is None
    &&& b.aside == a.aside
    &&& mods(b.modules@) == mods(a.modules@)
    &&& handles_taken(a, x, b, y, None)
}

proof fn lemma_list_grown(
    a: Instance,
    x: Set<int>,
    s: Set<int>,
    list: Handle,
    value: Handle,
    g: HeapView,
)
    requires
        tidy(a, x, s),
        list_grown(a.handles@, a.heap@, list, value) == Ok::<HeapView, ValueError>(g),
        unmarked(x, value),
    ensures
        orderly(g, s),
        wider(a.heap@, s, g, s),
{
    let h = a.heap@;
    lemma_handed(a, x, s, value);
    let l = read(a.handles@, list)->Ok_0->List_0;
    let v = read(a.handles@, value)->Ok_0;
    assert forall|k: ListIdx|
        #[trigger] g.items(k) == h.items(k) || forall|j: int|
            0 <= j < g.items(k).len() ==> free(g, s, #[trigger] g.items(k)[j]) by {
        if k == l && at(h.lists, l.0 as int) is Some {
            assert(g.items(k) == h.items(l).push(v));
            assert forall|j: int| 0 <= j < g.items(k).len() implies free(
                g,
                s,
                #[trigger] g.items(k)[j],
            ) by {
                if j < h.items(l).len() {
                    reveal(orderly);
                    if h.records.len() <= usize::MAX {
                        assert(free(h, s, h.items(l)[j]));
                    }
                }
            }
        } else {
            assert(at(g.lists, k.0 as int) == at(h.lists, k.0 as int));
        }
    }
    lemma_extended(h, s, g);
}

/// Making values and collecting the heap leave the dicts well keyed.
pub proof fn law_storing_leaves_dicts_keyed(a: Instance, x: Set<int>, b: Instance, y: Set<int>)
    requires
        host_stored(a, x, b, y),
        well_keyed(a, x),
    ensures
        well_keyed(b, y),
{
    let s = choose|s: Set<int>| #[trigger] tidy(a, x, s);
    let (h, g) = (a.heap@, b.heap@);
    if aside(h, g) {
        lemma_aside(h, s, g);
    } else if g == h.new_list(Seq::empty()) {
        lemma_new_list(h, s, Seq::empty());
    } else if g == collected(h, instance_roots(a)) {
        lemma_collected(h, s, instance_roots(a));
    } else {
        let (list, value) = choose|list: Handle, value: Handle| #[trigger]
            list_grown(a.handles@, h, list, value) == Ok::<HeapView, ValueError>(g) && unmarked(
                x,
                value,
            );
        lemma_list_grown(a, x, s, list, value, g);
    }
    assert(orderly(g, s) && wider(h, s, g, s));
    lemma_machine_wider(h, s, g, s, a.machine@);
    lemma_calls_wider(h, s, g, s, a.natives@.calls, a.natives@.pending);
    lemma_rest_wider(h, s, g, s, a.aside@, a.handles@, x);
    lemma_taken(a, x, s, b, y, s, None);
    assert(tidy(b, y, s));
}

} // verus!
