//! What a collection keeps and what it lets go, in the large: everything the program or the
//! host holds directly is a root, an object is kept exactly if a root leads to it, and over
//! any run of releases and collections every finalizer is handed out once.
use crate::activation::call_values;
use crate::activation::ActivationView;
use crate::collect::all_finalizations;
use crate::collect::cell_ref;
use crate::collect::collected;
use crate::collect::finalizations;
use crate::collect::orphaned;
use crate::collect::reachable;
use crate::collect::reached;
use crate::collect::surviving;
use crate::collect::value_ref;
use crate::collect::value_refs;
use crate::collect::Finalization;
use crate::collect::Place;
use crate::collect::Ref;
use crate::cont::held_values;
use crate::cont::ContView;
use crate::error::TraceView;
use crate::frame::FrameKind;
use crate::frame::FrameView;
use crate::frame::Local;
use crate::gc::callable_values;
use crate::gc::frame_values;
use crate::gc::handled_values;
use crate::gc::implementing_values;
use crate::gc::local_cells;
use crate::gc::local_values;
use crate::gc::machine_values;
use crate::gc::module_cells;
use crate::gc::optional;
use crate::gc::roots_of;
use crate::gc::running_values;
use crate::gc::saved_values;
use crate::gc::stack_cells;
use crate::gc::stack_values;
use crate::gc::trace_values;
use crate::gc::transfer_values;
use crate::gc::work_values;
use crate::handle::occupied_values;
use crate::handle::Handle;
use crate::heap::at;
use crate::heap::ForeignObj;
use crate::heap::HeapView;
use crate::instance::Instance;
use crate::machine::Unwind;
use crate::modload::failures;
use crate::modload::LoadState;
use crate::modload::LoadedModule;
use crate::named::named_view;
use crate::ring::recent_callables;
use crate::turn::further_values;
use crate::turn::instance_roots;
use crate::turn::lemma_occupied;
use crate::turn::lemma_values_are_roots;
use crate::turn::untouched;
use crate::value::CellIdx;
use crate::value::Value;
use vstd::multiset::Multiset;
use vstd::prelude::*;

verus! {

/// Whether a frame holds a value: it runs it, has it in a local, or its pending work has it.
pub open spec fn frame_holds(f: FrameView, v: Value) -> bool {
    ||| (f.kind matches FrameKind::Callable { cal } && v == Value::Callable(cal))
    ||| f.locals.contains(Local::Direct(Some(v)))
    ||| exists|j: int| 0 <= j < f.conts.len() && held_values(#[trigger] f.conts[j]).contains(v)
}

/// Whether a transfer in flight carries a value.
pub open spec fn carries(u: Option<Unwind<TraceView>>, v: Value) -> bool {
    match u {
        Some(Unwind::Raise { value, .. }) => value == v,
        Some(Unwind::Leave { value, .. }) => value == Some(v),
        _ => false,
    }
}

/// Whether the machine holds a value directly: a frame does, the register, the transfer in
/// flight, the tail history, a rebound parameter's saved value, an exception being handled,
/// one that a failed module keeps, or an argument of the foreign call about to begin.
pub open spec fn machine_holds(i: Instance, v: Value) -> bool {
    let m = i.machine@;
    ||| exists|k: int| 0 <= k < m.frames.len() && frame_holds(#[trigger] m.frames[k], v)
    ||| m.reg == Some(v)
    ||| carries(m.unwind, v)
    ||| exists|k: int| 0 <= k < m.ring.len() && v == Value::Callable(
        (#[trigger] m.ring[k]).callable,
    )
    ||| exists|k: int| 0 <= k < m.dyn_stack.len() && (#[trigger] m.dyn_stack[k]).1 == v
    ||| exists|k: int| 0 <= k < m.handling.len() && (#[trigger] m.handling[k]).0 == v
    ||| m.load.states.contains(LoadState::Failed(v))
    ||| (m.foreign is Some && m.foreign->0.args.contains(v))
}

/// Whether the host, or a call on its behalf, holds a value directly: a live handle names it,
/// or it is an argument of a parked request or of a running foreign call.
pub open spec fn host_holds(i: Instance, v: Value) -> bool {
    ||| exists|h: Handle| #[trigger] i.handles@.resolve(h) == Some(v)
    ||| (i.natives@.pending is Some && i.natives@.pending->0.args.contains(v))
    ||| exists|k: int|
        0 <= k < i.natives@.calls.len() && (#[trigger] i.natives@.calls[k]).args.contains(v)
}

/// Whether a cell is held directly: a frame has it as a local, or a module's name leads to it.
pub open spec fn cell_held(i: Instance, c: CellIdx) -> bool {
    ||| exists|k: int|
        0 <= k < i.machine@.frames.len() && (#[trigger] i.machine@.frames[k]).locals.contains(
            Local::Boxed(c),
        )
    ||| exists|k: int, j: int|
        #![trigger i.modules@[k].namespace@[j]]
        0 <= k < i.modules@.len() && 0 <= j < i.modules@[k].namespace@.len()
            && i.modules@[k].namespace@[j].1 == c
}

/// Whether an object is the same in two heaps.
pub open spec fn same_object(a: HeapView, b: HeapView, r: Ref) -> bool {
    let k = r.index as int;
    match r.place {
        Place::Strings => at(a.strings, k) == at(b.strings, k),
        Place::Bytes => at(a.bytes, k) == at(b.bytes, k),
        Place::Bigs => at(a.bigs, k) == at(b.bigs, k),
        Place::Lists => at(a.lists, k) == at(b.lists, k),
        Place::Dicts => at(a.dicts, k) == at(b.dicts, k),
        Place::Records => at(a.records, k) == at(b.records, k),
        Place::Types => at(a.types, k) == at(b.types, k),
        Place::Cells => at(a.cells, k) == at(b.cells, k),
        Place::Callables => at(a.callables, k) == at(b.callables, k),
        Place::Foreigns => at(a.foreigns, k) == at(b.foreigns, k),
    }
}

/// Whether there is no object at a reference.
pub open spec fn gone(h: HeapView, r: Ref) -> bool {
    let k = r.index as int;
    match r.place {
        Place::Strings => at(h.strings, k) is None,
        Place::Bytes => at(h.bytes, k) is None,
        Place::Bigs => at(h.bigs, k) is None,
        Place::Lists => at(h.lists, k) is None,
        Place::Dicts => at(h.dicts, k) is None,
        Place::Records => at(h.records, k) is None,
        Place::Types => at(h.types, k) is None,
        Place::Cells => at(h.cells, k) is None,
        Place::Callables => at(h.callables, k) is None,
        Place::Foreigns => at(h.foreigns, k) is None,
    }
}

/// A collection keeps an object exactly if a root leads to it: what is reachable is left
/// with its contents as they were, and everything else is reclaimed.
pub proof fn law_exactly_the_reachable_survives(h: HeapView, roots: Seq<Ref>, r: Ref)
    ensures
        reachable(h, roots, r) ==> same_object(h, collected(h, roots), r),
        !reachable(h, roots, r) ==> gone(collected(h, roots), r),
{
    reveal(collected);
    assert(r == (Ref { place: r.place, index: r.index as int as usize }));
}

proof fn lemma_in_sum<A>(a: Seq<A>, b: Seq<A>, v: A)
    requires
        a.contains(v) || b.contains(v),
    ensures
        (a + b).contains(v),
{
    if a.contains(v) {
        let k = choose|k: int| 0 <= k < a.len() && a[k] == v;
        assert((a + b)[k] == v);
    } else {
        let k = choose|k: int| 0 <= k < b.len() && b[k] == v;
        assert((a + b)[a.len() + k] == v);
    }
}

proof fn lemma_pushed<A>(a: Seq<A>, last: A, v: A)
    requires
        a.contains(v) || last == v,
    ensures
        a.push(last).contains(v),
{
    if last == v {
        assert(a.push(last)[a.len() as int] == v);
    } else {
        let k = choose|k: int| 0 <= k < a.len() && a[k] == v;
        assert(a.push(last)[k] == v);
    }
}

proof fn lemma_local_held(locals: Seq<Local>, v: Value)
    requires
        locals.contains(Local::Direct(Some(v))),
    ensures
        local_values(locals).contains(v),
    decreases locals.len(),
{
    let rest = locals.drop_last();
    if locals.last() == Local::Direct(Some(v)) {
        lemma_pushed(local_values(rest), v, v);
    } else {
        let k = choose|k: int| 0 <= k < locals.len() && locals[k] == Local::Direct(Some(v));
        assert(rest[k] == locals[k]);
        lemma_local_held(rest, v);
        if let Local::Direct(Some(w)) = locals.last() {
            lemma_pushed(local_values(rest), w, v);
        }
    }
}

proof fn lemma_local_cell_held(locals: Seq<Local>, c: CellIdx)
    requires
        locals.contains(Local::Boxed(c)),
    ensures
        local_cells(locals).contains(c),
    decreases locals.len(),
{
    let rest = locals.drop_last();
    if locals.last() == Local::Boxed(c) {
        lemma_pushed(local_cells(rest), c, c);
    } else {
        let k = choose|k: int| 0 <= k < locals.len() && locals[k] == Local::Boxed(c);
        assert(rest[k] == locals[k]);
        lemma_local_cell_held(rest, c);
        if let Local::Boxed(d) = locals.last() {
            lemma_pushed(local_cells(rest), d, c);
        }
    }
}

proof fn lemma_work_held(conts: Seq<ContView>, j: int, v: Value)
    requires
        0 <= j < conts.len(),
        held_values(conts[j]).contains(v),
    ensures
        work_values(conts).contains(v),
    decreases conts.len(),
{
    let rest = conts.drop_last();
    if j < conts.len() - 1 {
        lemma_work_held(rest, j, v);
    }
    lemma_in_sum(work_values(rest), held_values(conts.last()), v);
}

proof fn lemma_frame_held(f: FrameView, v: Value)
    requires
        frame_holds(f, v),
    ensures
        frame_values(f).contains(v),
{
    let running = running_values(f.kind);
    let locals = local_values(f.locals);
    let work = work_values(f.conts);
    if f.locals.contains(Local::Direct(Some(v))) {
        lemma_local_held(f.locals, v);
        lemma_in_sum(running, locals, v);
    } else if running.len() > 0 && running[0] == v {
        assert(running.contains(v));
        lemma_in_sum(running, locals, v);
    } else {
        let j = choose|j: int|
            0 <= j < f.conts.len() && held_values(#[trigger] f.conts[j]).contains(v);
        lemma_work_held(f.conts, j, v);
    }
    lemma_in_sum(running + locals, work, v);
}

proof fn lemma_stack_held(frames: Seq<FrameView>, k: int, v: Value)
    requires
        0 <= k < frames.len(),
        frame_holds(frames[k], v),
    ensures
        stack_values(frames).contains(v),
    decreases frames.len(),
{
    let rest = frames.drop_last();
    if k < frames.len() - 1 {
        lemma_stack_held(rest, k, v);
    } else {
        lemma_frame_held(frames.last(), v);
    }
    lemma_in_sum(stack_values(rest), frame_values(frames.last()), v);
}

proof fn lemma_stack_cell_held(frames: Seq<FrameView>, k: int, c: CellIdx)
    requires
        0 <= k < frames.len(),
        frames[k].locals.contains(Local::Boxed(c)),
    ensures
        stack_cells(frames).contains(c),
    decreases frames.len(),
{
    let rest = frames.drop_last();
    if k < frames.len() - 1 {
        lemma_stack_cell_held(rest, k, c);
    } else {
        lemma_local_cell_held(frames.last().locals, c);
    }
    lemma_in_sum(stack_cells(rest), local_cells(frames.last().locals), c);
}

proof fn lemma_name_held(modules: Seq<LoadedModule>, k: int, j: int)
    requires
        0 <= k < modules.len(),
        0 <= j < modules[k].namespace@.len(),
    ensures
        module_cells(modules).contains(modules[k].namespace@[j].1),
    decreases modules.len(),
{
    let rest = modules.drop_last();
    let c = modules[k].namespace@[j].1;
    let last = named_view(modules.last().namespace@).map_values(|e: (Seq<char>, CellIdx)| e.1);
    if k < modules.len() - 1 {
        lemma_name_held(rest, k, j);
    } else {
        assert(last[j] == c);
    }
    lemma_in_sum(module_cells(rest), last, c);
}

proof fn lemma_call_held(calls: Seq<ActivationView>, k: int, v: Value)
    requires
        0 <= k < calls.len(),
        calls[k].args.contains(v),
    ensures
        call_values(calls).contains(v),
    decreases calls.len(),
{
    let rest = calls.drop_last();
    if k < calls.len() - 1 {
        lemma_call_held(rest, k, v);
    }
    lemma_in_sum(call_values(rest), calls.last().args, v);
}

proof fn lemma_failure_held(states: Seq<LoadState>, v: Value)
    requires
        states.contains(LoadState::Failed(v)),
    ensures
        failures(states).contains(v),
    decreases states.len(),
{
    let rest = states.drop_last();
    if states.last() == LoadState::Failed(v) {
        lemma_pushed(failures(rest), v, v);
    } else {
        let k = choose|k: int| 0 <= k < states.len() && states[k] == LoadState::Failed(v);
        assert(rest[k] == states[k]);
        lemma_failure_held(rest, v);
        if let LoadState::Failed(w) = states.last() {
            lemma_pushed(failures(rest), w, v);
        }
    }
}

proof fn lemma_handled_held(handling: Seq<(Value, TraceView)>, k: int)
    requires
        0 <= k < handling.len(),
    ensures
        handled_values(handling).contains(handling[k].0),
    decreases handling.len(),
{
    let rest = handling.drop_last();
    let v = handling[k].0;
    if k < handling.len() - 1 {
        lemma_handled_held(rest, k);
    }
    lemma_pushed(handled_values(rest), handling.last().0, v);
    lemma_in_sum(
        handled_values(rest).push(handling.last().0),
        trace_values(handling.last().1),
        v,
    );
}

proof fn lemma_machine_held(i: Instance, v: Value)
    requires
        machine_holds(i, v),
    ensures
        machine_values(i.machine@).contains(v),
{
    let m = i.machine@;
    let frames = stack_values(m.frames);
    let reg = optional(m.reg);
    let transfer = transfer_values(m.unwind);
    let stack = frames + reg + transfer;
    let ring = callable_values(recent_callables(m.ring));
    let saved = saved_values(m.dyn_stack);
    let handled = handled_values(m.handling);
    let failed = failures(m.load.states);
    let kept = ring + saved + handled + failed;
    let fixed = implementing_values(m.protocols) + seq![Value::Type(m.error_type)];
    let call = match m.foreign {
        Some(c) => c.args,
        None => Seq::empty(),
    };
    if exists|k: int| 0 <= k < m.frames.len() && frame_holds(#[trigger] m.frames[k], v) {
        let k = choose|k: int| 0 <= k < m.frames.len() && frame_holds(#[trigger] m.frames[k], v);
        lemma_stack_held(m.frames, k, v);
        lemma_in_sum(frames, reg, v);
        lemma_in_sum(frames + reg, transfer, v);
    } else if m.reg == Some(v) {
        assert(reg[0] == v);
        lemma_in_sum(frames, reg, v);
        lemma_in_sum(frames + reg, transfer, v);
    } else if carries(m.unwind, v) {
        assert(transfer[0] == v);
        lemma_in_sum(frames + reg, transfer, v);
    } else if exists|k: int| 0 <= k < m.ring.len() && v == Value::Callable(
        (#[trigger] m.ring[k]).callable,
    ) {
        let k = choose|k: int| 0 <= k < m.ring.len() && v == Value::Callable(
            (#[trigger] m.ring[k]).callable,
        );
        assert(ring[m.ring.len() - 1 - k] == v);
        lemma_in_sum(ring, saved, v);
        lemma_in_sum(ring + saved, handled, v);
        lemma_in_sum(ring + saved + handled, failed, v);
    } else if exists|k: int| 0 <= k < m.dyn_stack.len() && (#[trigger] m.dyn_stack[k]).1 == v {
        let k = choose|k: int| 0 <= k < m.dyn_stack.len() && (#[trigger] m.dyn_stack[k]).1 == v;
        assert(saved[k] == v);
        lemma_in_sum(ring, saved, v);
        lemma_in_sum(ring + saved, handled, v);
        lemma_in_sum(ring + saved + handled, failed, v);
    } else if exists|k: int| 0 <= k < m.handling.len() && (#[trigger] m.handling[k]).0 == v {
        let k = choose|k: int| 0 <= k < m.handling.len() && (#[trigger] m.handling[k]).0 == v;
        lemma_handled_held(m.handling, k);
        lemma_in_sum(ring + saved, handled, v);
        lemma_in_sum(ring + saved + handled, failed, v);
    } else if m.load.states.contains(LoadState::Failed(v)) {
        lemma_failure_held(m.load.states, v);
        lemma_in_sum(ring + saved + handled, failed, v);
    } else {
        assert(call.contains(v));
    }
    if stack.contains(v) || kept.contains(v) {
        lemma_in_sum(stack, kept, v);
        lemma_in_sum(stack + kept, fixed, v);
    }
    lemma_in_sum(stack + kept + fixed, call, v);
}

proof fn lemma_host_held(i: Instance, v: Value)
    requires
        host_holds(i, v),
    ensures
        further_values(i, untouched(i)).contains(v),
{
    let held = i.natives@.held();
    let calls = call_values(i.natives@.calls);
    let occupied = occupied_values(i.handles@.slots);
    let parked = match i.natives@.pending {
        Some(p) => p.args,
        None => Seq::empty(),
    };
    let last = match i.raised_trace {
        Some(t) => trace_values(t@),
        None => Seq::empty(),
    };
    if exists|h: Handle| #[trigger] i.handles@.resolve(h) == Some(v) {
        let h = choose|h: Handle| #[trigger] i.handles@.resolve(h) == Some(v);
        lemma_occupied(i.handles@.slots, h.slot());
        lemma_in_sum(held, occupied, v);
    } else {
        if !(i.natives@.pending is Some && i.natives@.pending->0.args.contains(v)) {
            let k = choose|k: int|
                0 <= k < i.natives@.calls.len() && (#[trigger] i.natives@.calls[k]).args.contains(v);
            lemma_call_held(i.natives@.calls, k, v);
        }
        lemma_in_sum(calls, parked, v);
        lemma_in_sum(held, occupied, v);
    }
    lemma_in_sum(held + occupied, last, v);
}

/// Everything that the machine or the host holds directly is a root, so a collection leaves
/// the object it stands for as it was.
pub proof fn law_what_is_held_is_a_root(i: Instance, v: Value)
    requires
        machine_holds(i, v) || host_holds(i, v),
        value_ref(v) is Some,
    ensures
        instance_roots(i).contains(value_ref(v)->0),
        same_object(i.heap@, collected(i.heap@, instance_roots(i)), value_ref(v)->0),
{
    reveal(roots_of);
    let r = value_ref(v)->0;
    let direct = machine_values(i.machine@);
    let more = further_values(i, untouched(i));
    if machine_holds(i, v) {
        lemma_machine_held(i, v);
    } else {
        lemma_host_held(i, v);
    }
    lemma_in_sum(direct, more, v);
    lemma_values_are_roots(direct + more, v);
    let refs = value_refs(direct + more);
    let n = choose|n: int| 0 <= n < refs.len() && refs[n] == r;
    assert(instance_roots(i)[n] == r);
    assert(reached(i.heap@, instance_roots(i), r, 0));
    law_exactly_the_reachable_survives(i.heap@, instance_roots(i), r);
}

/// The cells of locals and of modules' names are roots, so a collection leaves them as they
/// were.
pub proof fn law_named_cells_are_roots(i: Instance, c: CellIdx)
    requires
        cell_held(i, c),
    ensures
        instance_roots(i).contains(cell_ref(c)),
        same_object(i.heap@, collected(i.heap@, instance_roots(i)), cell_ref(c)),
{
    reveal(roots_of);
    let r = cell_ref(c);
    let stack = stack_cells(i.machine@.frames);
    let names = module_cells(i.modules@);
    if exists|k: int|
        0 <= k < i.machine@.frames.len() && (#[trigger] i.machine@.frames[k]).locals.contains(
            Local::Boxed(c),
        ) {
        let k = choose|k: int|
            0 <= k < i.machine@.frames.len() && (#[trigger] i.machine@.frames[k]).locals.contains(
                Local::Boxed(c),
            );
        lemma_stack_cell_held(i.machine@.frames, k, c);
    } else {
        let (k, j) = choose|k: int, j: int|
            #![trigger i.modules@[k].namespace@[j]]
            0 <= k < i.modules@.len() && 0 <= j < i.modules@[k].namespace@.len()
                && i.modules@[k].namespace@[j].1 == c;
        lemma_name_held(i.modules@, k, j);
    }
    lemma_in_sum(stack, names, c);
    let n = choose|n: int| 0 <= n < (stack + names).len() && (stack + names)[n] == c;
    let values = value_refs(machine_values(i.machine@) + further_values(i, untouched(i)));
    assert(instance_roots(i)[values.len() + n] == r);
    assert(reached(i.heap@, instance_roots(i), r, 0));
    law_exactly_the_reachable_survives(i.heap@, instance_roots(i), r);
}

proof fn lemma_handed_out(
    before: Seq<Option<ForeignObj>>,
    after: Seq<Option<ForeignObj>>,
    n: nat,
    k: int,
)
    requires
        0 <= k < n <= before.len(),
        before[k] is Some,
        before[k]->0.finalizer is Some,
        at(after, k) is None,
    ensures
        finalizations(before, after, n).contains(
            (Finalization { finalizer: before[k]->0.finalizer->0, ptr: before[k]->0.ptr }),
        ),
    decreases n,
{
    let wanted = Finalization { finalizer: before[k]->0.finalizer->0, ptr: before[k]->0.ptr };
    let rest = finalizations(before, after, (n - 1) as nat);
    if k == n - 1 {
        lemma_pushed(rest, wanted, wanted);
    } else {
        lemma_handed_out(before, after, (n - 1) as nat, k);
        if let (Some(f), None) = (at(before, n - 1), at(after, n - 1)) {
            if let Some(finalizer) = f.finalizer {
                lemma_pushed(rest, Finalization { finalizer, ptr: f.ptr }, wanted);
            }
        }
    }
}

/// A foreign object's finalizer is handed out, with the object's own token, by the first
/// collection that no root leads to it in; until then the object stays as it is.
pub proof fn law_foreigns_are_finalized_when_unreachable(
    h: HeapView,
    roots: Seq<Ref>,
    k: usize,
    object: ForeignObj,
)
    requires
        at(h.foreigns, k as int) == Some(object),
        object.finalizer is Some,
    ensures
        reachable(h, roots, Ref { place: Place::Foreigns, index: k }) ==> at(
            collected(h, roots).foreigns,
            k as int,
        ) == Some(object),
        !reachable(h, roots, Ref { place: Place::Foreigns, index: k }) ==> orphaned(
            h,
            roots,
        ).contains((Finalization { finalizer: object.finalizer->0, ptr: object.ptr })) && at(
            collected(h, roots).foreigns,
            k as int,
        ) is None,
{
    reveal(collected);
    reveal(orphaned);
    let after = surviving(h.foreigns, h, roots, Place::Foreigns);
    let r = Ref { place: Place::Foreigns, index: k };
    assert(r == (Ref { place: Place::Foreigns, index: k as int as usize }));
    if !reachable(h, roots, r) {
        lemma_handed_out(h.foreigns, after, h.foreigns.len(), k as int);
    }
}

/// One step of a host that tidies up: it changes what its handles keep, has the heap
/// collected, or takes the finalizers it is to run. `ran` is what it has taken so far.
pub open spec fn tidied(
    a: Instance,
    ran: Seq<Finalization>,
    b: Instance,
    ran_after: Seq<Finalization>,
) -> bool {
    ||| b == (Instance { handles: b.handles, ..a }) && ran_after == ran
    ||| {
        &&& b.heap@ == collected(a.heap@, instance_roots(a))
        &&& b.finalizations@ == a.finalizations@ + orphaned(a.heap@, instance_roots(a))
        &&& b == (Instance { heap: b.heap, finalizations: b.finalizations, ..a })
        &&& ran_after == ran
    }
    ||| {
        &&& b.finalizations@ == Seq::<Finalization>::empty()
        &&& b == (Instance { finalizations: b.finalizations, ..a })
        &&& ran_after == ran + a.finalizations@
    }
}

/// Whether a number of such steps leads from an instance to another.
pub open spec fn tidied_to(
    a: Instance,
    ran: Seq<Finalization>,
    b: Instance,
    ran_after: Seq<Finalization>,
    n: nat,
) -> bool
    decreases n,
{
    if n == 0 {
        a == b && ran == ran_after
    } else {
        exists|c: Instance, ran_then: Seq<Finalization>|
            tidied_to(a, ran, c, ran_then, (n - 1) as nat) && #[trigger] tidied(
                c,
                ran_then,
                b,
                ran_after,
            )
    }
}

/// All finalizers that have run, are to be run, or will be when the instance is destroyed.
pub open spec fn ever_run(i: Instance, ran: Seq<Finalization>) -> Multiset<Finalization> {
    ran.to_multiset().add((i.finalizations@ + all_finalizations(i.heap@)).to_multiset())
}

/// Over any run of releases, collections and takings, every finalizer runs exactly once: what
/// has run by then and what destroying the instance hands out are together the finalizers
/// there were.
pub proof fn law_finalizers_run_exactly_once_over_time(
    a: Instance,
    ran: Seq<Finalization>,
    b: Instance,
    ran_after: Seq<Finalization>,
    n: nat,
)
    requires
        tidied_to(a, ran, b, ran_after, n),
    ensures
        ever_run(b, ran_after) == ever_run(a, ran),
    decreases n,
{
    if n > 0 {
        let (c, ran_then) = choose|c: Instance, ran_then: Seq<Finalization>|
            tidied_to(a, ran, c, ran_then, (n - 1) as nat) && #[trigger] tidied(
                c,
                ran_then,
                b,
                ran_after,
            );
        law_finalizers_run_exactly_once_over_time(a, ran, c, ran_then, (n - 1) as nat);
        let due = c.finalizations@;
        let left = all_finalizations(c.heap@);
        lemma_multiset_commutative(due, left);
        if b.heap == c.heap && b.finalizations == c.finalizations {
        } else if ran_after == ran_then && b.heap@ == collected(c.heap@, instance_roots(c))
            && b.finalizations@ == due + orphaned(c.heap@, instance_roots(c)) {
            let gone_now = orphaned(c.heap@, instance_roots(c));
            let still = all_finalizations(b.heap@);
            crate::collect::law_every_finalizer_runs_exactly_once(c.heap@, instance_roots(c));
            lemma_multiset_commutative(due, gone_now);
            lemma_multiset_commutative(due + gone_now, still);
            assert(ever_run(b, ran_after) =~= ever_run(c, ran_then));
        } else {
            let none = Seq::<Finalization>::empty();
            lemma_multiset_commutative(ran_then, due);
            assert(none + left =~= left);
            assert(ever_run(b, ran_after) =~= ever_run(c, ran_then));
        }
    }
}

proof fn lemma_multiset_commutative(a: Seq<Finalization>, b: Seq<Finalization>)
    ensures
        (a + b).to_multiset() == a.to_multiset().add(b.to_multiset()),
{
    vstd::seq_lib::lemma_multiset_commutative(a, b);
}

} // verus!
