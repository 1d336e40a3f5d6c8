//! The roots of a collection: every value and cell that the machine, the modules and the
//! host can still reach directly.
use crate::collect::cell_refs;
use crate::collect::refs_of_cells;
use crate::collect::refs_of_values;
use crate::collect::value_refs;
use crate::collect::Ref;
use crate::cont::each_value;
use crate::cont::held_values;
use crate::cont::Cont;
use crate::cont::ContView;
use crate::error::Trace;
use crate::error::TraceFrame;
use crate::error::TraceView;
use crate::frame::conts_view;
use crate::frame::FrameKind;
use crate::frame::FrameView;
use crate::frame::Local;
use crate::machine::handling_view;
use crate::machine::Machine;
use crate::machine::MachineView;
use crate::machine::Unwind;
use crate::modload::failures;
use crate::modload::LoadedModule;
use crate::named::named_view;
use crate::protocol::Implementation;
use crate::ring::recent_callables;
use crate::value::CalIdx;
use crate::value::CellIdx;
use crate::value::Value;
use vstd::prelude::*;

verus! {

/// The values of some locals.
pub open spec fn local_values(locals: Seq<Local>) -> Seq<Value>
    decreases locals.len(),
{
    if locals.len() == 0 {
        Seq::empty()
    } else {
        let before = local_values(locals.drop_last());
        match locals.last() {
            Local::Direct(Some(v)) => before.push(v),
            _ => before,
        }
    }
}

/// The cells of some locals.
pub open spec fn local_cells(locals: Seq<Local>) -> Seq<CellIdx>
    decreases locals.len(),
{
    if locals.len() == 0 {
        Seq::empty()
    } else {
        let before = local_cells(locals.drop_last());
        match locals.last() {
            Local::Boxed(c) => before.push(c),
            _ => before,
        }
    }
}

/// The values that some pending work holds.
pub open spec fn work_values(conts: Seq<ContView>) -> Seq<Value>
    decreases conts.len(),
{
    if conts.len() == 0 {
        Seq::empty()
    } else {
        work_values(conts.drop_last()) + held_values(conts.last())
    }
}

/// What a frame runs, as a value.
pub open spec fn running_values(kind: FrameKind) -> Seq<Value> {
    match kind {
        FrameKind::Callable { cal } => seq![Value::Callable(cal)],
        _ => Seq::empty(),
    }
}

/// The values of a frame: what it runs, its locals and what its pending work holds.
pub open spec fn frame_values(f: FrameView) -> Seq<Value> {
    running_values(f.kind) + local_values(f.locals) + work_values(f.conts)
}

/// The values of some frames.
pub open spec fn stack_values(frames: Seq<FrameView>) -> Seq<Value>
    decreases frames.len(),
{
    if frames.len() == 0 {
        Seq::empty()
    } else {
        stack_values(frames.drop_last()) + frame_values(frames.last())
    }
}

/// The cells of some frames.
pub open spec fn stack_cells(frames: Seq<FrameView>) -> Seq<CellIdx>
    decreases frames.len(),
{
    if frames.len() == 0 {
        Seq::empty()
    } else {
        stack_cells(frames.drop_last()) + local_cells(frames.last().locals)
    }
}

/// Callables as values.
pub open spec fn callable_values(cals: Seq<CalIdx>) -> Seq<Value> {
    cals.map_values(|c: CalIdx| Value::Callable(c))
}

/// The callables that some trace frames ran.
pub open spec fn traced_values(frames: Seq<TraceFrame>) -> Seq<Value>
    decreases frames.len(),
{
    if frames.len() == 0 {
        Seq::empty()
    } else {
        let before = traced_values(frames.drop_last());
        match frames.last().callable {
            Some(c) => before.push(Value::Callable(c)),
            None => before,
        }
    }
}

/// The callables of a trace.
pub open spec fn trace_values(t: TraceView) -> Seq<Value> {
    traced_values(t.frames) + callable_values(t.tail_elided)
}

/// The values of the exceptions being handled.
pub open spec fn handled_values(handling: Seq<(Value, TraceView)>) -> Seq<Value>
    decreases handling.len(),
{
    if handling.len() == 0 {
        Seq::empty()
    } else {
        handled_values(handling.drop_last()).push(handling.last().0) + trace_values(
            handling.last().1,
        )
    }
}

/// The values of a transfer in flight.
pub open spec fn transfer_values(u: Option<Unwind<TraceView>>) -> Seq<Value> {
    match u {
        Some(Unwind::Raise { value, trace, .. }) => seq![value] + trace_values(trace),
        Some(Unwind::Leave { value, .. }) => optional(value),
        _ => Seq::empty(),
    }
}

/// An optional value as values.
pub open spec fn optional(v: Option<Value>) -> Seq<Value> {
    match v {
        Some(v) => seq![v],
        None => Seq::empty(),
    }
}

/// The saved values of rebound dynamic parameters.
pub open spec fn saved_values(saved: Seq<(CellIdx, Value)>) -> Seq<Value> {
    saved.map_values(|e: (CellIdx, Value)| e.1)
}

/// What the protocols' implementations call.
pub open spec fn implementing_values(all: Seq<Implementation>) -> Seq<Value> {
    all.map_values(|i: Implementation| Value::Callable(i.cal))
}

/// The values the machine reaches directly.
pub open spec fn machine_values(m: MachineView) -> Seq<Value> {
    let stack = stack_values(m.frames) + optional(m.reg) + transfer_values(m.unwind);
    let kept = callable_values(recent_callables(m.ring)) + saved_values(m.dyn_stack)
        + handled_values(m.handling) + failures(m.load.states);
    let fixed = implementing_values(m.protocols) + seq![Value::Type(m.error_type)];
    let call = match m.foreign {
        Some(c) => c.args,
        None => Seq::empty(),
    };
    stack + kept + fixed + call
}

/// The cells of the names of some modules.
pub open spec fn module_cells(modules: Seq<LoadedModule>) -> Seq<CellIdx>
    decreases modules.len(),
{
    if modules.len() == 0 {
        Seq::empty()
    } else {
        module_cells(modules.drop_last()) + named_view(
            modules.last().namespace@,
        ).map_values(|e: (Seq<char>, CellIdx)| e.1)
    }
}

/// The roots: what the machine, the modules' names and some further values reach.
#[verifier::opaque]
pub open spec fn roots_of(m: MachineView, modules: Seq<LoadedModule>, more: Seq<Value>) -> Seq<Ref> {
    value_refs(machine_values(m) + more) + cell_refs(stack_cells(m.frames) + module_cells(modules))
}

fn add_all(out: &mut Vec<Value>, more: &Vec<Value>)
    ensures
        final(out)@ == old(out)@ + more@,
{
    let mut i: usize = 0;
    while i < more.len()
        invariant
            i <= more@.len(),
            out@ =~= old(out)@ + more@.take(i as int),
        decreases more@.len() - i,
    {
        out.push(more[i]);
        i = i + 1;
    }
    assert(more@.take(i as int) =~= more@);
}

fn values_of_locals(locals: &Vec<Local>) -> (r: (Vec<Value>, Vec<CellIdx>))
    ensures
        r.0@ == local_values(locals@),
        r.1@ == local_cells(locals@),
{
    let mut values: Vec<Value> = Vec::new();
    let mut cells: Vec<CellIdx> = Vec::new();
    let mut i: usize = 0;
    assert(locals@.take(0) =~= Seq::empty());
    while i < locals.len()
        invariant
            i <= locals@.len(),
            values@ == local_values(locals@.take(i as int)),
            cells@ == local_cells(locals@.take(i as int)),
        decreases locals@.len() - i,
    {
        assert(locals@.take(i + 1).drop_last() =~= locals@.take(i as int));
        match locals[i] {
            Local::Direct(Some(v)) => values.push(v),
            Local::Direct(None) => {},
            Local::Boxed(c) => cells.push(c),
        }
        i = i + 1;
    }
    assert(locals@.take(i as int) =~= locals@);
    (values, cells)
}

fn values_of_work(conts: &Vec<Cont>) -> (r: Vec<Value>)
    ensures
        r@ == work_values(conts_view(conts@)),
{
    let mut r: Vec<Value> = Vec::new();
    let mut i: usize = 0;
    let ghost all = conts_view(conts@);
    assert(all.take(0) =~= Seq::empty());
    while i < conts.len()
        invariant
            i <= conts@.len(),
            all == conts_view(conts@),
            r@ == work_values(all.take(i as int)),
        decreases conts@.len() - i,
    {
        assert(all.take(i + 1).drop_last() =~= all.take(i as int));
        assert(all.take(i + 1).last() == conts@[i as int]@);
        let held = each_value(&conts[i]);
        add_all(&mut r, &held);
        i = i + 1;
    }
    assert(all.take(i as int) =~= all);
    r
}

fn values_of_stack(machine: &Machine) -> (r: (Vec<Value>, Vec<CellIdx>))
    ensures
        r.0@ == stack_values(machine@.frames),
        r.1@ == stack_cells(machine@.frames),
{
    let mut values: Vec<Value> = Vec::new();
    let mut cells: Vec<CellIdx> = Vec::new();
    let mut i: usize = 0;
    let ghost all = machine@.frames;
    assert(all.take(0) =~= Seq::empty());
    while i < machine.frames.len()
        invariant
            i <= machine.frames@.len(),
            all == machine@.frames,
            values@ == stack_values(all.take(i as int)),
            cells@ == stack_cells(all.take(i as int)),
        decreases machine.frames@.len() - i,
    {
        let f = &machine.frames[i];
        let ghost before = values@;
        let ghost cells_before = cells@;
        assert(all.take(i + 1).drop_last() =~= all.take(i as int));
        assert(all.take(i + 1).last() == f@);
        if let FrameKind::Callable { cal } = f.kind {
            values.push(Value::Callable(cal));
        }
        assert(values@ =~= before + running_values(f.kind));
        let (locals, boxed) = values_of_locals(&f.locals);
        add_all(&mut values, &locals);
        let held = values_of_work(&f.conts);
        add_all(&mut values, &held);
        assert(values@ =~= before + frame_values(f@));
        let mut k: usize = 0;
        while k < boxed.len()
            invariant
                k <= boxed@.len(),
                cells@ =~= cells_before + boxed@.take(k as int),
            decreases boxed@.len() - k,
        {
            cells.push(boxed[k]);
            k = k + 1;
        }
        assert(boxed@.take(k as int) =~= boxed@);
        i = i + 1;
    }
    assert(all.take(i as int) =~= all);
    (values, cells)
}

fn values_of_callables(cals: &Vec<CalIdx>) -> (r: Vec<Value>)
    ensures
        r@ == callable_values(cals@),
{
    let mut r: Vec<Value> = Vec::new();
    let mut i: usize = 0;
    while i < cals.len()
        invariant
            i <= cals@.len(),
            r@ =~= callable_values(cals@).take(i as int),
        decreases cals@.len() - i,
    {
        r.push(Value::Callable(cals[i]));
        i = i + 1;
    }
    assert(r@ =~= callable_values(cals@));
    r
}

/// The callables of a trace.
pub fn values_of_trace(trace: &Trace) -> (r: Vec<Value>)
    ensures
        r@ == trace_values(trace@),
{
    let mut r: Vec<Value> = Vec::new();
    let mut i: usize = 0;
    let ghost all = trace@.frames;
    assert(all.take(0) =~= Seq::empty());
    while i < trace.frames.len()
        invariant
            i <= trace.frames@.len(),
            all == trace@.frames,
            all == trace.frames@,
            r@ == traced_values(all.take(i as int)),
        decreases trace.frames@.len() - i,
    {
        assert(all.take(i + 1).drop_last() =~= all.take(i as int));
        if let Some(c) = trace.frames[i].callable {
            r.push(Value::Callable(c));
        }
        i = i + 1;
    }
    assert(all.take(i as int) =~= all);
    let elided = values_of_callables(&trace.tail_elided);
    add_all(&mut r, &elided);
    r
}

fn values_of_handling(handling: &Vec<(Value, Trace)>) -> (r: Vec<Value>)
    ensures
        r@ == handled_values(handling_view(handling@)),
{
    let mut r: Vec<Value> = Vec::new();
    let mut i: usize = 0;
    let ghost all = handling_view(handling@);
    assert(all.take(0) =~= Seq::empty());
    while i < handling.len()
        invariant
            i <= handling@.len(),
            all == handling_view(handling@),
            r@ == handled_values(all.take(i as int)),
        decreases handling@.len() - i,
    {
        assert(all.take(i + 1).drop_last() =~= all.take(i as int));
        assert(all.take(i + 1).last() == (handling@[i as int].0, handling@[i as int].1@));
        r.push(handling[i].0);
        let traced = values_of_trace(&handling[i].1);
        add_all(&mut r, &traced);
        i = i + 1;
    }
    assert(all.take(i as int) =~= all);
    r
}

fn values_of_transfer(machine: &Machine) -> (r: Vec<Value>)
    ensures
        r@ == transfer_values(machine@.unwind),
{
    let mut r: Vec<Value> = Vec::new();
    match &machine.unwind {
        Some(Unwind::Raise { value, trace, .. }) => {
            r.push(*value);
            let traced = values_of_trace(trace);
            add_all(&mut r, &traced);
            assert(r@ =~= seq![*value] + trace_values(trace@));
        },
        Some(Unwind::Leave { value, .. }) => {
            if let Some(v) = value {
                r.push(*v);
            }
            assert(r@ =~= optional(*value));
        },
        _ => {},
    }
    r
}

fn values_of_saved(saved: &Vec<(CellIdx, Value)>) -> (r: Vec<Value>)
    ensures
        r@ == saved_values(saved@),
{
    let mut r: Vec<Value> = Vec::new();
    let mut i: usize = 0;
    while i < saved.len()
        invariant
            i <= saved@.len(),
            r@ =~= saved_values(saved@).take(i as int),
        decreases saved@.len() - i,
    {
        r.push(saved[i].1);
        i = i + 1;
    }
    assert(r@ =~= saved_values(saved@));
    r
}

fn values_of_implementations(all: &Vec<Implementation>) -> (r: Vec<Value>)
    ensures
        r@ == implementing_values(all@),
{
    let mut r: Vec<Value> = Vec::new();
    let mut i: usize = 0;
    while i < all.len()
        invariant
            i <= all@.len(),
            r@ =~= implementing_values(all@).take(i as int),
        decreases all@.len() - i,
    {
        r.push(Value::Callable(all[i].cal));
        i = i + 1;
    }
    assert(r@ =~= implementing_values(all@));
    r
}

fn cells_of_modules(modules: &Vec<LoadedModule>) -> (r: Vec<CellIdx>)
    ensures
        r@ == module_cells(modules@),
{
    let mut r: Vec<CellIdx> = Vec::new();
    let mut i: usize = 0;
    assert(modules@.take(0) =~= Seq::empty());
    while i < modules.len()
        invariant
            i <= modules@.len(),
            r@ == module_cells(modules@.take(i as int)),
        decreases modules@.len() - i,
    {
        assert(modules@.take(i + 1).drop_last() =~= modules@.take(i as int));
        let names = &modules[i].namespace;
        let ghost own = named_view(names@).map_values(|e: (Seq<char>, CellIdx)| e.1);
        let ghost before = r@;
        let mut k: usize = 0;
        while k < names.len()
            invariant
                k <= names@.len(),
                own == named_view(names@).map_values(|e: (Seq<char>, CellIdx)| e.1),
                r@ =~= before + own.take(k as int),
            decreases names@.len() - k,
        {
            assert(own[k as int] == names@[k as int].1);
            r.push(names[k].1);
            k = k + 1;
        }
        assert(own.take(k as int) =~= own);
        i = i + 1;
    }
    assert(modules@.take(i as int) =~= modules@);
    r
}

/// Gathers the roots.
pub fn gather_roots(machine: &Machine, modules: &Vec<LoadedModule>, more: &Vec<Value>) -> (r: Vec<
    Ref,
>)
    ensures
        r@ == roots_of(machine@, modules@, more@),
{
    proof {
        reveal(roots_of);
    }
    let (values, cells) = values_of_stack(machine);
    let mut values = values;
    if let Some(v) = machine.reg {
        values.push(v);
    }
    let transfer = values_of_transfer(machine);
    add_all(&mut values, &transfer);
    let ghost stack = values@;
    assert(stack =~= stack_values(machine@.frames) + optional(machine@.reg) + transfer_values(
        machine@.unwind,
    ));
    let recent = machine.ring.most_recent_first();
    let elided = values_of_callables(&recent);
    add_all(&mut values, &elided);
    let saved = values_of_saved(&machine.dyn_stack);
    add_all(&mut values, &saved);
    let handled = values_of_handling(&machine.handling);
    add_all(&mut values, &handled);
    let failed = machine.load.failed_values();
    add_all(&mut values, &failed);
    let ghost kept = callable_values(recent_callables(machine@.ring)) + saved_values(
        machine@.dyn_stack,
    ) + handled_values(machine@.handling) + failures(machine@.load.states);
    assert(values@ =~= stack + kept);
    let implementing = values_of_implementations(&machine.protocols);
    add_all(&mut values, &implementing);
    values.push(Value::Type(machine.error_type));
    let ghost fixed = implementing_values(machine@.protocols) + seq![
        Value::Type(machine@.error_type),
    ];
    assert(values@ =~= stack + kept + fixed);
    if let Some(c) = &machine.foreign {
        add_all(&mut values, &c.args);
    }
    assert(values@ =~= machine_values(machine@));
    add_all(&mut values, more);
    let mut all_cells = cells;
    let own = cells_of_modules(modules);
    let ghost boxed = all_cells@;
    let mut k: usize = 0;
    while k < own.len()
        invariant
            k <= own@.len(),
            all_cells@ =~= boxed + own@.take(k as int),
        decreases own@.len() - k,
    {
        all_cells.push(own[k]);
        k = k + 1;
    }
    assert(own@.take(k as int) =~= own@);
    let mut r = refs_of_values(&values);
    let more_refs = refs_of_cells(&all_cells);
    let ghost first = r@;
    let mut i: usize = 0;
    while i < more_refs.len()
        invariant
            i <= more_refs@.len(),
            r@ =~= first + more_refs@.take(i as int),
        decreases more_refs@.len() - i,
    {
        r.push(more_refs[i]);
        i = i + 1;
    }
    assert(more_refs@.take(i as int) =~= more_refs@);
    r
}

} // verus!
