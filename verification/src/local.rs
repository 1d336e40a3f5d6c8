//! Frame locals: a slot holds its value, or the cell that closures share with it.
use crate::frame::Local;
use crate::heap::CellKind;
use crate::heap::Heap;
use crate::heap::HeapView;
use crate::machine::Machine;
use crate::machine::MachineView;
use crate::resolve::CallableInfo;
use crate::resolve::CaptureInfo;
use crate::value::CellIdx;
use crate::value::Value;
use vstd::prelude::*;

verus! {

/// The value of a slot.
pub open spec fn local_value(h: HeapView, local: Local) -> Option<Value> {
    match local {
        Local::Direct(v) => v,
        Local::Boxed(cell) => h.cell_value(cell),
    }
}

/// Reads a slot.
pub fn read(heap: &Heap, local: Local) -> (r: Option<Value>)
    ensures
        r == local_value(heap@, local),
{
    match local {
        Local::Direct(v) => v,
        Local::Boxed(cell) => heap.cell_value(cell),
    }
}

/// Heap and machine after assigning to a slot: a shared cell is changed in place.
pub open spec fn written(h: HeapView, m: MachineView, frame: int, slot: u16, value: Value) -> (
    HeapView,
    MachineView,
) {
    match m.slot(frame, slot) {
        Some(Local::Direct(_)) => (h, m.with_slot(frame, slot, Local::Direct(Some(value)))),
        Some(Local::Boxed(cell)) => (h.with_cell(cell, Some(value)), m),
        None => (h, m.broken()),
    }
}

/// Assigns to a slot.
pub fn write(heap: &mut Heap, machine: &mut Machine, frame: usize, slot: u16, value: Value)
    ensures
        (final(heap)@, final(machine)@) == written(
            old(heap)@,
            old(machine)@,
            frame as int,
            slot,
            value,
        ),
{
    match machine.local(frame, slot) {
        Some(Local::Direct(_)) => machine.set_local(frame, slot, Local::Direct(Some(value))),
        Some(Local::Boxed(cell)) => heap.set_cell(cell, Some(value)),
        None => machine.fail(),
    }
}

/// Heap and machine after a declaration bound a slot: a shared slot gets a new cell, so
/// that what an earlier run of the declaration bound stays as it is.
pub open spec fn rebound(h: HeapView, m: MachineView, frame: int, slot: u16, value: Value) -> (
    HeapView,
    MachineView,
) {
    match m.slot(frame, slot) {
        Some(Local::Direct(_)) => (h, m.with_slot(frame, slot, Local::Direct(Some(value)))),
        Some(Local::Boxed(_)) => (
            h.new_cell(CellKind::Let, Some(value)),
            m.with_slot(frame, slot, Local::Boxed(CellIdx(h.cells.len() as usize))),
        ),
        None => (h, m.broken()),
    }
}

/// Binds a slot anew.
pub fn rebind(heap: &mut Heap, machine: &mut Machine, frame: usize, slot: u16, value: Value)
    ensures
        (final(heap)@, final(machine)@) == rebound(
            old(heap)@,
            old(machine)@,
            frame as int,
            slot,
            value,
        ),
{
    match machine.local(frame, slot) {
        Some(Local::Direct(_)) => machine.set_local(frame, slot, Local::Direct(Some(value))),
        Some(Local::Boxed(_)) => {
            let cell = heap.alloc_cell(CellKind::Let, Some(value));
            machine.set_local(frame, slot, Local::Boxed(cell));
        },
        None => machine.fail(),
    }
}

/// The cell of a shared slot.
pub open spec fn shared_cell(local: Option<Local>) -> Option<CellIdx> {
    match local {
        Some(Local::Boxed(cell)) => Some(cell),
        _ => None,
    }
}

/// Whether a slot is one that a capture fills.
pub open spec fn captured_slot(captures: Seq<CaptureInfo>, slot: int) -> bool {
    exists|i: int| 0 <= i < captures.len() && (#[trigger] captures[i]).slot == slot
}

/// Whether a slot lives in a cell.
pub open spec fn boxed_slot(info: CallableInfo, slot: int) -> bool {
    slot < info.cell_boxed@.len() && info.cell_boxed@[slot]
}

/// A parameter's value among those bound.
pub open spec fn bound_value(raw: Seq<Option<Value>>, slot: int) -> Option<Value> {
    if slot < raw.len() {
        raw[slot]
    } else {
        None
    }
}

/// The heap and the first `n` locals of a body, before the captures are put in.
pub open spec fn fresh_locals(h: HeapView, info: CallableInfo, raw: Seq<Option<Value>>, n: nat) -> (
    HeapView,
    Seq<Local>,
)
    decreases n,
{
    if n == 0 {
        (h, Seq::empty())
    } else {
        let (before, locals) = fresh_locals(h, info, raw, (n - 1) as nat);
        let slot = n - 1;
        if captured_slot(info.captures@, slot) {
            (before, locals.push(Local::Direct(None)))
        } else if boxed_slot(info, slot) {
            (
                before.new_cell(CellKind::Let, bound_value(raw, slot)),
                locals.push(Local::Boxed(CellIdx(before.cells.len() as usize))),
            )
        } else {
            (before, locals.push(Local::Direct(bound_value(raw, slot))))
        }
    }
}

/// Locals with the first `n` captured cells put in.
pub open spec fn spliced(
    locals: Seq<Local>,
    captures: Seq<CaptureInfo>,
    cells: Seq<CellIdx>,
    n: nat,
) -> Seq<Local>
    decreases n,
{
    if n == 0 || n > captures.len() || n > cells.len() {
        locals
    } else {
        let before = spliced(locals, captures, cells, (n - 1) as nat);
        let slot = captures[n - 1].slot as int;
        if slot < before.len() {
            before.update(slot, Local::Boxed(cells[n - 1]))
        } else {
            before
        }
    }
}

/// How many captures have a cell.
pub open spec fn paired(captures: Seq<CaptureInfo>, cells: Seq<CellIdx>) -> nat {
    if captures.len() < cells.len() {
        captures.len()
    } else {
        cells.len()
    }
}

/// The heap and the locals of a body when it is entered.
pub open spec fn entry_locals(
    h: HeapView,
    info: CallableInfo,
    raw: Seq<Option<Value>>,
    cells: Seq<CellIdx>,
) -> (HeapView, Seq<Local>) {
    let (after, locals) = fresh_locals(h, info, raw, info.slot_count as nat);
    (after, spliced(locals, info.captures@, cells, paired(info.captures@, cells)))
}

fn is_captured(captures: &Vec<CaptureInfo>, slot: usize) -> (r: bool)
    ensures
        r == captured_slot(captures@, slot as int),
{
    let mut i: usize = 0;
    while i < captures.len()
        invariant
            i <= captures@.len(),
            forall|k: int| 0 <= k < i ==> (#[trigger] captures@[k]).slot != slot,
        decreases captures@.len() - i,
    {
        if captures[i].slot as usize == slot {
            assert(captures@[i as int].slot == slot);
            return true;
        }
        i = i + 1;
    }
    false
}

/// Builds the locals of a body when it is entered: bound parameters in their slots, shared
/// slots in new cells, captures in the cells they captured.
pub fn build(
    info: &CallableInfo,
    heap: &mut Heap,
    raw: &Vec<Option<Value>>,
    captured: &Vec<CellIdx>,
) -> (r: Vec<Local>)
    ensures
        (final(heap)@, r@) == entry_locals(old(heap)@, *info, raw@, captured@),
{
    let n: usize = info.slot_count as usize;
    let mut locals: Vec<Local> = Vec::new();
    let mut i: usize = 0;
    while i < n
        invariant
            i <= n,
            n == info.slot_count,
            (heap@, locals@) == fresh_locals(old(heap)@, *info, raw@, i as nat),
        decreases n - i,
    {
        let value = if i < raw.len() {
            raw[i]
        } else {
            None
        };
        if is_captured(&info.captures, i) {
            locals.push(Local::Direct(None));
        } else if i < info.cell_boxed.len() && info.cell_boxed[i] {
            let cell = heap.alloc_cell(CellKind::Let, value);
            locals.push(Local::Boxed(cell));
        } else {
            locals.push(Local::Direct(value));
        }
        i = i + 1;
    }
    let ghost fresh = locals@;
    let mut k: usize = 0;
    while k < info.captures.len() && k < captured.len()
        invariant
            k <= info.captures@.len(),
            k <= captured@.len(),
            locals@ == spliced(fresh, info.captures@, captured@, k as nat),
        decreases info.captures@.len() - k,
    {
        let slot: usize = info.captures[k].slot as usize;
        if slot < locals.len() {
            locals.set(slot, Local::Boxed(captured[k]));
        }
        k = k + 1;
    }
    locals
}

/// A declaration that runs again binds anew: a closure that shared the slot keeps the cell it
/// has, with what is in it, and the slot reads the new value.
pub proof fn law_declarations_bind_anew(
    h: HeapView,
    m: MachineView,
    frame: int,
    slot: u16,
    value: Value,
    cell: CellIdx,
)
    requires
        m.slot(frame, slot) is Some,
        h.cells.len() < usize::MAX,
        (cell.0 as int) < h.cells.len(),
    ensures
        ({
            let (h2, m2) = rebound(h, m, frame, slot, value);
            &&& h2.cell_value(cell) == h.cell_value(cell)
            &&& m2.slot(frame, slot) is Some
            &&& m2.slot(frame, slot) != Some(Local::Boxed(cell))
            &&& local_value(h2, m2.slot(frame, slot)->0) == Some(value)
        }),
{
}

/// An assignment is seen by everyone who shares the slot: it changes what is in the cell, and
/// the slot keeps its cell.
pub proof fn law_assignments_are_shared(
    h: HeapView,
    m: MachineView,
    frame: int,
    slot: u16,
    value: Value,
    cell: CellIdx,
)
    requires
        m.slot(frame, slot) == Some(Local::Boxed(cell)),
        crate::heap::at(h.cells, cell.0 as int) is Some,
    ensures
        ({
            let (h2, m2) = written(h, m, frame, slot, value);
            &&& m2.slot(frame, slot) == m.slot(frame, slot)
            &&& h2.cell_value(cell) == Some(value)
        }),
{
}

} // verus!
