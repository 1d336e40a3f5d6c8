//! What is kept account of: the objects that are made and what they take, the frames that an
//! exception went through, and the findings of a module.

use crate::frame::FrameKind;
use crate::heap::CellKind;
use crate::heap::CellObj;
use crate::heap::HeapView;
use crate::heap::OBJECT_BYTES;
use crate::heap::RecordView;
use crate::heap::VALUE_BYTES;
use crate::instance::Instance;
use crate::limits::GC_MIN_BYTES;
use crate::limits::next_threshold;
use crate::load::shadowing;
use crate::machine::MachineView;
use crate::machine::trace_here;
use crate::named::named;
use crate::observe::sites;
use crate::resolve::ResolvedModule;
use crate::span::ModuleId;
use crate::span::Span;
use crate::value::BytesIdx;
use crate::value::CellIdx;
use crate::value::DictIdx;
use crate::value::ListIdx;
use crate::value::RecIdx;
use crate::value::TypeIdx;
use crate::value::Value;
use vstd::prelude::*;

verus! {

/// A new object is found under the next number of its table, with what it was made of; nothing
/// else changes but the account, which grows with what the object holds.
pub proof fn law_new_objects_are_accounted_for(
    h: HeapView,
    items: Seq<Value>,
    bytes: Seq<u8>,
    kind: CellKind,
    value: Option<Value>,
    type_idx: TypeIdx,
)
    requires
        h.lists.len() < usize::MAX,
        h.bytes.len() < usize::MAX,
        h.cells.len() < usize::MAX,
        h.records.len() < usize::MAX,
        h.dicts.len() < usize::MAX,
        h.allocated + OBJECT_BYTES + items.len() * VALUE_BYTES <= u64::MAX,
        h.allocated + OBJECT_BYTES + bytes.len() <= u64::MAX,
        h.allocated + OBJECT_BYTES + VALUE_BYTES <= u64::MAX,
    ensures
        ({
            let list = h.new_list(items);
            &&& list.items(ListIdx(h.lists.len() as usize)) == items
            &&& list.allocated == h.allocated + OBJECT_BYTES + items.len() * VALUE_BYTES
            &&& list == (HeapView { lists: list.lists, allocated: list.allocated, ..h })
            &&& list.lists.take(h.lists.len() as int) == h.lists
        }),
        ({
            let run = h.new_bytes(bytes);
            &&& run.bytes_of(BytesIdx(h.bytes.len() as usize)) == bytes
            &&& run.allocated == h.allocated + OBJECT_BYTES + bytes.len()
            &&& run == (HeapView { bytes: run.bytes, allocated: run.allocated, ..h })
            &&& run.bytes.take(h.bytes.len() as int) == h.bytes
        }),
        ({
            let cell = h.new_cell(kind, value);
            &&& cell.cell(CellIdx(h.cells.len() as usize)) == Some(CellObj { kind, value })
            &&& cell.allocated == h.allocated + OBJECT_BYTES + VALUE_BYTES
            &&& cell == (HeapView { cells: cell.cells, allocated: cell.allocated, ..h })
            &&& cell.cells.take(h.cells.len() as int) == h.cells
        }),
        ({
            let record = h.new_record(type_idx, items);
            &&& record.record(RecIdx(h.records.len() as usize)) == Some(
                RecordView { type_idx, fields: items },
            )
            &&& record.allocated == h.allocated + OBJECT_BYTES + items.len() * VALUE_BYTES
            &&& record == (HeapView { records: record.records, allocated: record.allocated, ..h })
            &&& record.records.take(h.records.len() as int) == h.records
        }),
        ({
            let dict = h.new_dict();
            &&& dict.dict(DictIdx(h.dicts.len() as usize)).entries.len() == 0
            &&& dict.dict(DictIdx(h.dicts.len() as usize)).hashes.len() == 0
            &&& dict.allocated == h.allocated + OBJECT_BYTES
            &&& dict == (HeapView { dicts: dict.dicts, allocated: dict.allocated, ..h })
        }),
{
    assert(h.new_list(items).lists.take(h.lists.len() as int) =~= h.lists);
    assert(h.new_bytes(bytes).bytes.take(h.bytes.len() as int) =~= h.bytes);
    assert(h.new_cell(kind, value).cells.take(h.cells.len() as int) =~= h.cells);
    assert(h.new_record(type_idx, items).records.take(h.records.len() as int) =~= h.records);
    assert(bytes.len() * 1 == bytes.len()) by (nonlinear_arith);
    assert(1 * VALUE_BYTES == VALUE_BYTES) by (nonlinear_arith);
}

/// The next collection is due at twice what is left, and never below a floor.
pub proof fn law_collections_wait_for_growth(bytes: u64, more: u64)
    requires
        bytes <= more,
    ensures
        next_threshold(bytes) >= GC_MIN_BYTES,
        next_threshold(bytes) >= bytes,
        next_threshold(bytes) <= next_threshold(more),
        GC_MIN_BYTES <= bytes * 2 <= u64::MAX ==> next_threshold(bytes) == bytes * 2,
{
}

/// An exception's trace tells where it was raised and the frames that were there then, the
/// innermost first: of each what it ran, where that was called from, and how many calls it
/// took over. It tells the callables whose frames were taken over, the latest first.
pub proof fn law_traces_tell_the_frames(m: MachineView, at: Option<Span>, k: int)
    requires
        0 <= k < m.frames.len(),
    ensures
        ({
            let t = trace_here(m, at);
            let f = m.frames[m.frames.len() - 1 - k];
            &&& t.raised_at == at
            &&& t.frames.len() == m.frames.len()
            &&& (f.call_site matches Some(site) ==> t.frames[k].call_site == Some(site.span))
            &&& f.call_site is None ==> t.frames[k].call_site is None
            &&& t.frames[k].tail_count == f.tail_count
            &&& (f.kind matches FrameKind::Callable { cal } ==> t.frames[k].callable == Some(cal))
            &&& !(f.kind is Callable) ==> t.frames[k].callable is None
            &&& t.tail_elided.len() == m.ring.len()
            &&& forall|i: int|
                0 <= i < m.ring.len() ==> #[trigger] t.tail_elided[i] == m.ring[m.ring.len() - 1
                    - i].callable
        }),
{
}

/// A finding is told of each declaration that hides a name of the prelude, and of no other, in
/// the order of the declarations.
pub proof fn law_hidden_names_are_told(
    module: ResolvedModule,
    prelude: Seq<(Seq<char>, CellIdx)>,
    id: ModuleId,
    n: nat,
)
    requires
        n < module.globals@.len(),
    ensures
        ({
            let before = shadowing(module, prelude, id, n);
            let after = shadowing(module, prelude, id, n + 1);
            let g = module.globals@[n as int];
            &&& shadowing(module, prelude, id, 0).len() == 0
            &&& named(prelude, g.name@) is None ==> after == before
            &&& named(prelude, g.name@) is Some ==> {
                &&& after.len() == before.len() + 1
                &&& after.drop_last() == before
                &&& after.last().module == id
                &&& after.last().severity is Warning
                &&& after.last().span == Some(module.ast.range(g.decl))
            }
        }),
{
    let before = shadowing(module, prelude, id, n);
    let g = module.globals@[n as int];
    if named(prelude, g.name@) is Some {
        assert(shadowing(module, prelude, id, n + 1).drop_last() =~= before);
    }
}

/// Call sites are told from the innermost frame outwards, of those that have one.
pub proof fn law_call_sites_are_told_from_the_innermost(i: Instance, n: nat)
    requires
        n < i.machine@.frames.len(),
    ensures
        ({
            let f = i.machine@.frames[i.machine@.frames.len() - 1 - n];
            &&& sites(i, 0).len() == 0
            &&& f.call_site is None ==> sites(i, n + 1) == sites(i, n)
            &&& (f.call_site matches Some(site) ==> sites(i, n + 1) == sites(i, n).push(site.span))
        }),
{
}

/// Each frame that is entered has a number that none had before.
pub proof fn law_frames_are_numbered(m: MachineView)
    requires
        m.frame_serial < u64::MAX,
    ensures
        m.numbered().frame_serial == m.frame_serial + 1,
        m.numbered().frames == m.frames,
        m.numbered().meter == m.meter,
{
}

} // verus!
