//! What binding a value does, wherever one is bound: a value record is copied whole, so that no
//! change through the new name is seen through an old one; anything else is shared.

use crate::assign::assigned;
use crate::ast::Node;
use crate::ast::NodeId;
use crate::compare::same;
use crate::cont::ContView;
use crate::cont::Work;
use crate::dict_laws::lemma_copies_grow;
use crate::error::RaiseView;
use crate::error::TraceView;
use crate::eval::element_known;
use crate::frame::FrameKind;
use crate::frame::Local;
use crate::heap::CellKind;
use crate::heap::CellObj;
use crate::heap::HeapView;
use crate::local::written;
use crate::machine::MachineView;
use crate::machine::Unwind;
use crate::modload::LoadedModule;
use crate::named::named;
use crate::named::named_view;
use crate::names::free_cell;
use crate::object::field_named;
use crate::object::field_position;
use crate::object::with_field;
use crate::record::copied;
use crate::record::copied_fields;
use crate::record::copied_within;
use crate::record::law_copies_are_equal;
use crate::resolve::Resolution;
use crate::resolve::ResolvedModule;
use crate::step::dispatched;
use crate::unwind::unwound;
use crate::value::CellIdx;
use crate::value::ListIdx;
use crate::value::RecIdx;
use crate::value::Value;
use vstd::prelude::*;

verus! {

/// Whether value records are nested at most `d` deep in a value.
pub open spec fn nests(h: HeapView, v: Value, d: nat) -> bool
    decreases d,
{
    match v {
        Value::Record(r) => match h.record(r) {
            Some(rec) => match h.schema(rec.type_idx) {
                Some(t) => t.is_ref || d > 0 && forall|j: int|
                    0 <= j < rec.fields.len() ==> nests(
                        h,
                        #[trigger] rec.fields[j],
                        (d - 1) as nat,
                    ),
                None => true,
            },
            None => true,
        },
        _ => true,
    }
}

/// Whether a value is a value record.
pub open spec fn by_value(h: HeapView, v: Value) -> bool {
    match v {
        Value::Record(r) => match h.record(r) {
            Some(rec) => match h.schema(rec.type_idx) {
                Some(t) => !t.is_ref,
                None => false,
            },
            None => false,
        },
        _ => false,
    }
}

/// Whether a value is not a value record from before some index.
pub open spec fn later(g: HeapView, lo: int, w: Value) -> bool {
    by_value(g, w) ==> lo <= w->Record_0.0 < g.records.len()
}

/// Whether a value was bound: what stands there now is equal to it, every record that was there
/// is as it was, and if it is a value record, neither it nor a value record within it was there
/// before. Anything else is the very value.
#[verifier::opaque]
pub open spec fn bound_afresh(h: HeapView, v: Value, g: HeapView, w: Value) -> bool {
    &&& h.records.len() <= g.records.len()
    &&& forall|i: int| 0 <= i < h.records.len() ==> #[trigger] g.records[i] == h.records[i]
    &&& g == (HeapView { records: g.records, allocated: g.allocated, ..h })
    &&& same(g, w, v)
    &&& !by_value(h, v) ==> w == v && g == h
    &&& by_value(h, v) ==> {
        &&& by_value(g, w)
        &&& h.records.len() <= w->Record_0.0 < g.records.len()
        &&& g.record(w->Record_0)->0.type_idx == h.record(v->Record_0)->0.type_idx
        &&& forall|r: RecIdx, j: int|
            h.records.len() <= r.0 && g.record(r) is Some && 0 <= j < g.record(
                r,
            )->0.fields.len() ==> later(
                g,
                h.records.len() as int,
                #[trigger] g.record(r)->0.fields[j],
            )
    }
}

/// Whether records were only added to a heap, which is otherwise as it was.
spec fn more_records(h: HeapView, g: HeapView) -> bool {
    &&& h.records.len() <= g.records.len()
    &&& forall|i: int| 0 <= i < h.records.len() ==> #[trigger] g.records[i] == h.records[i]
    &&& g == (HeapView { records: g.records, allocated: g.allocated, ..h })
}

/// Whether the records from an index on hold no value records from before it.
spec fn all_later(g: HeapView, lo: int) -> bool {
    forall|r: RecIdx, j: int|
        lo <= r.0 && g.record(r) is Some && 0 <= j < g.record(r)->0.fields.len() ==> later(
            g,
            lo,
            #[trigger] g.record(r)->0.fields[j],
        )
}

/// Whether the records that a value leads to by value are there.
pub open spec fn there(h: HeapView, v: Value, d: nat) -> bool
    decreases d,
{
    match v {
        Value::Record(r) => h.record(r) is Some && (d > 0 ==> forall|j: int|
            0 <= j < h.record(r)->0.fields.len() ==> there(
                h,
                #[trigger] h.record(r)->0.fields[j],
                (d - 1) as nat,
            )),
        _ => true,
    }
}

proof fn lemma_more(h: HeapView, g: HeapView, v: Value, d: nat)
    requires
        more_records(h, g),
        there(h, v, d),
    ensures
        there(g, v, d),
        by_value(g, v) == by_value(h, v),
        nests(h, v, d) ==> nests(g, v, d),
    decreases d,
{
    if let Value::Record(r) = v {
        let rec = h.record(r)->0;
        assert(g.record(r) == Some(rec));
        if d > 0 {
            assert forall|j: int| 0 <= j < rec.fields.len() implies there(
                g,
                #[trigger] rec.fields[j],
                (d - 1) as nat,
            ) && (nests(h, rec.fields[j], (d - 1) as nat) ==> nests(
                g,
                rec.fields[j],
                (d - 1) as nat,
            )) by {
                assert(there(h, h.record(r)->0.fields[j], (d - 1) as nat));
                lemma_more(h, g, rec.fields[j], (d - 1) as nat);
            }
        }
    }
}

proof fn lemma_later_more(h: HeapView, g: HeapView, lo: int, v: Value)
    requires
        more_records(h, g),
        later(h, lo, v),
        v matches Value::Record(r) ==> h.record(r) is Some,
    ensures
        later(g, lo, v),
{
    if let Value::Record(r) = v {
        assert(g.record(r) == h.record(r));
    }
}

proof fn lemma_copy_afresh(h: HeapView, v: Value, d: nat, e: nat)
    requires
        there(h, v, d),
        nests(h, v, d),
        d <= e,
        copied_within(h, v, e).0.records.len() <= usize::MAX,
    ensures
        ({
            let (g, w) = copied_within(h, v, e);
            let lo = h.records.len() as int;
            &&& more_records(h, g)
            &&& later(g, lo, w)
            &&& w matches Value::Record(r) ==> g.record(r) is Some
            &&& all_later(g, lo)
            &&& forall|r: RecIdx, j: int|
                lo <= r.0 && g.record(r) is Some && 0 <= j < g.record(r)->0.fields.len() ==> (
                #[trigger] g.record(r)->0.fields[j] matches Value::Record(q) ==> g.record(
                    q,
                ) is Some)
            &&& !by_value(h, v) ==> w == v && g == h
            &&& by_value(h, v) ==> by_value(g, w) && lo <= w->Record_0.0 < g.records.len()
                && g.record(w->Record_0)->0.type_idx == h.record(v->Record_0)->0.type_idx
        }),
    decreases d, 0nat,
{
    let (g, w) = copied_within(h, v, e);
    let lo = h.records.len() as int;
    if by_value(h, v) {
        let r = v->Record_0;
        let rec = h.record(r)->0;
        let n = rec.fields.len();
        assert(d > 0);
        assert forall|j: int| 0 <= j < n implies there(
            h,
            #[trigger] rec.fields[j],
            (d - 1) as nat,
        ) by {
            assert(there(h, h.record(r)->0.fields[j], (d - 1) as nat));
        }
        lemma_fields_afresh(h, rec.fields, n, (d - 1) as nat, (e - 1) as nat);
        let (after, fields) = copied_fields(h, rec.fields, n, (e - 1) as nat);
        assert(g == after.new_record(rec.type_idx, fields));
        assert(g.record(w->Record_0) == Some(
            crate::heap::RecordView { type_idx: rec.type_idx, fields },
        ));
        assert forall|q: RecIdx, j: int|
            lo <= q.0 && g.record(q) is Some && 0 <= j < g.record(q)->0.fields.len() implies later(
            g,
            lo,
            #[trigger] g.record(q)->0.fields[j],
        ) && (g.record(q)->0.fields[j] matches Value::Record(p) ==> g.record(p) is Some) by {
            if q.0 < after.records.len() {
                assert(g.records[q.0 as int] == after.records[q.0 as int]);
                let f = after.record(q)->0.fields[j];
                assert(later(after, lo, f));
                lemma_later_more(after, g, lo, f);
            } else {
                lemma_later_more(after, g, lo, fields[j]);
            }
        }
    }
}

proof fn lemma_fields_afresh(h: HeapView, fields: Seq<Value>, n: nat, d: nat, e: nat)
    requires
        n <= fields.len(),
        d <= e,
        forall|j: int| 0 <= j < fields.len() ==> there(h, #[trigger] fields[j], d),
        forall|j: int| 0 <= j < fields.len() ==> nests(h, #[trigger] fields[j], d),
        copied_fields(h, fields, n, e).0.records.len() <= usize::MAX,
    ensures
        ({
            let (g, copies) = copied_fields(h, fields, n, e);
            let lo = h.records.len() as int;
            &&& more_records(h, g)
            &&& copies.len() == n
            &&& forall|j: int| 0 <= j < n ==> later(g, lo, #[trigger] copies[j])
            &&& forall|j: int|
                0 <= j < n ==> (#[trigger] copies[j] matches Value::Record(q) ==> g.record(
                    q,
                ) is Some)
            &&& all_later(g, lo)
            &&& forall|r: RecIdx, j: int|
                lo <= r.0 && g.record(r) is Some && 0 <= j < g.record(r)->0.fields.len() ==> (
                #[trigger] g.record(r)->0.fields[j] matches Value::Record(q) ==> g.record(
                    q,
                ) is Some)
        }),
    decreases d, n + 1,
{
    let lo = h.records.len() as int;
    if n > 0 {
        let (before, copies) = copied_fields(h, fields, (n - 1) as nat, e);
        let (g, last) = copied_within(before, fields[n - 1], e);
        lemma_copies_grow(before, fields[n - 1], e);
        lemma_fields_afresh(h, fields, (n - 1) as nat, d, e);
        lemma_more(h, before, fields[n - 1], d);
        assert(nests(h, fields[n - 1], d));
        lemma_copy_afresh(before, fields[n - 1], d, e);
        let mid = before.records.len() as int;
        assert forall|r: RecIdx, j: int|
            lo <= r.0 && g.record(r) is Some && 0 <= j < g.record(r)->0.fields.len() implies later(
            g,
            lo,
            #[trigger] g.record(r)->0.fields[j],
        ) && (g.record(r)->0.fields[j] matches Value::Record(q) ==> g.record(q) is Some) by {
            if r.0 < mid {
                assert(g.records[r.0 as int] == before.records[r.0 as int]);
                let f = before.record(r)->0.fields[j];
                assert(later(before, lo, f));
                lemma_later_more(before, g, lo, f);
            } else {
                assert(later(g, mid, g.record(r)->0.fields[j]));
            }
        }
        assert forall|j: int| 0 <= j < n implies later(
            g,
            lo,
            #[trigger] copies.push(last)[j],
        ) && (copies.push(last)[j] matches Value::Record(q) ==> g.record(q) is Some) by {
            if j < n - 1 {
                assert(later(before, lo, copies[j]));
                lemma_later_more(before, g, lo, copies[j]);
            } else {
                assert(later(g, mid, last));
            }
        }
    }
}

/// Whether a value can be bound: the records that it leads to are there, value records do not
/// hold themselves, and the copies can be numbered.
#[verifier::opaque]
pub open spec fn bindable(h: HeapView, v: Value) -> bool {
    &&& there(h, v, h.records.len())
    &&& nests(h, v, h.records.len())
    &&& copied(h, v).0.records.len() <= usize::MAX
}

/// A copy for binding is equal to what it is copied from and shares no value record with it.
pub proof fn law_copies_are_made_afresh(h: HeapView, v: Value)
    requires
        bindable(h, v),
    ensures
        bound_afresh(h, v, copied(h, v).0, copied(h, v).1),
{
    reveal(bindable);
    reveal(bound_afresh);
    lemma_copy_afresh(h, v, h.records.len(), h.records.len());
    law_copies_are_equal(h, v);
}

/// What copying for binding leaves alone.
pub proof fn lemma_only_records(h: HeapView, v: Value)
    requires
        bindable(h, v),
    ensures
        copied(h, v).0 == (HeapView {
            records: copied(h, v).0.records,
            allocated: copied(h, v).0.allocated,
            ..h
        }),
{
    reveal(bindable);
    lemma_copy_afresh(h, v, h.records.len(), h.records.len());
}

/// What changes through a name that was bound changes nothing that was there before.
pub proof fn law_changes_through_a_binding_are_its_own(
    h: HeapView,
    v: Value,
    g: HeapView,
    w: Value,
    r: RecIdx,
    p: nat,
    value: Value,
    other: RecIdx,
)
    requires
        bound_afresh(h, v, g, w),
        by_value(h, v),
        w == Value::Record(r),
        h.record(other) is Some,
    ensures
        with_field(g, r, p, value).record(other) == h.record(other),
        other != r,
{
    reveal(bound_afresh);
}

/// The value of a slot of a frame, directly or in its cell.
pub open spec fn slot_value(h: HeapView, m: MachineView, frame: int, slot: u16) -> Option<Value> {
    match m.frames[frame].locals[slot as int] {
        Local::Direct(v) => v,
        Local::Boxed(c) => match h.cell(c) {
            Some(o) => o.value,
            None => None,
        },
    }
}

proof fn lemma_assigns(
    resolved: ResolvedModule,
    modules: Seq<LoadedModule>,
    h: HeapView,
    m: MachineView,
    assign: NodeId,
)
    ensures
        ({
            let cur = resolved.canonical_id.0 as int;
            let names = if cur < modules.len() {
                named_view(modules[cur].namespace@)
            } else {
                Seq::empty()
            };
            dispatched(resolved, modules, h, m, Work::AssignTo { assign }) == assigned(
                resolved,
                h,
                m,
                names,
                assign,
            )
        }),
{
    reveal(dispatched);
}

/// An assignment to a local name binds the value there: in its slot or in the cell that its
/// closures share, which stays the same.
pub proof fn law_assigning_a_local_binds_afresh(
    resolved: ResolvedModule,
    modules: Seq<LoadedModule>,
    h: HeapView,
    m: MachineView,
    assign: NodeId,
    target: NodeId,
    value: NodeId,
    slot: u16,
    v: Value,
)
    requires
        resolved.node_at(assign) == Some(Node::Assign { target, value }),
        resolved.resolution(target) == Some(Resolution::LocalSlot(slot)),
        m.reg == Some(v),
        m.frames.len() > 0,
        slot < m.frames.last().locals.len(),
        m.frames.last().locals[slot as int] matches Local::Boxed(c) ==> h.cell(c) is Some,
        bindable(h, v),
    ensures
        ({
            let z = dispatched(resolved, modules, h, m, Work::AssignTo { assign });
            let top = m.frames.len() - 1;
            &&& z.raise is None
            &&& z.machine.frames.len() == m.frames.len()
            &&& slot_value(z.heap, z.machine, top, slot) is Some
            &&& bound_afresh(
                h,
                v,
                HeapView { cells: h.cells, ..z.heap },
                slot_value(z.heap, z.machine, top, slot)->0,
            )
            &&& m.frames.last().locals[slot as int] is Boxed ==> z.machine.frames == m.frames
            &&& forall|s: u16|
                s != slot && s < m.frames.last().locals.len()
                    ==> z.machine.frames.last().locals[s as int]
                    == #[trigger] m.frames.last().locals[s as int]
            &&& forall|k: int|
                0 <= k < top ==> #[trigger] z.machine.frames[k] == m.frames[k]
            &&& z.machine.frames.last().conts == m.frames.last().conts
        }),
{
    lemma_assigns(resolved, modules, h, m, assign);
    law_copies_are_made_afresh(h, v);
    lemma_only_records(h, v);
    let z = dispatched(resolved, modules, h, m, Work::AssignTo { assign });
    let (g, w) = copied(h, v);
    assert(HeapView { cells: h.cells, ..z.heap } == g);
}

/// An assignment to a name of the module binds the value in that name's cell, and in no other.
pub proof fn law_assigning_a_module_name_binds_afresh(
    resolved: ResolvedModule,
    modules: Seq<LoadedModule>,
    h: HeapView,
    m: MachineView,
    assign: NodeId,
    target: NodeId,
    value: NodeId,
    i: u32,
    name: Seq<char>,
    cell: CellIdx,
    v: Value,
)
    requires
        resolved.node_at(assign) == Some(Node::Assign { target, value }),
        resolved.resolution(target) == Some(Resolution::ModuleName(i)),
        resolved.name_ref(i) == Some(name),
        resolved.canonical_id.0 < modules.len(),
        named(named_view(modules[resolved.canonical_id.0 as int].namespace@), name) == Some(cell),
        m.reg == Some(v),
        h.cell(cell) is Some,
        bindable(h, v),
    ensures
        ({
            let z = dispatched(resolved, modules, h, m, Work::AssignTo { assign });
            &&& z.raise is None
            &&& z.machine.frames == m.frames
            &&& z.heap.cell(cell) is Some && z.heap.cell(cell)->0.kind == h.cell(cell)->0.kind
            &&& z.heap.cell_value(cell) is Some
            &&& bound_afresh(
                h,
                v,
                HeapView { cells: h.cells, ..z.heap },
                z.heap.cell_value(cell)->0,
            )
            &&& forall|c: CellIdx| c != cell ==> #[trigger] z.heap.cell(c) == h.cell(c)
        }),
{
    lemma_assigns(resolved, modules, h, m, assign);
    law_copies_are_made_afresh(h, v);
    lemma_only_records(h, v);
    let z = dispatched(resolved, modules, h, m, Work::AssignTo { assign });
    let (g, w) = copied(h, v);
    assert(HeapView { cells: h.cells, ..z.heap } == g);
}

/// An assignment from within blocks binds the value in the slot of the frame that the name
/// belongs to, so many blocks further out.
pub proof fn law_assigning_an_outer_name_binds_afresh(
    resolved: ResolvedModule,
    modules: Seq<LoadedModule>,
    h: HeapView,
    m: MachineView,
    assign: NodeId,
    target: NodeId,
    value: NodeId,
    hops: u16,
    slot: u16,
    frame: int,
    v: Value,
)
    requires
        resolved.node_at(assign) == Some(Node::Assign { target, value }),
        resolved.resolution(target) == Some(Resolution::BlockOuter { hops, slot }),
        m.enclosing(hops as nat) == Some(frame),
        m.reg == Some(v),
        0 <= frame < m.frames.len(),
        slot < m.frames[frame].locals.len(),
        m.frames[frame].locals[slot as int] matches Local::Boxed(c) ==> h.cell(c) is Some,
        bindable(h, v),
    ensures
        ({
            let z = dispatched(resolved, modules, h, m, Work::AssignTo { assign });
            &&& z.raise is None
            &&& z.machine.frames.len() == m.frames.len()
            &&& slot_value(z.heap, z.machine, frame, slot) is Some
            &&& bound_afresh(
                h,
                v,
                HeapView { cells: h.cells, ..z.heap },
                slot_value(z.heap, z.machine, frame, slot)->0,
            )
            &&& forall|k: int|
                0 <= k < m.frames.len() && k != frame ==> #[trigger] z.machine.frames[k]
                    == m.frames[k]
        }),
{
    lemma_assigns(resolved, modules, h, m, assign);
    law_copies_are_made_afresh(h, v);
    lemma_only_records(h, v);
    let z = dispatched(resolved, modules, h, m, Work::AssignTo { assign });
    let (g, w) = copied(h, v);
    let voided = MachineView { reg: None, ..m };
    assert(voided.enclosing(hops as nat) == m.enclosing(hops as nat)) by {
        lemma_same_frames(voided, m, m.frames.len() - 1, hops as nat);
    }
    assert(z.heap == written(g, voided, frame, slot, w).0);
    assert(z.machine == written(g, voided, frame, slot, w).1);
    assert(HeapView { cells: h.cells, ..z.heap } == g);
}

proof fn lemma_same_frames(a: MachineView, b: MachineView, from: int, hops: nat)
    requires
        a.frames == b.frames,
    ensures
        a.outer(from, hops) == b.outer(from, hops),
    decreases hops,
{
    if 0 <= from < a.frames.len() && hops > 0 {
        if let FrameKind::Block { defining, .. } = a.frames[from].kind {
            lemma_same_frames(a, b, defining as int, (hops - 1) as nat);
        }
    }
}

/// A declaration of a local name binds the value in its slot; one that closures share gets a
/// cell of its own for it, which no one had before.
pub proof fn law_declaring_a_local_binds_afresh(
    resolved: ResolvedModule,
    modules: Seq<LoadedModule>,
    h: HeapView,
    m: MachineView,
    decl: NodeId,
    slot: u16,
    v: Value,
)
    requires
        resolved.resolution(decl) == Some(Resolution::LocalSlot(slot)),
        m.reg == Some(v),
        m.frames.len() > 0,
        slot < m.frames.last().locals.len(),
        h.cells.len() < usize::MAX,
        bindable(h, v),
    ensures
        ({
            let z = dispatched(resolved, modules, h, m, Work::BindLet { decl });
            let top = m.frames.len() - 1;
            &&& z.raise is None
            &&& z.machine.reg is None
            &&& z.machine.frames.len() == m.frames.len()
            &&& slot_value(z.heap, z.machine, top, slot) is Some
            &&& bound_afresh(
                h,
                v,
                HeapView {
                    cells: h.cells,
                    allocated: copied(h, v).0.allocated,
                    ..z.heap
                },
                slot_value(z.heap, z.machine, top, slot)->0,
            )
            &&& m.frames.last().locals[slot as int] is Boxed ==> z.machine.frames.last().locals[slot as int]
                == Local::Boxed(CellIdx(h.cells.len() as usize))
            &&& m.frames.last().locals[slot as int] is Direct ==> z.heap.cells == h.cells
            &&& forall|c: CellIdx| c.0 < h.cells.len() ==> #[trigger] z.heap.cell(c) == h.cell(c)
            &&& forall|s: u16|
                s != slot && s < m.frames.last().locals.len()
                    ==> z.machine.frames.last().locals[s as int]
                    == #[trigger] m.frames.last().locals[s as int]
            &&& forall|k: int|
                0 <= k < top ==> #[trigger] z.machine.frames[k] == m.frames[k]
            &&& z.machine.frames.last().conts == m.frames.last().conts
        }),
{
    reveal(dispatched);
    law_copies_are_made_afresh(h, v);
    lemma_only_records(h, v);
    let z = dispatched(resolved, modules, h, m, Work::BindLet { decl });
    let (g, w) = copied(h, v);
    assert(HeapView { cells: h.cells, allocated: g.allocated, ..z.heap } == g);
}

/// A declaration of a name of the module binds the value in that name's cell, and in no other.
pub proof fn law_declaring_a_module_name_binds_afresh(
    resolved: ResolvedModule,
    modules: Seq<LoadedModule>,
    h: HeapView,
    m: MachineView,
    decl: NodeId,
    name: Seq<char>,
    cell: CellIdx,
    v: Value,
)
    requires
        resolved.resolution(decl) is None,
        match resolved.node_at(decl) {
            Some(Node::Let { name: n, .. }) => n@ == name,
            Some(Node::Const { name: n, .. }) => n@ == name,
            Some(Node::Parameter { name: n, .. }) => n@ == name,
            _ => false,
        },
        resolved.canonical_id.0 < modules.len(),
        named(named_view(modules[resolved.canonical_id.0 as int].namespace@), name) == Some(cell),
        m.reg == Some(v),
        h.cell(cell) is Some,
        bindable(h, v),
    ensures
        ({
            let z = dispatched(resolved, modules, h, m, Work::BindLet { decl });
            &&& z.raise is None
            &&& z.machine.frames == m.frames
            &&& z.heap.cell(cell) is Some && z.heap.cell(cell)->0.kind == h.cell(cell)->0.kind
            &&& z.heap.cell_value(cell) is Some
            &&& bound_afresh(
                h,
                v,
                HeapView { cells: h.cells, ..z.heap },
                z.heap.cell_value(cell)->0,
            )
            &&& forall|c: CellIdx| c != cell ==> #[trigger] z.heap.cell(c) == h.cell(c)
        }),
{
    reveal(dispatched);
    law_copies_are_made_afresh(h, v);
    lemma_only_records(h, v);
    let z = dispatched(resolved, modules, h, m, Work::BindLet { decl });
    let (g, w) = copied(h, v);
    assert(HeapView { cells: h.cells, ..z.heap } == g);
}

proof fn lemma_elements(
    resolved: ResolvedModule,
    modules: Seq<LoadedModule>,
    h: HeapView,
    m: MachineView,
    list: NodeId,
    values: Seq<Value>,
    index: usize,
)
    ensures
        dispatched(resolved, modules, h, m, Work::ListGotElem { list, values, index })
            == element_known(resolved, h, m, list, values, index as int),
{
    reveal(dispatched);
}

/// An element of a list literal that is not the last is bound behind those before it, and the
/// next one comes next.
pub proof fn law_list_elements_bind_afresh(
    resolved: ResolvedModule,
    modules: Seq<LoadedModule>,
    h: HeapView,
    m: MachineView,
    list: NodeId,
    elements: Seq<NodeId>,
    values: Seq<Value>,
    index: usize,
    v: Value,
) -> (w: Value)
    requires
        resolved.node_at(list) matches Some(Node::List(e)) && e@ == elements,
        index + 1 < elements.len() <= usize::MAX,
        m.reg == Some(v),
        m.frames.len() > 0,
        bindable(h, v),
    ensures
        ({
            let z = dispatched(
                resolved,
                modules,
                h,
                m,
                Work::ListGotElem { list, values, index },
            );
            &&& z.raise is None
            &&& bound_afresh(h, v, z.heap, w)
            &&& z.machine.frames.last().conts == m.frames.last().conts.push(
                Work::ListGotElem { list, values: values.push(w), index: (index + 1) as usize },
            ).push(Work::Eval { node: elements[index + 1] })
        }),
{
    lemma_elements(resolved, modules, h, m, list, values, index);
    law_copies_are_made_afresh(h, v);
    copied(h, v).1
}

/// With the last element of a list literal bound, the list is made of the elements, in their
/// order, and is the literal's value.
pub proof fn law_lists_are_made_of_their_elements(
    resolved: ResolvedModule,
    modules: Seq<LoadedModule>,
    h: HeapView,
    m: MachineView,
    list: NodeId,
    elements: Seq<NodeId>,
    values: Seq<Value>,
    index: usize,
    v: Value,
) -> (made: (HeapView, Value))
    requires
        resolved.node_at(list) matches Some(Node::List(e)) && e@ == elements,
        index + 1 == elements.len(),
        m.reg == Some(v),
        h.lists.len() < usize::MAX,
        bindable(h, v),
    ensures
        ({
            let z = dispatched(
                resolved,
                modules,
                h,
                m,
                Work::ListGotElem { list, values, index },
            );
            &&& z.raise is None
            &&& bound_afresh(h, v, made.0, made.1)
            &&& z.heap.records == made.0.records
            &&& z.heap.lists == h.lists.push(Some(values.push(made.1)))
            &&& z.machine == (MachineView {
                reg: Some(Value::List(ListIdx(h.lists.len() as usize))),
                ..m
            })
        }),
{
    lemma_elements(resolved, modules, h, m, list, values, index);
    law_copies_are_made_afresh(h, v);
    lemma_only_records(h, v);
    copied(h, v)
}

/// A parameter's default is bound in the parameter's slot.
pub proof fn law_defaults_bind_afresh(
    resolved: ResolvedModule,
    modules: Seq<LoadedModule>,
    h: HeapView,
    m: MachineView,
    slot: u16,
    default: NodeId,
    v: Value,
)
    requires
        m.reg == Some(v),
        m.frames.len() > 0,
        slot < m.frames.last().locals.len(),
        m.frames.last().locals[slot as int] matches Local::Boxed(c) ==> h.cell(c) is Some,
        bindable(h, v),
    ensures
        ({
            let z = dispatched(resolved, modules, h, m, Work::BindDefault { slot, default });
            let top = m.frames.len() - 1;
            &&& z.raise is None
            &&& z.machine.frames.len() == m.frames.len()
            &&& slot_value(z.heap, z.machine, top, slot) is Some
            &&& bound_afresh(
                h,
                v,
                HeapView { cells: h.cells, ..z.heap },
                slot_value(z.heap, z.machine, top, slot)->0,
            )
            &&& forall|s: u16|
                s != slot && s < m.frames.last().locals.len()
                    ==> z.machine.frames.last().locals[s as int]
                    == #[trigger] m.frames.last().locals[s as int]
        }),
{
    reveal(dispatched);
    law_copies_are_made_afresh(h, v);
    lemma_only_records(h, v);
    let z = dispatched(resolved, modules, h, m, Work::BindDefault { slot, default });
    let (g, w) = copied(h, v);
    assert(HeapView { cells: h.cells, ..z.heap } == g);
}

/// Setting a field of a record binds the value in that field, and changes nothing else of any
/// record that was there.
pub proof fn law_fields_bind_afresh(
    resolved: ResolvedModule,
    modules: Seq<LoadedModule>,
    h: HeapView,
    m: MachineView,
    assign: NodeId,
    target: NodeId,
    value: NodeId,
    object_node: NodeId,
    name: String,
    r: RecIdx,
    p: int,
    v: Value,
)
    requires
        resolved.node_at(assign) == Some(Node::Assign { target, value }),
        resolved.node_at(target) == Some(Node::Field { object: object_node, name }),
        m.reg == Some(v),
        h.record(r) is Some,
        h.schema(h.record(r)->0.type_idx) is Some,
        0 <= p < h.schema(h.record(r)->0.type_idx)->0.fields.len(),
        p < h.record(r)->0.fields.len(),
        h.schema(h.record(r)->0.type_idx)->0.fields[p] == name@,
        forall|q: int|
            0 <= q < p ==> #[trigger] h.schema(h.record(r)->0.type_idx)->0.fields[q] != name@,
        bindable(h, v),
    ensures
        ({
            let z = dispatched(
                resolved,
                modules,
                h,
                m,
                Work::AssignFieldVal { assign, object: Value::Record(r) },
            );
            &&& z.raise is None
            &&& z.machine == (MachineView { reg: None, ..m })
            &&& z.heap.record(r) is Some
            &&& z.heap.record(r)->0.type_idx == h.record(r)->0.type_idx
            &&& z.heap.record(r)->0.fields.len() == h.record(r)->0.fields.len()
            &&& bound_afresh(
                h,
                v,
                HeapView {
                    records: z.heap.records.update(r.0 as int, h.records[r.0 as int]),
                    ..z.heap
                },
                z.heap.record(r)->0.fields[p],
            )
            &&& forall|q: int|
                0 <= q < h.record(r)->0.fields.len() && q != p
                    ==> #[trigger] z.heap.record(r)->0.fields[q] == h.record(r)->0.fields[q]
            &&& forall|o: RecIdx|
                o != r && o.0 < h.records.len() ==> #[trigger] z.heap.record(o) == h.record(o)
        }),
{
    reveal(dispatched);
    law_copies_are_made_afresh(h, v);
    lemma_only_records(h, v);
    let z = dispatched(
        resolved,
        modules,
        h,
        m,
        Work::AssignFieldVal { assign, object: Value::Record(r) },
    );
    let (g, w) = copied(h, v);
    lemma_old_records(h, v);
    assert(g.record(r) == h.record(r));
    let fields = h.schema(h.record(r)->0.type_idx)->0.fields;
    lemma_named_field(fields, name@, 0, p);
    assert(field_position(g, r, name@) == Some(p as nat));
    assert(z.heap == with_field(g, r, p as nat, w));
    assert(z.heap.records.update(r.0 as int, h.records[r.0 as int]) =~= g.records);
    assert(HeapView {
        records: z.heap.records.update(r.0 as int, h.records[r.0 as int]),
        ..z.heap
    } == g);
}

proof fn lemma_old_records(h: HeapView, v: Value)
    requires
        bindable(h, v),
    ensures
        h.records.len() <= copied(h, v).0.records.len(),
        forall|i: int|
            0 <= i < h.records.len() ==> #[trigger] copied(h, v).0.records[i] == h.records[i],
{
    reveal(bindable);
    lemma_copy_afresh(h, v, h.records.len(), h.records.len());
}

proof fn lemma_named_field(fields: Seq<Seq<char>>, name: Seq<char>, from: nat, p: int)
    requires
        from <= p < fields.len(),
        fields[p] == name,
        forall|q: int| from <= q < p ==> #[trigger] fields[q] != name,
    ensures
        field_named(fields, name, from) == Some(p as nat),
    decreases p - from,
{
    if from < p {
        assert(fields[from as int] != name);
        lemma_named_field(fields, name, from + 1, p);
    }
}

/// The value of a rebound parameter is bound in its cell, the old one is kept for later, and the
/// body runs next, with the restoring after it.
pub proof fn law_rebound_parameters_bind_afresh(
    resolved: ResolvedModule,
    modules: Seq<LoadedModule>,
    h: HeapView,
    m: MachineView,
    with_node: NodeId,
    value: NodeId,
    body: NodeId,
    i: u32,
    name: Seq<char>,
    cell: CellIdx,
    old_value: Value,
    v: Value,
)
    requires
        resolved.node_at(with_node) == Some(Node::With { value, body }),
        resolved.resolution(with_node) == Some(Resolution::ModuleName(i)),
        resolved.name_ref(i) == Some(name),
        free_cell(
            modules,
            resolved.canonical_id.0 as int,
            m.load,
            name,
            resolved.ast.range(with_node),
        ) == Ok::<CellIdx, RaiseView>(cell),
        h.cell(cell) == Some(CellObj { kind: CellKind::Parameter, value: Some(old_value) }),
        m.reg == Some(v),
        m.frames.len() > 0,
        m.dyn_stack.len() <= usize::MAX,
        bindable(h, v),
    ensures
        ({
            let z = dispatched(resolved, modules, h, m, Work::WithBind { with_node });
            &&& z.raise is None
            &&& z.heap.cell_value(cell) is Some
            &&& bound_afresh(
                h,
                v,
                HeapView { cells: h.cells, ..z.heap },
                z.heap.cell_value(cell)->0,
            )
            &&& forall|c: CellIdx| c != cell ==> #[trigger] z.heap.cell(c) == h.cell(c)
            &&& z.machine.dyn_stack == m.dyn_stack.push((cell, old_value))
            &&& z.machine.frames.last().conts == m.frames.last().conts.push(
                Work::WithRestore { dyn_mark: m.dyn_stack.len() as usize },
            ).push(Work::Statements { block: body, next: 0 })
        }),
{
    reveal(dispatched);
    law_copies_are_made_afresh(h, v);
    lemma_only_records(h, v);
    let z = dispatched(resolved, modules, h, m, Work::WithBind { with_node });
    let (g, w) = copied(h, v);
    assert(HeapView { cells: h.cells, ..z.heap } == g);
}

/// What a handler catches is bound to its name.
pub proof fn law_caught_values_bind_afresh(
    resolved: ResolvedModule,
    modules: Seq<LoadedModule>,
    h: HeapView,
    m: MachineView,
    try_node: NodeId,
    body: NodeId,
    rescue_body: NodeId,
    slot: u16,
    v: Value,
    trace: TraceView,
    trapped: bool,
)
    requires
        m.frames.len() > 0,
        m.frames.last().conts.len() > 0,
        m.frames.last().conts.last() == (ContView::TryHandler { try_node }),
        resolved.node_at(try_node) == Some(Node::Try { body, rescue_body }),
        resolved.resolution(try_node) == Some(Resolution::LocalSlot(slot)),
        slot < m.frames.last().locals.len(),
        m.unwind == Some(Unwind::Raise { value: v, trace, trapped }),
        h.cells.len() < usize::MAX,
        bindable(h, v),
    ensures
        ({
            let (g, z, e) = unwound(resolved, modules, h, m);
            let top = m.frames.len() - 1;
            &&& e is None
            &&& z.unwind is None
            &&& z.frames.len() == m.frames.len()
            &&& slot_value(g, z, top, slot) is Some
            &&& bound_afresh(
                h,
                v,
                HeapView { cells: h.cells, allocated: copied(h, v).0.allocated, ..g },
                slot_value(g, z, top, slot)->0,
            )
            &&& z.handling == m.handling.push((v, trace))
            &&& z.frames.last().conts == m.frames.last().conts.drop_last().push(
                Work::PopHandler,
            ).push(Work::Statements { block: rescue_body, next: 0 })
        }),
{
    reveal(unwound);
    law_copies_are_made_afresh(h, v);
    lemma_only_records(h, v);
    let (after, z, e) = unwound(resolved, modules, h, m);
    let (g, w) = copied(h, v);
    assert(HeapView { cells: h.cells, allocated: g.allocated, ..after } == g);
}

} // verus!
