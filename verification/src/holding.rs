//! What a machine holds: none of its values is a record of a dict's key, whatever step it
//! takes.

use crate::assign::placed;
use crate::ast::Arg;
use crate::ast::BinaryOp;
use crate::ast::Node;
use crate::ast::NodeId;
use crate::binding::arguments_bound;
use crate::binding::bound;
use crate::binding::params_view;
use crate::binding::ParamView;
use crate::block::block_entering;
use crate::block::block_source;
use crate::call::callee_frame;
use crate::call::callee_text;
use crate::call::defaulting;
use crate::call::entering;
use crate::call::entering_unary;
use crate::call::pending_defaults;
use crate::call::returned;
use crate::call::site_of;
use crate::call::source_of;
use crate::cont::ContView;
use crate::cont::Work;
use crate::control::choosing;
use crate::control::chosen;
use crate::control::rechecked;
use crate::control::relooped;
use crate::dict::entry_position;
use crate::dict::stored;
use crate::error::RaiseView;
use crate::error::TraceView;
use crate::eval::left_known;
use crate::eval::short_circuited;
use crate::frame::BlockDescriptor;
use crate::frame::body_work;
use crate::frame::Consumer;
use crate::frame::FrameView;
use crate::frame::Local;
use crate::heap::CellKind;
use crate::heap::HeapView;
use crate::index::bucket_reading;
use crate::index::index_object_known;
use crate::index::literal_key_known;
use crate::index::read_hash_known;
use crate::local::bound_value;
use crate::local::entry_locals;
use crate::local::fresh_locals;
use crate::local::paired;
use crate::local::spliced;
use crate::machine::MachineView;
use crate::machine::Unwind;
use crate::modload::LoadedModule;
use crate::modload::LoadView;
use crate::names::cell_reading;
use crate::names::own_cell;
use crate::object::constructed;
use crate::object::field_params;
use crate::object::field_position;
use crate::object::field_read_step;
use crate::object::field_reading;
use crate::object::slot_values;
use crate::observe::Position;
use crate::protect::trying;
use crate::protocol::Implementation;
use crate::record::copied;
use crate::resolve::BodyKind;
use crate::resolve::CallableInfo;
use crate::resolve::CaptureInfo;
use crate::resolve::ResolvedModule;
use crate::sealing::details_free;
use crate::sealing::free;
use crate::sealing::group_details;
use crate::sealing::lemma_copied;
use crate::sealing::lemma_new_cell;
use crate::sealing::lemma_new_record;
use crate::sealing::lemma_position_below;
use crate::sealing::lemma_wider;
use crate::sealing::lemma_wider_refl;
use crate::sealing::lemma_wider_trans;
use crate::sealing::orderly;
use crate::sealing::wider;
use crate::span::ModuleId;
use crate::span::Span;
use crate::step::after_operand;
use crate::step::dispatched;
use crate::step::statement_at;
use crate::step::statement_entered;
use crate::step::statement_scheduled;
use crate::unwind::exited;
use crate::unwind::undone;
use crate::upkeep::still;
use crate::value::CalIdx;
use crate::value::CellIdx;
use crate::value::DictIdx;
use crate::value::TypeIdx;
use crate::value::Value;
use vstd::prelude::*;

verus! {

/// Whether some values are free.
pub open spec fn values_free(h: HeapView, s: Set<int>, values: Seq<Value>) -> bool {
    forall|j: int| 0 <= j < values.len() ==> free(h, s, #[trigger] values[j])
}

/// Whether both values of some pairs are free.
pub open spec fn pairs_free(h: HeapView, s: Set<int>, pairs: Seq<(Value, Value)>) -> bool {
    forall|j: int|
        0 <= j < pairs.len() ==> free(h, s, (#[trigger] pairs[j]).0) && free(h, s, pairs[j].1)
}

/// Whether the value of a local, if it has one of its own, is free.
pub open spec fn local_free(h: HeapView, s: Set<int>, l: Local) -> bool {
    l matches Local::Direct(Some(v)) ==> free(h, s, v)
}

/// Whether the values that a piece of work holds are free. None stores under a hash of the
/// program's.
pub open spec fn work_free(h: HeapView, s: Set<int>, c: ContView) -> bool {
    match c {
        Work::BinApply { lhs, .. } => free(h, s, lhs),
        Work::AssignFieldVal { object, .. } => free(h, s, object),
        Work::AssignIndexKey { object, .. } => free(h, s, object),
        Work::AssignIndexVal { object, key, .. } => free(h, s, object) && free(h, s, key),
        Work::CallGotArg { callee, values, .. } => free(h, s, callee) && values_free(
            h,
            s,
            values,
        ),
        Work::BlockGotArg { values, .. } => values_free(h, s, values),
        Work::ListGotElem { values, .. } => values_free(h, s, values),
        Work::DictGotKey { entries, .. } => pairs_free(h, s, entries),
        Work::DictGotValue { entries, key, .. } => pairs_free(h, s, entries) && free(h, s, key),
        Work::DictBuildHashed { .. } => false,
        Work::IndexApply { object, .. } => free(h, s, object),
        Work::IndexReadHashed { key, .. } => free(h, s, key),
        Work::IndexAssignHashed { .. } => false,
        _ => true,
    }
}

/// Whether the values that a frame holds are free.
pub open spec fn frame_free(h: HeapView, s: Set<int>, f: FrameView) -> bool {
    &&& forall|j: int| 0 <= j < f.locals.len() ==> local_free(h, s, #[trigger] f.locals[j])
    &&& forall|j: int| 0 <= j < f.conts.len() ==> work_free(h, s, #[trigger] f.conts[j])
}

/// Whether the values that some frames hold are free.
#[verifier::opaque]
pub open spec fn frames_free(h: HeapView, s: Set<int>, frames: Seq<FrameView>) -> bool {
    forall|k: int| 0 <= k < frames.len() ==> frame_free(h, s, #[trigger] frames[k])
}

/// Whether the value of a transfer in flight is free.
pub open spec fn unwind_free(h: HeapView, s: Set<int>, u: Option<Unwind<TraceView>>) -> bool {
    match u {
        Some(Unwind::Raise { value, .. }) => free(h, s, value),
        Some(Unwind::Leave { value: Some(v), .. }) => free(h, s, v),
        _ => true,
    }
}

/// Whether no type has a hash of the program's.
pub open spec fn unhashed(protocols: Seq<Implementation>) -> bool {
    forall|k: int|
        0 <= k < protocols.len() ==> !((#[trigger] protocols[k]).protocol is Hashable)
}

/// Whether the values that a machine holds are free, and the program hashes no keys itself.
pub open spec fn machine_free(h: HeapView, s: Set<int>, m: MachineView) -> bool {
    &&& frames_free(h, s, m.frames)
    &&& m.reg is Some ==> free(h, s, m.reg->0)
    &&& unwind_free(h, s, m.unwind)
    &&& forall|j: int| 0 <= j < m.dyn_stack.len() ==> free(h, s, (#[trigger] m.dyn_stack[j]).1)
    &&& forall|j: int| 0 <= j < m.handling.len() ==> free(h, s, (#[trigger] m.handling[j]).0)
    &&& forall|j: int|
        0 <= j < m.load.states.len() && (#[trigger] m.load.states[j]) is Failed ==> free(
            h,
            s,
            m.load.states[j]->Failed_0,
        )
    &&& m.foreign is Some ==> values_free(h, s, m.foreign->0.args)
    &&& unhashed(m.protocols)
}

/// Whether the values in the details of an exception, if there is one, are free.
pub open spec fn raise_free(h: HeapView, s: Set<int>, e: Option<RaiseView>) -> bool {
    e is Some ==> details_free(h, s, e->0.details)
}

pub proof fn lemma_frame_wider(h: HeapView, s: Set<int>, g: HeapView, t: Set<int>, f: FrameView)
    requires
        wider(h, s, g, t),
        frame_free(h, s, f),
    ensures
        frame_free(g, t, f),
{
    reveal(wider);
    assert forall|j: int| 0 <= j < f.locals.len() implies local_free(
        g,
        t,
        #[trigger] f.locals[j],
    ) by {
        assert(local_free(h, s, f.locals[j]));
    }
    assert forall|j: int| 0 <= j < f.conts.len() implies work_free(
        g,
        t,
        #[trigger] f.conts[j],
    ) by {
        assert(work_free(h, s, f.conts[j]));
    }
}

/// A machine that holds free values still does when more is free.
pub proof fn lemma_machine_wider(
    h: HeapView,
    s: Set<int>,
    g: HeapView,
    t: Set<int>,
    m: MachineView,
)
    requires
        wider(h, s, g, t),
        machine_free(h, s, m),
    ensures
        machine_free(g, t, m),
{
    assert(frames_free(g, t, m.frames)) by {
        reveal(frames_free);
        assert forall|k: int| 0 <= k < m.frames.len() implies frame_free(
            g,
            t,
            #[trigger] m.frames[k],
        ) by {
            lemma_frame_wider(h, s, g, t, m.frames[k]);
        }
    }
    reveal(wider);
}

pub broadcast proof fn lemma_doing(h: HeapView, s: Set<int>, m: MachineView, c: ContView)
    requires
        frames_free(h, s, m.frames),
        work_free(h, s, c),
    ensures
        #[trigger] frames_free(h, s, m.doing(c).frames),
{
    reveal(frames_free);
    let f = m.doing(c).frames;
    assert forall|k: int| 0 <= k < f.len() implies frame_free(h, s, #[trigger] f[k]) by {
        assert(frame_free(h, s, m.frames[k]));
    }
}

pub broadcast proof fn lemma_with_slot(
    h: HeapView,
    s: Set<int>,
    m: MachineView,
    frame: int,
    slot: u16,
    local: Local,
)
    requires
        frames_free(h, s, m.frames),
        local_free(h, s, local),
    ensures
        #[trigger] frames_free(h, s, m.with_slot(frame, slot, local).frames),
{
    reveal(frames_free);
    let f = m.with_slot(frame, slot, local).frames;
    assert forall|k: int| 0 <= k < f.len() implies frame_free(h, s, #[trigger] f[k]) by {
        assert(frame_free(h, s, m.frames[k]));
    }
}

pub broadcast proof fn lemma_entered(h: HeapView, s: Set<int>, m: MachineView, f: FrameView)
    requires
        frames_free(h, s, m.frames),
        frame_free(h, s, f),
    ensures
        #[trigger] frames_free(h, s, m.entered(f).frames),
{
    reveal(frames_free);
    let all = m.entered(f).frames;
    assert forall|k: int| 0 <= k < all.len() implies frame_free(h, s, #[trigger] all[k]) by {
        if k < m.frames.len() {
            assert(frame_free(h, s, m.frames[k]));
        }
    }
}

pub broadcast proof fn lemma_left(h: HeapView, s: Set<int>, m: MachineView)
    requires
        frames_free(h, s, m.frames),
    ensures
        m.frames.len() > 0 ==> #[trigger] frames_free(h, s, m.left().frames),
{
    reveal(frames_free);
    if m.frames.len() > 0 {
        let all = m.left().frames;
        assert forall|k: int| 0 <= k < all.len() implies frame_free(h, s, #[trigger] all[k]) by {
            assert(frame_free(h, s, m.frames[k]));
        }
    }
}

pub broadcast proof fn lemma_undone(h: HeapView, s: Set<int>, m: MachineView)
    requires
        frames_free(h, s, m.frames),
        m.frames.len() > 0,
        m.top().conts.len() > 0,
    ensures
        #[trigger] frames_free(h, s, undone(m).frames),
{
    reveal(frames_free);
    let all = undone(m).frames;
    assert(frame_free(h, s, m.frames[m.frames.len() - 1]));
    let rest = m.top().conts.drop_last();
    assert forall|k: int| 0 <= k < all.len() implies frame_free(h, s, #[trigger] all[k]) by {
        assert(frame_free(h, s, m.frames[k]));
        if k == m.frames.len() - 1 && m.top().conts.len() > 0 {
            assert forall|j: int| 0 <= j < rest.len() implies work_free(
                h,
                s,
                #[trigger] rest[j],
            ) by {
                assert(work_free(h, s, m.top().conts[j]));
            }
        }
    }
}

pub broadcast group group_frames {
    lemma_doing,
    lemma_with_slot,
    lemma_entered,
    lemma_left,
}

pub proof fn lemma_choosing(
    resolved: ResolvedModule,
    h: HeapView,
    s: Set<int>,
    m: MachineView,
    node: NodeId,
)
    requires
        machine_free(h, s, m),
    ensures
        machine_free(h, s, choosing(resolved, m, node)),
{
    broadcast use group_frames, group_details;

}

pub proof fn lemma_trying(
    resolved: ResolvedModule,
    h: HeapView,
    s: Set<int>,
    m: MachineView,
    node: NodeId,
)
    requires
        machine_free(h, s, m),
    ensures
        machine_free(h, s, trying(resolved, m, node)),
{
    broadcast use group_frames, group_details;

}

pub proof fn lemma_after_operand(
    h: HeapView,
    s: Set<int>,
    m: MachineView,
    work: ContView,
    operand: Option<NodeId>,
)
    requires
        machine_free(h, s, m),
        work_free(h, s, work),
    ensures
        machine_free(h, s, after_operand(m, work, operand)),
{
    broadcast use group_frames, group_details;

}

pub proof fn lemma_statement_scheduled(
    resolved: ResolvedModule,
    h: HeapView,
    s: Set<int>,
    m: MachineView,
    stmt: NodeId,
)
    requires
        machine_free(h, s, m),
    ensures
        machine_free(h, s, statement_scheduled(resolved, m, stmt)),
{
    broadcast use group_frames;

    lemma_choosing(resolved, h, s, m, stmt);
    lemma_trying(resolved, h, s, m, stmt);
    match resolved.node_at(stmt) {
        Some(Node::Raise(e)) => {
            lemma_after_operand(h, s, m, Work::RaiseApply { node: stmt }, e);
        },
        Some(Node::Return(e)) => {
            lemma_after_operand(h, s, m, Work::ExitApply { exit: stmt }, e);
        },
        Some(Node::Break(e)) => {
            lemma_after_operand(h, s, m, Work::ExitApply { exit: stmt }, e);
        },
        Some(Node::Continue(e)) => {
            lemma_after_operand(h, s, m, Work::ExitApply { exit: stmt }, e);
        },
        _ => {},
    }
}

pub proof fn lemma_statement_entered(
    resolved: ResolvedModule,
    h: HeapView,
    s: Set<int>,
    m: MachineView,
    block: NodeId,
    next: int,
)
    requires
        machine_free(h, s, m),
    ensures
        machine_free(h, s, statement_entered(resolved, m, block, next)),
{
    broadcast use group_frames;

    if let Some(stmt) = statement_at(resolved, block, next) {
        let listed = m.voided().doing(Work::Statements { block, next: (next + 1) as usize });
        assert(machine_free(h, s, listed));
        lemma_statement_scheduled(resolved, h, s, listed, stmt);
    }
}

pub proof fn lemma_left_known(
    h: HeapView,
    s: Set<int>,
    m: MachineView,
    op: BinaryOp,
    rhs: NodeId,
    span: Span,
)
    requires
        machine_free(h, s, m),
    ensures
        ({
            let (z, e) = left_known(m, op, rhs, span);
            machine_free(h, s, z) && raise_free(h, s, e)
        }),
{
    broadcast use group_frames, group_details;

}

pub proof fn lemma_short_circuited(
    h: HeapView,
    s: Set<int>,
    m: MachineView,
    rhs: NodeId,
    span: Span,
    is_and: bool,
)
    requires
        machine_free(h, s, m),
    ensures
        ({
            let (z, e) = short_circuited(m, rhs, span, is_and);
            machine_free(h, s, z) && raise_free(h, s, e)
        }),
{
    broadcast use group_frames, group_details;

}

pub proof fn lemma_placed(
    resolved: ResolvedModule,
    h: HeapView,
    s: Set<int>,
    m: MachineView,
    assign: NodeId,
)
    requires
        machine_free(h, s, m),
    ensures
        ({
            let (z, e) = placed(resolved, m, assign);
            machine_free(h, s, z) && raise_free(h, s, e)
        }),
{
    broadcast use group_frames, group_details;

}

pub proof fn lemma_place_keyed(
    resolved: ResolvedModule,
    h: HeapView,
    s: Set<int>,
    m: MachineView,
    assign: NodeId,
    object: Value,
)
    requires
        machine_free(h, s, m),
        free(h, s, object),
    ensures
        ({
            let (z, e) = crate::assign::keyed(resolved, m, assign, object);
            machine_free(h, s, z) && raise_free(h, s, e)
        }),
{
    broadcast use group_frames, group_details;

}

pub proof fn lemma_chosen(
    resolved: ResolvedModule,
    h: HeapView,
    s: Set<int>,
    m: MachineView,
    node: NodeId,
    index: int,
)
    requires
        machine_free(h, s, m),
    ensures
        ({
            let (z, e) = chosen(resolved, m, node, index);
            machine_free(h, s, z) && raise_free(h, s, e)
        }),
{
    broadcast use group_frames, group_details;

}

pub proof fn lemma_rechecked(
    resolved: ResolvedModule,
    h: HeapView,
    s: Set<int>,
    m: MachineView,
    node: NodeId,
)
    requires
        machine_free(h, s, m),
    ensures
        ({
            let (z, e) = rechecked(resolved, m, node);
            machine_free(h, s, z) && raise_free(h, s, e)
        }),
{
    broadcast use group_frames, group_details;

}

pub proof fn lemma_relooped(
    resolved: ResolvedModule,
    h: HeapView,
    s: Set<int>,
    m: MachineView,
    node: NodeId,
)
    requires
        machine_free(h, s, m),
    ensures
        machine_free(h, s, relooped(resolved, m, node)),
{
    broadcast use group_frames, group_details;

}

pub proof fn lemma_literal_key_known(
    resolved: ResolvedModule,
    h: HeapView,
    s: Set<int>,
    m: MachineView,
    node: NodeId,
    entries: Seq<(Value, Value)>,
    index: int,
)
    requires
        machine_free(h, s, m),
        pairs_free(h, s, entries),
    ensures
        ({
            let (z, e) = literal_key_known(resolved, m, node, entries, index);
            machine_free(h, s, z) && raise_free(h, s, e)
        }),
{
    broadcast use group_frames, group_details;

}

pub proof fn lemma_index_object_known(
    h: HeapView,
    s: Set<int>,
    m: MachineView,
    index: NodeId,
    span: Span,
)
    requires
        machine_free(h, s, m),
    ensures
        ({
            let (z, e) = index_object_known(m, index, span);
            machine_free(h, s, z) && raise_free(h, s, e)
        }),
{
    broadcast use group_frames, group_details;

}

pub proof fn lemma_stored(h: HeapView, s: Set<int>, d: DictIdx, key: Value, hash: u64)
    requires
        orderly(h, s),
    ensures
        stored(h, d, key, hash) is Some ==> free(h, s, stored(h, d, key, hash)->0),
{
    reveal(orderly);
    lemma_position_below(h, h.dict(d), key, hash, 0);
    if let Some(p) = entry_position(h, h.dict(d), key, hash, 0) {
        if h.records.len() <= usize::MAX {
            assert(free(h, s, h.dict(d).entries[p as int].1));
        }
    }
}

pub proof fn lemma_read_hash_known(
    h: HeapView,
    s: Set<int>,
    m: MachineView,
    dict: DictIdx,
    key: Value,
    span: Span,
)
    requires
        orderly(h, s),
        machine_free(h, s, m),
        free(h, s, key),
    ensures
        ({
            let (z, e) = read_hash_known(h, m, dict, key, span);
            machine_free(h, s, z) && raise_free(h, s, e)
        }),
{
    if let Some(v) = m.reg {
        broadcast use group_details;

        if let Ok(bucket) = bucket_reading(h, v, span) {
            lemma_stored(h, s, dict, key, bucket);
        }
    }
}

pub proof fn lemma_cell_read(h: HeapView, s: Set<int>, cell: Option<CellIdx>, name: Seq<char>, span: Span)
    requires
        orderly(h, s),
    ensures
        (match cell_reading(h, cell, name, span) {
            Ok(v) => free(h, s, v),
            Err(e) => details_free(h, s, e.details),
        }),
{
    reveal(orderly);
    if let Some(c) = cell {
        assert(h.cell(c) is Some ==> h.cell_value(c) == h.cell(c)->0.value);
    }
}

/// What a field read gives is free, if the object is.
pub proof fn lemma_field_read(
    modules: Seq<LoadedModule>,
    load: LoadView,
    h: HeapView,
    s: Set<int>,
    object: Value,
    name: Seq<char>,
    span: Span,
)
    requires
        orderly(h, s),
        free(h, s, object),
    ensures
        (match field_reading(modules, load, h, object, name, span) {
            Ok(v) => free(h, s, v),
            Err(e) => details_free(h, s, e.details),
        }),
{
    if let Value::Module(module) = object {
        lemma_cell_read(h, s, own_cell(modules, module.0 as int, name), name, span);
    }
    if let Value::Record(r) = object {
        if let Some(p) = field_position(h, r, name) {
            reveal(orderly);
            if h.records.len() <= usize::MAX {
                assert(free(h, s, h.record(r)->0.fields[p as int]));
            }
        }
    }
}

pub proof fn lemma_field_read_step(
    resolved: ResolvedModule,
    modules: Seq<LoadedModule>,
    h: HeapView,
    s: Set<int>,
    m: MachineView,
    field: NodeId,
)
    requires
        orderly(h, s),
        machine_free(h, s, m),
    ensures
        ({
            let (z, e) = field_read_step(resolved, modules, h, m, field);
            machine_free(h, s, z) && raise_free(h, s, e)
        }),
{
    if let (Some(Node::Field { name, .. }), Some(object)) = (resolved.node_at(field), m.reg) {
        let span = resolved.ast.range(field);
        lemma_field_read(modules, m.load, h, s, object, name@, span);
    }
}

pub proof fn lemma_returned(
    resolved: ResolvedModule,
    h: HeapView,
    s: Set<int>,
    m: MachineView,
)
    requires
        machine_free(h, s, m),
    ensures
        ({
            let (z, e) = returned(resolved, h, m);
            machine_free(h, s, z) && raise_free(h, s, e)
        }),
{
    broadcast use group_frames, group_details;

}

pub proof fn lemma_exited(
    resolved: ResolvedModule,
    h: HeapView,
    s: Set<int>,
    m: MachineView,
    node: NodeId,
)
    requires
        machine_free(h, s, m),
    ensures
        ({
            let (z, e) = exited(resolved, m, node);
            machine_free(h, s, z) && raise_free(h, s, e)
        }),
{
    broadcast use group_frames, group_details;

}

pub proof fn lemma_raised(
    resolved: ResolvedModule,
    h: HeapView,
    s: Set<int>,
    m: MachineView,
    node: NodeId,
)
    requires
        machine_free(h, s, m),
    ensures
        ({
            let (z, e) = crate::protect::raised(resolved, m, node);
            machine_free(h, s, z) && raise_free(h, s, e)
        }),
{
    broadcast use group_frames, group_details;

}

/// A piece of work that leaves the heap alone leaves the machine with free values.
pub proof fn lemma_still(
    resolved: ResolvedModule,
    modules: Seq<LoadedModule>,
    h: HeapView,
    s: Set<int>,
    m: MachineView,
    c: ContView,
)
    requires
        still(c),
        orderly(h, s),
        machine_free(h, s, m),
        work_free(h, s, c),
    ensures
        ({
            let z = dispatched(resolved, modules, h, m, c);
            z.heap == h && machine_free(h, s, z.machine) && raise_free(h, s, z.raise)
        }),
{
    reveal(dispatched);
    match c {
        Work::Statements { block, next } => {
            lemma_statement_entered(resolved, h, s, m, block, next as int);
        },
        Work::BinRhs { op, rhs, span } => lemma_left_known(h, s, m, op, rhs, span),
        Work::AndRhs { rhs, span } => lemma_short_circuited(h, s, m, rhs, span, true),
        Work::OrRhs { rhs, span } => lemma_short_circuited(h, s, m, rhs, span, false),
        Work::AssignPlaceObj { assign } => lemma_placed(resolved, h, s, m, assign),
        Work::AssignIndexKey { assign, object } => {
            lemma_place_keyed(resolved, h, s, m, assign, object);
        },
        Work::IfChoose { node, index } => lemma_chosen(resolved, h, s, m, node, index as int),
        Work::WhileCheck { node } => lemma_rechecked(resolved, h, s, m, node),
        Work::LoopReloop { node } => lemma_relooped(resolved, h, s, m, node),
        Work::DictGotKey { dict, entries, index } => {
            lemma_literal_key_known(resolved, h, s, m, dict, entries, index as int);
        },
        Work::FieldRead { field } => lemma_field_read_step(resolved, modules, h, s, m, field),
        Work::IndexGotObject { index, span } => lemma_index_object_known(h, s, m, index, span),
        Work::IndexReadHashed { dict, key, span } => {
            lemma_read_hash_known(h, s, m, dict, key, span);
        },
        Work::ReturnBarrier => lemma_returned(resolved, h, s, m),
        Work::ExitApply { exit } => lemma_exited(resolved, h, s, m, exit),
        Work::RaiseApply { node } => lemma_raised(resolved, h, s, m, node),
        _ => {},
    }
}

/// Whether a step leads from an orderly heap to one, with free values in the machine and in
/// what it raises.
pub open spec fn stood(
    h: HeapView,
    s: Set<int>,
    g: HeapView,
    t: Set<int>,
    m: MachineView,
    e: Option<RaiseView>,
) -> bool {
    &&& orderly(g, t)
    &&& wider(h, s, g, t)
    &&& machine_free(g, t, m)
    &&& raise_free(g, t, e)
}

/// Whether the values of some slots are free.
pub open spec fn slots_free(h: HeapView, s: Set<int>, slots: Seq<Option<Value>>) -> bool {
    forall|j: int|
        0 <= j < slots.len() && (#[trigger] slots[j]) is Some ==> free(h, s, slots[j]->0)
}

/// Whether the values of some locals are free.
pub open spec fn locals_free(h: HeapView, s: Set<int>, locals: Seq<Local>) -> bool {
    forall|j: int| 0 <= j < locals.len() ==> local_free(h, s, #[trigger] locals[j])
}

pub proof fn lemma_bound(
    h: HeapView,
    s: Set<int>,
    params: Seq<ParamView>,
    slot_count: nat,
    args: Seq<Arg>,
    values: Seq<Value>,
    callee: Option<Seq<char>>,
    span: Span,
    n: nat,
)
    requires
        orderly(h, s),
        values_free(h, s, values),
    ensures
        ({
            let b = bound(h, params, slot_count, args, values, callee, span, n);
            &&& orderly(b.heap, s)
            &&& wider(h, s, b.heap, s)
            &&& slots_free(b.heap, s, b.slots)
            &&& raise_free(b.heap, s, b.raise)
        }),
    decreases n,
{
    broadcast use group_details;

    lemma_wider_refl(h, s);
    if n > 0 && n <= args.len() && n <= values.len() {
        lemma_bound(h, s, params, slot_count, args, values, callee, span, (n - 1) as nat);
        let b = bound(h, params, slot_count, args, values, callee, span, (n - 1) as nat);
        lemma_wider(h, s, b.heap, s, values[n - 1]);
        lemma_copied(b.heap, s, values[n - 1]);
        let (g, copy) = copied(b.heap, values[n - 1]);
        lemma_wider_trans(h, s, b.heap, s, g, s);
        assert forall|j: int| 0 <= j < b.slots.len() && (#[trigger] b.slots[j]) is Some implies free(
            g,
            s,
            b.slots[j]->0,
        ) by {
            lemma_wider(b.heap, s, g, s, b.slots[j]->0);
        }
    }
}

pub proof fn lemma_arguments_bound(
    h: HeapView,
    s: Set<int>,
    params: Seq<ParamView>,
    slot_count: nat,
    args: Seq<Arg>,
    values: Seq<Value>,
    callee: Option<Seq<char>>,
    span: Span,
)
    requires
        orderly(h, s),
        values_free(h, s, values),
    ensures
        ({
            let b = arguments_bound(h, params, slot_count, args, values, callee, span);
            &&& orderly(b.heap, s)
            &&& wider(h, s, b.heap, s)
            &&& slots_free(b.heap, s, b.slots)
            &&& raise_free(b.heap, s, b.raise)
        }),
{
    let n = if args.len() < values.len() {
        args.len()
    } else {
        values.len()
    };
    lemma_bound(h, s, params, slot_count, args, values, callee, span, n);
}

pub proof fn lemma_fresh_locals(
    h: HeapView,
    s: Set<int>,
    info: CallableInfo,
    raw: Seq<Option<Value>>,
    n: nat,
)
    requires
        orderly(h, s),
        slots_free(h, s, raw),
    ensures
        orderly(fresh_locals(h, info, raw, n).0, s),
        wider(h, s, fresh_locals(h, info, raw, n).0, s),
        locals_free(fresh_locals(h, info, raw, n).0, s, fresh_locals(h, info, raw, n).1),
    decreases n,
{
    lemma_wider_refl(h, s);
    if n > 0 {
        lemma_fresh_locals(h, s, info, raw, (n - 1) as nat);
        let (before, locals) = fresh_locals(h, info, raw, (n - 1) as nat);
        let v = bound_value(raw, n - 1);
        if v is Some {
            lemma_wider(h, s, before, s, v->0);
        }
        lemma_new_cell(before, s, CellKind::Let, v);
        let after = before.new_cell(CellKind::Let, v);
        lemma_wider_trans(h, s, before, s, after, s);
        assert forall|j: int| 0 <= j < locals.len() implies local_free(
            after,
            s,
            #[trigger] locals[j],
        ) by {
            if let Local::Direct(Some(v)) = locals[j] {
                lemma_wider(before, s, after, s, v);
            }
        }
    }
}

pub proof fn lemma_spliced(
    h: HeapView,
    s: Set<int>,
    locals: Seq<Local>,
    captures: Seq<CaptureInfo>,
    cells: Seq<CellIdx>,
    n: nat,
)
    requires
        locals_free(h, s, locals),
    ensures
        locals_free(h, s, spliced(locals, captures, cells, n)),
    decreases n,
{
    if n > 0 && n <= captures.len() && n <= cells.len() {
        lemma_spliced(h, s, locals, captures, cells, (n - 1) as nat);
    }
}

pub proof fn lemma_entry_locals(
    h: HeapView,
    s: Set<int>,
    info: CallableInfo,
    raw: Seq<Option<Value>>,
    cells: Seq<CellIdx>,
)
    requires
        orderly(h, s),
        slots_free(h, s, raw),
    ensures
        ({
            let (g, locals) = entry_locals(h, info, raw, cells);
            orderly(g, s) && wider(h, s, g, s) && locals_free(g, s, locals)
        }),
{
    lemma_fresh_locals(h, s, info, raw, info.slot_count as nat);
    let (after, locals) = fresh_locals(h, info, raw, info.slot_count as nat);
    lemma_spliced(after, s, locals, info.captures@, cells, paired(info.captures@, cells));
}

pub proof fn lemma_body_work(h: HeapView, s: Set<int>, body: NodeId)
    ensures
        forall|j: int|
            0 <= j < body_work(body).len() ==> work_free(h, s, #[trigger] body_work(body)[j]),
{
}

pub proof fn lemma_defaulting(
    h: HeapView,
    s: Set<int>,
    m: MachineView,
    defaults: Seq<(u16, NodeId)>,
)
    requires
        machine_free(h, s, m),
    ensures
        machine_free(h, s, defaulting(m, defaults)),
    decreases defaults.len(),
{
    broadcast use group_frames;

    if defaults.len() > 0 {
        let (slot, e) = defaults.last();
        let next = m.doing(Work::BindDefault { slot, default: e }).doing(Work::Eval { node: e });
        assert(machine_free(h, s, next));
        lemma_defaulting(h, s, next, defaults.drop_last());
    }
}

pub proof fn lemma_callee_frame(
    h: HeapView,
    s: Set<int>,
    m: MachineView,
    module: ModuleId,
    cal: CalIdx,
    locals: Seq<Local>,
    body: NodeId,
    block: Option<BlockDescriptor>,
    site: Position,
    reuse: bool,
)
    requires
        machine_free(h, s, m),
        locals_free(h, s, locals),
    ensures
        machine_free(h, s, callee_frame(m, module, cal, locals, body, block, site, reuse)),
{
    broadcast use group_frames;

    lemma_body_work(h, s, body);
    let z = callee_frame(m, module, cal, locals, body, block, site, reuse);
    if reuse && m.frames.len() > 0 && m.top().kind is Callable {
        reveal(frames_free);
        assert forall|k: int| 0 <= k < z.frames.len() implies frame_free(
            h,
            s,
            #[trigger] z.frames[k],
        ) by {
            assert(frame_free(h, s, m.frames[k]));
        }
    } else {
        let f = FrameView::of_callable(
            module,
            cal,
            locals,
            body,
            m.frame_serial,
            block,
            site,
            m.dyn_stack.len() as usize,
        );
        assert(frame_free(h, s, f));
    }
}

pub proof fn lemma_entering(
    modules: Seq<LoadedModule>,
    h: HeapView,
    s: Set<int>,
    m: MachineView,
    cal: CalIdx,
    args: Seq<Arg>,
    values: Seq<Value>,
    block: Result<Option<BlockDescriptor>, RaiseView>,
    call: NodeId,
    span: Span,
    tail_of: Option<BodyKind>,
)
    requires
        orderly(h, s),
        machine_free(h, s, m),
        values_free(h, s, values),
        block is Err ==> block->Err_0.details.len() == 0,
    ensures
        ({
            let z = entering(modules, h, m, cal, args, values, block, call, span, tail_of);
            stood(h, s, z.heap, s, z.machine, z.raise)
        }),
{
    lemma_wider_refl(h, s);
    if let Some((module, info)) = source_of(modules, h, cal) {
        let resolved = modules[module.0 as int].resolved;
        let params = params_view(info.params@);
        let callee = callee_text(resolved, info.decl);
        let slots = info.slot_count as nat;
        let b = arguments_bound(h, params, slots, args, values, callee, span);
        lemma_arguments_bound(h, s, params, slots, args, values, callee, span);
        lemma_machine_wider(h, s, b.heap, s, m);
        let captures = h.callable(cal)->0.captures;
        lemma_entry_locals(b.heap, s, info, b.slots, captures);
        let (g, locals) = entry_locals(b.heap, info, b.slots, captures);
        lemma_wider_trans(h, s, b.heap, s, g, s);
        lemma_machine_wider(h, s, g, s, m);
        if let Ok(desc) = block {
            let site = site_of(modules, m, module, call);
            let reuse = tail_of == Some(info.kind);
            lemma_callee_frame(g, s, m, module, cal, locals, info.body, desc, site, reuse);
            lemma_defaulting(
                g,
                s,
                callee_frame(m, module, cal, locals, info.body, desc, site, reuse),
                pending_defaults(resolved, info, b.filled, info.params@.len()),
            );
        }
    }
}

pub proof fn lemma_entering_unary(
    modules: Seq<LoadedModule>,
    h: HeapView,
    s: Set<int>,
    m: MachineView,
    cal: CalIdx,
    value: Value,
    node: NodeId,
    span: Span,
)
    requires
        orderly(h, s),
        machine_free(h, s, m),
        free(h, s, value),
    ensures
        ({
            let z = entering_unary(modules, h, m, cal, value, node, span);
            stood(h, s, z.heap, s, z.machine, z.raise)
        }),
{
    lemma_entering(
        modules,
        h,
        s,
        m,
        cal,
        seq![Arg::Positional(node)],
        seq![value],
        Ok(None),
        node,
        span,
        None,
    );
}

pub proof fn lemma_block_entering(
    modules: Seq<LoadedModule>,
    h: HeapView,
    s: Set<int>,
    m: MachineView,
    desc: BlockDescriptor,
    consumer: Consumer,
    args: Seq<Arg>,
    values: Seq<Value>,
    call_site: Option<NodeId>,
    span: Span,
)
    requires
        orderly(h, s),
        machine_free(h, s, m),
        values_free(h, s, values),
    ensures
        ({
            let z = block_entering(modules, h, m, desc, consumer, args, values, call_site, span);
            stood(h, s, z.heap, s, z.machine, z.raise)
        }),
{
    broadcast use group_frames;

    lemma_wider_refl(h, s);
    if let Some((module, info)) = block_source(modules, m, desc) {
        let params = params_view(info.params@);
        let slots = info.slot_count as nat;
        let b = arguments_bound(h, params, slots, args, values, None, span);
        lemma_arguments_bound(h, s, params, slots, args, values, None, span);
        lemma_machine_wider(h, s, b.heap, s, m);
        lemma_entry_locals(b.heap, s, info, b.slots, Seq::empty());
        let (g, locals) = entry_locals(b.heap, info, b.slots, Seq::empty());
        lemma_wider_trans(h, s, b.heap, s, g, s);
        lemma_machine_wider(h, s, g, s, m);
        lemma_body_work(g, s, info.body);
        let f = FrameView::of_block(
            module,
            desc,
            consumer,
            locals,
            info.body,
            m.frame_serial,
            match call_site {
                Some(call) => Some(site_of(modules, m, module, call)),
                None => None,
            },
            m.dyn_stack.len() as usize,
        );
        assert(frame_free(g, s, f));
    }
}

pub proof fn lemma_constructed(
    resolved: ResolvedModule,
    h: HeapView,
    s: Set<int>,
    m: MachineView,
    call: NodeId,
    idx: TypeIdx,
    values: Seq<Value>,
)
    requires
        orderly(h, s),
        machine_free(h, s, m),
        values_free(h, s, values),
    ensures
        ({
            let z = constructed(resolved, h, m, call, idx, values);
            stood(h, s, z.heap, s, z.machine, z.raise)
        }),
{
    lemma_wider_refl(h, s);
    if let (Some(Node::Call { args, .. }), Some(schema)) = (
        resolved.node_at(call),
        h.schema(idx),
    ) {
        let span = resolved.ast.range(call);
        let params = field_params(schema.fields);
        let n = schema.fields.len();
        let name = Some(schema.name);
        let b = arguments_bound(h, params, n, args@, values, name, span);
        lemma_arguments_bound(h, s, params, n, args@, values, name, span);
        lemma_machine_wider(h, s, b.heap, s, m);
        let fields = slot_values(b.slots);
        assert forall|j: int| 0 <= j < fields.len() implies free(
            b.heap,
            s,
            #[trigger] fields[j],
        ) by {
            assert(b.slots[j] is Some ==> free(b.heap, s, b.slots[j]->0));
        }
        lemma_new_record(b.heap, s, idx, fields);
        let g = b.heap.new_record(idx, fields);
        lemma_wider_trans(h, s, b.heap, s, g, s);
        lemma_machine_wider(h, s, g, s, m);
    }
}

} // verus!
