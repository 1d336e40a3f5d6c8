//! What calls do: which parameter gets which argument, which variables a closure reads, and what
//! runs next.

use crate::ast::Arg;
use crate::ast::Node;
use crate::ast::NodeId;
use crate::binding::arguments_bound;
use crate::binding::bound;
use crate::binding::lemma_arguments_bound_lengths;
use crate::binding::parameter_named;
use crate::binding::params_view;
use crate::binding::ParamView;
use crate::binding::unfilled;
use crate::binding_laws::bindable;
use crate::binding_laws::bound_afresh;
use crate::binding_laws::law_copies_are_made_afresh;
use crate::block::block_binding;
use crate::block::block_entering;
use crate::block::block_invocation;
use crate::block::takes_block;
use crate::block::unbound;
use crate::call::applied;
use crate::call::callable_declared;
use crate::call::callee_frame;
use crate::call::callee_text;
use crate::call::captured_cells;
use crate::call::default_node;
use crate::call::defaulting;
use crate::call::entering;
use crate::call::pending_defaults;
use crate::call::site_of;
use crate::cont::ContView;
use crate::cont::Work;
use crate::error::ExceptionKind;
use crate::error::RaiseView;
use crate::eval::evaluated;
use crate::frame::BlockDescriptor;
use crate::frame::Consumer;
use crate::frame::FrameKind;
use crate::frame::FrameView;
use crate::frame::Local;
use crate::heap::CallableTarget;
use crate::heap::CalView;
use crate::heap::HeapView;
use crate::heap::SchemaView;
use crate::local::captured_slot;
use crate::local::entry_locals;
use crate::local::fresh_locals;
use crate::local::paired;
use crate::local::spliced;
use crate::machine::ForeignCall;
use crate::machine::MachineView;
use crate::modload::LoadedModule;
use crate::named::named_view;
use crate::object::field_params;
use crate::resolve::body_of;
use crate::resolve::BodyKind;
use crate::resolve::CallableInfo;
use crate::resolve::CaptureInfo;
use crate::resolve::Resolution;
use crate::resolve::ResolvedModule;
use crate::sourcing::missing;
use crate::span::ModuleId;
use crate::span::Span;
use crate::step::dispatched;
use crate::value::CalIdx;
use crate::value::CellIdx;
use crate::value::RecIdx;
use crate::value::TypeIdx;
use crate::value::Value;
use vstd::prelude::*;

verus! {

/// The frame that a variable belongs to, so many blocks further out: without a block the frame
/// itself, and beyond a block what is so many less out from the frame that it is written in.
pub proof fn law_blocks_see_the_frames_they_are_written_in(m: MachineView, from: int, hops: nat)
    requires
        0 <= from < m.frames.len(),
    ensures
        m.outer(from, 0) == Some(from),
        m.frames[from].kind is Block ==> m.outer(from, hops + 1) == m.outer(
            m.frames[from].kind->defining as int,
            hops,
        ),
        !(m.frames[from].kind is Block) ==> m.outer(from, hops + 1) is None,
        m.enclosing(hops) == m.outer(m.frames.len() - 1, hops),
{
}

/// Whether the variables that a callable captures live in these cells, where it is made.
pub open spec fn captures_live_in(
    m: MachineView,
    captures: Seq<CaptureInfo>,
    cells: Seq<CellIdx>,
) -> bool {
    &&& cells.len() == captures.len()
    &&& forall|i: int|
        0 <= i < captures.len() ==> {
            let c = #[trigger] captures[i];
            &&& m.outer(m.frames.len() - 1, c.hops as nat) matches Some(f)
            &&& 0 <= f < m.frames.len()
            &&& c.from_slot < m.frames[f].locals.len()
            &&& m.frames[f].locals[c.from_slot as int] == Local::Boxed(cells[i])
        }
}

proof fn lemma_captured(m: MachineView, captures: Seq<CaptureInfo>, cells: Seq<CellIdx>, n: nat)
    requires
        captures_live_in(m, captures, cells),
        n <= captures.len(),
    ensures
        captured_cells(m, captures, n) == cells.take(n as int),
    decreases n,
{
    if n > 0 {
        lemma_captured(m, captures, cells, (n - 1) as nat);
        let c = captures[n - 1];
        assert(cells.take(n as int) =~= cells.take(n - 1).push(cells[n - 1]));
    } else {
        assert(cells.take(0) =~= Seq::empty());
    }
}

proof fn lemma_spliced_length(
    locals: Seq<Local>,
    captures: Seq<CaptureInfo>,
    cells: Seq<CellIdx>,
    n: nat,
)
    ensures
        spliced(locals, captures, cells, n).len() == locals.len(),
    decreases n,
{
    if n > 0 && n <= captures.len() && n <= cells.len() {
        lemma_spliced_length(locals, captures, cells, (n - 1) as nat);
    }
}

/// Whether no two captures fill one slot.
pub open spec fn distinct_slots(captures: Seq<CaptureInfo>) -> bool {
    forall|i: int, j: int|
        0 <= i < j < captures.len() ==> (#[trigger] captures[i]).slot != (
        #[trigger] captures[j]).slot
}

proof fn lemma_spliced(
    locals: Seq<Local>,
    captures: Seq<CaptureInfo>,
    cells: Seq<CellIdx>,
    n: nat,
    i: int,
)
    requires
        distinct_slots(captures),
        n <= captures.len(),
        captures.len() == cells.len(),
        0 <= i < n,
        captures[i].slot < locals.len(),
    ensures
        spliced(locals, captures, cells, n)[captures[i].slot as int] == Local::Boxed(cells[i]),
    decreases n,
{
    lemma_spliced_length(locals, captures, cells, (n - 1) as nat);
    if i < n - 1 {
        lemma_spliced(locals, captures, cells, (n - 1) as nat, i);
        assert(captures[i].slot != captures[n - 1].slot);
    }
}

proof fn lemma_unspliced(
    locals: Seq<Local>,
    captures: Seq<CaptureInfo>,
    cells: Seq<CellIdx>,
    n: nat,
    slot: int,
)
    requires
        0 <= slot < locals.len(),
        forall|i: int| 0 <= i < captures.len() ==> (#[trigger] captures[i]).slot != slot,
    ensures
        spliced(locals, captures, cells, n)[slot] == locals[slot],
    decreases n,
{
    if n > 0 && n <= captures.len() && n <= cells.len() {
        lemma_unspliced(locals, captures, cells, (n - 1) as nat, slot);
        lemma_spliced_length(locals, captures, cells, (n - 1) as nat);
        assert(captures[n - 1].slot != slot);
    }
}

/// Where a callable is made, it remembers the body it is declared with, its module, and the
/// cells of the variables it captures, each where its capture stands.
pub proof fn law_callables_remember_their_variables(
    resolved: ResolvedModule,
    modules: Seq<LoadedModule>,
    h: HeapView,
    m: MachineView,
    decl: NodeId,
    id: int,
    cells: Seq<CellIdx>,
)
    requires
        resolved.node_at(decl) is Some && resolved.node_at(decl)->0 is Callable,
        0 <= id < resolved.callables@.len() <= u32::MAX,
        resolved.callables@[id].decl == decl,
        forall|k: int| 0 <= k < id ==> (#[trigger] resolved.callables@[k]).decl != decl,
        captures_live_in(m, resolved.callables@[id].captures@, cells),
        h.callables.len() < usize::MAX,
    ensures
        ({
            let z = dispatched(resolved, modules, h, m, Work::Eval { node: decl });
            let cal = CalIdx(h.callables.len() as usize);
            &&& z.raise is None
            &&& z.machine == (MachineView { reg: Some(Value::Callable(cal)), ..m })
            &&& z.heap.callable(cal) == Some(
                CalView {
                    module: resolved.canonical_id,
                    target: CallableTarget::Source(id as u32),
                    captures: cells,
                },
            )
            &&& z.heap.cells == h.cells
            &&& forall|c: CalIdx|
                c.0 < h.callables.len() ==> #[trigger] z.heap.callable(c) == h.callable(c)
        }),
{
    assert(dispatched(resolved, modules, h, m, Work::Eval { node: decl }) == evaluated(
        resolved,
        modules,
        h,
        m,
        decl,
    )) by {
        reveal(dispatched);
    }
    lemma_first_body(resolved.callables@, decl, 0, id);
    let captures = resolved.callables@[id].captures@;
    lemma_captured(m, captures, cells, captures.len());
    assert(cells.take(captures.len() as int) =~= cells);
}

proof fn lemma_first_body(callables: Seq<CallableInfo>, decl: NodeId, from: nat, id: int)
    requires
        from <= id < callables.len(),
        callables[id].decl == decl,
        forall|k: int| from <= k < id ==> (#[trigger] callables[k]).decl != decl,
    ensures
        body_of(callables, decl, from) == Some(id as nat),
    decreases id - from,
{
    if from < id {
        assert(callables[from as int].decl != decl);
        lemma_first_body(callables, decl, from + 1, id);
    }
}

/// A callable of a module that closures share has a cell of its own: the callable can name
/// itself, and the cell holds it.
pub proof fn law_callables_can_name_themselves(
    resolved: ResolvedModule,
    modules: Seq<LoadedModule>,
    h: HeapView,
    m: MachineView,
    decl: NodeId,
    id: int,
    slot: u16,
)
    requires
        resolved.resolution(decl) == Some(Resolution::LocalSlot(slot)),
        m.frames.len() > 0,
        slot < m.frames.last().locals.len(),
        m.frames.last().locals[slot as int] is Boxed,
        0 <= id < resolved.callables@.len() <= u32::MAX,
        resolved.callables@[id].decl == decl,
        forall|k: int| 0 <= k < id ==> (#[trigger] resolved.callables@[k]).decl != decl,
        resolved.callables@[id].captures@.len() == 1,
        resolved.callables@[id].captures@[0].hops == 0,
        resolved.callables@[id].captures@[0].from_slot == slot,
        h.callables.len() < usize::MAX,
        h.cells.len() < usize::MAX,
    ensures
        ({
            let z = dispatched(resolved, modules, h, m, Work::DefineCallable { decl });
            let cal = CalIdx(h.callables.len() as usize);
            let cell = CellIdx(h.cells.len() as usize);
            &&& z.raise is None
            &&& z.machine.frames.len() == m.frames.len()
            &&& z.machine.frames.last().locals[slot as int] == Local::Boxed(cell)
            &&& z.heap.cell_value(cell) == Some(Value::Callable(cal))
            &&& z.heap.callable(cal) is Some
            &&& z.heap.callable(cal)->0.captures == seq![cell]
            &&& z.heap.callable(cal)->0.target == CallableTarget::Source(id as u32)
        }),
{
    lemma_first_body(resolved.callables@, decl, 0, id);
    let captures = resolved.callables@[id].captures@;
    let cell = CellIdx(h.cells.len() as usize);
    let boxed = MachineView {
        frames: m.frames.update(
            m.frames.len() - 1,
            FrameView {
                locals: m.frames.last().locals.update(slot as int, Local::Boxed(cell)),
                ..m.frames.last()
            },
        ),
        ..m
    };
    assert(boxed == m.with_slot(m.frames.len() - 1, slot, Local::Boxed(cell)));
    assert(captures_live_in(boxed, captures, seq![cell]));
    lemma_captured(boxed, captures, seq![cell], 1);
    assert(seq![cell].take(1) =~= seq![cell]);
    assert(dispatched(resolved, modules, h, m, Work::DefineCallable { decl }).heap
        == callable_declared(
        resolved,
        h,
        m,
        if (resolved.canonical_id.0 as int) < modules.len() {
            named_view(modules[resolved.canonical_id.0 as int].namespace@)
        } else {
            Seq::empty()
        },
        decl,
    ).0) by {
        reveal(dispatched);
    }
    assert(dispatched(resolved, modules, h, m, Work::DefineCallable { decl }).machine
        == callable_declared(
        resolved,
        h,
        m,
        if (resolved.canonical_id.0 as int) < modules.len() {
            named_view(modules[resolved.canonical_id.0 as int].namespace@)
        } else {
            Seq::empty()
        },
        decl,
    ).1) by {
        reveal(dispatched);
    }
    assert(dispatched(resolved, modules, h, m, Work::DefineCallable { decl }).raise is None) by {
        reveal(dispatched);
    }
}

proof fn lemma_fresh_length(h: HeapView, info: CallableInfo, raw: Seq<Option<Value>>, n: nat)
    ensures
        fresh_locals(h, info, raw, n).1.len() == n,
        h.cells.len() <= fresh_locals(h, info, raw, n).0.cells.len(),
        fresh_locals(h, info, raw, n).0.cells.len() <= h.cells.len() + n,
        forall|c: int|
            0 <= c < h.cells.len() ==> #[trigger] fresh_locals(h, info, raw, n).0.cells[c]
                == h.cells[c],
        fresh_locals(h, info, raw, n).0.records == h.records,
    decreases n,
{
    if n > 0 {
        lemma_fresh_length(h, info, raw, (n - 1) as nat);
    }
}

proof fn lemma_fresh_local(
    h: HeapView,
    info: CallableInfo,
    raw: Seq<Option<Value>>,
    n: nat,
    slot: int,
)
    requires
        0 <= slot < n,
        forall|i: int| 0 <= i < info.captures@.len() ==> (
        #[trigger] info.captures@[i]).slot != slot,
        h.cells.len() + n <= usize::MAX,
    ensures
        ({
            let (g, locals) = fresh_locals(h, info, raw, n);
            let v = if slot < raw.len() {
                raw[slot]
            } else {
                None
            };
            &&& slot < info.cell_boxed@.len() && info.cell_boxed@[slot] ==> locals[slot] is Boxed
                && h.cells.len() <= locals[slot]->Boxed_0.0 < g.cells.len() && g.cell_value(
                locals[slot]->Boxed_0,
            ) == v
            &&& !(slot < info.cell_boxed@.len() && info.cell_boxed@[slot]) ==> locals[slot]
                == Local::Direct(v)
        }),
    decreases n,
{
    lemma_fresh_length(h, info, raw, (n - 1) as nat);
    if slot < n - 1 {
        lemma_fresh_local(h, info, raw, (n - 1) as nat, slot);
        let (before, locals) = fresh_locals(h, info, raw, (n - 1) as nat);
        let (g, all) = fresh_locals(h, info, raw, n);
        if let Local::Boxed(c) = locals[slot] {
            assert(g.cells[c.0 as int] == before.cells[c.0 as int]);
        }
    } else {
        assert(!captured_slot(info.captures@, slot));
    }
}

/// When a body is entered, each slot that a capture fills has the very cell that the callable
/// remembers for it; any other has the value bound for it, in a cell that no one had before if
/// closures share it.
pub proof fn law_entering_gives_each_slot_its_own(
    h: HeapView,
    info: CallableInfo,
    raw: Seq<Option<Value>>,
    cells: Seq<CellIdx>,
    i: int,
    slot: int,
)
    requires
        cells.len() == info.captures@.len(),
        distinct_slots(info.captures@),
        h.cells.len() + info.slot_count <= usize::MAX,
        0 <= slot < info.slot_count,
    ensures
        ({
            let (g, locals) = entry_locals(h, info, raw, cells);
            let v = if slot < raw.len() {
                raw[slot]
            } else {
                None
            };
            &&& locals.len() == info.slot_count
            &&& g.records == h.records
            &&& forall|c: int| 0 <= c < h.cells.len() ==> #[trigger] g.cells[c] == h.cells[c]
            &&& 0 <= i < cells.len() && info.captures@[i].slot < info.slot_count
                ==> locals[info.captures@[i].slot as int] == Local::Boxed(cells[i])
            &&& (forall|k: int|
                0 <= k < info.captures@.len() ==> (#[trigger] info.captures@[k]).slot != slot) ==> {
                let boxed = slot < info.cell_boxed@.len() && info.cell_boxed@[slot];
                &&& boxed ==> locals[slot] is Boxed && h.cells.len() <= locals[slot]->Boxed_0.0
                    && g.cell_value(locals[slot]->Boxed_0) == v
                &&& !boxed ==> locals[slot] == Local::Direct(v)
            }
        }),
{
    let n = info.slot_count as nat;
    lemma_fresh_length(h, info, raw, n);
    let (g, fresh) = fresh_locals(h, info, raw, n);
    let all = paired(info.captures@, cells);
    lemma_spliced_length(fresh, info.captures@, cells, all);
    if 0 <= i < cells.len() && info.captures@[i].slot < info.slot_count {
        lemma_spliced(fresh, info.captures@, cells, all, i);
    }
    if forall|k: int|
        0 <= k < info.captures@.len() ==> (#[trigger] info.captures@[k]).slot != slot {
        lemma_fresh_local(h, info, raw, n, slot);
        lemma_unspliced(fresh, info.captures@, cells, all, slot);
    }
}

/// Before any argument, nothing is bound; and with each argument in turn: a positional one goes
/// to the parameter at its position among the positional ones, a named one to the first parameter
/// of that name. It is bound in that parameter's slot, and nothing else changes. One without a
/// parameter, one for a block parameter, and a second one for a parameter are refused.
pub proof fn law_each_argument_finds_its_parameter(
    h: HeapView,
    params: Seq<ParamView>,
    slot_count: nat,
    args: Seq<Arg>,
    values: Seq<Value>,
    callee: Option<Seq<char>>,
    span: Span,
    n: nat,
    p: int,
)
    requires
        n < args.len(),
        n < values.len(),
        match args[n as int] {
            Arg::Positional(_) => p == bound(
                h,
                params,
                slot_count,
                args,
                values,
                callee,
                span,
                n,
            ).pos,
            Arg::Keyword { name, .. } => {
                &&& 0 <= p <= params.len()
                &&& p < params.len() ==> params[p].name == name@
                &&& forall|q: int| 0 <= q < p ==> (#[trigger] params[q]).name != name@
            },
        },
    ensures
        ({
            let start = bound(h, params, slot_count, args, values, callee, span, 0);
            &&& start.heap == h
            &&& start.raise is None
            &&& start.pos == 0
            &&& start.slots.len() == slot_count
            &&& start.filled.len() == params.len()
            &&& forall|j: int| 0 <= j < slot_count ==> (#[trigger] start.slots[j]) is None
            &&& forall|j: int| 0 <= j < params.len() ==> !#[trigger] start.filled[j]
        }),
        ({
            let b = bound(h, params, slot_count, args, values, callee, span, n);
            let z = bound(h, params, slot_count, args, values, callee, span, n + 1);
            let v = values[n as int];
            let named = args[n as int] is Keyword;
            &&& b.raise is Some ==> z == b
            &&& b.raise is None && (p >= params.len() || params[p].is_block) ==> z.raise is Some
                && z.heap == b.heap && z.raise->0.kind == (if named {
                ExceptionKind::UnknownKeyword
            } else {
                ExceptionKind::TooManyArguments
            })
            &&& b.raise is None && p < params.len() && !params[p].is_block && b.filled[p]
                ==> z.raise is Some && z.raise->0.kind == ExceptionKind::DuplicateArgument
                && z.heap == b.heap
            &&& b.raise is None && p < params.len() && !params[p].is_block && !b.filled[p] ==> {
                &&& z.raise is None
                &&& z.filled == b.filled.update(p, true)
                &&& z.pos == b.pos + (if named {
                    0nat
                } else {
                    1nat
                })
                &&& z.slots.len() == b.slots.len()
                &&& forall|j: int|
                    0 <= j < b.slots.len() && j != params[p].slot ==> #[trigger] z.slots[j]
                        == b.slots[j]
                &&& bindable(b.heap, v) && params[p].slot < b.slots.len()
                    ==> z.slots[params[p].slot as int] is Some && bound_afresh(
                    b.heap,
                    v,
                    z.heap,
                    z.slots[params[p].slot as int]->0,
                )
            }
        }),
{
    let b = bound(h, params, slot_count, args, values, callee, span, n);
    if let Arg::Keyword { name, .. } = args[n as int] {
        lemma_first_parameter(params, name@, 0, p);
    }
    if bindable(b.heap, values[n as int]) {
        law_copies_are_made_afresh(b.heap, values[n as int]);
    }
}

proof fn lemma_first_parameter(params: Seq<ParamView>, name: Seq<char>, from: nat, p: int)
    requires
        from <= p <= params.len(),
        p < params.len() ==> params[p].name == name,
        forall|q: int| from <= q < p ==> (#[trigger] params[q]).name != name,
    ensures
        parameter_named(params, name, from) == (if p < params.len() {
            Some(p as nat)
        } else {
            None
        }),
    decreases params.len() - from,
{
    if from < p {
        assert(params[from as int].name != name);
        lemma_first_parameter(params, name, from + 1, p);
    }
}

/// The first parameter that has to be given and was not, if there is one.
proof fn lemma_unfilled(params: Seq<ParamView>, filled: Seq<bool>, from: nat)
    ensures
        (match unfilled(params, filled, from) {
            Some(p) => from <= p < params.len() && !filled[p as int] && !params[p as int].is_block
                && !params[p as int].has_default && forall|q: int|
                from <= q < p ==> filled[q] || (#[trigger] params[q]).is_block
                    || params[q].has_default,
            None => forall|q: int|
                from <= q < params.len() ==> filled[q] || (#[trigger] params[q]).is_block
                    || params[q].has_default,
        }),
    decreases params.len() - from,
{
    if from < params.len() {
        lemma_unfilled(params, filled, from + 1);
    }
}

proof fn lemma_defaulting_keeps(m: MachineView, defaults: Seq<(u16, NodeId)>)
    requires
        m.frames.len() > 0,
    ensures
        ({
            let z = defaulting(m, defaults);
            &&& z.frames.len() == m.frames.len()
            &&& z.frames.drop_last() == m.frames.drop_last()
            &&& z.frames.last() == (FrameView {
                conts: z.frames.last().conts,
                ..m.frames.last()
            })
            &&& z.frames.last().conts.len() == m.frames.last().conts.len() + 2 * defaults.len()
            &&& z.frames.last().conts.take(m.frames.last().conts.len() as int)
                == m.frames.last().conts
            &&& forall|i: int|
                0 <= i < defaults.len() ==> {
                    let at = m.frames.last().conts.len() + 2 * (defaults.len() - 1 - i);
                    &&& z.frames.last().conts[at] == (ContView::BindDefault {
                        slot: (#[trigger] defaults[i]).0,
                        default: defaults[i].1,
                    })
                    &&& z.frames.last().conts[at + 1] == (ContView::Eval { node: defaults[i].1 })
                }
            &&& z.reg == m.reg
            &&& z.unwind == m.unwind
            &&& z.meter == m.meter
        }),
    decreases defaults.len(),
{
    let conts = m.frames.last().conts;
    if defaults.len() > 0 {
        let (slot, e) = defaults.last();
        let next = m.doing(Work::BindDefault { slot, default: e }).doing(Work::Eval { node: e });
        let rest = defaults.drop_last();
        lemma_defaulting_keeps(next, rest);
        let z = defaulting(m, defaults);
        assert(next.frames.drop_last() =~= m.frames.drop_last());
        assert(next.frames.last().conts == conts.push(
            Work::BindDefault { slot, default: e },
        ).push(Work::Eval { node: e }));
        let longer = next.frames.last().conts;
        assert(z.frames.last().conts.take(conts.len() as int) =~= conts) by {
            assert forall|k: int| 0 <= k < conts.len() implies z.frames.last().conts[k]
                == conts[k] by {
                assert(z.frames.last().conts.take(longer.len() as int)[k] == longer[k]);
            }
        }
        assert forall|i: int| 0 <= i < defaults.len() implies {
            let at = conts.len() + 2 * (defaults.len() - 1 - i);
            &&& z.frames.last().conts[at] == (ContView::BindDefault {
                slot: (#[trigger] defaults[i]).0,
                default: defaults[i].1,
            })
            &&& z.frames.last().conts[at + 1] == (ContView::Eval { node: defaults[i].1 })
        } by {
            if i < rest.len() {
                assert(rest[i] == defaults[i]);
            } else {
                let k = conts.len() as int;
                assert(z.frames.last().conts.take(longer.len() as int)[k] == longer[k]);
                assert(z.frames.last().conts.take(longer.len() as int)[k + 1] == longer[k + 1]);
            }
        }
    } else {
        assert(conts.take(conts.len() as int) =~= conts);
    }
}

/// The missing parameters with a default, in their order, each with its slot and its default.
proof fn lemma_pending_defaults(
    resolved: ResolvedModule,
    info: CallableInfo,
    filled: Seq<bool>,
    n: nat,
    p: int,
)
    requires
        0 <= p < n <= info.params@.len(),
        !filled[p],
        !info.params@[p].is_block,
        info.params@[p].has_default,
        default_node(resolved, info.decl, p) is Some,
    ensures
        pending_defaults(resolved, info, filled, n).contains(
            (info.params@[p].slot, default_node(resolved, info.decl, p)->0),
        ),
    decreases n,
{
    let all = pending_defaults(resolved, info, filled, n);
    let e = (info.params@[p].slot, default_node(resolved, info.decl, p)->0);
    if p == n - 1 {
        assert(all.last() == e);
    } else {
        lemma_pending_defaults(resolved, info, filled, (n - 1) as nat, p);
        let before = pending_defaults(resolved, info, filled, (n - 1) as nat);
        let k = choose|k: int| 0 <= k < before.len() && before[k] == e;
        assert(all[k] == e);
    }
}

/// Whether a callable's own body was entered: in a frame of its own on top, of the callable and
/// its module, with these locals, which runs the body from its first statement and returns after
/// it.
pub open spec fn entered_by(
    m: MachineView,
    z: MachineView,
    cal: CalIdx,
    module: ModuleId,
    info: CallableInfo,
    locals: Seq<Local>,
) -> bool {
    &&& z.frames.len() == m.frames.len() + 1
    &&& z.frames.drop_last() == m.frames
    &&& z.frames.last().kind == (FrameKind::Callable { cal })
    &&& z.frames.last().module == module
    &&& z.frames.last().locals == locals
    &&& z.frames.last().conts.len() >= 2
    &&& z.frames.last().conts[0] == (ContView::ReturnBarrier)
    &&& z.frames.last().conts[1] == (ContView::Statements { block: info.body, next: 0 })
    &&& z.frames.last().serial == m.frame_serial
    &&& z.unwind == m.unwind
}

/// Entering a callable binds its arguments first: what that raises is raised, and so is an
/// argument that has to be given and was not. Otherwise its body is entered, with a slot for each
/// argument and each captured variable; of the parameters without an argument, the defaults are
/// evaluated first, the first one next.
pub proof fn law_entering_runs_the_body(
    modules: Seq<LoadedModule>,
    h: HeapView,
    m: MachineView,
    cal: CalIdx,
    c: CalView,
    id: u32,
    info: CallableInfo,
    args: Seq<Arg>,
    values: Seq<Value>,
    block: Option<BlockDescriptor>,
    call: NodeId,
    span: Span,
)
    requires
        h.callable(cal) == Some(c),
        c.target == CallableTarget::Source(id),
        c.module.0 < modules.len(),
        modules[c.module.0 as int].resolved.body(id as int) == Some(info),
        m.frame_serial < u64::MAX,
    ensures
        ({
            let resolved = modules[c.module.0 as int].resolved;
            let params = params_view(info.params@);
            let b = arguments_bound(
                h,
                params,
                info.slot_count as nat,
                args,
                values,
                callee_text(resolved, info.decl),
                span,
            );
            let missing = |q: int|
                0 <= q < params.len() && !b.filled[q] && !params[q].is_block
                    && !params[q].has_default;
            let z = entering(modules, h, m, cal, args, values, Ok(block), call, span, None);
            let (g, locals) = entry_locals(b.heap, info, b.slots, c.captures);
            &&& b.raise is Some ==> z.raise == b.raise && z.machine == m && z.heap == b.heap
            &&& b.raise is None && (exists|q: int| #[trigger] missing(q)) ==> z.raise is Some
                && z.raise->0.kind == ExceptionKind::MissingArgument && z.machine == m
            &&& b.raise is None && !(exists|q: int| #[trigger] missing(q)) ==> {
                &&& z.raise is None
                &&& z.heap == g
                &&& entered_by(m, z.machine, cal, c.module, info, locals)
                &&& z.machine.frames.last().block_param == block
                &&& z.machine.reg == m.reg
                &&& forall|p: int|
                    0 <= p < info.params@.len() && !b.filled[p] && !(
                    #[trigger] info.params@[p]).is_block && info.params@[p].has_default
                        && default_node(resolved, info.decl, p) is Some
                        ==> z.machine.frames.last().conts.contains(
                        Work::BindDefault {
                            slot: info.params@[p].slot,
                            default: default_node(resolved, info.decl, p)->0,
                        },
                    )
            }
        }),
{
    let resolved = modules[c.module.0 as int].resolved;
    let params = params_view(info.params@);
    let slots = info.slot_count as nat;
    let callee = callee_text(resolved, info.decl);
    let b = arguments_bound(h, params, slots, args, values, callee, span);
    let missing = |q: int|
        0 <= q < params.len() && !b.filled[q] && !params[q].is_block && !params[q].has_default;
    lemma_unfilled(params, b.filled, 0);
    if b.raise is None {
        match unfilled(params, b.filled, 0) {
            Some(p) => {
                assert(missing(p as int));
            },
            None => {
                let (g, locals) = entry_locals(b.heap, info, b.slots, c.captures);
                let site = site_of(modules, m, c.module, call);
                let framed = callee_frame(
                    m,
                    c.module,
                    cal,
                    locals,
                    info.body,
                    block,
                    site,
                    false,
                );
                let defaults = pending_defaults(resolved, info, b.filled, info.params@.len());
                lemma_defaulting_keeps(framed, defaults);
                let z = entering(modules, h, m, cal, args, values, Ok(block), call, span, None);
                assert(z.machine == defaulting(framed, defaults));
                assert(framed.frames.drop_last() =~= m.frames);
                let conts = z.machine.frames.last().conts;
                assert(conts.take(2)[0] == framed.frames.last().conts[0]);
                assert(conts.take(2)[1] == framed.frames.last().conts[1]);
                assert forall|q: int| !(#[trigger] missing(q)) by {
                    if 0 <= q < params.len() {
                        assert(b.filled[q] || params[q].is_block || params[q].has_default);
                    }
                }
                assert forall|p: int|
                    0 <= p < info.params@.len() && !b.filled[p] && !(
                    #[trigger] info.params@[p]).is_block && info.params@[p].has_default
                        && default_node(resolved, info.decl, p) is Some implies conts.contains(
                    Work::BindDefault {
                        slot: info.params@[p].slot,
                        default: default_node(resolved, info.decl, p)->0,
                    },
                ) by {
                    let n = info.params@.len();
                    lemma_pending_defaults(resolved, info, b.filled, n, p);
                    let e = (info.params@[p].slot, default_node(resolved, info.decl, p)->0);
                    let k = choose|k: int| 0 <= k < defaults.len() && defaults[k] == e;
                    assert(defaults[k] == e);
                    let at = 2 + 2 * (defaults.len() - 1 - k);
                    assert(conts[at] == (ContView::BindDefault { slot: e.0, default: e.1 }));
                }
            },
        }
    }
}

/// A closure shares its creator's variables: wherever it is called later, each slot that a
/// capture fills is the very cell of the variable where the closure was made.
pub proof fn law_closures_share_their_creators_variables(
    resolved: ResolvedModule,
    modules: Seq<LoadedModule>,
    h: HeapView,
    m: MachineView,
    decl: NodeId,
    id: int,
    cells: Seq<CellIdx>,
    g: HeapView,
    caller: MachineView,
    args: Seq<Arg>,
    values: Seq<Value>,
    block: Option<BlockDescriptor>,
    call: NodeId,
    span: Span,
    i: int,
)
    requires
        resolved.node_at(decl) is Some && resolved.node_at(decl)->0 is Callable,
        0 <= id < resolved.callables@.len() <= u32::MAX,
        resolved.callables@[id].decl == decl,
        forall|k: int| 0 <= k < id ==> (#[trigger] resolved.callables@[k]).decl != decl,
        captures_live_in(m, resolved.callables@[id].captures@, cells),
        distinct_slots(resolved.callables@[id].captures@),
        h.callables.len() < usize::MAX,
        resolved.canonical_id.0 < modules.len(),
        modules[resolved.canonical_id.0 as int].resolved == resolved,
        g.callable(CalIdx(h.callables.len() as usize)) == dispatched(
            resolved,
            modules,
            h,
            m,
            Work::Eval { node: decl },
        ).heap.callable(CalIdx(h.callables.len() as usize)),
        caller.frame_serial < u64::MAX,
        0 <= i < cells.len(),
        resolved.callables@[id].captures@[i].slot < resolved.callables@[id].slot_count,
        arguments_bound(
            g,
            params_view(resolved.callables@[id].params@),
            resolved.callables@[id].slot_count as nat,
            args,
            values,
            callee_text(resolved, decl),
            span,
        ).heap.cells.len() + resolved.callables@[id].slot_count <= usize::MAX,
    ensures
        ({
            let z = entering(
                modules,
                g,
                caller,
                CalIdx(h.callables.len() as usize),
                args,
                values,
                Ok(block),
                call,
                span,
                None,
            );
            z.raise is None ==> z.machine.frames.len() == caller.frames.len() + 1
                && z.machine.frames.last().locals[resolved.callables@[id].captures@[i].slot as int]
                == Local::Boxed(cells[i])
        }),
{
    let cal = CalIdx(h.callables.len() as usize);
    law_callables_remember_their_variables(resolved, modules, h, m, decl, id, cells);
    let c = CalView {
        module: resolved.canonical_id,
        target: CallableTarget::Source(id as u32),
        captures: cells,
    };
    let info = resolved.callables@[id];
    law_entering_runs_the_body(
        modules,
        g,
        caller,
        cal,
        c,
        id as u32,
        info,
        args,
        values,
        block,
        call,
        span,
    );
    let b = arguments_bound(
        g,
        params_view(info.params@),
        info.slot_count as nat,
        args,
        values,
        callee_text(resolved, decl),
        span,
    );
    law_entering_gives_each_slot_its_own(
        b.heap,
        info,
        b.slots,
        cells,
        i,
        info.captures@[i].slot as int,
    );
}

/// A call evaluates what it calls first, then its arguments from the first to the last, and then
/// calls with all of them in that order.
pub proof fn law_arguments_are_evaluated_in_order(
    resolved: ResolvedModule,
    modules: Seq<LoadedModule>,
    h: HeapView,
    m: MachineView,
    call: NodeId,
    callee_node: NodeId,
    args: Seq<Arg>,
    callee: Value,
    values: Seq<Value>,
    index: usize,
    v: Value,
)
    requires
        resolved.node_at(call) matches Some(Node::Call { callee: c, args: a, .. }) && c
            == callee_node && a@ == args,
        args.len() <= usize::MAX,
        m.frames.len() > 0,
        m.reg == Some(v),
    ensures
        !block_invocation(resolved, h, m, callee_node) ==> {
            let z = dispatched(resolved, modules, h, m, Work::Eval { node: call });
            &&& z.heap == h
            &&& z.raise is None
            &&& z.machine.frames.last().conts == m.frames.last().conts.push(
                Work::CallGotCallee { call },
            ).push(Work::Eval { node: callee_node })
        },
        args.len() > 0 ==> {
            let z = dispatched(resolved, modules, h, m, Work::CallGotCallee { call });
            &&& z.heap == h
            &&& z.raise is None
            &&& z.machine.reg is None
            &&& z.machine.frames.last().conts == m.frames.last().conts.push(
                Work::CallGotArg { call, callee: v, values: Seq::empty(), index: 0 },
            ).push(
                Work::Eval {
                    node: match args[0] {
                        Arg::Positional(e) => e,
                        Arg::Keyword { value, .. } => value,
                    },
                },
            )
        },
        index + 1 < args.len() ==> {
            let z = dispatched(
                resolved,
                modules,
                h,
                m,
                Work::CallGotArg { call, callee, values, index },
            );
            &&& z.heap == h
            &&& z.raise is None
            &&& z.machine.reg is None
            &&& z.machine.frames.last().conts == m.frames.last().conts.push(
                Work::CallGotArg {
                    call,
                    callee,
                    values: values.push(v),
                    index: (index + 1) as usize,
                },
            ).push(
                Work::Eval {
                    node: match args[index + 1] {
                        Arg::Positional(e) => e,
                        Arg::Keyword { value, .. } => value,
                    },
                },
            )
        },
        args.len() == 0 ==> dispatched(
            resolved,
            modules,
            h,
            m,
            Work::CallGotCallee { call },
        ) == applied(
            resolved,
            modules,
            h,
            MachineView { reg: None, ..m },
            call,
            v,
            Seq::empty(),
        ),
        index + 1 >= args.len() ==> dispatched(
            resolved,
            modules,
            h,
            m,
            Work::CallGotArg { call, callee, values, index },
        ) == applied(
            resolved,
            modules,
            h,
            MachineView { reg: None, ..m },
            call,
            callee,
            values.push(v),
        ),
{
    reveal(dispatched);
}

/// What is called is what was evaluated: a callable of a module is entered with the call's own
/// arguments, a native function is to be run with them, a record type makes a record of them, and
/// anything else is refused.
pub proof fn law_calls_go_to_their_callee(
    resolved: ResolvedModule,
    modules: Seq<LoadedModule>,
    h: HeapView,
    m: MachineView,
    call: NodeId,
    callee_node: NodeId,
    args: Vec<Arg>,
    callee: Value,
    values: Seq<Value>,
)
    requires
        resolved.node_at(call) == Some(Node::Call { callee: callee_node, args, block: None }),
        !resolved.tail_call(call),
    ensures
        ({
            let z = applied(resolved, modules, h, m, call, callee, values);
            let span = resolved.ast.range(call);
            &&& callee matches Value::Callable(cal) ==> {
                &&& h.callable(cal) matches Some(c) ==> {
                    &&& c.target matches CallableTarget::Intrinsic(id) ==> z.heap == h
                        && z.raise is None && z.machine == (MachineView {
                        foreign: Some(ForeignCall { id, args: values, call }),
                        ..m
                    })
                    &&& c.target matches CallableTarget::Source(id) ==> (c.module.0
                        < modules.len() && modules[c.module.0 as int].resolved.body(id as int)
                        is Some && (forall|i: int|
                        0 <= i < modules[c.module.0 as int].resolved.body(
                            id as int,
                        )->0.params@.len() ==> !(#[trigger] modules[c.module.0 as int].resolved.body(
                            id as int,
                        )->0.params@[i]).is_block) ==> z == entering(
                        modules,
                        h,
                        m,
                        cal,
                        args@,
                        values,
                        Ok(None),
                        call,
                        span,
                        None,
                    ))
                }
            }
            &&& callee matches Value::Type(t) ==> {
                &&& h.schema(t) is None ==> z.raise is Some && z.raise->0.kind
                    == ExceptionKind::NotCallable && z.heap == h && z.machine == m
            }
            &&& !(callee is Callable) && !(callee is Type) ==> z.raise is Some
                && z.raise->0.kind == ExceptionKind::NotCallable && z.heap == h && z.machine == m
        }),
{
    if let Value::Callable(cal) = callee {
        if let Some(c) = h.callable(cal) {
            if let CallableTarget::Source(id) = c.target {
                if c.module.0 < modules.len() {
                    if let Some(info) = modules[c.module.0 as int].resolved.body(id as int) {
                        let params = params_view(info.params@);
                        if forall|i: int|
                            0 <= i < info.params@.len() ==> !(#[trigger] info.params@[i]).is_block {
                            assert(!takes_block(params)) by {
                                if takes_block(params) {
                                    let i = choose|i: int|
                                        0 <= i < params.len() && (#[trigger] params[i]).is_block;
                                    assert(info.params@[i].is_block);
                                }
                            }
                        }
                    }
                }
            }
        }
    }
}

/// Making a record of a type: the arguments are bound to its fields as to parameters, every field
/// has to be given, and the record's fields are the values bound for them, in their order.
pub proof fn law_records_are_made_of_their_arguments(
    resolved: ResolvedModule,
    modules: Seq<LoadedModule>,
    h: HeapView,
    m: MachineView,
    call: NodeId,
    callee_node: NodeId,
    args: Vec<Arg>,
    block: Option<NodeId>,
    t: TypeIdx,
    schema: SchemaView,
    values: Seq<Value>,
)
    requires
        resolved.node_at(call) == Some(Node::Call { callee: callee_node, args, block }),
        h.schema(t) == Some(schema),
        schema.fields.len() <= u16::MAX,
    ensures
        ({
            let params = Seq::new(
                schema.fields.len(),
                |i: int|
                    ParamView {
                        name: schema.fields[i],
                        slot: i as u16,
                        is_block: false,
                        has_default: false,
                    },
            );
            let b = arguments_bound(
                h,
                params,
                schema.fields.len(),
                args@,
                values,
                Some(schema.name),
                resolved.ast.range(call),
            );
            let z = applied(resolved, modules, h, m, call, Value::Type(t), values);
            let missing = |q: int| 0 <= q < schema.fields.len() && !b.filled[q];
            &&& b.raise is Some ==> z.raise == b.raise && z.machine == m
            &&& b.raise is None && (exists|q: int| #[trigger] missing(q)) ==> z.raise is Some
                && z.raise->0.kind == ExceptionKind::MissingArgument && z.machine == m
            &&& b.raise is None && !(exists|q: int| #[trigger] missing(q)) && b.heap.records.len()
                < usize::MAX ==> {
                let r = RecIdx(b.heap.records.len() as usize);
                &&& z.raise is None
                &&& z.machine == (MachineView { reg: Some(Value::Record(r)), ..m })
                &&& z.heap.record(r) is Some
                &&& z.heap.record(r)->0.type_idx == t
                &&& z.heap.record(r)->0.fields.len() == b.slots.len()
                &&& forall|i: int|
                    0 <= i < b.slots.len() && b.slots[i] is Some
                        ==> #[trigger] z.heap.record(r)->0.fields[i] == b.slots[i]->0
                &&& forall|o: RecIdx|
                    o.0 < b.heap.records.len() ==> #[trigger] z.heap.record(o) == b.heap.record(o)
            }
        }),
{
    let params = Seq::new(
        schema.fields.len(),
        |i: int|
            ParamView {
                name: schema.fields[i],
                slot: i as u16,
                is_block: false,
                has_default: false,
            },
    );
    assert(params =~= field_params(schema.fields));
    let b = arguments_bound(
        h,
        params,
        schema.fields.len(),
        args@,
        values,
        Some(schema.name),
        resolved.ast.range(call),
    );
    lemma_unfilled(params, b.filled, 0);
    let missing = |q: int| 0 <= q < schema.fields.len() && !b.filled[q];
    match unfilled(params, b.filled, 0) {
        Some(p) => {
            assert(missing(p as int));
        },
        None => {
            assert forall|q: int| !(#[trigger] missing(q)) by {
                if 0 <= q < schema.fields.len() {
                    assert(b.filled[q] || params[q].is_block || params[q].has_default);
                }
            }
        },
    }
}

/// At its end a body is left: a function with the value it has come to, which it has to have, a
/// procedure without one, and a block as it is. The frame beneath goes on.
pub proof fn law_bodies_return_at_their_end(
    resolved: ResolvedModule,
    modules: Seq<LoadedModule>,
    h: HeapView,
    m: MachineView,
    cal: CalIdx,
    c: CalView,
    id: u32,
    info: CallableInfo,
)
    requires
        m.frames.len() > 0,
        m.unwind is None,
        m.frames.last().kind == (FrameKind::Callable { cal }),
        h.callable(cal) == Some(c),
        c.target == CallableTarget::Source(id),
        resolved.body(id as int) == Some(info),
    ensures
        ({
            let z = dispatched(resolved, modules, h, m, Work::ReturnBarrier);
            &&& z.heap == h
            &&& z.machine.frames == m.frames.drop_last()
            &&& z.machine.unwind is None
            &&& info.kind == BodyKind::Proc ==> z.raise is None && z.machine.reg is None
            &&& info.kind == BodyKind::Func && m.reg is Some ==> z.raise is None && z.machine.reg
                == m.reg
            &&& info.kind == BodyKind::Func && m.reg is None ==> z.raise is Some && z.raise->0.kind
                == ExceptionKind::FunctionFellOffEnd
        }),
{
    reveal(dispatched);
}

/// At its end a block is left with the value it has come to.
pub proof fn law_blocks_return_at_their_end(
    resolved: ResolvedModule,
    modules: Seq<LoadedModule>,
    h: HeapView,
    m: MachineView,
)
    requires
        m.frames.len() > 0,
        m.frames.last().kind is Block,
    ensures
        ({
            let z = dispatched(resolved, modules, h, m, Work::ReturnBarrier);
            &&& z.heap == h
            &&& z.raise is None
            &&& z.machine == (MachineView { frames: m.frames.drop_last(), ..m })
        }),
{
    reveal(dispatched);
}

/// The first parameter of a block that has no argument, if there is one.
proof fn lemma_unbound(filled: Seq<bool>, from: nat)
    ensures
        (match unbound(filled, from) {
            Some(p) => from <= p < filled.len() && !filled[p as int],
            None => forall|q: int| from <= q < filled.len() ==> #[trigger] filled[q],
        }),
    decreases filled.len() - from,
{
    if from < filled.len() {
        lemma_unbound(filled, from + 1);
    }
}

/// Running a block binds its arguments to its parameters, all of which have to be given, and
/// enters its body: in a frame on top that remembers where the block was written and who runs
/// it.
pub proof fn law_blocks_run_where_they_are_written(
    modules: Seq<LoadedModule>,
    h: HeapView,
    m: MachineView,
    desc: BlockDescriptor,
    consumer: Consumer,
    args: Seq<Arg>,
    values: Seq<Value>,
    call_site: Option<NodeId>,
    span: Span,
    module: ModuleId,
    info: CallableInfo,
)
    requires
        desc.defining < m.frames.len(),
        module == m.frames[desc.defining as int].module,
        module.0 < modules.len(),
        modules[module.0 as int].resolved.body(desc.callable as int) == Some(info),
        m.frame_serial < u64::MAX,
    ensures
        ({
            let params = params_view(info.params@);
            let b = arguments_bound(
                h,
                params,
                info.slot_count as nat,
                args,
                values,
                None,
                span,
            );
            let z = block_entering(modules, h, m, desc, consumer, args, values, call_site, span);
            let missing = |q: int| 0 <= q < params.len() && !b.filled[q];
            let (g, locals) = entry_locals(b.heap, info, b.slots, Seq::empty());
            &&& b.raise is Some ==> z.raise == b.raise && z.machine == m
            &&& b.raise is None && (exists|q: int| #[trigger] missing(q)) ==> z.raise is Some
                && z.machine == m
            &&& b.raise is None && !(exists|q: int| #[trigger] missing(q)) ==> {
                &&& z.raise is None
                &&& z.heap == g
                &&& z.machine.frames.len() == m.frames.len() + 1
                &&& z.machine.frames.drop_last() == m.frames
                &&& z.machine.frames.last().kind == (FrameKind::Block {
                    defining: desc.defining,
                    defining_serial: desc.defining_serial,
                    consumer,
                })
                &&& z.machine.frames.last().module == module
                &&& z.machine.frames.last().locals == locals
                &&& z.machine.frames.last().conts == seq![
                    ContView::ReturnBarrier,
                    ContView::Statements { block: info.body, next: 0 },
                ]
                &&& z.machine.reg == m.reg
            }
        }),
{
    let params = params_view(info.params@);
    let slots = info.slot_count as nat;
    let b = arguments_bound(h, params, slots, args, values, None, span);
    lemma_arguments_bound_lengths(h, params, slots, args, values, None, span);
    lemma_unbound(b.filled, 0);
    let missing = |q: int| 0 <= q < params.len() && !b.filled[q];
    match unbound(b.filled, 0) {
        Some(p) => {
            assert(missing(p as int));
        },
        None => {
            assert forall|q: int| !(#[trigger] missing(q)) by {}
            let z = block_entering(modules, h, m, desc, consumer, args, values, call_site, span);
            if b.raise is None {
                assert(z.machine.frames.drop_last() =~= m.frames);
            }
        },
    }
}

/// A block that a call is given is one of the frame that makes the call; a callable that takes
/// one has to be given one, and one that takes none must not.
pub proof fn law_blocks_belong_to_the_calling_frame(
    resolved: ResolvedModule,
    m: MachineView,
    call: NodeId,
    callee_node: NodeId,
    args: Vec<Arg>,
    block: Option<NodeId>,
    params: Seq<ParamView>,
    span: Span,
    id: int,
)
    requires
        resolved.node_at(call) == Some(Node::Call { callee: callee_node, args, block }),
        m.frames.len() > 0,
        m.frames.len() <= usize::MAX,
        block is Some ==> 0 <= id < resolved.callables@.len() <= u32::MAX
            && resolved.callables@[id].decl == block->0 && forall|k: int|
            0 <= k < id ==> (#[trigger] resolved.callables@[k]).decl != block->0,
    ensures
        ({
            let takes = exists|i: int| 0 <= i < params.len() && (#[trigger] params[i]).is_block;
            let r = block_binding(resolved, m, call, params, span);
            &&& block is Some && takes ==> r == Ok::<Option<BlockDescriptor>, RaiseView>(
                Some(
                    BlockDescriptor {
                        defining: (m.frames.len() - 1) as usize,
                        defining_serial: m.frames.last().serial,
                        callable: id as u32,
                    },
                ),
            )
            &&& block is None && !takes ==> r == Ok::<Option<BlockDescriptor>, RaiseView>(None)
            &&& block is Some != takes ==> r is Err
        }),
{
    if block is Some {
        lemma_first_body(resolved.callables@, block->0, 0, id);
    }
}

} // verus!
