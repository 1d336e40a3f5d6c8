//! What the host and the program make of each other: the functions that the engine brings, the
//! calls that wait for the host, what it answers, and when and why a drive stops.

use crate::activation::call_started;
use crate::activation::each_advanced;
use crate::activation::MAX_REENTRY_DEPTH;
use crate::activation::NativesView;
use crate::activation::PendingView;
use crate::activation::Progress;
use crate::activation::unwritten_args;
use crate::ast::NodeId;
use crate::block::block_entering;
use crate::block::block_range;
use crate::breakpoint::breakpoint_at;
use crate::breakpoint::EntryView;
use crate::breakpoint::hit_from;
use crate::cont::ContView;
use crate::drive::counted;
use crate::drive::handle_values;
use crate::drive::host_answered;
use crate::drive::pause_due;
use crate::drive::Resolution;
use crate::drive::resolved_call;
use crate::error::ExceptionKind;
use crate::error::RaiseView;
use crate::frame::BlockDescriptor;
use crate::frame::Consumer;
use crate::handle::Handle;
use crate::handle::TableView;
use crate::heap::HeapView;
use crate::heap::RecordView;
use crate::instance::Directive;
use crate::instance::Instance;
use crate::instance::PauseReason;
use crate::intrinsic::ForeignBody;
use crate::intrinsic::ForeignParamView;
use crate::intrinsic::HostReply;
use crate::intrinsic::Native;
use crate::machine::MachineView;
use crate::machine::Unwind;
use crate::modload::LoadedModule;
use crate::modload::LoadState;
use crate::modload::PendingImportView;
use crate::natives::filled_in;
use crate::natives::native_result;
use crate::protocol::DispatchType;
use crate::protocol::implementation;
use crate::protocol::Implementation;
use crate::protocol::implementation_from;
use crate::protocol::WellKnown;
use crate::render::value_text;
use crate::resolve::BodyKind;
use crate::resolve::ResolvedModule;
use crate::sourcing::begun_in;
use crate::span::ModuleId;
use crate::span::Span;
use crate::turn::TurnKind;
use crate::unicode::grapheme_clusters;
use crate::value::BytesIdx;
use crate::value::ListIdx;
use crate::value::RecIdx;
use crate::value::Value;
use vstd::prelude::*;
use vstd::utf8::encode_utf8;

verus! {

/// The length of a list, a dict or a byte string is how many elements it has, that of a string
/// how many clusters. Printing writes a value's text and a line's end, and has no result. A
/// string encoded is its bytes.
pub proof fn law_engine_functions(h: HeapView, v: Value, span: Span)
    requires
        h.bytes.len() < usize::MAX,
    ensures
        ({
            let length = native_result(Native::Length, h, v, span);
            let print = native_result(Native::Print, h, v, span);
            let encode = native_result(Native::Encode, h, v, span);
            let counted = |n: nat| n <= i64::MAX && n <= usize::MAX ==> length.result == Ok::<
                Option<Value>,
                RaiseView,
            >(Some(Value::Int(n as i64)));
            &&& length.heap == h && length.written.len() == 0
            &&& match v {
                Value::List(l) => counted(h.items(l).len()),
                Value::Dict(d) => counted(h.dict(d).entries.len()),
                Value::Bytes(b) => counted(h.bytes_of(b).len()),
                Value::Str(s) => counted(grapheme_clusters(h.text(s)).len()),
                _ => length.result is Err && length.result->Err_0.kind
                    == ExceptionKind::TypeMismatch,
            }
            &&& print.heap == h
            &&& print.result == Ok::<Option<Value>, RaiseView>(None)
            &&& print.written.len() > 0 && print.written.last() == 10
            &&& print.written.drop_last() == encode_utf8(value_text(h, v))
            &&& match v {
                Value::Str(s) => {
                    let b = BytesIdx(h.bytes.len() as usize);
                    &&& encode.result == Ok::<Option<Value>, RaiseView>(Some(Value::Bytes(b)))
                    &&& encode.heap.bytes_of(b) == encode_utf8(h.text(s))
                    &&& encode.written.len() == 0
                },
                _ => encode.result is Err && encode.heap == h,
            }
        }),
{
    assert(native_result(Native::Print, h, v, span).written.drop_last() =~= encode_utf8(
        value_text(h, v),
    ));
}

/// A call of a function that suspends waits, with its arguments, for the host. One that the
/// host runs begins, above the frames that there are. One of the engine's is done at once, and
/// what it wrote comes after what was written before; a procedure has no result.
pub proof fn law_calls_of_registered_functions(
    h: HeapView,
    m: MachineView,
    ns: NativesView,
    id: u32,
    args: Seq<Value>,
    block: Option<BlockDescriptor>,
    span: Span,
)
    requires
        id < ns.table.len(),
        m.frames.len() <= usize::MAX,
    ensures
        ({
            let s = call_started(h, m, ns, id, args, block, span);
            match ns.table[id as int].body {
                ForeignBody::Capability => ns.calls.len() == 0 ==> {
                    &&& s.raise is None && s.heap == h && s.machine == m
                    &&& s.natives.pending == Some(PendingView { capability: id, args, span })
                    &&& s.natives.calls == ns.calls && s.natives.output == ns.output
                },
                ForeignBody::Host(_) => {
                    let a = s.natives.calls.last();
                    &&& s.raise is None && s.heap == h && s.machine == m
                    &&& s.natives.calls.len() == ns.calls.len() + 1
                    &&& s.natives.calls.drop_last() == ns.calls
                    &&& a.id == id && a.args == args && a.block == block && a.span == span
                    &&& a.kind == ns.table[id as int].kind
                    &&& a.boundary == m.frames.len()
                    &&& a.progress is Waiting
                },
                ForeignBody::Engine(native) => args.len() > 0 && !(native is Each) ==> {
                    let done = native_result(native, h, args[0], span);
                    &&& s.heap == done.heap
                    &&& s.natives == (NativesView { output: ns.output + done.written, ..ns })
                    &&& (done.result matches Ok(v) ==> s.raise is None && s.machine == (
                    MachineView {
                        reg: if ns.table[id as int].kind == BodyKind::Proc {
                            None
                        } else {
                            v
                        },
                        ..m
                    }))
                    &&& (done.result matches Err(e) ==> s.raise == Some(e) && s.machine == m)
                },
            }
        }),
{
    let s = call_started(h, m, ns, id, args, block, span);
    if ns.table[id as int].body is Host {
        assert(s.natives.calls.drop_last() =~= ns.calls);
    }
}

/// `each` has its block run on the element that is next, and goes on with the one after it.
pub proof fn law_each_takes_the_elements_in_order(
    modules: Seq<LoadedModule>,
    h: HeapView,
    m: MachineView,
    ns: NativesView,
    next: usize,
    count: usize,
    l: ListIdx,
)
    requires
        m.unwind is None,
        ns.calls.len() > 0,
        ns.calls.len() <= MAX_REENTRY_DEPTH,
        ns.calls.last().args.len() > 0,
        ns.calls.last().args[0] == Value::List(l),
        ns.calls.last().block is Some,
        next < count,
        next < h.items(l).len(),
    ensures
        ({
            let s = each_advanced(modules, h, m, ns, next, count);
            let desc = ns.calls.last().block->0;
            let e = block_entering(
                modules,
                h,
                m,
                desc,
                Consumer::Native { boundary: ns.calls.last().boundary },
                unwritten_args(1),
                seq![h.items(l)[next as int]],
                None,
                block_range(modules, m, desc),
            );
            &&& s.heap == e.heap
            &&& s.machine == e.machine
            &&& s.raise == e.raise
            &&& e.raise is None ==> s.natives.calls.len() == ns.calls.len()
                && s.natives.calls.last().progress == (Progress::Each {
                next: (next + 1) as usize,
                count,
            }) && s.natives.calls.last().args == ns.calls.last().args
        }),
{
    reveal(each_advanced);
}

/// The host's answer to a call that waits is the call's value, or is raised where the call
/// stands. A procedure's call has none. A handle that names nothing is refused.
pub proof fn law_answers_are_what_calls_come_to(i: Instance, h: Handle, v: Value, p: PendingView)
    requires
        i.natives@.pending == Some(p),
        p.capability < i.natives@.table.len(),
    ensures
        i.handles@.resolve(h) == Some(v) ==> {
            let (m, taken) = resolved_call(i, Resolution::Value(h));
            let (z, raised) = resolved_call(i, Resolution::Raise(h));
            &&& taken && raised
            &&& i.natives@.table[p.capability as int].kind == BodyKind::Func ==> m == (MachineView {
                reg: Some(v),
                ..i.machine@
            })
            &&& i.natives@.table[p.capability as int].kind == BodyKind::Proc ==> m == (MachineView {
                reg: None,
                ..i.machine@
            })
            &&& z.unwind matches Some(Unwind::Raise { value, trace, trapped })
            &&& value == v && trace.raised_at == Some(p.span) && !trapped
            &&& z.frames == i.machine@.frames && z.reg == i.machine@.reg
        },
        i.handles@.resolve(h) is None ==> resolved_call(i, Resolution::Value(h)) == (
            i.machine@,
            false,
        ) && resolved_call(i, Resolution::Raise(h)) == (i.machine@, false),
{
}

/// The host's answer to a function of its own ends the call: a value is the call's, an
/// exception is in flight, and a procedure has none.
pub proof fn law_replies_end_their_call(i: Instance, h: Handle, v: Value)
    requires
        i.natives@.calls.len() > 0,
        i.machine@.meter.pending_fault is None,
        i.machine@.unwind is None,
        i.handles@.resolve(h) == Some(v),
    ensures
        ({
            let a = i.natives@.calls.last();
            let none = host_answered(i, HostReply::Value(None));
            let value = host_answered(i, HostReply::Value(Some(h)));
            let raise = host_answered(i, HostReply::Raise(h));
            &&& none.heap == i.heap@ && value.heap == i.heap@ && raise.heap == i.heap@
            &&& none.natives.calls == i.natives@.calls.drop_last()
            &&& value.natives.calls == i.natives@.calls.drop_last()
            &&& raise.natives.calls == i.natives@.calls.drop_last()
            &&& none.machine == (MachineView { reg: None, ..i.machine@ })
            &&& a.kind == BodyKind::Func ==> value.machine == (MachineView {
                reg: Some(v),
                ..i.machine@
            })
            &&& a.kind == BodyKind::Proc ==> value.machine == (MachineView {
                reg: None,
                ..i.machine@
            })
            &&& raise.machine.unwind matches Some(Unwind::Raise { value: w, trace, .. })
            &&& w == v && trace.raised_at == Some(a.span)
            &&& raise.machine.frames == i.machine@.frames
        }),
{
}

/// Why a drive stops at a safe point: what is in flight comes first, then that the host asks
/// for it, that the slice is spent, a breakpoint, and a single step. To its end it runs past
/// breakpoints, and inside a call of the host's it stops for nothing.
pub proof fn law_reasons_to_stop(i: Instance, host_pause: bool)
    ensures
        ({
            let due = pause_due(i, TurnKind::SafePoint, host_pause);
            let fine = pause_due(i, TurnKind::FinePoint, host_pause);
            let raised = match i.machine@.unwind {
                Some(Unwind::Raise { trapped, .. }) => i.raise_trap_enabled && !trapped && !(
                i.directive is RunToCompletion),
                _ => false,
            };
            let spent = i.machine@.meter.fuel.exhausted;
            let outside = i.natives@.calls.len() == 0;
            &&& !outside ==> due is None && fine is None && pause_due(
                i,
                TurnKind::Ran,
                host_pause,
            ) is None
            &&& outside && raised ==> due == Some(PauseReason::RaiseTrap) && fine == Some(
                PauseReason::RaiseTrap,
            ) && pause_due(i, TurnKind::Ran, host_pause) == Some(PauseReason::RaiseTrap)
            &&& outside && !raised ==> pause_due(i, TurnKind::Ran, host_pause) is None
            &&& outside && !raised && host_pause ==> due == Some(PauseReason::HostPause) && fine
                == Some(PauseReason::HostPause)
            &&& outside && !raised && !host_pause && spent ==> due == Some(PauseReason::SliceEnd)
            &&& outside && !raised && !host_pause && !spent ==> match i.directive {
                Directive::RunToCompletion => due is None && fine is None,
                Directive::Continue => fine is None && match breakpoint_at(i) {
                    Some(b) => due == Some(PauseReason::Breakpoint(b)),
                    None => due is None,
                },
                Directive::Step => fine == Some(PauseReason::Step) && match breakpoint_at(i) {
                    Some(b) => due == Some(PauseReason::Breakpoint(b)),
                    None => due == Some(PauseReason::Step),
                },
            }
        }),
{
}

/// A breakpoint is hit where it stands: the first that stands at the statement about to run.
pub proof fn law_the_first_breakpoint_at_a_statement_is_hit(i: Instance, node: NodeId, p: nat)
    requires
        i.safe_point_stmt == Some(node),
        i.machine@.frames.len() > 0,
        p <= i.breakpoints@.entries.len(),
        forall|k: int|
            0 <= k < p ==> (#[trigger] i.breakpoints@.entries[k]).resolved != Some(
                (i.machine@.frames.last().module, node),
            ),
    ensures
        p < i.breakpoints@.entries.len() && i.breakpoints@.entries[p as int].resolved == Some(
            (i.machine@.frames.last().module, node),
        ) ==> breakpoint_at(i) == Some(i.breakpoints@.entries[p as int].id),
        p == i.breakpoints@.entries.len() ==> breakpoint_at(i) is None,
{
    lemma_hit(i.breakpoints@.entries, (i.machine@.frames.last().module, node), 0, p);
}

proof fn lemma_hit(entries: Seq<EntryView>, place: (ModuleId, NodeId), from: nat, p: nat)
    requires
        from <= p <= entries.len(),
        forall|k: int| from <= k < p ==> (#[trigger] entries[k]).resolved != Some(place),
    ensures
        p < entries.len() && entries[p as int].resolved == Some(place) ==> hit_from(
            entries,
            place,
            from,
        ) == Some(entries[p as int].id),
        p == entries.len() ==> hit_from(entries, place, from) is None,
    decreases p - from,
{
    if from < p {
        assert(entries[from as int].resolved != Some(place));
        lemma_hit(entries, place, from + 1, p);
    }
}

/// A protocol is implemented for a value by the first implementation for the value's type: for
/// a record that of its record type.
pub proof fn law_the_first_implementation_is_taken(
    all: Seq<Implementation>,
    protocol: WellKnown,
    h: HeapView,
    r: RecIdx,
    rec: RecordView,
    p: nat,
)
    requires
        h.record(r) == Some(rec),
        p <= all.len(),
        forall|k: int|
            0 <= k < p ==> (#[trigger] all[k]).protocol != protocol || all[k].on
                != DispatchType::Record(rec.type_idx),
    ensures
        p < all.len() && all[p as int].protocol == protocol && all[p as int].on
            == DispatchType::Record(rec.type_idx) ==> implementation(
            all,
            protocol,
            h,
            Value::Record(r),
        ) == Some(all[p as int].cal),
        p == all.len() ==> implementation(all, protocol, h, Value::Record(r)) is None,
{
    lemma_implemented(all, protocol, DispatchType::Record(rec.type_idx), 0, p);
}

proof fn lemma_implemented(
    all: Seq<Implementation>,
    protocol: WellKnown,
    on: DispatchType,
    from: nat,
    p: nat,
)
    requires
        from <= p <= all.len(),
        forall|k: int|
            from <= k < p ==> (#[trigger] all[k]).protocol != protocol || all[k].on != on,
    ensures
        p < all.len() && all[p as int].protocol == protocol && all[p as int].on == on
            ==> implementation_from(all, protocol, on, from) == Some(all[p as int].cal),
        p == all.len() ==> implementation_from(all, protocol, on, from) is None,
    decreases p - from,
{
    if from < p {
        assert(all[from as int].protocol != protocol || all[from as int].on != on);
        lemma_implemented(all, protocol, on, from + 1, p);
    }
}

/// The values of some handles are those that they name, in order.
pub proof fn law_handles_are_read_in_order(t: TableView, handles: Seq<Handle>, n: nat)
    requires
        n <= handles.len(),
    ensures
        handle_values(t, handles, n) matches Some(values) ==> values.len() == n && forall|i: int|
            0 <= i < n ==> t.resolve(handles[i]) == Some(#[trigger] values[i]),
        handle_values(t, handles, n) is None ==> exists|i: int|
            0 <= i < n && t.resolve(#[trigger] handles[i]) is None,
    decreases n,
{
    if n > 0 {
        law_handles_are_read_in_order(t, handles, (n - 1) as nat);
        if t.resolve(handles[n - 1]) is None {
            assert(t.resolve(handles[n - 1]) is None);
        }
    }
}

/// Arguments that were given stand in the order of their parameters.
pub proof fn law_given_arguments_stand_in_order(
    h: HeapView,
    params: Seq<ForeignParamView>,
    slots: Seq<Option<Value>>,
    span: Span,
    n: nat,
)
    requires
        n <= params.len(),
        n <= slots.len(),
        forall|i: int|
            0 <= i < n ==> (#[trigger] slots[i]) is Some && !params[i].is_block,
    ensures
        ({
            let (g, r) = filled_in(h, params, slots, span, n);
            &&& g == h
            &&& r is Ok
            &&& r->Ok_0.len() == n
            &&& forall|i: int| 0 <= i < n ==> slots[i] == Some(#[trigger] r->Ok_0[i])
        }),
    decreases n,
{
    if n > 0 {
        law_given_arguments_stand_in_order(h, params, slots, span, (n - 1) as nat);
        assert(slots[n - 1] is Some);
    }
}

/// A module that is handed in runs next, from its first statement, above the importer; it is
/// known by its path, and being loaded.
pub proof fn law_handed_in_modules_run_next(
    h: HeapView,
    m: MachineView,
    p: PendingImportView,
    id: ModuleId,
    canonical: Seq<char>,
    module: ResolvedModule,
)
    requires
        m.load.states.len() == id.0,
    ensures
        ({
            let (g, z) = begun_in(h, m, p, id, canonical, module);
            let f = z.frames.last();
            &&& z.frames.len() == m.frames.len() + 1
            &&& z.frames.drop_last() == m.frames
            &&& f.module == id
            &&& f.kind is ModuleTopLevel
            &&& f.conts == seq![ContView::Statements { block: module.root, next: 0 }]
            &&& z.load.state(id) == Some(LoadState::Loading)
            &&& z.load.paths.last().1 == id
            &&& z.load.paths.len() == m.load.paths.len() + 1
            &&& z.load.canonicals == m.load.canonicals.push((canonical, id))
            &&& z.unwind == m.unwind
        }),
{
    let (g, z) = begun_in(h, m, p, id, canonical, module);
    assert(z.frames.drop_last() =~= m.frames);
}

} // verus!
