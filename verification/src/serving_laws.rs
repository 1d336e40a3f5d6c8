//! What a program shows of itself, and what follows a piece of work that needs the host.

use crate::activation::call_begun;
use crate::activation::call_started;
use crate::activation::NativesView;
use crate::activation::PendingView;
use crate::activation::Progress;
use crate::ast::Arg;
use crate::ast::Node;
use crate::ast::NodeId;
use crate::block::takes_block;
use crate::drive::CapabilityId;
use crate::drive::interned_all;
use crate::drive::Outcome;
use crate::drive::request_made;
use crate::error::EngineFault;
use crate::error::LimitKind;
use crate::exception::DiagnosticView;
use crate::frame::FrameView;
use crate::frame::Local;
use crate::globals::global_list;
use crate::globals::global_value;
use crate::handle::TableView;
use crate::heap::BuiltinType;
use crate::heap::HeapView;
use crate::heap::RecordView;
use crate::importing::loading_chain;
use crate::instance::Instance;
use crate::machine::ForeignCall;
use crate::machine::MachineView;
use crate::machine::Unwind;
use crate::modload::LoadedModule;
use crate::modload::LoadState;
use crate::modload::PendingImportView;
use crate::named::named;
use crate::named::named_view;
use crate::natives::foreign_bound;
use crate::natives::infos_of;
use crate::protocol::dispatch_type;
use crate::protocol::DispatchType;
use crate::resolve::ResolvedModule;
use crate::scope::local_seen;
use crate::sourcing::failed_in;
use crate::span::ModuleId;
use crate::turn::BlockOutcome;
use crate::turn::concluded;
use crate::turn::turned;
use crate::turn::TurnKind;
use crate::turn::TurnView;
use crate::value::CellIdx;
use crate::value::Value;
use vstd::prelude::*;

verus! {

/// A value of a built-in type dispatches on that type, and a record on its record type.
pub proof fn law_values_dispatch_on_their_type(h: HeapView, v: Value, rec: RecordView)
    ensures
        v is Nil ==> dispatch_type(h, v) == DispatchType::Builtin(BuiltinType::Nil),
        v is Bool ==> dispatch_type(h, v) == DispatchType::Builtin(BuiltinType::Bool),
        v is Int || v is BigInt ==> dispatch_type(h, v) == DispatchType::Builtin(BuiltinType::Int),
        v is Float ==> dispatch_type(h, v) == DispatchType::Builtin(BuiltinType::Float),
        v is Str ==> dispatch_type(h, v) == DispatchType::Builtin(BuiltinType::String),
        v is Bytes ==> dispatch_type(h, v) == DispatchType::Builtin(BuiltinType::Bytes),
        v is List ==> dispatch_type(h, v) == DispatchType::Builtin(BuiltinType::List),
        v is Dict ==> dispatch_type(h, v) == DispatchType::Builtin(BuiltinType::Dict),
        v is Callable ==> dispatch_type(h, v) == DispatchType::Builtin(BuiltinType::Callable),
        v is Module ==> dispatch_type(h, v) == DispatchType::Builtin(BuiltinType::Module),
        v is Type ==> dispatch_type(h, v) == DispatchType::Builtin(BuiltinType::Type),
        v is Foreign ==> dispatch_type(h, v) == DispatchType::Builtin(BuiltinType::Foreign),
        v is Record && h.record(v->Record_0) == Some(rec) ==> dispatch_type(h, v)
            == DispatchType::Record(rec.type_idx),
{
}

/// A stack that has grown too deep is a fault. Else a parked import suspends the program, and
/// work that needs nothing leaves things as they are.
pub proof fn law_what_follows_a_piece_of_work(t: TurnView, resolved: ResolvedModule)
    ensures
        ({
            let z = concluded(t, resolved);
            let deep = t.machine.frames.len() > t.machine.meter.limits.stack_depth;
            &&& deep ==> z.turn == TurnKind::Faulted(
                EngineFault::LimitExceeded(LimitKind::StackDepth),
            ) && z.heap == t.heap && z.machine == t.machine
            &&& !deep && t.machine.foreign is None ==> {
                &&& z.heap == t.heap && z.machine == t.machine && z.natives == t.natives
                &&& t.machine.pending_import is Some ==> z.turn is Suspended
                &&& t.machine.pending_import is None ==> z.turn == t.turn
            }
        }),
{
}

/// A call that is ready binds its arguments to the function's parameters and then starts it;
/// one whose arguments do not fit raises, and nothing starts.
pub proof fn law_ready_calls_bind_and_start(
    resolved: ResolvedModule,
    h: HeapView,
    m: MachineView,
    ns: NativesView,
    c: ForeignCall<Seq<Value>>,
    callee: NodeId,
    args: Vec<Arg>,
)
    requires
        resolved.node_at(c.call) == Some(Node::Call { callee, args, block: None }),
        c.id < ns.table.len(),
        ns.table[c.id as int].params.len() <= u16::MAX,
        forall|i: int|
            0 <= i < ns.table[c.id as int].params.len() ==> !(
            #[trigger] ns.table[c.id as int].params[i]).is_block,
    ensures
        ({
            let span = resolved.ast.range(c.call);
            let (g, bound) = foreign_bound(
                h,
                ns.table[c.id as int].params,
                args@,
                c.args,
                span,
            );
            let z = call_begun(resolved, h, m, ns, c);
            &&& (bound matches Ok(values) ==> z == call_started(
                g,
                m,
                ns,
                c.id,
                values,
                None,
                span,
            ))
            &&& (bound matches Err(e) ==> z.raise == Some(e) && z.heap == g && z.machine == m
                && z.natives == ns)
        }),
{
    reveal(call_begun);
    let params = infos_of(ns.table[c.id as int].params);
    assert forall|i: int| 0 <= i < params.len() implies !(#[trigger] params[i]).is_block by {
        assert(!ns.table[c.id as int].params[i].is_block);
    }
    assert(!takes_block(params));
}

/// A module whose source has errors fails with an error, and that very error is raised where
/// the import stands.
pub proof fn law_broken_modules_fail_with_what_is_raised(
    h: HeapView,
    m: MachineView,
    p: PendingImportView,
    id: ModuleId,
    canonical: Seq<char>,
    findings: Seq<DiagnosticView>,
    error: Seq<char>,
)
    requires
        m.load.states.len() == id.0,
    ensures
        ({
            let (g, z) = failed_in(h, m, p, id, canonical, findings, error);
            &&& z.unwind matches Some(Unwind::Raise { value, trace, .. })
            &&& z.load.state(id) == Some(LoadState::Failed(value))
            &&& trace.raised_at == Some(p.span)
            &&& z.frames == m.frames
        }),
{
}

/// The block that a host's function has run is done when its frames are gone: it came to its
/// end, or a transfer left it; and a call that has run none is the host's to do.
pub proof fn law_blocks_of_hosts_are_done_without_frames(i: Instance, cancelled: bool)
    requires
        i.machine@.meter.pending_fault is None,
        i.natives@.calls.len() > 0,
        i.machine@.frames.len() <= i.natives@.calls.last().boundary,
    ensures
        ({
            let z = turned(i, cancelled);
            match i.natives@.calls.last().progress {
                Progress::Running => {
                    &&& z.heap == i.heap@ && z.machine == i.machine@
                    &&& i.machine@.unwind is None ==> z.turn == TurnKind::BlockDone(
                        BlockOutcome::Completed,
                    ) && z.natives.calls.last().progress is Waiting
                    &&& i.machine@.unwind is Some ==> z.turn == TurnKind::BlockDone(
                        BlockOutcome::NonLocalExit,
                    ) && z.natives.calls.last().progress is Exited
                },
                Progress::Each { .. } => true,
                _ => z.turn is HostCall && z.heap == i.heap@ && z.machine == i.machine@
                    && z.natives == i.natives@,
            }
        }),
{
}

/// What a host asks for of a parked call: the function, and a handle for each argument.
pub proof fn law_parked_calls_are_asked_for(
    i: Instance,
    z: Instance,
    r: Outcome,
    p: PendingView,
)
    requires
        i.natives@.pending == Some(p),
        i.handles@.room(p.args.len() as int),
        request_made(i, z, r),
    ensures
        r is Suspended,
        r->Suspended_0.capability == CapabilityId(p.capability),
        r->Suspended_0.args@.len() == p.args.len(),
        z.state is Suspended,
{
    lemma_a_handle_each(i.handles@, p.args, p.args.len());
}

proof fn lemma_a_handle_each(t: TableView, values: Seq<Value>, n: nat)
    requires
        n <= values.len(),
    ensures
        interned_all(t, values, n).1.len() == n,
    decreases n,
{
    if n > 0 {
        lemma_a_handle_each(t, values, (n - 1) as nat);
    }
}

/// A module's names are told in the order of their declarations, with what they have now:
/// nothing before the declaration has run.
pub proof fn law_names_of_modules_are_told(
    modules: Seq<LoadedModule>,
    h: HeapView,
    module: int,
    slot: int,
    cell: CellIdx,
)
    requires
        0 <= module < modules.len(),
        0 <= slot < modules[module].resolved.globals@.len(),
        named(
            named_view(modules[module].namespace@),
            modules[module].resolved.globals@[slot].name@,
        ) == Some(cell),
    ensures
        global_list(modules, module).len() == modules[module].resolved.globals@.len(),
        global_list(modules, module)[slot].name == modules[module].resolved.globals@[slot].name@,
        global_list(modules, module)[slot].kind == modules[module].resolved.globals@[slot].kind,
        global_list(modules, module)[slot].slot == slot,
        global_value(modules, h, module, slot) == h.cell_value(cell),
{
}

/// A frame's locals are told as its slots have them, in their cell where they share one; a
/// block has none of its own.
pub proof fn law_locals_are_told_by_their_slot(i: Instance, k: int, slot: int)
    requires
        0 <= k < i.machine@.frames.len(),
        0 <= slot < i.machine@.frames[i.machine@.frames.len() - 1 - k].locals.len(),
    ensures
        ({
            let f = i.machine@.frames[i.machine@.frames.len() - 1 - k];
            &&& f.kind is Block ==> local_seen(i, k, slot) is None
            &&& !(f.kind is Block) ==> local_seen(i, k, slot) == match f.locals[slot] {
                Local::Direct(v) => v,
                Local::Boxed(c) => i.heap@.cell_value(c),
            }
        }),
{
}

/// The modules that are loading are those whose top levels are on the stack, from the outermost
/// in.
pub proof fn law_loading_modules_are_on_the_stack(frames: Seq<FrameView>, f: FrameView)
    ensures
        loading_chain(Seq::empty()).len() == 0,
        f.kind is ModuleTopLevel ==> loading_chain(frames.push(f)) == loading_chain(frames).push(
            f.module,
        ),
        !(f.kind is ModuleTopLevel) ==> loading_chain(frames.push(f)) == loading_chain(frames),
{
    assert(frames.push(f).drop_last() =~= frames);
}

} // verus!
