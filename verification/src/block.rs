//! Block arguments: passing one to a callee, and invoking the one that was received. A
//! block runs in a frame of its own but reads the locals of the frame it was written in.
use crate::ast::Arg;
use crate::ast::Node;
use crate::ast::NodeId;
use crate::binding::arg_expr;
use crate::binding::argument_node;
use crate::binding::arguments_bound;
use crate::binding::bind_arguments;
use crate::binding::lemma_arguments_bound_lengths;
use crate::binding::params_view;
use crate::binding::ParamView;
use crate::call::call_position;
use crate::call::site_of;
use crate::cont::Work;
use crate::error::ExceptionKind;
use crate::error::Raise;
use crate::error::RaiseView;
use crate::frame::BlockDescriptor;
use crate::frame::Consumer;
use crate::frame::Frame;
use crate::frame::FrameKind;
use crate::frame::FrameView;
use crate::heap::CallableTarget;
use crate::heap::Heap;
use crate::heap::HeapView;
use crate::local::build;
use crate::local::entry_locals;
use crate::machine::stepped;
use crate::machine::take_value;
use crate::machine::void_raise;
use crate::machine::Machine;
use crate::machine::MachineView;
use crate::machine::Step;
use crate::modload::LoadedModule;
use crate::observe::Position;
use crate::resolve::body_of;
use crate::resolve::CallableInfo;
use crate::resolve::ParamInfo;
use crate::resolve::Resolution;
use crate::resolve::ResolvedModule;
use crate::span::ModuleId;
use crate::span::Span;
use crate::text::join3;
use crate::value::CellIdx;
use crate::value::Value;
use vstd::prelude::*;

verus! {

/// The frame that holds the slot a callee names, and the slot.
pub open spec fn slot_owner(m: MachineView, resolved: ResolvedModule, callee: NodeId) -> Option<
    (int, u16),
> {
    match resolved.resolution(callee) {
        Some(Resolution::LocalSlot(slot)) => if m.frames.len() > 0 {
            Some((m.frames.len() - 1, slot))
        } else {
            None
        },
        Some(Resolution::BlockOuter { hops, slot }) => match m.enclosing(hops as nat) {
            Some(frame) => Some((frame, slot)),
            None => None,
        },
        _ => None,
    }
}

fn block_param_owner(machine: &Machine, resolved: &ResolvedModule, callee: NodeId) -> (r: Option<
    (usize, u16),
>)
    ensures
        (match r {
            Some((frame, slot)) => slot_owner(machine@, *resolved, callee) == Some(
                (frame as int, slot),
            ) && frame < machine@.frames.len(),
            None => slot_owner(machine@, *resolved, callee) is None,
        }),
{
    match resolved.resolution_of(callee) {
        Some(Resolution::LocalSlot(slot)) => {
            let n: usize = machine.frames.len();
            if n > 0 {
                Some((n - 1, slot))
            } else {
                None
            }
        },
        Some(Resolution::BlockOuter { hops, slot }) => match machine.outer_frame(hops) {
            Some(frame) => Some((frame, slot)),
            None => None,
        },
        _ => None,
    }
}

/// Whether a slot is the one of a block parameter.
pub open spec fn has_block_slot(params: Seq<ParamInfo>, slot: u16) -> bool {
    exists|i: int|
        0 <= i < params.len() && (#[trigger] params[i]).is_block && params[i].slot == slot
}

/// Whether a call of a callee invokes a block parameter.
pub open spec fn block_invocation(
    resolved: ResolvedModule,
    h: HeapView,
    m: MachineView,
    callee: NodeId,
) -> bool {
    match (resolved.node_at(callee), slot_owner(m, resolved, callee)) {
        (Some(Node::Ident(_)), Some((frame, slot))) => match m.frames[frame].kind {
            FrameKind::Callable { cal } => match h.callable(cal) {
                Some(c) => match c.target {
                    CallableTarget::Source(id) => match resolved.body(id as int) {
                        Some(info) => has_block_slot(info.params@, slot),
                        None => false,
                    },
                    _ => false,
                },
                None => false,
            },
            _ => false,
        },
        _ => false,
    }
}

fn block_slot_among(params: &Vec<ParamInfo>, slot: u16) -> (r: bool)
    ensures
        r == has_block_slot(params@, slot),
{
    let mut i: usize = 0;
    while i < params.len()
        invariant
            i <= params@.len(),
            forall|k: int|
                0 <= k < i ==> !((#[trigger] params@[k]).is_block && params@[k].slot == slot),
        decreases params@.len() - i,
    {
        if params[i].is_block && params[i].slot == slot {
            assert(params@[i as int].is_block);
            return true;
        }
        i = i + 1;
    }
    false
}

/// Whether a call of a callee invokes a block parameter: the frame's own, or that of the
/// callable around the block that is running.
pub fn is_block_invocation(
    resolved: &ResolvedModule,
    heap: &Heap,
    machine: &Machine,
    callee: NodeId,
) -> (r: bool)
    ensures
        r == block_invocation(*resolved, heap@, machine@, callee),
{
    match resolved.ast.node(callee) {
        Some(Node::Ident(_)) => {},
        _ => {
            return false;
        },
    }
    let (owner, slot) = match block_param_owner(machine, resolved, callee) {
        Some(o) => o,
        None => {
            return false;
        },
    };
    assert(machine@.frames[owner as int] == machine.frames@[owner as int]@);
    match machine.frames[owner].kind {
        FrameKind::Callable { cal } => match heap.callable(cal) {
            Some(c) => match c.target {
                CallableTarget::Source(id) => {
                    if (id as usize) < resolved.callables.len() {
                        block_slot_among(&resolved.callables[id as usize].params, slot)
                    } else {
                        false
                    }
                },
                _ => false,
            },
            None => false,
        },
        _ => false,
    }
}

/// What scheduling a block invocation leaves.
pub open spec fn block_call_scheduled(
    resolved: ResolvedModule,
    modules: Seq<LoadedModule>,
    h: HeapView,
    m: MachineView,
    call: NodeId,
) -> Step {
    match resolved.node_at(call) {
        Some(Node::Call { args, .. }) => if args@.len() > 0 {
            Step::done(
                h,
                m.doing(Work::BlockGotArg { call, values: Seq::empty(), index: 0 }).doing(
                    Work::Eval { node: argument_node(args@[0]) },
                ),
            )
        } else {
            block_applied(resolved, modules, h, m, call, Seq::empty())
        },
        _ => Step::done(h, m.broken()),
    }
}

/// Schedules a block invocation.
pub fn eval_block_call(
    resolved: &ResolvedModule,
    modules: &Vec<LoadedModule>,
    heap: &mut Heap,
    machine: &mut Machine,
    call: NodeId,
) -> (r: Result<(), Raise>)
    ensures
        stepped(r, final(heap)@, final(machine)@) == block_call_scheduled(
            *resolved,
            modules@,
            old(heap)@,
            old(machine)@,
            call,
        ),
{
    match resolved.ast.node(call) {
        Some(Node::Call { args, .. }) => {
            let values: Vec<Value> = Vec::new();
            assert(values@ =~= Seq::empty());
            if args.len() > 0 {
                let first = arg_expr(&args[0]);
                machine.push_cont(Work::BlockGotArg { call, values, index: 0 });
                machine.push_cont(Work::Eval { node: first });
                Ok(())
            } else {
                block_apply(resolved, modules, heap, machine, call, values)
            }
        },
        _ => {
            machine.fail();
            Ok(())
        },
    }
}

/// What having an argument of a block invocation leads to.
pub open spec fn block_argument_known(
    resolved: ResolvedModule,
    modules: Seq<LoadedModule>,
    h: HeapView,
    m: MachineView,
    call: NodeId,
    values: Seq<Value>,
    index: int,
) -> Step {
    match m.reg {
        None => Step::raised(h, m, void_raise(resolved.ast.range(call))),
        Some(v) => match resolved.node_at(call) {
            Some(Node::Call { args, .. }) => if index + 1 < args@.len() {
                Step::done(
                    h,
                    m.voided().doing(
                        Work::BlockGotArg {
                            call,
                            values: values.push(v),
                            index: (index + 1) as usize,
                        },
                    ).doing(Work::Eval { node: argument_node(args@[index + 1]) }),
                )
            } else {
                block_applied(resolved, modules, h, m.voided(), call, values.push(v))
            },
            _ => Step::done(h, m.voided().broken()),
        },
    }
}

/// An argument of a block invocation is in the register: evaluates the next one, or invokes
/// the block.
pub fn got_block_arg(
    resolved: &ResolvedModule,
    modules: &Vec<LoadedModule>,
    heap: &mut Heap,
    machine: &mut Machine,
    call: NodeId,
    values: Vec<Value>,
    index: usize,
) -> (r: Result<(), Raise>)
    ensures
        stepped(r, final(heap)@, final(machine)@) == block_argument_known(
            *resolved,
            modules@,
            old(heap)@,
            old(machine)@,
            call,
            values@,
            index as int,
        ),
{
    let mut values = values;
    match take_value(machine, resolved.ast.span(call)) {
        Ok(v) => values.push(v),
        Err(e) => {
            return Err(e);
        },
    }
    match resolved.ast.node(call) {
        Some(Node::Call { args, .. }) => {
            if index < args.len() && index + 1 < args.len() {
                let next = arg_expr(&args[index + 1]);
                machine.push_cont(Work::BlockGotArg { call, values, index: index + 1 });
                machine.push_cont(Work::Eval { node: next });
                Ok(())
            } else {
                block_apply(resolved, modules, heap, machine, call, values)
            }
        },
        _ => {
            machine.fail();
            Ok(())
        },
    }
}

/// The body of a block, and its module: that of the frame the block was written in.
pub open spec fn block_source(modules: Seq<LoadedModule>, m: MachineView, desc: BlockDescriptor) -> Option<
    (ModuleId, CallableInfo),
> {
    if (desc.defining as int) < m.frames.len() {
        let module = m.frames[desc.defining as int].module;
        if (module.0 as int) < modules.len() {
            match modules[module.0 as int].resolved.body(desc.callable as int) {
                Some(info) => Some((module, info)),
                None => None,
            }
        } else {
            None
        }
    } else {
        None
    }
}

/// The first parameter that is not filled, from a position on.
pub open spec fn unbound(filled: Seq<bool>, from: nat) -> Option<nat>
    decreases filled.len() - from,
{
    if from >= filled.len() {
        None
    } else if !filled[from as int] {
        Some(from)
    } else {
        unbound(filled, from + 1)
    }
}

/// The raise for a block argument that was not given.
pub open spec fn missing_block_argument_raise(name: Seq<char>, span: Span) -> RaiseView {
    RaiseView::new(
        ExceptionKind::ArgumentError,
        "missing argument `"@ + name + "` for this block"@,
        span,
    )
}

/// What entering a block leaves: its arguments bound and its frame on the stack.
pub open spec fn block_entering(
    modules: Seq<LoadedModule>,
    h: HeapView,
    m: MachineView,
    desc: BlockDescriptor,
    consumer: Consumer,
    args: Seq<Arg>,
    values: Seq<Value>,
    call_site: Option<NodeId>,
    span: Span,
) -> Step {
    match block_source(modules, m, desc) {
        None => Step::done(h, m.broken()),
        Some((module, info)) => {
            let params = params_view(info.params@);
            let b = arguments_bound(
                h,
                params,
                info.slot_count as nat,
                args,
                values,
                None,
                span,
            );
            match (b.raise, unbound(b.filled, 0)) {
                (Some(e), _) => Step::raised(b.heap, m, e),
                (None, Some(p)) => Step::raised(
                    b.heap,
                    m,
                    missing_block_argument_raise(params[p as int].name, span),
                ),
                (None, None) => {
                    let (h2, locals) = entry_locals(b.heap, info, b.slots, Seq::empty());
                    Step::done(
                        h2,
                        m.numbered().entered(
                            FrameView::of_block(
                                module,
                                desc,
                                consumer,
                                locals,
                                info.body,
                                m.frame_serial,
                                match call_site {
                                    Some(call) => Some(site_of(modules, m, module, call)),
                                    None => None,
                                },
                                m.dyn_stack.len() as usize,
                            ),
                        ),
                    )
                },
            }
        },
    }
}

/// Where a block is written.
pub open spec fn block_range(modules: Seq<LoadedModule>, m: MachineView, desc: BlockDescriptor) -> Span {
    match block_source(modules, m, desc) {
        Some((module, info)) => modules[module.0 as int].resolved.ast.range(info.decl),
        None => Span::nowhere(),
    }
}

/// Where a block is written.
pub fn block_span(modules: &Vec<LoadedModule>, machine: &Machine, desc: BlockDescriptor) -> (r: Span)
    ensures
        r == block_range(modules@, machine@, desc),
{
    if desc.defining >= machine.frames.len() {
        return Span::dummy();
    }
    assert(machine@.frames[desc.defining as int] == machine.frames@[desc.defining as int]@);
    let module = machine.frames[desc.defining].module;
    if (module.0 as usize) >= modules.len() {
        return Span::dummy();
    }
    let resolved = &modules[module.0 as usize].resolved;
    if (desc.callable as usize) >= resolved.callables.len() {
        return Span::dummy();
    }
    resolved.ast.span(resolved.callables[desc.callable as usize].decl)
}

fn first_unbound(filled: &Vec<bool>) -> (r: Option<usize>)
    ensures
        (match r {
            Some(p) => unbound(filled@, 0) == Some(p as nat) && p < filled@.len(),
            None => unbound(filled@, 0) is None,
        }),
{
    let mut i: usize = 0;
    while i < filled.len()
        invariant
            i <= filled@.len(),
            unbound(filled@, 0) == unbound(filled@, i as nat),
        decreases filled@.len() - i,
    {
        if !filled[i] {
            return Some(i);
        }
        i = i + 1;
    }
    None
}

/// Enters a block: binds its arguments and puts its frame on the stack.
#[verifier::rlimit(30)]
pub fn enter_block(
    modules: &Vec<LoadedModule>,
    heap: &mut Heap,
    machine: &mut Machine,
    desc: BlockDescriptor,
    consumer: Consumer,
    args: &Vec<Arg>,
    values: &Vec<Value>,
    call_site: Option<NodeId>,
    span: Span,
) -> (r: Result<(), Raise>)
    ensures
        stepped(r, final(heap)@, final(machine)@) == block_entering(
            modules@,
            old(heap)@,
            old(machine)@,
            desc,
            consumer,
            args@,
            values@,
            call_site,
            span,
        ),
{
    if desc.defining >= machine.frames.len() {
        machine.fail();
        return Ok(());
    }
    assert(machine@.frames[desc.defining as int] == machine.frames@[desc.defining as int]@);
    let module = machine.frames[desc.defining].module;
    if (module.0 as usize) >= modules.len() {
        machine.fail();
        return Ok(());
    }
    let resolved = &modules[module.0 as usize].resolved;
    if (desc.callable as usize) >= resolved.callables.len() {
        machine.fail();
        return Ok(());
    }
    let info = &resolved.callables[desc.callable as usize];
    proof {
        lemma_arguments_bound_lengths(
            heap@,
            params_view(info.params@),
            info.slot_count as nat,
            args@,
            values@,
            None,
            span,
        );
    }
    match bind_arguments(heap, args, &info.params, info.slot_count, values, None, span) {
        Err(e) => Err(e),
        Ok((slots, filled)) => {
            if let Some(p) = first_unbound(&filled) {
                return Err(
                    Raise::new(
                        ExceptionKind::ArgumentError,
                        join3(
                            "missing argument `",
                            info.params[p].name.as_str(),
                            "` for this block",
                        ),
                        span,
                    ),
                );
            }
            let none: Vec<CellIdx> = Vec::new();
            assert(none@ =~= Seq::empty());
            let locals = build(info, heap, &slots, &none);
            let dyn_depth: usize = machine.dyn_stack.len();
            let site = match call_site {
                Some(call) => Some(call_position(modules, machine, module, call)),
                None => None,
            };
            let serial: u64 = machine.next_frame_serial();
            machine.push_frame(
                Frame::block(
                    module,
                    desc,
                    consumer,
                    locals,
                    info.body,
                    serial,
                    site,
                    dyn_depth,
                ),
            );
            Ok(())
        },
    }
}

/// The raise for a block parameter that received no block.
pub open spec fn blockless_raise(span: Span) -> RaiseView {
    RaiseView::new(ExceptionKind::ArgumentError, "no block was given to invoke here"@, span)
}

/// What invoking the received block leaves. The frame that received the block is the one
/// its `break` leaves, whichever frame invoked it.
pub open spec fn block_applied(
    resolved: ResolvedModule,
    modules: Seq<LoadedModule>,
    h: HeapView,
    m: MachineView,
    call: NodeId,
    values: Seq<Value>,
) -> Step {
    let span = resolved.ast.range(call);
    match resolved.node_at(call) {
        Some(Node::Call { callee, args, .. }) => match slot_owner(m, resolved, callee) {
            None => Step::done(h, m.broken()),
            Some((owner, _)) => match m.frames[owner].block_param {
                None => Step::raised(h, m, blockless_raise(span)),
                Some(desc) => block_entering(
                    modules,
                    h,
                    m,
                    desc,
                    Consumer::DoodleCall { frame: owner as usize, serial: m.frames[owner].serial },
                    args@,
                    values,
                    Some(call),
                    span,
                ),
            },
        },
        _ => Step::done(h, m.broken()),
    }
}

/// Invokes the received block.
pub fn block_apply(
    resolved: &ResolvedModule,
    modules: &Vec<LoadedModule>,
    heap: &mut Heap,
    machine: &mut Machine,
    call: NodeId,
    arg_values: Vec<Value>,
) -> (r: Result<(), Raise>)
    ensures
        stepped(r, final(heap)@, final(machine)@) == block_applied(
            *resolved,
            modules@,
            old(heap)@,
            old(machine)@,
            call,
            arg_values@,
        ),
{
    let span = resolved.ast.span(call);
    match resolved.ast.node(call) {
        Some(Node::Call { callee, args, .. }) => {
            let owner = match block_param_owner(machine, resolved, *callee) {
                Some((owner, _)) => owner,
                None => {
                    machine.fail();
                    return Ok(());
                },
            };
            assert(machine@.frames[owner as int] == machine.frames@[owner as int]@);
            let desc = match machine.frames[owner].block_param {
                Some(desc) => desc,
                None => {
                    return Err(
                        Raise::new(
                            ExceptionKind::ArgumentError,
                            "no block was given to invoke here".to_owned(),
                            span,
                        ),
                    );
                },
            };
            let serial: u64 = machine.frames[owner].serial;
            enter_block(
                modules,
                heap,
                machine,
                desc,
                Consumer::DoodleCall { frame: owner, serial },
                args,
                &arg_values,
                Some(call),
                span,
            )
        },
        _ => {
            machine.fail();
            Ok(())
        },
    }
}

/// Whether a callee takes a block.
pub open spec fn takes_block(params: Seq<ParamView>) -> bool {
    exists|i: int| 0 <= i < params.len() && (#[trigger] params[i]).is_block
}

/// The raise for a block passed to a callee that takes none.
pub open spec fn unwanted_block_raise(span: Span) -> RaiseView {
    RaiseView::new(
        ExceptionKind::ArgumentError,
        "this call passes a `do … end` block, but the callee takes no block"@,
        span,
    )
}

/// The raise for a callee that needs a block and gets none.
pub open spec fn wanted_block_raise(span: Span) -> RaiseView {
    RaiseView::new(
        ExceptionKind::ArgumentError,
        "this callee needs a `do … end` block argument"@,
        span,
    )
}

/// The block argument of a call, as its frame passes it.
pub open spec fn block_given(resolved: ResolvedModule, m: MachineView, body: NodeId) -> Option<
    BlockDescriptor,
> {
    match body_of(resolved.callables@, body, 0) {
        Some(id) => if m.frames.len() > 0 {
            Some(
                BlockDescriptor {
                    defining: (m.frames.len() - 1) as usize,
                    defining_serial: m.top().serial,
                    callable: id as u32,
                },
            )
        } else {
            None
        },
        None => None,
    }
}

/// What binding a call's block argument comes to.
pub open spec fn block_binding(
    resolved: ResolvedModule,
    m: MachineView,
    call: NodeId,
    params: Seq<ParamView>,
    span: Span,
) -> Result<Option<BlockDescriptor>, RaiseView> {
    let block = match resolved.node_at(call) {
        Some(Node::Call { block, .. }) => block,
        _ => None,
    };
    match block {
        Some(body) => if takes_block(params) {
            match block_given(resolved, m, body) {
                Some(desc) => Ok(Some(desc)),
                None => Err(wanted_block_raise(span)),
            }
        } else {
            Err(unwanted_block_raise(span))
        },
        None => if takes_block(params) {
            Err(wanted_block_raise(span))
        } else {
            Ok(None)
        },
    }
}

fn block_wanted(params: &Vec<ParamInfo>) -> (r: bool)
    ensures
        r == takes_block(params_view(params@)),
{
    let mut i: usize = 0;
    while i < params.len()
        invariant
            i <= params@.len(),
            forall|k: int| 0 <= k < i ==> !(#[trigger] params_view(params@)[k]).is_block,
        decreases params@.len() - i,
    {
        if params[i].is_block {
            assert(params_view(params@)[i as int].is_block);
            return true;
        }
        i = i + 1;
    }
    false
}

/// Binds a call's block argument to its callee's block parameter; the callee has to take
/// one exactly when one is given.
pub fn bind_block_argument(
    resolved: &ResolvedModule,
    machine: &Machine,
    call: NodeId,
    params: &Vec<ParamInfo>,
    span: Span,
) -> (r: Result<Option<BlockDescriptor>, Raise>)
    ensures
        crate::error::result_view(r) == block_binding(
            *resolved,
            machine@,
            call,
            params_view(params@),
            span,
        ),
{
    let block: Option<NodeId> = match resolved.ast.node(call) {
        Some(Node::Call { block, .. }) => *block,
        _ => None,
    };
    let wanted: bool = block_wanted(params);
    match block {
        Some(body) => {
            if !wanted {
                return Err(
                    Raise::new(
                        ExceptionKind::ArgumentError,
                        "this call passes a `do … end` block, but the callee takes no block".to_owned(),
                        span,
                    ),
                );
            }
            let n: usize = machine.frames.len();
            if let Some(id) = resolved.body_index(body) {
                if n > 0 {
                    assert(machine@.top() == machine.frames@[n - 1]@);
                    return Ok(
                        Some(
                            BlockDescriptor {
                                defining: n - 1,
                                defining_serial: machine.frames[n - 1].serial,
                                callable: id as u32,
                            },
                        ),
                    );
                }
            }
            Err(needs_block(span))
        },
        None => if wanted {
            Err(needs_block(span))
        } else {
            Ok(None)
        },
    }
}

fn needs_block(span: Span) -> (r: Raise)
    ensures
        r@ == wanted_block_raise(span),
{
    Raise::new(
        ExceptionKind::ArgumentError,
        "this callee needs a `do … end` block argument".to_owned(),
        span,
    )
}

/// The frame of a block remembers the call that invoked it: where the call stands in the
/// source of the module that holds it. One that a native function invoked has none.
pub proof fn law_block_frames_remember_their_calls(
    modules: Seq<LoadedModule>,
    h: HeapView,
    m: MachineView,
    desc: BlockDescriptor,
    consumer: Consumer,
    args: Seq<Arg>,
    values: Seq<Value>,
    call: Option<NodeId>,
    span: Span,
)
    requires
        block_source(modules, m, desc) is Some,
        m.frames.len() > 0,
        m.top().module.0 < modules.len(),
        block_entering(modules, h, m, desc, consumer, args, values, call, span).raise is None,
    ensures
        block_entering(modules, h, m, desc, consumer, args, values, call, span).machine.top().call_site
            == (match call {
            Some(call) => Some(
                (Position {
                    module: m.top().module,
                    span: modules[m.top().module.0 as int].resolved.ast.range(call),
                }),
            ),
            None => None,
        }),
{
}

} // verus!
