//! Calls: evaluating callee and arguments, binding them, entering the callee's frame (or
//! taking over the caller's, for a tail call), and returning from it.
use crate::ast::Arg;
use crate::ast::Node;
use crate::ast::NodeId;
use crate::ast::Param;
use crate::binding::arg_expr;
use crate::binding::argument_node;
use crate::binding::arguments_bound;
use crate::binding::bind_arguments;
use crate::binding::first_unfilled;
use crate::binding::lemma_arguments_bound_lengths;
use crate::binding::missing_argument;
use crate::binding::missing_raise;
use crate::binding::params_view;
use crate::binding::unfilled;
use crate::block::bind_block_argument;
use crate::block::block_binding;
use crate::block::block_call_scheduled;
use crate::block::block_invocation;
use crate::block::eval_block_call;
use crate::block::is_block_invocation;
use crate::cont::Work;
use crate::control::bind_decl;
use crate::control::declared;
use crate::error::ExceptionKind;
use crate::error::Raise;
use crate::error::RaiseView;
use crate::exception::one_text;
use crate::exception::text_detail;
use crate::exception::text_of;
use crate::exception::type_text;
use crate::exception::value_type_name;
use crate::frame::BlockDescriptor;
use crate::frame::Frame;
use crate::frame::FrameKind;
use crate::frame::FrameView;
use crate::frame::Local;
use crate::heap::CalObj;
use crate::heap::CalView;
use crate::heap::CallableTarget;
use crate::heap::CellKind;
use crate::heap::Heap;
use crate::heap::HeapView;
use crate::heap::TypeKind;
use crate::local::build;
use crate::local::entry_locals;
use crate::local::shared_cell;
use crate::local::written;
use crate::machine::raise_of;
use crate::machine::stepped;
use crate::machine::take_value;
use crate::machine::void_raise;
use crate::machine::ForeignCall;
use crate::machine::Machine;
use crate::machine::MachineView;
use crate::machine::Step;
use crate::modload::LoadedModule;
use crate::named::named_view;
use crate::object::construct;
use crate::object::constructed;
use crate::protocol::implementation;
use crate::protocol::resolve;
use crate::record::copied;
use crate::record::copy_on_bind;
use crate::observe::Position;
use crate::resolve::body_of;
use crate::resolve::BodyKind;
use crate::resolve::CallableInfo;
use crate::resolve::CaptureInfo;
use crate::resolve::Resolution;
use crate::resolve::ResolvedModule;
use crate::ring::recorded;
use crate::ring::ElidedFrame;
use crate::span::ModuleId;
use crate::span::Span;
use crate::value::CalIdx;
use crate::value::CellIdx;
use crate::value::Value;
use vstd::prelude::*;

verus! {

/// The name of a declared callable.
pub open spec fn callee_text(resolved: ResolvedModule, decl: NodeId) -> Option<Seq<char>> {
    match resolved.node_at(decl) {
        Some(Node::Callable { name: Some(name), .. }) => Some(name@),
        _ => None,
    }
}

fn callee_name(resolved: &ResolvedModule, decl: NodeId) -> (r: Option<&str>)
    ensures
        text_of(r) == callee_text(*resolved, decl),
{
    match resolved.ast.node(decl) {
        Some(Node::Callable { name: Some(name), .. }) => Some(name.as_str()),
        _ => None,
    }
}

/// The default of a declared callable's parameter.
pub open spec fn default_node(resolved: ResolvedModule, decl: NodeId, i: int) -> Option<NodeId> {
    match resolved.node_at(decl) {
        Some(Node::Callable { params, .. }) => if i < params@.len() {
            match params@[i] {
                Param::Ordinary { default, .. } => default,
                _ => None,
            }
        } else {
            None
        },
        _ => None,
    }
}

fn default_expr(resolved: &ResolvedModule, decl: NodeId, i: usize) -> (r: Option<NodeId>)
    ensures
        r == default_node(*resolved, decl, i as int),
{
    match resolved.ast.node(decl) {
        Some(Node::Callable { params, .. }) => {
            if i < params.len() {
                match &params[i] {
                    Param::Ordinary { default, .. } => *default,
                    _ => None,
                }
            } else {
                None
            }
        },
        _ => None,
    }
}

/// The defaults to evaluate for the first `n` parameters that no argument filled.
pub open spec fn pending_defaults(
    resolved: ResolvedModule,
    info: CallableInfo,
    filled: Seq<bool>,
    n: nat,
) -> Seq<(u16, NodeId)>
    decreases n,
{
    if n == 0 || n > info.params@.len() {
        Seq::empty()
    } else {
        let before = pending_defaults(resolved, info, filled, (n - 1) as nat);
        let p = info.params@[n - 1];
        match default_node(resolved, info.decl, n - 1) {
            Some(e) => if !filled[n - 1] && !p.is_block && p.has_default {
                before.push((p.slot, e))
            } else {
                before
            },
            None => before,
        }
    }
}

/// The machine with defaults to evaluate and bind, the first one first.
pub open spec fn defaulting(m: MachineView, defaults: Seq<(u16, NodeId)>) -> MachineView
    decreases defaults.len(),
{
    if defaults.len() == 0 {
        m
    } else {
        let (slot, e) = defaults.last();
        defaulting(
            m.doing(Work::BindDefault { slot, default: e }).doing(Work::Eval { node: e }),
            defaults.drop_last(),
        )
    }
}

/// The body of a callable, and its module.
pub open spec fn source_of(modules: Seq<LoadedModule>, h: HeapView, cal: CalIdx) -> Option<
    (ModuleId, CallableInfo),
> {
    match h.callable(cal) {
        Some(c) => match c.target {
            CallableTarget::Source(id) => if (c.module.0 as int) < modules.len() {
                match modules[c.module.0 as int].resolved.body(id as int) {
                    Some(info) => Some((c.module, info)),
                    None => None,
                }
            } else {
                None
            },
            _ => None,
        },
        None => None,
    }
}

/// Where a call stands: in the module of the frame that makes it, or in the callee's where
/// no frame does.
pub open spec fn site_of(
    modules: Seq<LoadedModule>,
    m: MachineView,
    callee: ModuleId,
    call: NodeId,
) -> Position {
    let module = if m.frames.len() > 0 {
        m.top().module
    } else {
        callee
    };
    Position {
        module,
        span: if module.0 < modules.len() {
            modules[module.0 as int].resolved.ast.range(call)
        } else {
            Span::nowhere()
        },
    }
}

/// Where a call stands.
pub fn call_position(
    modules: &Vec<LoadedModule>,
    machine: &Machine,
    callee: ModuleId,
    call: NodeId,
) -> (r: Position)
    ensures
        r == site_of(modules@, machine@, callee, call),
{
    let n: usize = machine.frames.len();
    let module = if n > 0 {
        assert(machine@.top() == machine.frames@[n - 1]@);
        machine.frames[n - 1].module
    } else {
        callee
    };
    let span = if (module.0 as usize) < modules.len() {
        modules[module.0 as usize].resolved.ast.span(call)
    } else {
        Span::dummy()
    };
    Position { module, span }
}

/// The frame of a callee: a new one, or the caller's taken over.
pub open spec fn callee_frame(
    m: MachineView,
    module: ModuleId,
    cal: CalIdx,
    locals: Seq<Local>,
    body: NodeId,
    block: Option<BlockDescriptor>,
    site: Position,
    reuse: bool,
) -> MachineView {
    if reuse && m.frames.len() > 0 && m.top().kind is Callable {
        let elided = ElidedFrame {
            callable: m.top().kind->cal,
            consuming_serial: m.top().serial,
        };
        MachineView { ring: recorded(m.ring, elided), ..m }.with_top(
            m.top().reused(module, cal, locals, body, block, site),
        )
    } else {
        m.numbered().entered(
            FrameView::of_callable(
                module,
                cal,
                locals,
                body,
                m.frame_serial,
                block,
                site,
                m.dyn_stack.len() as usize,
            ),
        )
    }
}

/// What entering a callable leaves: the arguments bound, its frame on the stack, and the
/// defaults of what was not given to evaluate first.
pub open spec fn entering(
    modules: Seq<LoadedModule>,
    h: HeapView,
    m: MachineView,
    cal: CalIdx,
    args: Seq<Arg>,
    values: Seq<Value>,
    block: Result<Option<BlockDescriptor>, RaiseView>,
    call: NodeId,
    span: Span,
    tail_of: Option<BodyKind>,
) -> Step {
    match source_of(modules, h, cal) {
        None => Step::done(h, m.broken()),
        Some((module, info)) => {
            let resolved = modules[module.0 as int].resolved;
            let params = params_view(info.params@);
            let callee = callee_text(resolved, info.decl);
            let b = arguments_bound(
                h,
                params,
                info.slot_count as nat,
                args,
                values,
                callee,
                span,
            );
            match (b.raise, unfilled(params, b.filled, 0), block) {
                (Some(e), _, _) => Step::raised(b.heap, m, e),
                (None, Some(p), _) => Step::raised(
                    b.heap,
                    m,
                    missing_raise(callee, params[p as int].name, span),
                ),
                (None, None, Err(e)) => Step::raised(b.heap, m, e),
                (None, None, Ok(desc)) => {
                    let (h2, locals) = entry_locals(
                        b.heap,
                        info,
                        b.slots,
                        h.callable(cal)->0.captures,
                    );
                    let framed = callee_frame(
                        m,
                        module,
                        cal,
                        locals,
                        info.body,
                        desc,
                        site_of(modules, m, module, call),
                        tail_of == Some(info.kind),
                    );
                    Step::done(
                        h2,
                        defaulting(
                            framed,
                            pending_defaults(resolved, info, b.filled, info.params@.len()),
                        ),
                    )
                },
            }
        },
    }
}

fn copy_cells(cells: &Vec<CellIdx>) -> (r: Vec<CellIdx>)
    ensures
        r@ == cells@,
{
    let mut r: Vec<CellIdx> = Vec::new();
    let mut i: usize = 0;
    while i < cells.len()
        invariant
            i <= cells@.len(),
            r@ =~= cells@.take(i as int),
        decreases cells@.len() - i,
    {
        r.push(cells[i]);
        i = i + 1;
    }
    assert(r@ =~= cells@);
    r
}

fn collect_defaults(resolved: &ResolvedModule, info: &CallableInfo, filled: &Vec<bool>) -> (r: Vec<
    (u16, NodeId),
>)
    requires
        filled@.len() == info.params@.len(),
    ensures
        r@ == pending_defaults(*resolved, *info, filled@, info.params@.len()),
{
    let mut r: Vec<(u16, NodeId)> = Vec::new();
    let mut i: usize = 0;
    while i < info.params.len()
        invariant
            i <= info.params@.len(),
            filled@.len() == info.params@.len(),
            r@ == pending_defaults(*resolved, *info, filled@, i as nat),
        decreases info.params@.len() - i,
    {
        if !filled[i] && !info.params[i].is_block && info.params[i].has_default {
            if let Some(e) = default_expr(resolved, info.decl, i) {
                r.push((info.params[i].slot, e));
            }
        }
        i = i + 1;
    }
    r
}

fn schedule_defaults(machine: &mut Machine, defaults: Vec<(u16, NodeId)>)
    ensures
        final(machine)@ == defaulting(old(machine)@, defaults@),
{
    let mut i: usize = defaults.len();
    assert(defaults@.take(i as int) =~= defaults@);
    while i > 0
        invariant
            i <= defaults@.len(),
            defaulting(machine@, defaults@.take(i as int)) == defaulting(
                old(machine)@,
                defaults@,
            ),
        decreases i,
    {
        assert(defaults@.take(i as int).drop_last() =~= defaults@.take(i - 1));
        let (slot, e) = defaults[i - 1];
        machine.push_cont(Work::BindDefault { slot, default: e });
        machine.push_cont(Work::Eval { node: e });
        i = i - 1;
    }
}

/// Pushes a callee's frame, or takes over the caller's.
fn push_callee(
    machine: &mut Machine,
    module: ModuleId,
    cal: CalIdx,
    locals: Vec<Local>,
    body: NodeId,
    block: Option<BlockDescriptor>,
    site: Position,
    reuse: bool,
)
    ensures
        final(machine)@ == callee_frame(
            old(machine)@,
            module,
            cal,
            locals@,
            body,
            block,
            site,
            reuse,
        ),
{
    let n: usize = machine.frames.len();
    if reuse && n > 0 {
        assert(machine@.top() == machine.frames@[n - 1]@);
        if let FrameKind::Callable { cal: elided } = machine.frames[n - 1].kind {
            let serial: u64 = machine.frames[n - 1].serial;
            machine.record_elided(elided, serial);
            let ghost m1 = machine@;
            machine.frames[n - 1].reuse_as_callable(module, cal, locals, body, block, site);
            assert(machine@.frames =~= m1.with_top(
                m1.top().reused(module, cal, locals@, body, block, site),
            ).frames);
            return;
        }
    }
    let dyn_depth: usize = machine.dyn_stack.len();
    let serial: u64 = machine.next_frame_serial();
    machine.push_frame(Frame::callable(module, cal, locals, body, serial, block, site, dyn_depth));
}

/// Enters a callable: binds the arguments, and puts its frame on the stack (or takes over
/// the caller's) with the defaults of what was not given to evaluate first.
#[verifier::rlimit(40)]
pub fn enter(
    modules: &Vec<LoadedModule>,
    heap: &mut Heap,
    machine: &mut Machine,
    cal: CalIdx,
    args: &Vec<Arg>,
    values: &Vec<Value>,
    block: Result<Option<BlockDescriptor>, Raise>,
    call: NodeId,
    span: Span,
    tail_of: Option<BodyKind>,
) -> (r: Result<(), Raise>)
    ensures
        stepped(r, final(heap)@, final(machine)@) == entering(
            modules@,
            old(heap)@,
            old(machine)@,
            cal,
            args@,
            values@,
            crate::error::result_view(block),
            call,
            span,
            tail_of,
        ),
{
    let (module, id, captured) = match heap.callable(cal) {
        Some(c) => match c.target {
            CallableTarget::Source(id) => (c.module, id, copy_cells(&c.captures)),
            _ => {
                machine.fail();
                return Ok(());
            },
        },
        None => {
            machine.fail();
            return Ok(());
        },
    };
    if (module.0 as usize) >= modules.len() {
        machine.fail();
        return Ok(());
    }
    let resolved = &modules[module.0 as usize].resolved;
    if (id as usize) >= resolved.callables.len() {
        machine.fail();
        return Ok(());
    }
    let info = &resolved.callables[id as usize];
    let callee = callee_name(resolved, info.decl);
    proof {
        lemma_arguments_bound_lengths(
            heap@,
            params_view(info.params@),
            info.slot_count as nat,
            args@,
            values@,
            text_of(callee),
            span,
        );
    }
    match bind_arguments(heap, args, &info.params, info.slot_count, values, callee, span) {
        Err(e) => Err(e),
        Ok((slots, filled)) => {
            if let Some(p) = first_unfilled(&info.params, &filled) {
                return Err(missing_argument(callee, info.params[p].name.as_str(), span));
            }
            match block {
                Err(e) => Err(e),
                Ok(desc) => {
                    let defaults = collect_defaults(resolved, info, &filled);
                    let locals = build(info, heap, &slots, &captured);
                    let reuse: bool = match tail_of {
                        Some(kind) => kind == info.kind,
                        None => false,
                    };
                    let site = call_position(modules, machine, module, call);
                    push_callee(machine, module, cal, locals, info.body, desc, site, reuse);
                    schedule_defaults(machine, defaults);
                    Ok(())
                },
            }
        },
    }
}

/// The kind of body that the innermost frame runs, if it runs a callable.
pub open spec fn running_kind(resolved: ResolvedModule, h: HeapView, m: MachineView) -> Option<
    BodyKind,
> {
    if m.frames.len() == 0 {
        None
    } else {
        match m.top().kind {
            FrameKind::Callable { cal } => match h.callable(cal) {
                Some(c) => match c.target {
                    CallableTarget::Source(id) => match resolved.body(id as int) {
                        Some(info) => Some(info.kind),
                        None => None,
                    },
                    _ => None,
                },
                None => None,
            },
            _ => None,
        }
    }
}

fn current_kind(resolved: &ResolvedModule, heap: &Heap, machine: &Machine) -> (r: Option<BodyKind>)
    ensures
        r == running_kind(*resolved, heap@, machine@),
{
    let n: usize = machine.frames.len();
    if n == 0 {
        return None;
    }
    assert(machine@.top() == machine.frames@[n - 1]@);
    match machine.frames[n - 1].kind {
        FrameKind::Callable { cal } => match heap.callable(cal) {
            Some(c) => match c.target {
                CallableTarget::Source(id) => {
                    if (id as usize) < resolved.callables.len() {
                        Some(resolved.callables[id as usize].kind)
                    } else {
                        None
                    }
                },
                _ => None,
            },
            None => None,
        },
        _ => None,
    }
}

/// The raise for a callee that is not callable.
pub open spec fn uncallable_raise(h: HeapView, callee: Value, span: Span) -> RaiseView {
    RaiseView::new(
        ExceptionKind::NotCallable,
        "this isn't something you can call"@,
        span,
    ).with(one_text("type"@, type_text(h, callee)))
}

fn not_callable(heap: &Heap, callee: Value, span: Span) -> (r: Raise)
    ensures
        r@ == uncallable_raise(heap@, callee, span),
{
    Raise::new(
        ExceptionKind::NotCallable,
        "this isn't something you can call".to_owned(),
        span,
    ).with_details(text_detail("type", value_type_name(callee, heap).as_str()))
}

/// The raise for a protocol member that the first argument's type does not implement.
pub open spec fn unimplemented_raise(h: HeapView, values: Seq<Value>, span: Span) -> RaiseView {
    let name = if values.len() > 0 {
        type_text(h, values[0])
    } else {
        "Nil"@
    };
    RaiseView::new(
        ExceptionKind::NotImplemented,
        "this value's type doesn't implement this"@,
        span,
    ).with(one_text("type"@, name))
}

/// What applying a callee to evaluated arguments leaves.
pub open spec fn applied(
    resolved: ResolvedModule,
    modules: Seq<LoadedModule>,
    h: HeapView,
    m: MachineView,
    call: NodeId,
    callee: Value,
    values: Seq<Value>,
) -> Step {
    let span = resolved.ast.range(call);
    match (resolved.node_at(call), callee) {
        (Some(Node::Call { args, .. }), Value::Type(idx)) => if h.schema(idx) is Some {
            constructed(resolved, h, m, call, idx, values)
        } else {
            Step::raised(h, m, uncallable_raise(h, callee, span))
        },
        (Some(Node::Call { args, .. }), Value::Callable(cal)) => match h.callable(cal) {
            None => Step::done(h, m.broken()),
            Some(c) => match c.target {
                CallableTarget::Intrinsic(id) => Step::done(
                    h,
                    MachineView { foreign: Some(ForeignCall { id, args: values, call }), ..m },
                ),
                CallableTarget::Dispatcher(protocol) => {
                    let target = if values.len() > 0 {
                        implementation(m.protocols, protocol, h, values[0])
                    } else {
                        None
                    };
                    match target {
                        Some(t) => match source_of(modules, h, t) {
                            Some((module, info)) => entering(
                                modules,
                                h,
                                m,
                                t,
                                args@,
                                values,
                                block_binding(
                                    resolved,
                                    m,
                                    call,
                                    params_view(info.params@),
                                    span,
                                ),
                                call,
                                span,
                                None,
                            ),
                            None => Step::done(h, m.broken()),
                        },
                        None => Step::raised(h, m, unimplemented_raise(h, values, span)),
                    }
                },
                CallableTarget::Source(_) => match source_of(modules, h, cal) {
                    Some((module, info)) => entering(
                        modules,
                        h,
                        m,
                        cal,
                        args@,
                        values,
                        block_binding(resolved, m, call, params_view(info.params@), span),
                        call,
                        span,
                        if resolved.tail_call(call) {
                            running_kind(resolved, h, m)
                        } else {
                            None
                        },
                    ),
                    None => Step::done(h, m.broken()),
                },
            },
        },
        (Some(Node::Call { .. }), _) => Step::raised(h, m, uncallable_raise(h, callee, span)),
        _ => Step::done(h, m.broken()),
    }
}

/// The body of a callable.
fn source_info<'a>(modules: &'a Vec<LoadedModule>, heap: &Heap, cal: CalIdx) -> (r: Option<
    &'a CallableInfo,
>)
    ensures
        (match r {
            Some(info) => source_of(modules@, heap@, cal) is Some && (source_of(
                modules@,
                heap@,
                cal,
            )->0).1 == *info,
            None => source_of(modules@, heap@, cal) is None,
        }),
{
    match heap.callable(cal) {
        Some(c) => match c.target {
            CallableTarget::Source(id) => {
                if (c.module.0 as usize) < modules.len() {
                    let resolved = &modules[c.module.0 as usize].resolved;
                    if (id as usize) < resolved.callables.len() {
                        Some(&resolved.callables[id as usize])
                    } else {
                        None
                    }
                } else {
                    None
                }
            },
            _ => None,
        },
        None => None,
    }
}

/// Applies a callee to evaluated arguments: makes a record, readies a foreign call, or
/// enters a frame.
pub fn apply(
    resolved: &ResolvedModule,
    modules: &Vec<LoadedModule>,
    heap: &mut Heap,
    machine: &mut Machine,
    call: NodeId,
    callee: Value,
    arg_values: Vec<Value>,
) -> (r: Result<(), Raise>)
    ensures
        stepped(r, final(heap)@, final(machine)@) == applied(
            *resolved,
            modules@,
            old(heap)@,
            old(machine)@,
            call,
            callee,
            arg_values@,
        ),
{
    let span = resolved.ast.span(call);
    let args: &Vec<Arg> = match resolved.ast.node(call) {
        Some(Node::Call { args, .. }) => args,
        _ => {
            machine.fail();
            return Ok(());
        },
    };
    let cal = match callee {
        Value::Type(idx) => {
            let record: bool = match heap.type_value(idx) {
                Some(TypeKind::Record(_)) => true,
                _ => false,
            };
            if record {
                return construct(resolved, heap, machine, call, idx, &arg_values);
            }
            return Err(not_callable(heap, callee, span));
        },
        Value::Callable(cal) => cal,
        _ => {
            return Err(not_callable(heap, callee, span));
        },
    };
    let target = match heap.callable(cal) {
        Some(c) => c.target,
        None => {
            machine.fail();
            return Ok(());
        },
    };
    match target {
        CallableTarget::Intrinsic(id) => {
            machine.foreign = Some(ForeignCall { id, args: arg_values, call });
            Ok(())
        },
        CallableTarget::Dispatcher(protocol) => {
            let found = if arg_values.len() > 0 {
                resolve(&machine.protocols, protocol, heap, arg_values[0])
            } else {
                None
            };
            match found {
                Some(t) => match source_info(modules, heap, t) {
                    Some(info) => {
                        let block = bind_block_argument(
                            resolved,
                            machine,
                            call,
                            &info.params,
                            span,
                        );
                        enter(
                            modules,
                            heap,
                            machine,
                            t,
                            args,
                            &arg_values,
                            block,
                            call,
                            span,
                            None,
                        )
                    },
                    None => {
                        machine.fail();
                        Ok(())
                    },
                },
                None => {
                    let name = if arg_values.len() > 0 {
                        value_type_name(arg_values[0], heap)
                    } else {
                        "Nil".to_owned()
                    };
                    Err(
                        Raise::new(
                            ExceptionKind::NotImplemented,
                            "this value's type doesn't implement this".to_owned(),
                            span,
                        ).with_details(text_detail("type", name.as_str())),
                    )
                },
            }
        },
        CallableTarget::Source(_) => match source_info(modules, heap, cal) {
            Some(info) => {
                let block = bind_block_argument(resolved, machine, call, &info.params, span);
                let tail_of = if resolved.is_tail_call(call) {
                    current_kind(resolved, heap, machine)
                } else {
                    None
                };
                enter(
                    modules,
                    heap,
                    machine,
                    cal,
                    args,
                    &arg_values,
                    block,
                    call,
                    span,
                    tail_of,
                )
            },
            None => {
                machine.fail();
                Ok(())
            },
        },
    }
}

/// What calling a one-argument callable on a value leaves.
pub open spec fn entering_unary(
    modules: Seq<LoadedModule>,
    h: HeapView,
    m: MachineView,
    cal: CalIdx,
    value: Value,
    node: NodeId,
    span: Span,
) -> Step {
    entering(
        modules,
        h,
        m,
        cal,
        seq![Arg::Positional(node)],
        seq![value],
        Ok(None),
        node,
        span,
        None,
    )
}

/// Calls a one-argument callable on a value.
pub fn enter_unary(
    modules: &Vec<LoadedModule>,
    heap: &mut Heap,
    machine: &mut Machine,
    cal: CalIdx,
    value: Value,
    node: NodeId,
    span: Span,
) -> (r: Result<(), Raise>)
    ensures
        stepped(r, final(heap)@, final(machine)@) == entering_unary(
            modules@,
            old(heap)@,
            old(machine)@,
            cal,
            value,
            node,
            span,
        ),
{
    let mut args: Vec<Arg> = Vec::new();
    args.push(Arg::Positional(node));
    let mut values: Vec<Value> = Vec::new();
    values.push(value);
    assert(args@ =~= seq![Arg::Positional(node)]);
    assert(values@ =~= seq![value]);
    enter(modules, heap, machine, cal, &args, &values, Ok(None), node, span, None)
}

/// What scheduling a call leaves.
pub open spec fn call_scheduled(
    resolved: ResolvedModule,
    modules: Seq<LoadedModule>,
    h: HeapView,
    m: MachineView,
    call: NodeId,
) -> Step {
    match resolved.node_at(call) {
        Some(Node::Call { callee, .. }) => if block_invocation(resolved, h, m, callee) {
            block_call_scheduled(resolved, modules, h, m, call)
        } else {
            Step::done(
                h,
                m.doing(Work::CallGotCallee { call }).doing(Work::Eval { node: callee }),
            )
        },
        _ => Step::done(h, m.broken()),
    }
}

/// Schedules a call: of the frame's block parameter, or of what its callee evaluates to.
pub fn eval_call(
    resolved: &ResolvedModule,
    modules: &Vec<LoadedModule>,
    heap: &mut Heap,
    machine: &mut Machine,
    call: NodeId,
) -> (r: Result<(), Raise>)
    ensures
        stepped(r, final(heap)@, final(machine)@) == call_scheduled(
            *resolved,
            modules@,
            old(heap)@,
            old(machine)@,
            call,
        ),
{
    match resolved.ast.node(call) {
        Some(Node::Call { callee, .. }) => {
            if is_block_invocation(resolved, heap, machine, *callee) {
                return eval_block_call(resolved, modules, heap, machine, call);
            }
            machine.push_cont(Work::CallGotCallee { call });
            machine.push_cont(Work::Eval { node: *callee });
            Ok(())
        },
        _ => {
            machine.fail();
            Ok(())
        },
    }
}

/// What having a callee leads to: its first argument, or its application.
pub open spec fn callee_known(
    resolved: ResolvedModule,
    modules: Seq<LoadedModule>,
    h: HeapView,
    m: MachineView,
    call: NodeId,
) -> Step {
    match m.reg {
        None => Step::raised(h, m, void_raise(resolved.ast.range(call))),
        Some(callee) => match resolved.node_at(call) {
            Some(Node::Call { args, .. }) => if args@.len() > 0 {
                Step::done(
                    h,
                    m.voided().doing(
                        Work::CallGotArg { call, callee, values: Seq::empty(), index: 0 },
                    ).doing(Work::Eval { node: argument_node(args@[0]) }),
                )
            } else {
                applied(resolved, modules, h, m.voided(), call, callee, Seq::empty())
            },
            _ => Step::done(h, m.voided().broken()),
        },
    }
}

/// The callee is in the register: evaluates the first argument, or applies it.
pub fn got_callee(
    resolved: &ResolvedModule,
    modules: &Vec<LoadedModule>,
    heap: &mut Heap,
    machine: &mut Machine,
    call: NodeId,
) -> (r: Result<(), Raise>)
    ensures
        stepped(r, final(heap)@, final(machine)@) == callee_known(
            *resolved,
            modules@,
            old(heap)@,
            old(machine)@,
            call,
        ),
{
    let callee = match take_value(machine, resolved.ast.span(call)) {
        Ok(v) => v,
        Err(e) => {
            return Err(e);
        },
    };
    match resolved.ast.node(call) {
        Some(Node::Call { args, .. }) => {
            let values: Vec<Value> = Vec::new();
            assert(values@ =~= Seq::empty());
            if args.len() > 0 {
                let first = arg_expr(&args[0]);
                machine.push_cont(Work::CallGotArg { call, callee, values, index: 0 });
                machine.push_cont(Work::Eval { node: first });
                Ok(())
            } else {
                apply(resolved, modules, heap, machine, call, callee, values)
            }
        },
        _ => {
            machine.fail();
            Ok(())
        },
    }
}

/// What having an argument leads to: the next one, or the application.
pub open spec fn argument_known(
    resolved: ResolvedModule,
    modules: Seq<LoadedModule>,
    h: HeapView,
    m: MachineView,
    call: NodeId,
    callee: Value,
    values: Seq<Value>,
    index: int,
) -> Step {
    match m.reg {
        None => Step::raised(h, m, void_raise(resolved.ast.range(call))),
        Some(v) => match resolved.node_at(call) {
            Some(Node::Call { args, .. }) => if index + 1 < args@.len() {
                Step::done(
                    h,
                    m.voided().doing(
                        Work::CallGotArg {
                            call,
                            callee,
                            values: values.push(v),
                            index: (index + 1) as usize,
                        },
                    ).doing(Work::Eval { node: argument_node(args@[index + 1]) }),
                )
            } else {
                applied(resolved, modules, h, m.voided(), call, callee, values.push(v))
            },
            _ => Step::done(h, m.voided().broken()),
        },
    }
}

/// An argument is in the register: evaluates the next one, or applies the callee.
pub fn got_arg(
    resolved: &ResolvedModule,
    modules: &Vec<LoadedModule>,
    heap: &mut Heap,
    machine: &mut Machine,
    call: NodeId,
    callee: Value,
    values: Vec<Value>,
    index: usize,
) -> (r: Result<(), Raise>)
    ensures
        stepped(r, final(heap)@, final(machine)@) == argument_known(
            *resolved,
            modules@,
            old(heap)@,
            old(machine)@,
            call,
            callee,
            values@,
            index as int,
        ),
{
    let mut values = values;
    match take_value(machine, resolved.ast.span(call)) {
        Ok(v) => values.push(v),
        Err(e) => {
            return Err(e);
        },
    }
    match resolved.ast.node(call) {
        Some(Node::Call { args, .. }) => {
            if index < args.len() && index + 1 < args.len() {
                let next = arg_expr(&args[index + 1]);
                machine.push_cont(Work::CallGotArg { call, callee, values, index: index + 1 });
                machine.push_cont(Work::Eval { node: next });
                Ok(())
            } else {
                apply(resolved, modules, heap, machine, call, callee, values)
            }
        },
        _ => {
            machine.fail();
            Ok(())
        },
    }
}

/// What binding a default leaves.
pub open spec fn default_bound(
    resolved: ResolvedModule,
    h: HeapView,
    m: MachineView,
    slot: u16,
    default: NodeId,
) -> Step {
    match m.reg {
        None => Step::raised(h, m, void_raise(resolved.ast.range(default))),
        Some(v) => {
            let (h2, copy) = copied(h, v);
            let (h3, m3) = written(h2, m.voided(), m.frames.len() - 1, slot, copy);
            Step::done(h3, m3)
        },
    }
}

/// A parameter's default is in the register: binds it.
pub fn bind_default(
    resolved: &ResolvedModule,
    heap: &mut Heap,
    machine: &mut Machine,
    slot: u16,
    default: NodeId,
) -> (r: Result<(), Raise>)
    ensures
        stepped(r, final(heap)@, final(machine)@) == default_bound(
            *resolved,
            old(heap)@,
            old(machine)@,
            slot,
            default,
        ),
{
    let value = match take_value(machine, resolved.ast.span(default)) {
        Ok(v) => copy_on_bind(v, heap),
        Err(e) => {
            return Err(e);
        },
    };
    let n: usize = machine.frames.len();
    if n == 0 {
        machine.fail();
    } else {
        crate::local::write(heap, machine, n - 1, slot, value);
    }
    Ok(())
}

/// The cells that the first `n` captures find in the creating frame and those around it.
pub open spec fn captured_cells(m: MachineView, captures: Seq<CaptureInfo>, n: nat) -> Seq<CellIdx>
    decreases n,
{
    if n == 0 || n > captures.len() {
        Seq::empty()
    } else {
        let before = captured_cells(m, captures, (n - 1) as nat);
        let c = captures[n - 1];
        match m.enclosing(c.hops as nat) {
            Some(frame) => match shared_cell(m.slot(frame, c.from_slot)) {
                Some(cell) => before.push(cell),
                None => before,
            },
            None => before,
        }
    }
}

/// What making a callable leaves: the heap, the machine and the callable.
pub open spec fn callable_made(resolved: ResolvedModule, h: HeapView, m: MachineView, decl: NodeId) -> (
    HeapView,
    MachineView,
    Value,
) {
    match body_of(resolved.callables@, decl, 0) {
        Some(id) => {
            let captures = resolved.callables@[id as int].captures@;
            (
                h.new_callable(
                    CalView {
                        module: resolved.canonical_id,
                        target: CallableTarget::Source(id as u32),
                        captures: captured_cells(m, captures, captures.len()),
                    },
                ),
                m,
                Value::Callable(CalIdx(h.callables.len() as usize)),
            )
        },
        None => (h, m.broken(), Value::Nil),
    }
}

/// Makes a callable, with the cells it captures.
pub fn make_callable(
    resolved: &ResolvedModule,
    heap: &mut Heap,
    machine: &mut Machine,
    decl: NodeId,
) -> (r: Value)
    ensures
        (final(heap)@, final(machine)@, r) == callable_made(
            *resolved,
            old(heap)@,
            old(machine)@,
            decl,
        ),
{
    match resolved.body_index(decl) {
        Some(id) => {
            let infos = &resolved.callables[id].captures;
            let mut captures: Vec<CellIdx> = Vec::new();
            let mut i: usize = 0;
            while i < infos.len()
                invariant
                    i <= infos@.len(),
                    captures@ == captured_cells(machine@, infos@, i as nat),
                decreases infos@.len() - i,
            {
                if let Some(frame) = machine.outer_frame(infos[i].hops) {
                    if let Some(Local::Boxed(cell)) = machine.local(frame, infos[i].from_slot) {
                        captures.push(cell);
                    }
                }
                i = i + 1;
            }
            let cal = heap.alloc_callable(
                CalObj {
                    module: resolved.canonical_id,
                    target: CallableTarget::Source(id as u32),
                    captures,
                },
            );
            Value::Callable(cal)
        },
        None => {
            machine.fail();
            Value::Nil
        },
    }
}

/// What a callable's declaration leaves. A shared slot gets its new cell before the
/// callable is made, so that the callable can capture it and so call itself.
pub open spec fn callable_declared(
    resolved: ResolvedModule,
    h: HeapView,
    m: MachineView,
    namespace: Seq<(Seq<char>, CellIdx)>,
    decl: NodeId,
) -> (HeapView, MachineView) {
    let top = m.frames.len() - 1;
    match resolved.resolution(decl) {
        Some(Resolution::LocalSlot(slot)) => if shared_cell(m.slot(top, slot)) is Some {
            let cell = CellIdx(h.cells.len() as usize);
            let (h2, m2, v) = callable_made(
                resolved,
                h.new_cell(CellKind::Let, None),
                m.with_slot(top, slot, Local::Boxed(cell)),
                decl,
            );
            (h2.with_cell(cell, Some(v)), m2)
        } else {
            let (h2, m2, v) = callable_made(resolved, h, m, decl);
            declared(resolved, h2, m2, namespace, decl, v)
        },
        _ => {
            let (h2, m2, v) = callable_made(resolved, h, m, decl);
            declared(resolved, h2, m2, namespace, decl, v)
        },
    }
}

/// Makes and binds a declared callable.
pub fn define_callable(
    resolved: &ResolvedModule,
    heap: &mut Heap,
    machine: &mut Machine,
    namespace: &Vec<(String, CellIdx)>,
    decl: NodeId,
)
    ensures
        (final(heap)@, final(machine)@) == callable_declared(
            *resolved,
            old(heap)@,
            old(machine)@,
            named_view(namespace@),
            decl,
        ),
{
    if let Some(Resolution::LocalSlot(slot)) = resolved.resolution_of(decl) {
        let n: usize = machine.frames.len();
        if n > 0 {
            if let Some(Local::Boxed(_)) = machine.local(n - 1, slot) {
                let cell = heap.alloc_cell(CellKind::Let, None);
                machine.set_local(n - 1, slot, Local::Boxed(cell));
                let value = make_callable(resolved, heap, machine, decl);
                heap.set_cell(cell, Some(value));
                return;
            }
        }
    }
    let value = make_callable(resolved, heap, machine, decl);
    bind_decl(resolved, heap, machine, namespace, decl, value);
}

/// The raise for a function that ended without a value.
pub open spec fn fell_off_raise(span: Span) -> RaiseView {
    RaiseView::new(
        ExceptionKind::FunctionFellOffEnd,
        "this function reached its end without producing a value"@,
        span,
    )
}

/// What returning from the innermost frame leaves: a function keeps its value, a procedure
/// has none, and a block hands its last one to whoever invoked it.
pub open spec fn returned(resolved: ResolvedModule, h: HeapView, m: MachineView) -> (
    MachineView,
    Option<RaiseView>,
) {
    if m.frames.len() == 0 {
        (m.broken(), None)
    } else {
        match m.top().kind {
            FrameKind::Block { .. } => (m.left(), None),
            FrameKind::ModuleTopLevel => (m.left().broken(), None),
            FrameKind::Callable { cal } => {
                let info = match h.callable(cal) {
                    Some(c) => match c.target {
                        CallableTarget::Source(id) => resolved.body(id as int),
                        _ => None,
                    },
                    None => None,
                };
                match info {
                    None => (m.left().broken(), None),
                    Some(info) => match info.kind {
                        BodyKind::Proc => (m.left().voided(), None),
                        BodyKind::Func => if m.reg is None {
                            (m.left(), Some(fell_off_raise(resolved.ast.range(info.decl))))
                        } else {
                            (m.left(), None)
                        },
                        _ => (m.left().broken(), None),
                    },
                }
            },
        }
    }
}

/// Returns from the innermost frame.
pub fn return_from_callable(resolved: &ResolvedModule, heap: &Heap, machine: &mut Machine) -> (r:
    Result<(), Raise>)
    ensures
        (final(machine)@, raise_of(r)) == returned(*resolved, heap@, old(machine)@),
{
    let frame = match machine.pop_frame() {
        Some(f) => f,
        None => {
            machine.fail();
            return Ok(());
        },
    };
    match frame.kind {
        FrameKind::Block { .. } => Ok(()),
        FrameKind::ModuleTopLevel => {
            machine.fail();
            Ok(())
        },
        FrameKind::Callable { cal } => {
            let id: usize = match heap.callable(cal) {
                Some(c) => match c.target {
                    CallableTarget::Source(id) => id as usize,
                    _ => {
                        machine.fail();
                        return Ok(());
                    },
                },
                None => {
                    machine.fail();
                    return Ok(());
                },
            };
            if id >= resolved.callables.len() {
                machine.fail();
                return Ok(());
            }
            match resolved.callables[id].kind {
                BodyKind::Proc => {
                    machine.reg = None;
                    Ok(())
                },
                BodyKind::Func => {
                    if machine.reg.is_none() {
                        return Err(
                            Raise::new(
                                ExceptionKind::FunctionFellOffEnd,
                                "this function reached its end without producing a value".to_owned(),
                                resolved.ast.span(resolved.callables[id].decl),
                            ),
                        );
                    }
                    Ok(())
                },
                _ => {
                    machine.fail();
                    Ok(())
                },
            }
        },
    }
}

proof fn lemma_defaulting_keeps_the_depth(m: MachineView, defaults: Seq<(u16, NodeId)>)
    ensures
        defaulting(m, defaults).frames.len() == m.frames.len(),
        defaulting(m, defaults).frames.drop_last() == m.frames.drop_last(),
        m.frames.len() > 0 ==> defaulting(m, defaults).top().serial == m.top().serial,
        m.frames.len() > 0 ==> defaulting(m, defaults).top().call_site == m.top().call_site,
        defaulting(m, defaults).frame_serial == m.frame_serial,
    decreases defaults.len(),
{
    if defaults.len() > 0 {
        let (slot, e) = defaults.last();
        let next = m.doing(Work::BindDefault { slot, default: e }).doing(Work::Eval { node: e });
        lemma_defaulting_keeps_the_depth(next, defaults.drop_last());
        assert(next.frames.drop_last() =~= m.frames.drop_last());
    }
}

/// A tail call does not grow the stack: where the caller is left behind and runs the same
/// kind of body, the callee takes its frame over, and the frames below stay as they are.
/// Any other call that gets in adds one frame, with a number no frame before it had.
pub proof fn law_tail_calls_do_not_grow_the_stack(
    modules: Seq<LoadedModule>,
    h: HeapView,
    m: MachineView,
    cal: CalIdx,
    args: Seq<Arg>,
    values: Seq<Value>,
    block: Result<Option<BlockDescriptor>, RaiseView>,
    call: NodeId,
    span: Span,
    tail_of: Option<BodyKind>,
)
    requires
        source_of(modules, h, cal) is Some,
        m.frames.len() > 0,
        m.top().kind is Callable,
        m.frame_serial < u64::MAX,
        entering(modules, h, m, cal, args, values, block, call, span, tail_of).raise is None,
    ensures
        ({
            let s = entering(modules, h, m, cal, args, values, block, call, span, tail_of);
            let (_, info) = source_of(modules, h, cal)->0;
            if tail_of == Some(info.kind) {
                &&& s.machine.frames.len() == m.frames.len()
                &&& s.machine.frames.drop_last() == m.frames.drop_last()
                &&& s.machine.top().serial == m.top().serial
                &&& s.machine.frame_serial == m.frame_serial
            } else {
                &&& s.machine.frames.len() == m.frames.len() + 1
                &&& s.machine.frames.drop_last() == m.frames
                &&& s.machine.top().serial == m.frame_serial
                &&& s.machine.frame_serial == m.frame_serial + 1
            }
        }),
{
    let (module, info) = source_of(modules, h, cal)->0;
    let resolved = modules[module.0 as int].resolved;
    let params = params_view(info.params@);
    let callee = callee_text(resolved, info.decl);
    let b = arguments_bound(h, params, info.slot_count as nat, args, values, callee, span);
    let (h2, locals) = entry_locals(b.heap, info, b.slots, h.callable(cal)->0.captures);
    let framed = callee_frame(
        m,
        module,
        cal,
        locals,
        info.body,
        block->Ok_0,
        site_of(modules, m, module, call),
        tail_of == Some(info.kind),
    );
    assert(tail_of == Some(info.kind) ==> framed.frames.drop_last() =~= m.frames.drop_last());
    assert(tail_of != Some(info.kind) ==> framed.frames.drop_last() =~= m.frames);
    lemma_defaulting_keeps_the_depth(
        framed,
        pending_defaults(resolved, info, b.filled, info.params@.len()),
    );
}

/// A frame remembers the call that entered it: where the call stands in the source of the
/// module that holds it, which is the caller's.
pub proof fn law_frames_remember_their_calls(
    modules: Seq<LoadedModule>,
    h: HeapView,
    m: MachineView,
    cal: CalIdx,
    args: Seq<Arg>,
    values: Seq<Value>,
    block: Result<Option<BlockDescriptor>, RaiseView>,
    call: NodeId,
    span: Span,
    tail_of: Option<BodyKind>,
)
    requires
        source_of(modules, h, cal) is Some,
        m.frames.len() > 0,
        m.top().module.0 < modules.len(),
        entering(modules, h, m, cal, args, values, block, call, span, tail_of).raise is None,
    ensures
        entering(modules, h, m, cal, args, values, block, call, span, tail_of).machine.top().call_site
            == Some(
            (Position {
                module: m.top().module,
                span: modules[m.top().module.0 as int].resolved.ast.range(call),
            }),
        ),
{
    let (module, info) = source_of(modules, h, cal)->0;
    let resolved = modules[module.0 as int].resolved;
    let params = params_view(info.params@);
    let callee = callee_text(resolved, info.decl);
    let b = arguments_bound(h, params, info.slot_count as nat, args, values, callee, span);
    let (h2, locals) = entry_locals(b.heap, info, b.slots, h.callable(cal)->0.captures);
    let framed = callee_frame(
        m,
        module,
        cal,
        locals,
        info.body,
        block->Ok_0,
        site_of(modules, m, module, call),
        tail_of == Some(info.kind),
    );
    lemma_defaulting_keeps_the_depth(
        framed,
        pending_defaults(resolved, info, b.filled, info.params@.len()),
    );
}

} // verus!
