//! Running calls of host-registered functions: each is an activation on a stack of its own,
//! with the frames of the block it runs above the boundary it was called at.
use crate::ast::Arg;
use crate::ast::Node;
use crate::ast::NodeId;
use crate::block::bind_block_argument;
use crate::block::block_binding;
use crate::block::block_entering;
use crate::block::block_range;
use crate::block::block_span;
use crate::block::enter_block;
use crate::error::EngineFault;
use crate::error::ExceptionKind;
use crate::error::LimitKind;
use crate::error::Raise;
use crate::error::RaiseView;
use crate::frame::BlockDescriptor;
use crate::frame::Consumer;
use crate::heap::Heap;
use crate::heap::HeapView;
use crate::intrinsic::foreign_params;
use crate::intrinsic::intrinsics_view;
use crate::intrinsic::ForeignBody;
use crate::intrinsic::Intrinsic;
use crate::intrinsic::IntrinsicView;
use crate::intrinsic::Native;
use crate::machine::raise_of;
use crate::machine::ForeignCall;
use crate::machine::Machine;
use crate::machine::MachineView;
use crate::modload::LoadedModule;
use crate::natives::bind_foreign_arguments;
use crate::natives::foreign_bound;
use crate::natives::infos_of;
use crate::natives::native_result;
use crate::natives::needs_raise;
use crate::natives::param_infos;
use crate::natives::run_native;
use crate::resolve::BodyKind;
use crate::resolve::ResolvedModule;
use crate::span::Span;
use crate::text::texts;
use crate::unicode::grapheme_clusters;
use crate::unicode::graphemes;
use crate::unwind::boundary_resumed;
use crate::unwind::resume_native_boundary;
use crate::value::StrIdx;
use crate::value::Value;
use vstd::prelude::*;

verus! {

/// How deep calls of host-registered functions may nest through the blocks they run.
pub const MAX_REENTRY_DEPTH: usize = 128;

/// How far a running call has come.
#[derive(Clone, Copy, PartialEq, Eq, Debug, Structural)]
pub enum Progress {
    /// `each`: the next element, of as many as there were at the start.
    Each {
        /// The next element.
        next: usize,
        /// How many there were.
        count: usize,
    },
    /// The host is running it.
    Waiting,
    /// The host is running it, and has had its block run; a transfer out of the block goes
    /// on once the host answers.
    Exited,
    /// The host waits for its block.
    Running,
}

/// A running call.
pub struct Activation {
    /// The function.
    pub id: u32,
    /// Procedure or function.
    pub kind: BodyKind,
    /// The bound arguments.
    pub args: Vec<Value>,
    /// The block it received.
    pub block: Option<BlockDescriptor>,
    /// Where the call stands.
    pub span: Span,
    /// How many frames were on the stack when it was called.
    pub boundary: usize,
    /// How far it has come.
    pub progress: Progress,
}

/// A running call, as mathematics sees it.
pub struct ActivationView {
    /// The function.
    pub id: u32,
    /// Procedure or function.
    pub kind: BodyKind,
    /// The bound arguments.
    pub args: Seq<Value>,
    /// The block it received.
    pub block: Option<BlockDescriptor>,
    /// Where the call stands.
    pub span: Span,
    /// How many frames were on the stack when it was called.
    pub boundary: usize,
    /// How far it has come.
    pub progress: Progress,
}

impl View for Activation {
    type V = ActivationView;

    open spec fn view(&self) -> ActivationView {
        ActivationView {
            id: self.id,
            kind: self.kind,
            args: self.args@,
            block: self.block,
            span: self.span,
            boundary: self.boundary,
            progress: self.progress,
        }
    }
}

/// A parked call of a suspending function.
pub struct PendingRequest {
    /// The function.
    pub capability: u32,
    /// The bound arguments.
    pub args: Vec<Value>,
    /// Where the call stands.
    pub span: Span,
}

/// A parked call, as mathematics sees it.
pub struct PendingView {
    /// The function.
    pub capability: u32,
    /// The bound arguments.
    pub args: Seq<Value>,
    /// Where the call stands.
    pub span: Span,
}

impl View for PendingRequest {
    type V = PendingView;

    open spec fn view(&self) -> PendingView {
        PendingView { capability: self.capability, args: self.args@, span: self.span }
    }
}

/// The host-registered functions and the state of their calls.
pub struct Natives {
    /// The functions by number.
    pub table: Vec<Intrinsic>,
    /// The running calls, innermost last.
    pub calls: Vec<Activation>,
    /// What was written to the output.
    pub output: Vec<u8>,
    /// The parked call.
    pub pending: Option<PendingRequest>,
}

/// The host-registered functions and the state of their calls, as mathematics sees them.
pub struct NativesView {
    /// The functions by number.
    pub table: Seq<IntrinsicView>,
    /// The running calls, innermost last.
    pub calls: Seq<ActivationView>,
    /// What was written to the output.
    pub output: Seq<u8>,
    /// The parked call.
    pub pending: Option<PendingView>,
}

/// The contents of some running calls.
pub open spec fn calls_view(calls: Seq<Activation>) -> Seq<ActivationView> {
    calls.map_values(|a: Activation| a@)
}

impl View for Natives {
    type V = NativesView;

    open spec fn view(&self) -> NativesView {
        NativesView {
            table: intrinsics_view(self.table@),
            calls: calls_view(self.calls@),
            output: self.output@,
            pending: match self.pending {
                Some(p) => Some(p@),
                None => None,
            },
        }
    }
}

impl NativesView {
    /// The same with a further running call.
    pub open spec fn entered(self, a: ActivationView) -> NativesView {
        NativesView { calls: self.calls.push(a), ..self }
    }

    /// The same without the innermost running call.
    pub open spec fn left(self) -> NativesView {
        NativesView { calls: self.calls.drop_last(), ..self }
    }

    /// The same with the innermost running call further on.
    pub open spec fn progressed(self, progress: Progress) -> NativesView {
        NativesView {
            calls: self.calls.update(
                self.calls.len() - 1,
                ActivationView { progress, ..self.calls.last() },
            ),
            ..self
        }
    }

    /// The values that running and parked calls hold.
    pub open spec fn held(self) -> Seq<Value> {
        call_values(self.calls) + match self.pending {
            Some(p) => p.args,
            None => Seq::empty(),
        }
    }
}

/// The values that some running calls hold.
pub open spec fn call_values(calls: Seq<ActivationView>) -> Seq<Value>
    decreases calls.len(),
{
    if calls.len() == 0 {
        Seq::empty()
    } else {
        call_values(calls.drop_last()) + calls.last().args
    }
}

impl Natives {
    /// The functions, none of them called yet.
    pub fn new(table: Vec<Intrinsic>) -> (r: Natives)
        ensures
            r@ == (NativesView {
                table: intrinsics_view(table@),
                calls: Seq::empty(),
                output: Seq::empty(),
                pending: None,
            }),
    {
        let r = Natives { table, calls: Vec::new(), output: Vec::new(), pending: None };
        assert(r@.calls =~= Seq::<ActivationView>::empty());
        assert(r@.output =~= Seq::<u8>::empty());
        r
    }

    fn enter(&mut self, a: Activation)
        ensures
            final(self)@ == old(self)@.entered(a@),
    {
        self.calls.push(a);
        assert(self@.calls =~= old(self)@.calls.push(a@));
    }

    /// Ends the innermost running call.
    pub fn leave(&mut self)
        requires
            old(self)@.calls.len() > 0,
        ensures
            final(self)@ == old(self)@.left(),
    {
        let done = self.calls.pop();
        assert(self@.calls =~= old(self)@.calls.drop_last());
    }

    /// Notes how far the innermost running call has come.
    pub fn progress(&mut self, progress: Progress)
        requires
            old(self)@.calls.len() > 0,
        ensures
            final(self)@ == old(self)@.progressed(progress),
    {
        let n: usize = self.calls.len();
        self.calls[n - 1].progress = progress;
        assert(self@.calls =~= old(self)@.progressed(progress).calls);
    }

    /// The values that running and parked calls hold.
    pub fn held_values(&self) -> (r: Vec<Value>)
        ensures
            r@ == self@.held(),
    {
        let mut r: Vec<Value> = Vec::new();
        let mut i: usize = 0;
        let ghost all = self@.calls;
        assert(all.take(0) =~= Seq::empty());
        while i < self.calls.len()
            invariant
                i <= self.calls@.len(),
                all == self@.calls,
                r@ == call_values(all.take(i as int)),
            decreases self.calls@.len() - i,
        {
            assert(all.take(i + 1).drop_last() =~= all.take(i as int));
            assert(all.take(i + 1).last() == self.calls@[i as int]@);
            append_values(&mut r, &self.calls[i].args);
            i = i + 1;
        }
        assert(all.take(i as int) =~= all);
        if let Some(p) = &self.pending {
            append_values(&mut r, &p.args);
        }
        assert(r@ =~= self@.held());
        r
    }
}

/// Appends some values to others.
pub fn append_values(out: &mut Vec<Value>, more: &Vec<Value>)
    ensures
        final(out)@ == old(out)@ + more@,
{
    let mut i: usize = 0;
    while i < more.len()
        invariant
            i <= more@.len(),
            out@ =~= old(out)@ + more@.take(i as int),
        decreases more@.len() - i,
    {
        out.push(more[i]);
        i = i + 1;
    }
    assert(more@.take(i as int) =~= more@);
}

/// What a step of a call leaves.
pub struct CallStep {
    /// The heap.
    pub heap: HeapView,
    /// The machine.
    pub machine: MachineView,
    /// The functions and their calls.
    pub natives: NativesView,
    /// The exception.
    pub raise: Option<RaiseView>,
}

/// A step of a call that raised nothing.
pub open spec fn call_done(heap: HeapView, machine: MachineView, natives: NativesView) -> CallStep {
    CallStep { heap, machine, natives, raise: None }
}

/// A step of a call that raised.
pub open spec fn call_raised(heap: HeapView, machine: MachineView, natives: NativesView, e: RaiseView) -> CallStep {
    CallStep { heap, machine, natives, raise: Some(e) }
}

/// The machine with the result of a call: a procedure yields none.
pub open spec fn answered(m: MachineView, kind: BodyKind, value: Option<Value>) -> MachineView {
    MachineView {
        reg: if kind == BodyKind::Proc {
            None
        } else {
            value
        },
        ..m
    }
}

/// How many elements `each` goes through.
pub open spec fn element_count(h: HeapView, v: Value) -> Option<nat> {
    match v {
        Value::List(l) => Some(h.items(l).len()),
        Value::Str(s) => Some(grapheme_clusters(h.text(s)).len()),
        _ => None,
    }
}

/// What starting a call with bound arguments leads to.
pub open spec fn call_started(
    h: HeapView,
    m: MachineView,
    ns: NativesView,
    id: u32,
    args: Seq<Value>,
    block: Option<BlockDescriptor>,
    span: Span,
) -> CallStep {
    let f = ns.table[id as int];
    let a = ActivationView {
        id,
        kind: f.kind,
        args,
        block,
        span,
        boundary: m.frames.len() as usize,
        progress: Progress::Waiting,
    };
    match f.body {
        ForeignBody::Capability => if ns.calls.len() > 0 {
            call_done(
                h,
                MachineView { meter: m.meter.parked(EngineFault::NestedSuspend), ..m },
                ns,
            )
        } else {
            call_done(
                h,
                m,
                NativesView {
                    pending: Some(PendingView { capability: id, args, span }),
                    ..ns
                },
            )
        },
        ForeignBody::Host(_) => call_done(h, m, ns.entered(a)),
        ForeignBody::Engine(native) => if args.len() == 0 {
            call_done(h, m.broken(), ns)
        } else if native is Each {
            match element_count(h, args[0]) {
                Some(n) => call_done(
                    h,
                    m,
                    ns.entered(
                        ActivationView {
                            progress: Progress::Each { next: 0, count: n as usize },
                            ..a
                        },
                    ),
                ),
                None => call_raised(
                    h,
                    m,
                    ns,
                    needs_raise("`each` needs a list or a string to iterate"@, span),
                ),
            }
        } else {
            let done = native_result(native, h, args[0], span);
            let ns2 = NativesView { output: ns.output + done.written, ..ns };
            match done.result {
                Ok(v) => call_done(done.heap, answered(m, f.kind, v), ns2),
                Err(e) => call_raised(done.heap, m, ns2, e),
            }
        },
    }
}

/// What a call of a host-registered function leads to: its arguments and block are bound,
/// then it is done at once, runs, or is parked.
#[verifier::opaque]
pub open spec fn call_begun(
    resolved: ResolvedModule,
    h: HeapView,
    m: MachineView,
    ns: NativesView,
    c: ForeignCall<Seq<Value>>,
) -> CallStep {
    let span = resolved.ast.range(c.call);
    match resolved.node_at(c.call) {
        Some(Node::Call { args, .. }) => if c.id < ns.table.len() && ns.table[c.id as int].params.len()
            <= u16::MAX {
            let f = ns.table[c.id as int];
            let (h2, bound) = foreign_bound(h, f.params, args@, c.args, span);
            match bound {
                Err(e) => call_raised(h2, m, ns, e),
                Ok(values) => match block_binding(
                    resolved,
                    m,
                    c.call,
                    infos_of(f.params),
                    span,
                ) {
                    Err(e) => call_raised(h2, m, ns, e),
                    Ok(block) => call_started(h2, m, ns, c.id, values, block, span),
                },
            }
        } else {
            call_done(h, m.broken(), ns)
        },
        _ => call_done(h, m.broken(), ns),
    }
}

fn count_elements(heap: &Heap, v: Value) -> (r: Option<usize>)
    ensures
        (match element_count(heap@, v) {
            Some(n) => r is Some && r->0 == n,
            None => r is None,
        }),
{
    match v {
        Value::List(l) => match heap.list(l) {
            Some(items) => Some(items.len()),
            None => Some(0),
        },
        Value::Str(s) => {
            let clusters = graphemes(heap.string(s));
            assert(texts(clusters@).len() == clusters@.len());
            Some(clusters.len())
        },
        _ => None,
    }
}

/// What a step of a call left.
pub open spec fn call_stepped(r: Result<(), Raise>, h: HeapView, m: MachineView, ns: NativesView) -> CallStep {
    CallStep { heap: h, machine: m, natives: ns, raise: raise_of(r) }
}

fn start_call(
    heap: &mut Heap,
    machine: &mut Machine,
    natives: &mut Natives,
    id: u32,
    args: Vec<Value>,
    block: Option<BlockDescriptor>,
    span: Span,
) -> (r: Result<(), Raise>)
    requires
        id < old(natives)@.table.len(),
    ensures
        call_stepped(r, final(heap)@, final(machine)@, final(natives)@) == call_started(
            old(heap)@,
            old(machine)@,
            old(natives)@,
            id,
            args@,
            block,
            span,
        ),
{
    let body = natives.table[id as usize].body;
    let kind = natives.table[id as usize].kind;
    assert(natives@.table[id as int] == natives.table@[id as int]@);
    let boundary: usize = machine.frames.len();
    match body {
        ForeignBody::Capability => {
            if natives.calls.len() > 0 {
                machine.meter.set_pending_fault(EngineFault::NestedSuspend);
            } else {
                natives.pending = Some(PendingRequest { capability: id, args, span });
            }
            Ok(())
        },
        ForeignBody::Host(_) => {
            natives.enter(
                Activation { id, kind, args, block, span, boundary, progress: Progress::Waiting },
            );
            Ok(())
        },
        ForeignBody::Engine(native) => {
            if args.len() == 0 {
                machine.fail();
                return Ok(());
            }
            if native == Native::Each {
                match count_elements(heap, args[0]) {
                    Some(count) => {
                        natives.enter(
                            Activation {
                                id,
                                kind,
                                args,
                                block,
                                span,
                                boundary,
                                progress: Progress::Each { next: 0, count },
                            },
                        );
                        Ok(())
                    },
                    None => Err(
                        Raise::new(
                            ExceptionKind::TypeMismatch,
                            "`each` needs a list or a string to iterate".to_owned(),
                            span,
                        ),
                    ),
                }
            } else {
                match run_native(native, heap, &mut natives.output, args[0], span) {
                    Ok(v) => {
                        machine.reg = if kind == BodyKind::Proc {
                            None
                        } else {
                            v
                        };
                        Ok(())
                    },
                    Err(e) => Err(e),
                }
            }
        },
    }
}

/// Begins a call of a host-registered function.
pub fn apply(
    resolved: &ResolvedModule,
    heap: &mut Heap,
    machine: &mut Machine,
    natives: &mut Natives,
    call: ForeignCall<Vec<Value>>,
) -> (r: Result<(), Raise>)
    ensures
        call_stepped(r, final(heap)@, final(machine)@, final(natives)@) == call_begun(
            *resolved,
            old(heap)@,
            old(machine)@,
            old(natives)@,
            (ForeignCall { id: call.id, args: call.args@, call: call.call }),
        ),
{
    proof {
        reveal(call_begun);
    }
    let span = resolved.ast.span(call.call);
    let args = match resolved.ast.node(call.call) {
        Some(Node::Call { args, .. }) => args,
        _ => {
            machine.fail();
            return Ok(());
        },
    };
    if (call.id as usize) < natives.table.len() {
        let params = &natives.table[call.id as usize].params;
        assert(natives@.table[call.id as int].params == foreign_params(params@));
        if params.len() > 65535 {
            machine.fail();
            return Ok(());
        }
        let values = match bind_foreign_arguments(heap, params, args, &call.args, span) {
            Ok(v) => v,
            Err(e) => {
                return Err(e);
            },
        };
        let infos = param_infos(params);
        match bind_block_argument(resolved, machine, call.call, &infos, span) {
            Ok(block) => start_call(heap, machine, natives, call.id, values, block, span),
            Err(e) => Err(e),
        }
    } else {
        machine.fail();
        Ok(())
    }
}

/// Arguments that stand where none were written.
pub open spec fn unwritten_args(n: nat) -> Seq<Arg> {
    Seq::new(n, |i: int| Arg::Positional(NodeId(0)))
}

fn unwritten(n: usize) -> (r: Vec<Arg>)
    ensures
        r@ == unwritten_args(n as nat),
{
    let mut r: Vec<Arg> = Vec::new();
    let mut i: usize = 0;
    while i < n
        invariant
            i <= n,
            r@ =~= unwritten_args(i as nat),
        decreases n - i,
    {
        r.push(Arg::Positional(NodeId(0)));
        i = i + 1;
    }
    r
}

/// What having the block of the innermost running call run on some values leads to.
pub open spec fn block_invoked(
    modules: Seq<LoadedModule>,
    h: HeapView,
    m: MachineView,
    ns: NativesView,
    values: Seq<Value>,
) -> CallStep {
    let a = ns.calls.last();
    match a.block {
        None => call_done(h, m.broken(), ns),
        Some(desc) => if ns.calls.len() > MAX_REENTRY_DEPTH {
            call_done(
                h,
                MachineView {
                    meter: m.meter.parked(EngineFault::LimitExceeded(LimitKind::StackDepth)),
                    ..m
                },
                ns,
            )
        } else {
            let s = block_entering(
                modules,
                h,
                m,
                desc,
                Consumer::Native { boundary: a.boundary },
                unwritten_args(values.len()),
                values,
                None,
                block_range(modules, m, desc),
            );
            CallStep { heap: s.heap, machine: s.machine, natives: ns, raise: s.raise }
        },
    }
}

/// Has the block of the innermost running call run on some values: its frame goes on the
/// stack.
pub fn invoke_block(
    modules: &Vec<LoadedModule>,
    heap: &mut Heap,
    machine: &mut Machine,
    natives: &Natives,
    values: &Vec<Value>,
) -> (r: Result<(), Raise>)
    requires
        natives@.calls.len() > 0,
    ensures
        call_stepped(r, final(heap)@, final(machine)@, natives@) == block_invoked(
            modules@,
            old(heap)@,
            old(machine)@,
            natives@,
            values@,
        ),
{
    let n: usize = natives.calls.len();
    let a = &natives.calls[n - 1];
    assert(natives@.calls.last() == a@);
    match a.block {
        None => {
            machine.fail();
            Ok(())
        },
        Some(desc) => {
            if n > MAX_REENTRY_DEPTH {
                machine.meter.set_pending_fault(
                    EngineFault::LimitExceeded(LimitKind::StackDepth),
                );
                return Ok(());
            }
            let args = unwritten(values.len());
            let span = block_span(modules, machine, desc);
            enter_block(
                modules,
                heap,
                machine,
                desc,
                Consumer::Native { boundary: a.boundary },
                &args,
                values,
                None,
                span,
            )
        },
    }
}

/// An element that `each` goes through, and the heap with it.
pub open spec fn element_at(h: HeapView, v: Value, i: int) -> Option<(HeapView, Value)> {
    match v {
        Value::List(l) => if i < h.items(l).len() {
            Some((h, h.items(l)[i]))
        } else {
            None
        },
        Value::Str(s) => {
            let clusters = grapheme_clusters(h.text(s));
            if i < clusters.len() {
                Some(
                    (h.new_string(clusters[i]), Value::Str(StrIdx(h.strings.len() as usize))),
                )
            } else {
                None
            }
        },
        _ => None,
    }
}

fn take_element(heap: &mut Heap, v: Value, i: usize) -> (r: Option<Value>)
    ensures
        (match element_at(old(heap)@, v, i as int) {
            Some((h, e)) => r == Some(e) && final(heap)@ == h,
            None => r is None && final(heap)@ == old(heap)@,
        }),
{
    match v {
        Value::List(l) => match heap.list(l) {
            Some(items) => if i < items.len() {
                Some(items[i])
            } else {
                None
            },
            None => None,
        },
        Value::Str(s) => {
            let clusters = graphemes(heap.string(s));
            assert(texts(clusters@).len() == clusters@.len());
            if i < clusters.len() {
                let text = clusters[i].as_str().to_owned();
                assert(texts(clusters@)[i as int] == text@);
                Some(Value::Str(heap.alloc_string(text)))
            } else {
                None
            }
        },
        _ => None,
    }
}

/// What `each` does next: it has its block run on the next element, ends, or lets a transfer
/// out of its block go on.
#[verifier::opaque]
pub open spec fn each_advanced(
    modules: Seq<LoadedModule>,
    h: HeapView,
    m: MachineView,
    ns: NativesView,
    next: usize,
    count: usize,
) -> CallStep {
    let a = ns.calls.last();
    if m.unwind is Some {
        let (m2, raise) = boundary_resumed(m, a.boundary as int, a.kind);
        CallStep { heap: h, machine: m2, natives: ns.left(), raise }
    } else if next < count && a.args.len() > 0 {
        match element_at(h, a.args[0], next as int) {
            Some((h2, element)) => {
                let ns2 = ns.progressed(Progress::Each { next: (next + 1) as usize, count });
                let s = block_invoked(modules, h2, m, ns2, seq![element]);
                if s.raise is Some {
                    CallStep { natives: ns.left(), ..s }
                } else {
                    s
                }
            },
            None => call_done(h, answered(m, a.kind, None), ns.left()),
        }
    } else {
        call_done(h, answered(m, a.kind, None), ns.left())
    }
}

/// Goes on with `each`.
pub fn each_advance(
    modules: &Vec<LoadedModule>,
    heap: &mut Heap,
    machine: &mut Machine,
    natives: &mut Natives,
    next: usize,
    count: usize,
) -> (r: Result<(), Raise>)
    requires
        old(natives)@.calls.len() > 0,
    ensures
        call_stepped(r, final(heap)@, final(machine)@, final(natives)@) == each_advanced(
            modules@,
            old(heap)@,
            old(machine)@,
            old(natives)@,
            next,
            count,
        ),
{
    proof {
        reveal(each_advanced);
    }
    let n: usize = natives.calls.len();
    let boundary: usize = natives.calls[n - 1].boundary;
    let kind = natives.calls[n - 1].kind;
    assert(natives@.calls.last() == natives.calls@[n - 1]@);
    if machine.unwind.is_some() {
        natives.leave();
        return resume_native_boundary(machine, boundary, kind);
    }
    if next < count && natives.calls[n - 1].args.len() > 0 {
        let source = natives.calls[n - 1].args[0];
        match take_element(heap, source, next) {
            Some(element) => {
                natives.progress(Progress::Each { next: next + 1, count });
                let ghost progressed = natives@;
                let mut values: Vec<Value> = Vec::new();
                values.push(element);
                assert(values@ =~= seq![element]);
                let r = invoke_block(modules, heap, machine, natives, &values);
                if r.is_err() {
                    natives.leave();
                    assert(progressed.left().calls =~= old(natives)@.left().calls);
                }
                return r;
            },
            None => {},
        }
    }
    natives.leave();
    machine.reg = None;
    proof {
        assert(kind == BodyKind::Proc || answered(old(machine)@, kind, None).reg is None);
    }
    Ok(())
}

/// `each` runs its block on as many elements as there were when it began, however the list
/// grows meanwhile: past them it ends.
pub proof fn law_each_ends(
    modules: Seq<LoadedModule>,
    h: HeapView,
    m: MachineView,
    ns: NativesView,
    count: usize,
)
    requires
        ns.calls.len() > 0,
        m.unwind is None,
    ensures
        each_advanced(modules, h, m, ns, count, count).natives == ns.left(),
        each_advanced(modules, h, m, ns, count, count).raise is None,
        each_advanced(modules, h, m, ns, count, count).heap == h,
{
    reveal(each_advanced);
}

/// A suspending function inside a running call is refused: nothing is parked, and the
/// program faults.
pub proof fn law_no_suspension_inside_a_call(
    h: HeapView,
    m: MachineView,
    ns: NativesView,
    id: u32,
    args: Seq<Value>,
    block: Option<BlockDescriptor>,
    span: Span,
)
    requires
        id < ns.table.len(),
        ns.table[id as int].body is Capability,
        ns.calls.len() > 0,
    ensures
        call_started(h, m, ns, id, args, block, span).natives == ns,
        call_started(h, m, ns, id, args, block, span).machine.meter == m.meter.parked(
            EngineFault::NestedSuspend,
        ),
{
}

} // verus!
