//! Looking at a stopped instance: where it is, the frames on its stack, and the frames that
//! tail calls took over. Positions are module ids and source ranges, never text.
use crate::cont::Cont;
use crate::cont::ContView;
use crate::cont::Work;
use crate::exception::Diagnostic;
use crate::frame::FrameKind;
use crate::frame::FrameView;
use crate::handle::Handle;
use crate::handle::TableView;
use crate::heap::CallableTarget;
use crate::heap::HeapView;
use crate::instance::result_given;
use crate::instance::Instance;
use crate::instance::ObservationMode;
use crate::modload::LoadedModule;
use crate::resolve::ResolvedModule;
use crate::ring::recent_callables;
use crate::span::ModuleId;
use crate::span::Span;
use crate::step::find_statement;
use crate::step::statement_at;
use crate::turn::current;
use crate::value::CalIdx;
use crate::value::Value;
use vstd::prelude::*;
use vstd::slice::slice_subrange;

verus! {

/// A source position.
#[derive(Clone, Copy, PartialEq, Eq, Debug, Structural)]
pub struct Position {
    /// The module.
    pub module: ModuleId,
    /// The range in its source.
    pub span: Span,
}

/// A frame, without what it runs.
#[derive(Clone, Copy, PartialEq, Eq, Debug, Structural)]
pub struct FrameInfo {
    /// Whether it runs a callable: a module's top level and a block do not.
    pub has_callable: bool,
    /// Where it was entered from.
    pub call_site: Option<Span>,
    /// How many tail calls it absorbed.
    pub tail_count: u64,
    /// The module whose names it uses.
    pub module: ModuleId,
}

/// A frame.
#[derive(Clone, Copy, PartialEq, Eq, Debug, Structural)]
pub struct FrameObservation {
    /// The callable it runs, as a handle that the host owns.
    pub callable: Option<Handle>,
    /// Where it was entered from.
    pub call_site: Option<Span>,
    /// How many tail calls it absorbed.
    pub tail_count: u64,
    /// The module whose names it uses.
    pub module: ModuleId,
}

/// A frame that a tail call took over.
#[derive(Clone, Copy, PartialEq, Eq, Debug, Structural)]
pub struct ElidedFrameObservation {
    /// The callable it ran, as a handle that the host owns.
    pub callable: Handle,
    /// Where the callable is declared.
    pub decl_span: Span,
}

/// The source range that a piece of work is at; a mere marker has none.
pub open spec fn work_span(resolved: ResolvedModule, c: ContView) -> Option<Span> {
    let ast = resolved.ast;
    match c {
        Work::Statements { block, next } => match statement_at(resolved, block, next as int) {
            Some(stmt) => Some(ast.range(stmt)),
            None => Some(ast.range(block)),
        },
        Work::Eval { node } => Some(ast.range(node)),
        Work::BinRhs { span, .. } => Some(span),
        Work::BinApply { span, .. } => Some(span),
        Work::UnaryApply { span, .. } => Some(span),
        Work::AndRhs { span, .. } => Some(span),
        Work::OrRhs { span, .. } => Some(span),
        Work::AssertBool { span } => Some(span),
        Work::BindLet { decl } => Some(ast.range(decl)),
        Work::AssignTo { assign } => Some(ast.range(assign)),
        Work::AssignPlaceObj { assign } => Some(ast.range(assign)),
        Work::AssignFieldVal { assign, .. } => Some(ast.range(assign)),
        Work::AssignIndexKey { assign, .. } => Some(ast.range(assign)),
        Work::AssignIndexVal { assign, .. } => Some(ast.range(assign)),
        Work::IfChoose { node, .. } => Some(ast.range(node)),
        Work::WhileCheck { node } => Some(ast.range(node)),
        Work::LoopReloop { node } => Some(ast.range(node)),
        Work::CallGotCallee { call } => Some(ast.range(call)),
        Work::CallGotArg { call, .. } => Some(ast.range(call)),
        Work::BlockGotArg { call, .. } => Some(ast.range(call)),
        Work::ListGotElem { list, .. } => Some(ast.range(list)),
        Work::DictGotKey { dict, .. } => Some(ast.range(dict)),
        Work::DictGotValue { dict, .. } => Some(ast.range(dict)),
        Work::DictBuildHashed { node, .. } => Some(ast.range(node)),
        Work::FieldRead { field } => Some(ast.range(field)),
        Work::IndexGotObject { span, .. } => Some(span),
        Work::IndexApply { span, .. } => Some(span),
        Work::IndexReadHashed { span, .. } => Some(span),
        Work::IndexAssignHashed { span, .. } => Some(span),
        Work::StrInterp { node, .. } => Some(ast.range(node)),
        Work::StrInterpRendered { node, .. } => Some(ast.range(node)),
        Work::BindDefault { default, .. } => Some(ast.range(default)),
        Work::DefineCallable { decl } => Some(ast.range(decl)),
        Work::DefineRecord { decl } => Some(ast.range(decl)),
        Work::ReturnBarrier => None,
        Work::ExitApply { exit } => Some(ast.range(exit)),
        Work::WithBind { with_node } => Some(ast.range(with_node)),
        Work::WithRestore { .. } => None,
        Work::TryHandler { try_node } => Some(ast.range(try_node)),
        Work::PopHandler => None,
        Work::RaiseApply { node } => Some(ast.range(node)),
        Work::ImportTargets { import, .. } => Some(ast.range(import)),
    }
}

fn cont_span(resolved: &ResolvedModule, c: &Cont) -> (r: Option<Span>)
    ensures
        r == work_span(*resolved, c@),
{
    let ast = &resolved.ast;
    match c {
        Work::Statements { block, next } => match find_statement(resolved, *block, *next) {
            Some(stmt) => Some(ast.span(stmt)),
            None => Some(ast.span(*block)),
        },
        Work::Eval { node } => Some(ast.span(*node)),
        Work::BinRhs { span, .. } => Some(*span),
        Work::BinApply { span, .. } => Some(*span),
        Work::UnaryApply { span, .. } => Some(*span),
        Work::AndRhs { span, .. } => Some(*span),
        Work::OrRhs { span, .. } => Some(*span),
        Work::AssertBool { span } => Some(*span),
        Work::BindLet { decl } => Some(ast.span(*decl)),
        Work::AssignTo { assign } => Some(ast.span(*assign)),
        Work::AssignPlaceObj { assign } => Some(ast.span(*assign)),
        Work::AssignFieldVal { assign, .. } => Some(ast.span(*assign)),
        Work::AssignIndexKey { assign, .. } => Some(ast.span(*assign)),
        Work::AssignIndexVal { assign, .. } => Some(ast.span(*assign)),
        Work::IfChoose { node, .. } => Some(ast.span(*node)),
        Work::WhileCheck { node } => Some(ast.span(*node)),
        Work::LoopReloop { node } => Some(ast.span(*node)),
        Work::CallGotCallee { call } => Some(ast.span(*call)),
        Work::CallGotArg { call, .. } => Some(ast.span(*call)),
        Work::BlockGotArg { call, .. } => Some(ast.span(*call)),
        Work::ListGotElem { list, .. } => Some(ast.span(*list)),
        Work::DictGotKey { dict, .. } => Some(ast.span(*dict)),
        Work::DictGotValue { dict, .. } => Some(ast.span(*dict)),
        Work::DictBuildHashed { node, .. } => Some(ast.span(*node)),
        Work::FieldRead { field } => Some(ast.span(*field)),
        Work::IndexGotObject { span, .. } => Some(*span),
        Work::IndexApply { span, .. } => Some(*span),
        Work::IndexReadHashed { span, .. } => Some(*span),
        Work::IndexAssignHashed { span, .. } => Some(*span),
        Work::StrInterp { node, .. } => Some(ast.span(*node)),
        Work::StrInterpRendered { node, .. } => Some(ast.span(*node)),
        Work::BindDefault { default, .. } => Some(ast.span(*default)),
        Work::DefineCallable { decl } => Some(ast.span(*decl)),
        Work::DefineRecord { decl } => Some(ast.span(*decl)),
        Work::ReturnBarrier => None,
        Work::ExitApply { exit } => Some(ast.span(*exit)),
        Work::WithBind { with_node } => Some(ast.span(*with_node)),
        Work::WithRestore { .. } => None,
        Work::TryHandler { try_node } => Some(ast.span(*try_node)),
        Work::PopHandler => None,
        Work::RaiseApply { node } => Some(ast.span(*node)),
        Work::ImportTargets { import, .. } => Some(ast.span(*import)),
    }
}

/// The source range of the next of the first `n` pieces of work that has one.
pub open spec fn pending_span(resolved: ResolvedModule, conts: Seq<ContView>, n: nat) -> Option<Span>
    decreases n,
{
    if n == 0 || n > conts.len() {
        None
    } else {
        match work_span(resolved, conts[n - 1]) {
            Some(span) => Some(span),
            None => pending_span(resolved, conts, (n - 1) as nat),
        }
    }
}

/// The end of a module.
pub open spec fn module_end(resolved: ResolvedModule) -> Span {
    let end = resolved.ast.range(resolved.root).end;
    Span { start: end, end }
}

/// Where a frame is: at its next work, else where it was entered from, else at the end of
/// its module.
pub open spec fn frame_position(resolved: ResolvedModule, f: FrameView) -> Position {
    match (pending_span(resolved, f.conts, f.conts.len()), f.call_site) {
        (Some(span), _) => Position { module: resolved.canonical_id, span },
        (None, Some(site)) => site,
        (None, None) => Position {
            module: resolved.canonical_id,
            span: module_end(resolved),
        },
    }
}

/// Where an instance is.
pub open spec fn position(i: Instance) -> Option<Position> {
    match current(i) {
        Some(m) => Some(frame_position(i.modules@[m].resolved, i.machine@.top())),
        None => None,
    }
}

/// The callable that a frame runs.
pub open spec fn running(f: FrameView) -> Option<CalIdx> {
    match f.kind {
        FrameKind::Callable { cal } => Some(cal),
        _ => None,
    }
}

/// A frame by its distance from the innermost.
pub open spec fn inner_frame(i: Instance, index: int) -> Option<FrameView> {
    if index < i.machine@.frames.len() {
        Some(i.machine@.frames[i.machine@.frames.len() - 1 - index])
    } else {
        None
    }
}

/// Where a frame was entered from.
pub open spec fn call_site(f: FrameView) -> Option<Span> {
    match f.call_site {
        Some(site) => Some(site.span),
        None => None,
    }
}

/// A frame, without what it runs.
pub open spec fn frame_seen(f: FrameView) -> FrameInfo {
    FrameInfo {
        has_callable: running(f) is Some,
        call_site: call_site(f),
        tail_count: f.tail_count,
        module: f.module,
    }
}

/// The handles after the `n` innermost frames' callables got some, and the frames.
pub open spec fn walked(i: Instance, n: nat) -> (TableView, Seq<FrameObservation>)
    decreases n,
{
    if n == 0 || n > i.machine@.frames.len() {
        (i.handles@, Seq::empty())
    } else {
        let (t, before) = walked(i, (n - 1) as nat);
        let f = i.machine@.frames[i.machine@.frames.len() - n];
        let info = frame_seen(f);
        (
            match running(f) {
                Some(cal) => t.interned(Value::Callable(cal)),
                None => t,
            },
            before.push(
                FrameObservation {
                    callable: if running(f) is Some {
                        Some(t.next_handle())
                    } else {
                        None
                    },
                    call_site: info.call_site,
                    tail_count: info.tail_count,
                    module: info.module,
                },
            ),
        )
    }
}

/// The call sites of the `n` innermost frames, of those that have one.
pub open spec fn sites(i: Instance, n: nat) -> Seq<Span>
    decreases n,
{
    if n == 0 || n > i.machine@.frames.len() {
        Seq::empty()
    } else {
        let before = sites(i, (n - 1) as nat);
        match call_site(i.machine@.frames[i.machine@.frames.len() - n]) {
            Some(span) => before.push(span),
            None => before,
        }
    }
}

/// Where a callable is declared, in its own module; one without a declaration is nowhere.
pub open spec fn callable_home(modules: Seq<LoadedModule>, h: HeapView, cal: CalIdx) -> Position {
    match h.callable(cal) {
        Some(c) => Position {
            module: c.module,
            span: match c.target {
                CallableTarget::Source(id) => {
                    let m = c.module.0 as int;
                    if m < modules.len() && id < modules[m].resolved.callables@.len() {
                        modules[m].resolved.ast.range(
                            modules[m].resolved.callables@[id as int].decl,
                        )
                    } else {
                        Span::nowhere()
                    }
                },
                _ => Span::nowhere(),
            },
        },
        None => Position { module: ModuleId(0), span: Span::nowhere() },
    }
}

/// The handles after the first `n` taken-over frames' callables got some, and the frames.
pub open spec fn elided(i: Instance, n: nat) -> (TableView, Seq<ElidedFrameObservation>)
    decreases n,
{
    let cals = recent_callables(i.machine@.ring);
    if n == 0 || n > cals.len() {
        (i.handles@, Seq::empty())
    } else {
        let (t, before) = elided(i, (n - 1) as nat);
        (
            t.interned(Value::Callable(cals[n - 1])),
            before.push(
                ElidedFrameObservation {
                    callable: t.next_handle(),
                    decl_span: callable_home(i.modules@, i.heap@, cals[n - 1]).span,
                },
            ),
        )
    }
}

impl Instance {
    /// The module whose tree the innermost frame runs.
    fn active_module(&self) -> (r: Option<usize>)
        ensures
            (match r {
                Some(m) => current(*self) == Some(m as int) && m < self.modules@.len(),
                None => current(*self) is None,
            }),
    {
        let n: usize = self.machine.frames.len();
        if n == 0 {
            return None;
        }
        assert(self.machine@.top() == self.machine.frames@[n - 1]@);
        let m: usize = self.machine.frames[n - 1].module.0 as usize;
        if m < self.modules.len() && (self.modules[m].resolved.canonical_id.0 as usize)
            < self.modules.len() {
            Some(m)
        } else {
            None
        }
    }

    /// Where the program is: at what the innermost frame does next.
    pub fn current_position(&self) -> (r: Option<Position>)
        ensures
            r == position(*self),
    {
        let m: usize = match self.active_module() {
            Some(m) => m,
            None => {
                return None;
            },
        };
        let resolved = &self.modules[m].resolved;
        let f = &self.machine.frames[self.machine.frames.len() - 1];
        assert(self.machine@.top() == f@);
        let n: usize = f.conts.len();
        let mut k: usize = n;
        while k > 0
            invariant
                k <= n,
                n == f.conts@.len(),
                current(*self) == Some(m as int),
                self.machine@.top() == f@,
                *resolved == self.modules@[m as int].resolved,
                pending_span(*resolved, f@.conts, n as nat) == pending_span(
                    *resolved,
                    f@.conts,
                    k as nat,
                ),
            decreases k,
        {
            assert(f@.conts[k - 1] == f.conts@[k - 1]@);
            if let Some(span) = cont_span(resolved, &f.conts[k - 1]) {
                return Some(Position { module: resolved.canonical_id, span });
            }
            k = k - 1;
        }
        if let Some(site) = f.call_site {
            return Some(site);
        }
        let end: u32 = resolved.ast.span(resolved.root).end;
        Some(Position { module: resolved.canonical_id, span: Span { start: end, end } })
    }

    /// Sets how fine the safe points are.
    pub fn set_observation_mode(&mut self, mode: ObservationMode)
        ensures
            *final(self) == (Instance { observation_mode: mode, ..*old(self) }),
    {
        self.observation_mode = mode;
    }

    /// How fine the safe points are.
    pub fn observation_mode(&self) -> (r: ObservationMode)
        ensures
            r == self.observation_mode,
    {
        self.observation_mode
    }

    /// The subexpression just completed, at a fine safe point.
    pub fn completed_position(&self) -> (r: Option<Position>)
        ensures
            r == (match self.fine_span {
                Some(span) if self.machine@.frames.len() > 0 => Some(
                    Position { module: self.machine@.top().module, span },
                ),
                _ => None,
            }),
    {
        let n: usize = self.machine.frames.len();
        if n == 0 {
            return None;
        }
        assert(self.machine@.top() == self.machine.frames@[n - 1]@);
        match self.fine_span {
            Some(span) => Some(Position { module: self.machine.frames[n - 1].module, span }),
            None => None,
        }
    }

    /// Gives the value in the result register a handle.
    pub fn result_handle(&mut self) -> (r: Option<Handle>)
        requires
            old(self).ready(),
        ensures
            result_given(
                old(self).handles@,
                final(self).handles@,
                old(self).machine@.reg,
                r,
            ),
            final(self).handles@.wf(),
            *final(self) == (Instance { handles: final(self).handles, ..*old(self) }),
    {
        self.retain_result()
    }

    fn info_at(&self, at: usize) -> (r: FrameInfo)
        requires
            at < self.machine@.frames.len(),
        ensures
            r == frame_seen(self.machine@.frames[at as int]),
    {
        let f = &self.machine.frames[at];
        assert(self.machine@.frames[at as int] == f@);
        let call_site = match f.call_site {
            Some(site) => Some(site.span),
            None => None,
        };
        let has_callable: bool = match f.kind {
            FrameKind::Callable { .. } => true,
            _ => false,
        };
        FrameInfo { has_callable, call_site, tail_count: f.tail_count, module: f.module }
    }

    fn callable_at(&self, at: usize) -> (r: Option<CalIdx>)
        requires
            at < self.machine@.frames.len(),
        ensures
            r == running(self.machine@.frames[at as int]),
    {
        assert(self.machine@.frames[at as int] == self.machine.frames@[at as int]@);
        match self.machine.frames[at].kind {
            FrameKind::Callable { cal } => Some(cal),
            _ => None,
        }
    }

    /// The frames on the stack, innermost first. The host owns the handles.
    pub fn stack_walk(&mut self) -> (r: Vec<FrameObservation>)
        requires
            old(self).handles@.wf(),
            old(self).handles@.room(old(self).machine@.frames.len() as int),
        ensures
            (final(self).handles@, r@) == walked(*old(self), old(self).machine@.frames.len()),
            final(self).handles@.wf(),
            *final(self) == (Instance { handles: final(self).handles, ..*old(self) }),
    {
        let mut r: Vec<FrameObservation> = Vec::new();
        let n: usize = self.machine.frames.len();
        let mut k: usize = 0;
        assert(r@ =~= Seq::empty());
        while k < n
            invariant
                k <= n,
                n == old(self).machine@.frames.len(),
                self.handles@.wf(),
                self.handles@.room(n - k),
                *self == (Instance { handles: self.handles, ..*old(self) }),
                (self.handles@, r@) == walked(*old(self), k as nat),
            decreases n - k,
        {
            let info = self.info_at(n - 1 - k);
            assert(frame_seen(self.machine@.frames[n - 1 - k]) == frame_seen(
                self.machine@.frames[n - 1 - k],
            ));
            let callable = match self.callable_at(n - 1 - k) {
                Some(cal) => Some(self.handles.intern(Value::Callable(cal))),
                None => None,
            };
            r.push(
                FrameObservation {
                    callable,
                    call_site: info.call_site,
                    tail_count: info.tail_count,
                    module: info.module,
                },
            );
            k = k + 1;
        }
        r
    }

    /// The number of frames on the stack.
    pub fn frame_count(&self) -> (r: usize)
        ensures
            r == self.machine@.frames.len(),
    {
        self.machine.frames.len()
    }

    /// A frame by its distance from the innermost, without what it runs.
    pub fn frame_info(&self, index: usize) -> (r: Option<FrameInfo>)
        ensures
            r == (match inner_frame(*self, index as int) {
                Some(f) => Some(frame_seen(f)),
                None => None,
            }),
    {
        let n: usize = self.machine.frames.len();
        if index < n {
            Some(self.info_at(n - 1 - index))
        } else {
            None
        }
    }

    /// Gives the callable that a frame runs a handle.
    pub fn frame_callable(&mut self, index: usize) -> (r: Option<Handle>)
        requires
            old(self).ready(),
        ensures
            final(self).handles@.wf(),
            result_given(
                old(self).handles@,
                final(self).handles@,
                (match inner_frame(*old(self), index as int) {
                    Some(f) => match running(f) {
                        Some(cal) => Some(Value::Callable(cal)),
                        None => None,
                    },
                    None => None,
                }),
                r,
            ),
            *final(self) == (Instance { handles: final(self).handles, ..*old(self) }),
    {
        let n: usize = self.machine.frames.len();
        if index >= n {
            return None;
        }
        match self.callable_at(n - 1 - index) {
            Some(cal) => Some(self.handles.intern(Value::Callable(cal))),
            None => None,
        }
    }

    /// The canonical id that a module was loaded under.
    pub fn module_canonical_id(&self, module: ModuleId) -> (r: Option<&str>)
        ensures
            (match r {
                Some(s) => self.machine@.load.canonical_of(module) == Some(s@),
                None => self.machine@.load.canonical_of(module) is None,
            }),
    {
        self.machine.load.canonical_of(module)
    }

    /// The call sites of the frames on the stack, innermost first.
    pub fn call_site_spans(&self) -> (r: Vec<Span>)
        ensures
            r@ == sites(*self, self.machine@.frames.len()),
    {
        let mut r: Vec<Span> = Vec::new();
        let n: usize = self.machine.frames.len();
        let mut k: usize = 0;
        assert(r@ =~= Seq::empty());
        while k < n
            invariant
                k <= n,
                n == self.machine@.frames.len(),
                r@ == sites(*self, k as nat),
            decreases n - k,
        {
            if let Some(span) = self.info_at(n - 1 - k).call_site {
                r.push(span);
            }
            k = k + 1;
        }
        r
    }

    /// What loading found out about the modules' sources, from a position on.
    pub fn load_diagnostics(&self, since: usize) -> (r: &[Diagnostic])
        ensures
            r@ == (if since <= self.load_diagnostics@.len() {
                self.load_diagnostics@.skip(since as int)
            } else {
                Seq::empty()
            }),
    {
        let n: usize = self.load_diagnostics.len();
        let from: usize = if since < n {
            since
        } else {
            n
        };
        let r = slice_subrange(self.load_diagnostics.as_slice(), from, n);
        assert(r@ =~= self.load_diagnostics@.skip(from as int));
        r
    }

    /// Where a callable is declared, in its own module.
    pub(crate) fn home_of(&self, cal: CalIdx) -> (r: Position)
        ensures
            r == callable_home(self.modules@, self.heap@, cal),
    {
        match self.heap.callable(cal) {
            Some(c) => {
                let mut span = Span::dummy();
                if let CallableTarget::Source(id) = c.target {
                    let m: usize = c.module.0 as usize;
                    if m < self.modules.len() && (id as usize)
                        < self.modules[m].resolved.callables.len() {
                        span = self.modules[m].resolved.ast.span(
                            self.modules[m].resolved.callables[id as usize].decl,
                        );
                    }
                }
                Position { module: c.module, span }
            },
            None => Position { module: ModuleId(0), span: Span::dummy() },
        }
    }

    /// The frames that tail calls took over, most recent first: no longer on the stack, but
    /// evidence of how it got there. The host owns the handles.
    pub fn tail_elided_history(&mut self) -> (r: Vec<ElidedFrameObservation>)
        requires
            old(self).handles@.wf(),
            old(self).handles@.room(old(self).machine@.ring.len() as int),
        ensures
            (final(self).handles@, r@) == elided(*old(self), old(self).machine@.ring.len()),
            final(self).handles@.wf(),
            *final(self) == (Instance { handles: final(self).handles, ..*old(self) }),
    {
        let cals = self.machine.ring.most_recent_first();
        let mut r: Vec<ElidedFrameObservation> = Vec::new();
        let n: usize = cals.len();
        let mut k: usize = 0;
        assert(r@ =~= Seq::empty());
        while k < n
            invariant
                k <= n,
                n == cals@.len(),
                cals@ == recent_callables(old(self).machine@.ring),
                n == old(self).machine@.ring.len(),
                self.handles@.wf(),
                self.handles@.room(n - k),
                *self == (Instance { handles: self.handles, ..*old(self) }),
                (self.handles@, r@) == elided(*old(self), k as nat),
            decreases n - k,
        {
            let decl_span = self.home_of(cals[k]).span;
            let callable = self.handles.intern(Value::Callable(cals[k]));
            r.push(ElidedFrameObservation { callable, decl_span });
            k = k + 1;
        }
        r
    }
}

/// Whether a walk of the `n` innermost frames agrees with the frames themselves, and the
/// handles it gives out are new ones to the callables that run.
spec fn walk_agrees(i: Instance, n: nat) -> bool {
    let (t, w) = walked(i, n);
    &&& w.len() == n
    &&& t.wf()
    &&& t.room(i.machine@.frames.len() - n)
    &&& forall|h: Handle|
        i.handles@.resolve(h) is Some ==> #[trigger] t.resolve(h) == i.handles@.resolve(h)
    &&& forall|k: int| 0 <= k < n ==> #[trigger] walk_entry_agrees(i, t, w, k)
}

/// Whether one entry of a walk agrees with its frame.
pub open spec fn walk_entry_agrees(
    i: Instance,
    t: TableView,
    w: Seq<FrameObservation>,
    k: int,
) -> bool {
    let f = inner_frame(i, k)->0;
    let info = frame_seen(f);
    &&& w[k].call_site == info.call_site
    &&& w[k].tail_count == info.tail_count
    &&& w[k].module == info.module
    &&& w[k].callable is Some <==> info.has_callable
    &&& match (w[k].callable, running(f)) {
        (Some(h), Some(cal)) => i.handles@.resolve(h) is None && t.resolve(h) == Some(
            Value::Callable(cal),
        ),
        _ => true,
    }
}

proof fn lemma_walk(i: Instance, n: nat)
    requires
        i.handles@.wf(),
        i.handles@.room(i.machine@.frames.len() as int),
        n <= i.machine@.frames.len(),
    ensures
        walk_agrees(i, n),
    decreases n,
{
    if n > 0 {
        lemma_walk(i, (n - 1) as nat);
        let (before, w) = walked(i, (n - 1) as nat);
        let (t, all) = walked(i, n);
        let f = i.machine@.frames[i.machine@.frames.len() - n];
        if let Some(cal) = running(f) {
            crate::handle::law_a_new_handle_names_its_value(before, Value::Callable(cal));
        }
        assert forall|k: int| 0 <= k < n implies #[trigger] walk_entry_agrees(i, t, all, k) by {
            if k < n - 1 {
                assert(walk_entry_agrees(i, before, w, k));
                assert(all[k] == w[k]);
            } else {
                assert(inner_frame(i, k) == Some(f));
            }
        }
    }
}

/// A walk of the stack agrees with the frames one by one, innermost first: each entry says of
/// its frame what asking for that frame alone does, and has a handle exactly if the frame
/// runs a callable. The handle is a new one, and names the very callable.
pub proof fn law_a_walk_agrees_with_the_frames(i: Instance, k: int)
    requires
        i.handles@.wf(),
        i.handles@.room(i.machine@.frames.len() as int),
        0 <= k < i.machine@.frames.len(),
    ensures
        walked(i, i.machine@.frames.len()).1.len() == i.machine@.frames.len(),
        walk_entry_agrees(
            i,
            walked(i, i.machine@.frames.len()).0,
            walked(i, i.machine@.frames.len()).1,
            k,
        ),
{
    lemma_walk(i, i.machine@.frames.len());
}

} // verus!
