//! `import` statements: each target's module is found, or asked of the host, and bound.
use crate::ast::ImportTarget;
use crate::ast::Node;
use crate::ast::NodeId;
use crate::cont::Work;
use crate::error::detail_view;
use crate::error::details_view;
use crate::error::DetailVal;
use crate::error::ExceptionKind;
use crate::error::Raise;
use crate::error::RaiseView;
use crate::exception::module_ref_detail;
use crate::exception::module_ref_details;
use crate::exception::strs;
use crate::exception::text_details;
use crate::frame::FrameKind;
use crate::frame::FrameView;
use crate::heap::CellKind;
use crate::heap::Heap;
use crate::heap::HeapView;
use crate::machine::capture_trace;
use crate::machine::stepped;
use crate::machine::trace_here;
use crate::machine::Machine;
use crate::machine::MachineView;
use crate::machine::Step;
use crate::modload::dotted;
use crate::modload::join_path;
use crate::modload::LoadState;
use crate::modload::LoadView;
use crate::modload::LoadedModule;
use crate::modload::ModuleLoad;
use crate::modload::PendingImport;
use crate::modload::PendingImportView;
use crate::named::named_view;
use crate::names::find_cell;
use crate::names::membership;
use crate::names::memberless_raise;
use crate::names::module_display;
use crate::names::no_such_member;
use crate::names::not_exported;
use crate::names::own_cell;
use crate::names::path_or;
use crate::names::private_raise;
use crate::object::copy_texts;
use crate::resolve::Membership;
use crate::resolve::ResolvedModule;
use crate::span::ModuleId;
use crate::span::Span;
use crate::text::join2;
use crate::text::join3;
use crate::text::texts;
use crate::value::CellIdx;
use crate::value::Value;
use vstd::prelude::*;

verus! {

/// The contents of a loaded module.
pub struct ModView {
    /// What resolution found.
    pub resolved: ResolvedModule,
    /// The cell of each name.
    pub names: Seq<(Seq<char>, CellIdx)>,
    /// The modules imported whole.
    pub wildcards: Seq<ModuleId>,
}

impl View for LoadedModule {
    type V = ModView;

    open spec fn view(&self) -> ModView {
        ModView {
            resolved: self.resolved,
            names: named_view(self.namespace@),
            wildcards: self.wildcards@,
        }
    }
}

/// The contents of some loaded modules.
pub open spec fn mods(modules: Seq<LoadedModule>) -> Seq<ModView> {
    modules.map_values(|m: LoadedModule| m@)
}

/// The modules with a further name of one of them.
pub open spec fn with_name(ms: Seq<ModView>, cur: int, name: Seq<char>, cell: CellIdx) -> Seq<ModView> {
    ms.update(cur, ModView { names: ms[cur].names.push((name, cell)), ..ms[cur] })
}

/// The modules with a module imported whole by one of them.
pub open spec fn with_wildcard(ms: Seq<ModView>, cur: int, id: ModuleId) -> Seq<ModView> {
    if ms[cur].wildcards.contains(id) {
        ms
    } else {
        ms.update(cur, ModView { wildcards: ms[cur].wildcards.push(id), ..ms[cur] })
    }
}

/// What a step of an import leaves: the modules, and the rest.
pub struct ImportStep {
    /// The modules.
    pub modules: Seq<ModView>,
    /// The heap, the machine and the exception.
    pub step: Step,
}

/// The targets of an import.
pub open spec fn targets_of(resolved: ResolvedModule, import: NodeId) -> Option<Seq<ImportTarget>> {
    match resolved.node_at(import) {
        Some(Node::Import(targets)) => Some(targets@),
        _ => None,
    }
}

/// The machine with a target of an import left to do.
pub open spec fn retargeted(m: MachineView, import: NodeId, next: int) -> MachineView {
    m.doing(Work::ImportTargets { import, next: next as usize })
}

/// The machine with a module asked of the host, and the target left to do again.
pub open spec fn asking(m: MachineView, import: NodeId, next: int, path: Seq<Seq<char>>, span: Span) -> MachineView {
    MachineView {
        pending_import: Some(
            PendingImportView { path, importer: m.top().module, span },
        ),
        ..retargeted(m, import, next)
    }
}

fn suspend_for(machine: &mut Machine, import: NodeId, next: usize, path: Vec<String>, span: Span)
    requires
        old(machine)@.frames.len() > 0,
    ensures
        final(machine)@ == asking(old(machine)@, import, next as int, texts(path@), span),
{
    let importer = machine.frames[machine.frames.len() - 1].module;
    machine.push_cont(Work::ImportTargets { import, next });
    machine.pending_import = Some(PendingImport { path, importer, span });
}

/// The modules whose top levels are running, in load order.
pub open spec fn loading_chain(frames: Seq<FrameView>) -> Seq<ModuleId>
    decreases frames.len(),
{
    if frames.len() == 0 {
        Seq::empty()
    } else {
        let before = loading_chain(frames.drop_last());
        if frames.last().kind == FrameKind::ModuleTopLevel {
            before.push(frames.last().module)
        } else {
            before
        }
    }
}

/// Where a module first stands in a chain, from a position on.
pub open spec fn place_in(chain: Seq<ModuleId>, target: ModuleId, from: nat) -> Option<nat>
    decreases chain.len() - from,
{
    if from >= chain.len() {
        None
    } else if chain[from as int] == target {
        Some(from)
    } else {
        place_in(chain, target, from + 1)
    }
}

/// A module as an import message names it.
pub open spec fn label(load: LoadView, module: ModuleId) -> Seq<char> {
    path_or(load, module, "(the main module)"@)
}

fn module_label(load: &ModuleLoad, module: ModuleId) -> (r: String)
    ensures
        r@ == label(load@, module),
{
    match load.path_of(module) {
        Some(p) => p,
        None => "(the main module)".to_owned(),
    }
}

/// The modules of a chain from a position on, each followed by what it does.
pub open spec fn chain_text(load: LoadView, chain: Seq<ModuleId>, from: int, to: int) -> Seq<char>
    decreases to - from,
{
    if to <= from {
        ""@
    } else {
        chain_text(load, chain, from, to - 1) + label(load, chain[to - 1]) + " imports "@
    }
}

/// The modules of a cycle: those of a chain from a position on, and the one it leads back to.
pub open spec fn cycle_labels(
    load: LoadView,
    chain: Seq<ModuleId>,
    from: int,
    target: ModuleId,
) -> Seq<Seq<char>> {
    chain.skip(from).push(target).map_values(|m: ModuleId| label(load, m))
}

/// The raise for importing a module whose top level is still running: it names the cycle.
pub open spec fn circular_raise(m: MachineView, target: ModuleId, span: Span) -> RaiseView {
    let chain = loading_chain(m.frames);
    let start = match place_in(chain, target, 0) {
        Some(i) => i as int,
        None => 0,
    };
    RaiseView::new(
        ExceptionKind::CircularImport,
        "circular import: "@ + (chain_text(m.load, chain, start, chain.len() as int) + label(
            m.load,
            target,
        )),
        span,
    ).with(seq![("cycle"@, text_details(cycle_labels(m.load, chain, start, target)))])
}

fn circular_import(machine: &Machine, target: ModuleId, span: Span) -> (r: Raise)
    ensures
        r@ == circular_raise(machine@, target, span),
{
    let mut chain: Vec<ModuleId> = Vec::new();
    let mut i: usize = 0;
    let ghost frames = machine@.frames;
    assert(frames.take(0) =~= Seq::<FrameView>::empty());
    assert(chain@ =~= loading_chain(frames.take(0)));
    while i < machine.frames.len()
        invariant
            i <= machine.frames@.len(),
            frames == machine@.frames,
            chain@ == loading_chain(frames.take(i as int)),
        decreases machine.frames@.len() - i,
    {
        assert(frames.take(i + 1).drop_last() =~= frames.take(i as int));
        assert(frames.take(i + 1).last() == machine.frames@[i as int]@);
        if machine.frames[i].kind == FrameKind::ModuleTopLevel {
            chain.push(machine.frames[i].module);
        }
        i = i + 1;
    }
    assert(frames.take(i as int) =~= frames);
    let mut start: usize = 0;
    while start < chain.len() && chain[start] != target
        invariant
            start <= chain@.len(),
            place_in(chain@, target, 0) == place_in(chain@, target, start as nat),
        decreases chain@.len() - start,
    {
        start = start + 1;
    }
    if start == chain.len() {
        start = 0;
    }
    let mut text = "".to_owned();
    let mut labels: Vec<String> = Vec::new();
    let mut k: usize = start;
    while k < chain.len()
        invariant
            start <= k <= chain@.len(),
            text@ == chain_text(machine@.load, chain@, start as int, k as int),
            labels@.len() == k - start,
            forall|j: int|
                0 <= j < labels@.len() ==> (#[trigger] labels@[j])@ == label(
                    machine@.load,
                    chain@[start + j],
                ),
        decreases chain@.len() - k,
    {
        let name = module_label(&machine.load, chain[k]);
        text = join3(text.as_str(), name.as_str(), " imports ");
        labels.push(name);
        k = k + 1;
    }
    let last = module_label(&machine.load, target);
    let cycle = join2(text.as_str(), last.as_str());
    labels.push(last);
    assert(texts(labels@) =~= cycle_labels(machine@.load, chain@, start as int, target));
    let mut details: Vec<(&'static str, DetailVal)> = Vec::new();
    let listed = strs(labels);
    details.push(("cycle", listed));
    assert(details_view(details@) =~= seq![("cycle"@, detail_view(listed))]);
    Raise::new(
        ExceptionKind::CircularImport,
        join2("circular import: ", cycle.as_str()),
        span,
    ).with_details(details)
}

/// The name a target binds: its alias, or else the given one.
pub open spec fn bound_name(target: ImportTarget, other: Seq<char>) -> Seq<char> {
    match target.alias {
        Some(a) => a@,
        None => other,
    }
}

fn target_name(target: &ImportTarget, other: &str) -> (r: String)
    ensures
        r@ == bound_name(*target, other@),
{
    match &target.alias {
        Some(a) => a.as_str().to_owned(),
        None => other.to_owned(),
    }
}

/// What binding a member of a loaded module leaves: the importer's name leads to the very
/// cell of the member.
pub open spec fn member_bound(
    modules: Seq<LoadedModule>,
    load: LoadView,
    cur: int,
    target: ImportTarget,
    id: ModuleId,
    member: Seq<char>,
    span: Span,
) -> Result<Option<Seq<ModView>>, RaiseView> {
    match membership(modules, id, member) {
        Membership::Exported => match own_cell(modules, id.0 as int, member) {
            Some(cell) => Ok(
                Some(with_name(mods(modules), cur, bound_name(target, member), cell)),
            ),
            None => Ok(None),
        },
        Membership::Private => Err(
            private_raise(path_or(load, id, "this module"@), member, span),
        ),
        Membership::Absent => Err(
            memberless_raise(path_or(load, id, "this module"@), member, span),
        ),
    }
}

fn member_cell(modules: &Vec<LoadedModule>, load: &ModuleLoad, id: ModuleId, member: &str, span: Span) -> (r:
    Result<Option<CellIdx>, Raise>)
    ensures
        (match membership(modules@, id, member@) {
            Membership::Exported => r is Ok && r->Ok_0 == own_cell(
                modules@,
                id.0 as int,
                member@,
            ),
            Membership::Private => r is Err && r->Err_0@ == private_raise(
                path_or(load@, id, "this module"@),
                member@,
                span,
            ),
            Membership::Absent => r is Err && r->Err_0@ == memberless_raise(
                path_or(load@, id, "this module"@),
                member@,
                span,
            ),
        }),
{
    let visibility = if (id.0 as usize) < modules.len() {
        modules[id.0 as usize].resolved.member_visibility(member)
    } else {
        Membership::Absent
    };
    match visibility {
        Membership::Exported => Ok(find_cell(&modules[id.0 as usize].namespace, member)),
        Membership::Private => Err(
            not_exported(module_display(load, id).as_str(), member, span),
        ),
        Membership::Absent => Err(
            no_such_member(module_display(load, id).as_str(), member, span),
        ),
    }
}

fn add_name(modules: &mut Vec<LoadedModule>, cur: usize, name: String, cell: CellIdx)
    requires
        cur < old(modules)@.len(),
    ensures
        mods(final(modules)@) == with_name(mods(old(modules)@), cur as int, name@, cell),
{
    modules[cur].namespace.push((name, cell));
    proof {
        let before = old(modules)@[cur as int];
        assert(named_view(modules@[cur as int].namespace@) =~= named_view(before.namespace@).push(
            (name@, cell),
        ));
        assert(mods(modules@) =~= with_name(mods(old(modules)@), cur as int, name@, cell));
    }
}

fn bind_wildcard(modules: &mut Vec<LoadedModule>, cur: usize, id: ModuleId)
    requires
        cur < old(modules)@.len(),
    ensures
        mods(final(modules)@) == with_wildcard(mods(old(modules)@), cur as int, id),
{
    let mut i: usize = 0;
    let n: usize = modules[cur].wildcards.len();
    while i < n
        invariant
            cur < modules@.len(),
            n == modules@[cur as int].wildcards@.len(),
            i <= n,
            *modules == *old(modules),
            forall|k: int| 0 <= k < i ==> modules@[cur as int].wildcards@[k] != id,
        decreases n - i,
    {
        if modules[cur].wildcards[i] == id {
            assert(mods(modules@)[cur as int].wildcards[i as int] == id);
            return;
        }
        i = i + 1;
    }
    proof {
        let before = mods(modules@)[cur as int].wildcards;
        if before.contains(id) {
            let k = choose|k: int| 0 <= k < before.len() && before[k] == id;
            assert(modules@[cur as int].wildcards@[k] == id);
        }
    }
    modules[cur].wildcards.push(id);
    assert(mods(modules@) =~= with_wildcard(mods(old(modules)@), cur as int, id));
}

/// What a target whose module is known leads to.
pub open spec fn known_target(
    modules: Seq<LoadedModule>,
    h: HeapView,
    m: MachineView,
    cur: int,
    import: NodeId,
    next: int,
    target: ImportTarget,
    id: ModuleId,
    member: Option<Seq<char>>,
    span: Span,
) -> ImportStep {
    let ms = mods(modules);
    match m.load.state(id) {
        Some(LoadState::Loaded) => match member {
            Some(member) => match member_bound(modules, m.load, cur, target, id, member, span) {
                Ok(Some(after)) => ImportStep {
                    modules: after,
                    step: Step::done(h, retargeted(m, import, next + 1)),
                },
                Ok(None) => ImportStep { modules: ms, step: Step::done(h, m.broken()) },
                Err(e) => ImportStep { modules: ms, step: Step::raised(h, m, e) },
            },
            None => if target.wildcard {
                ImportStep {
                    modules: with_wildcard(ms, cur, id),
                    step: Step::done(h, retargeted(m, import, next + 1)),
                }
            } else {
                ImportStep {
                    modules: with_name(
                        ms,
                        cur,
                        bound_name(target, texts(target.path@).last()),
                        CellIdx(h.cells.len() as usize),
                    ),
                    step: Step::done(
                        h.new_cell(CellKind::Const, Some(Value::Module(id))),
                        retargeted(m, import, next + 1),
                    ),
                }
            },
        },
        Some(LoadState::Loading) => ImportStep {
            modules: ms,
            step: Step::raised(h, m, circular_raise(m, id, span)),
        },
        Some(LoadState::Failed(value)) => ImportStep {
            modules: ms,
            step: Step::done(
                h,
                m.raising(value, trace_here(m, Some(span))),
            ),
        },
        None => ImportStep { modules: ms, step: Step::done(h, m.broken()) },
    }
}

/// What a step of an import leads to: its next target is bound, asked for or refused.
#[verifier::opaque]
pub open spec fn import_advanced(
    modules: Seq<LoadedModule>,
    h: HeapView,
    m: MachineView,
    cur: int,
    import: NodeId,
    next: int,
) -> ImportStep {
    let resolved = modules[cur].resolved;
    let ms = mods(modules);
    let span = resolved.ast.range(import);
    match targets_of(resolved, import) {
        None => ImportStep { modules: ms, step: Step::done(h, m.broken()) },
        Some(targets) => if next >= targets.len() {
            ImportStep { modules: ms, step: Step::done(h, m) }
        } else {
            let target = targets[next];
            let path = texts(target.path@);
            if m.frames.len() == 0 || path.len() == 0 {
                ImportStep { modules: ms, step: Step::done(h, m.broken()) }
            } else {
                match m.load.module_at(path) {
                    Some(id) => known_target(
                        modules,
                        h,
                        m,
                        cur,
                        import,
                        next,
                        target,
                        id,
                        None,
                        span,
                    ),
                    None => if path.len() > 1 && m.load.not_module(path) {
                        if target.wildcard {
                            ImportStep {
                                modules: ms,
                                step: Step::raised(
                                    h,
                                    m,
                                    RaiseView::new(
                                        ExceptionKind::ModuleNotFound,
                                        "the module `"@ + dotted(path) + "` was not found"@,
                                        span,
                                    ).with(module_ref_detail(path, m.top().module)),
                                ),
                            }
                        } else {
                            match m.load.module_at(path.drop_last()) {
                                Some(id) => known_target(
                                    modules,
                                    h,
                                    m,
                                    cur,
                                    import,
                                    next,
                                    target,
                                    id,
                                    Some(path.last()),
                                    span,
                                ),
                                None => ImportStep {
                                    modules: ms,
                                    step: Step::done(
                                        h,
                                        asking(m, import, next, path.drop_last(), span),
                                    ),
                                },
                            }
                        }
                    } else {
                        ImportStep {
                            modules: ms,
                            step: Step::done(h, asking(m, import, next, path, span)),
                        }
                    },
                }
            }
        },
    }
}

fn copy_target(target: &ImportTarget) -> (r: ImportTarget)
    ensures
        texts(r.path@) == texts(target.path@),
        r.path@.len() == target.path@.len(),
        r.wildcard == target.wildcard,
        forall|other: Seq<char>| bound_name(r, other) == bound_name(*target, other),
{
    let alias = match &target.alias {
        Some(a) => Some(a.as_str().to_owned()),
        None => None,
    };
    ImportTarget { path: copy_texts(&target.path), alias, wildcard: target.wildcard }
}

fn resolve_loaded(
    modules: &mut Vec<LoadedModule>,
    heap: &mut Heap,
    machine: &mut Machine,
    cur: usize,
    import: NodeId,
    next: usize,
    target: &ImportTarget,
    id: ModuleId,
    member: Option<&str>,
    span: Span,
) -> (r: Result<(), Raise>)
    requires
        cur < old(modules)@.len(),
        target.path@.len() > 0,
        next < usize::MAX,
    ensures
        (ImportStep {
            modules: mods(final(modules)@),
            step: stepped(r, final(heap)@, final(machine)@),
        }) == known_target(
            old(modules)@,
            old(heap)@,
            old(machine)@,
            cur as int,
            import,
            next as int,
            *target,
            id,
            (match member {
                Some(s) => Some(s@),
                None => None,
            }),
            span,
        ),
{
    match machine.load.state(id) {
        Some(LoadState::Loaded) => {
            match member {
                Some(name) => {
                    match member_cell(modules, &machine.load, id, name, span) {
                        Ok(Some(cell)) => {
                            add_name(modules, cur, target_name(target, name), cell);
                        },
                        Ok(None) => {
                            machine.fail();
                            return Ok(());
                        },
                        Err(e) => {
                            return Err(e);
                        },
                    }
                },
                None => {
                    if target.wildcard {
                        bind_wildcard(modules, cur, id);
                    } else {
                        let last = target.path[target.path.len() - 1].as_str();
                        let name = target_name(target, last);
                        assert(texts(target.path@).last() == last@);
                        let cell = heap.alloc_cell(CellKind::Const, Some(Value::Module(id)));
                        add_name(modules, cur, name, cell);
                    }
                },
            }
            machine.push_cont(Work::ImportTargets { import, next: next + 1 });
            Ok(())
        },
        Some(LoadState::Loading) => Err(circular_import(machine, id, span)),
        Some(LoadState::Failed(value)) => {
            let trace = capture_trace(machine, Some(span));
            machine.arm_raise_value(value, trace);
            Ok(())
        },
        None => {
            machine.fail();
            Ok(())
        },
    }
}

/// Does the next target of an import.
pub fn step_import_targets(
    modules: &mut Vec<LoadedModule>,
    heap: &mut Heap,
    machine: &mut Machine,
    cur: usize,
    import: NodeId,
    next: usize,
) -> (r: Result<(), Raise>)
    requires
        cur < old(modules)@.len(),
    ensures
        (ImportStep {
            modules: mods(final(modules)@),
            step: stepped(r, final(heap)@, final(machine)@),
        }) == import_advanced(
            old(modules)@,
            old(heap)@,
            old(machine)@,
            cur as int,
            import,
            next as int,
        ),
{
    proof {
        reveal(import_advanced);
    }
    let span = modules[cur].resolved.ast.span(import);
    let target = match modules[cur].resolved.ast.node(import) {
        Some(Node::Import(targets)) => {
            if next >= targets.len() {
                return Ok(());
            }
            copy_target(&targets[next])
        },
        _ => {
            machine.fail();
            return Ok(());
        },
    };
    let ghost written = targets_of(modules@[cur as int].resolved, import)->0[next as int];
    let n: usize = target.path.len();
    assert(texts(target.path@).len() == n);
    if machine.frames.len() == 0 || n == 0 {
        machine.fail();
        return Ok(());
    }
    if let Some(id) = machine.load.by_path(&target.path) {
        let r = resolve_loaded(
            modules,
            heap,
            machine,
            cur,
            import,
            next,
            &target,
            id,
            None,
            span,
        );
        return r;
    }
    if n > 1 && machine.load.is_not_module(&target.path) {
        if target.wildcard {
            let path = join_path(&target.path);
            let importer = machine.frames[machine.frames.len() - 1].module;
            return Err(
                Raise::new(
                    ExceptionKind::ModuleNotFound,
                    join3("the module `", path.as_str(), "` was not found"),
                    span,
                ).with_details(module_ref_details(copy_texts(&target.path), importer)),
            );
        }
        let member = target.path[n - 1].as_str().to_owned();
        let mut prefix = copy_texts(&target.path);
        let ghost whole = prefix@;
        let dropped = prefix.pop();
        proof {
            assert(texts(prefix@) =~= texts(whole).drop_last());
            assert(member@ == texts(target.path@).last());
        }
        if let Some(id) = machine.load.by_path(&prefix) {
            let r = resolve_loaded(
                modules,
                heap,
                machine,
                cur,
                import,
                next,
                &target,
                id,
                Some(member.as_str()),
                span,
            );
            return r;
        }
        suspend_for(machine, import, next, prefix, span);
        return Ok(());
    }
    suspend_for(machine, import, next, target.path, span);
    Ok(())
}

/// A member import shares the exporter's cell: what the exporter assigns later, the
/// importer reads.
pub proof fn law_member_imports_are_live(
    modules: Seq<LoadedModule>,
    load: LoadView,
    cur: int,
    target: ImportTarget,
    id: ModuleId,
    member: Seq<char>,
    span: Span,
)
    requires
        0 <= cur < modules.len(),
        member_bound(modules, load, cur, target, id, member, span) matches Ok(Some(_)),
    ensures
        ({
            let after = member_bound(modules, load, cur, target, id, member, span)->Ok_0->0;
            after[cur].names.last().1 == own_cell(modules, id.0 as int, member)->0
        }),
{
}

/// A module that failed does not run again: importing it raises the value it failed with, and
/// binds nothing.
pub proof fn law_failed_modules_raise_again(
    modules: Seq<LoadedModule>,
    h: HeapView,
    m: MachineView,
    cur: int,
    import: NodeId,
    next: int,
    target: ImportTarget,
    id: ModuleId,
    member: Option<Seq<char>>,
    span: Span,
    value: Value,
)
    requires
        m.load.state(id) == Some(LoadState::Failed(value)),
    ensures
        ({
            let s = known_target(modules, h, m, cur, import, next, target, id, member, span);
            &&& s.modules == mods(modules)
            &&& s.step.heap == h
            &&& s.step.machine.unwind is Some
            &&& s.step.machine.unwind->0 is Raise
            &&& s.step.machine.unwind->0->Raise_value == value
            &&& s.step.machine.frames == m.frames
        }),
{
}

/// A module that is still loading cannot be imported: the import raises, and binds nothing.
pub proof fn law_circular_imports_are_refused(
    modules: Seq<LoadedModule>,
    h: HeapView,
    m: MachineView,
    cur: int,
    import: NodeId,
    next: int,
    target: ImportTarget,
    id: ModuleId,
    member: Option<Seq<char>>,
    span: Span,
)
    requires
        m.load.state(id) == Some(LoadState::Loading),
    ensures
        ({
            let s = known_target(modules, h, m, cur, import, next, target, id, member, span);
            &&& s.modules == mods(modules)
            &&& s.step == Step::raised(h, m, circular_raise(m, id, span))
        }),
{
}

} // verus!
