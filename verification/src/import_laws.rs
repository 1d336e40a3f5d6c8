//! What imports do: what is bound under which name, what names then mean, and which module is
//! asked for.

use crate::ast::ImportTarget;
use crate::ast::Node;
use crate::ast::NodeId;
use crate::cont::Work;
use crate::error::ExceptionKind;
use crate::error::RaiseView;
use crate::frame::FrameView;
use crate::heap::CellKind;
use crate::heap::CellObj;
use crate::heap::HeapView;
use crate::importing::import_advanced;
use crate::importing::mods;
use crate::importing::ModView;
use crate::instance::Instance;
use crate::machine::MachineView;
use crate::machine::Unwind;
use crate::modload::LoadedModule;
use crate::modload::LoadState;
use crate::modload::LoadView;
use crate::modload::PendingImportView;
use crate::named::named;
use crate::named::named_from;
use crate::named::named_view;
use crate::names::exported_hits;
use crate::names::free_cell;
use crate::names::has_cell;
use crate::names::membership;
use crate::resolve::Membership;
use crate::resolve::ResolvedModule;
use crate::sourcing::not_found;
use crate::span::ModuleId;
use crate::span::Span;
use crate::text::texts;
use crate::value::CellIdx;
use crate::value::Value;
use vstd::prelude::*;

verus! {

/// Whether a module is declared to show a name: all of its names if it says nothing, and those
/// that it lists if it does.
pub open spec fn shows(m: ResolvedModule, name: Seq<char>) -> bool {
    &&& exists|i: int| 0 <= i < m.globals@.len() && (#[trigger] m.globals@[i]).name@ == name
    &&& m.exports matches Some(names) ==> exists|i: int|
        0 <= i < names@.len() && (#[trigger] names@[i])@ == name
}

/// What a module shows can be imported from it, and what it has but does not show is private.
pub proof fn law_modules_show_what_they_export(
    modules: Seq<LoadedModule>,
    w: ModuleId,
    name: Seq<char>,
)
    requires
        w.0 < modules.len(),
    ensures
        ({
            let m = modules[w.0 as int].resolved;
            let has = exists|i: int|
                0 <= i < m.globals@.len() && (#[trigger] m.globals@[i]).name@ == name;
            &&& membership(modules, w, name) == Membership::Exported <==> shows(m, name)
            &&& membership(modules, w, name) == Membership::Private <==> has && !shows(m, name)
            &&& membership(modules, w, name) == Membership::Absent <==> !has
        }),
{
}

/// The first of a name is what it means in a list of names.
proof fn lemma_pushed<T>(list: Seq<(Seq<char>, T)>, name: Seq<char>, v: T, from: nat)
    requires
        from <= list.len(),
        forall|i: int| from <= i < list.len() ==> (#[trigger] list[i]).0 != name,
    ensures
        named_from(list.push((name, v)), name, from) == Some(v),
    decreases list.len() - from,
{
    let all = list.push((name, v));
    if from < list.len() {
        assert(all[from as int] == list[from as int]);
        lemma_pushed(list, name, v, from + 1);
    } else {
        assert(all[from as int] == (name, v));
    }
}

/// Whether only the names of one module have changed, by one at the end, and that is what the
/// name means if there was none of it.
pub open spec fn names_added(
    before: Seq<ModView>,
    after: Seq<ModView>,
    cur: int,
    name: Seq<char>,
    cell: CellIdx,
) -> bool {
    &&& after.len() == before.len()
    &&& forall|k: int| 0 <= k < before.len() && k != cur ==> #[trigger] after[k] == before[k]
    &&& after[cur].resolved == before[cur].resolved
    &&& after[cur].wildcards == before[cur].wildcards
    &&& after[cur].names == before[cur].names.push((name, cell))
    &&& (forall|i: int| 0 <= i < before[cur].names.len() ==> (#[trigger] before[cur].names[i]).0
        != name) ==> named(after[cur].names, name) == Some(cell)
}

/// Whether an import goes on with its next target.
pub open spec fn next_target(
    m: MachineView,
    z: MachineView,
    import: NodeId,
    next: int,
) -> bool {
    z == (MachineView {
        frames: m.frames.update(
            m.frames.len() - 1,
            FrameView {
                conts: m.frames.last().conts.push(
                    Work::ImportTargets { import, next: (next + 1) as usize },
                ),
                ..m.frames.last()
            },
        ),
        ..m
    })
}

/// Importing a member of a loaded module binds the exporter's own cell of the member, under the
/// alias if there is one and under the member's own name if not, and goes on with the next
/// target. A member that the module does not show is refused.
pub proof fn law_member_imports_bind_the_member(
    modules: Seq<LoadedModule>,
    h: HeapView,
    m: MachineView,
    cur: int,
    import: NodeId,
    next: int,
    targets: Vec<ImportTarget>,
    target: ImportTarget,
    path: Seq<Seq<char>>,
    id: ModuleId,
    cell: CellIdx,
)
    requires
        0 <= cur < modules.len(),
        modules[cur].resolved.node_at(import) == Some(Node::Import(targets)),
        0 <= next < targets@.len(),
        targets@[next] == target,
        texts(target.path@) == path,
        path.len() > 1,
        !target.wildcard,
        m.frames.len() > 0,
        m.load.module_at(path) is None,
        m.load.not_module(path),
        m.load.module_at(path.take(path.len() - 1)) == Some(id),
        m.load.state(id) == Some(LoadState::Loaded),
        id.0 < modules.len(),
    ensures
        ({
            let z = import_advanced(modules, h, m, cur, import, next);
            let member = path[path.len() - 1];
            let name = match target.alias {
                Some(a) => a@,
                None => member,
            };
            let shown = shows(modules[id.0 as int].resolved, member);
            &&& z.step.heap == h
            &&& shown && named(named_view(modules[id.0 as int].namespace@), member) == Some(cell)
                ==> {
                &&& z.step.raise is None
                &&& names_added(mods(modules), z.modules, cur, name, cell)
                &&& next_target(m, z.step.machine, import, next)
            }
            &&& !shown ==> z.modules == mods(modules) && z.step.machine == m && z.step.raise is Some
                && (z.step.raise->0.kind == ExceptionKind::NotExported || z.step.raise->0.kind
                == ExceptionKind::NoSuchMember)
        }),
{
    reveal(import_advanced);
    let ms = mods(modules);
    let member = path[path.len() - 1];
    let name = match target.alias {
        Some(a) => a@,
        None => member,
    };
    assert(path.take(path.len() - 1) =~= path.drop_last());
    law_modules_show_what_they_export(modules, id, member);
    assert(ms[cur] == modules[cur]@);
    if forall|i: int| 0 <= i < ms[cur].names.len() ==> (#[trigger] ms[cur].names[i]).0 != name {
        lemma_pushed(ms[cur].names, name, cell, 0);
    }
}

/// Importing a loaded module as a whole binds a constant that is the module, in a cell of its
/// own, under the alias if there is one and under the last part of the path if not.
pub proof fn law_module_imports_bind_the_module(
    modules: Seq<LoadedModule>,
    h: HeapView,
    m: MachineView,
    cur: int,
    import: NodeId,
    next: int,
    targets: Vec<ImportTarget>,
    target: ImportTarget,
    path: Seq<Seq<char>>,
    id: ModuleId,
)
    requires
        0 <= cur < modules.len(),
        modules[cur].resolved.node_at(import) == Some(Node::Import(targets)),
        0 <= next < targets@.len(),
        targets@[next] == target,
        texts(target.path@) == path,
        path.len() > 0,
        m.frames.len() > 0,
        m.load.module_at(path) == Some(id),
        m.load.state(id) == Some(LoadState::Loaded),
        h.cells.len() < usize::MAX,
    ensures
        ({
            let z = import_advanced(modules, h, m, cur, import, next);
            let name = match target.alias {
                Some(a) => a@,
                None => path[path.len() - 1],
            };
            let cell = CellIdx(h.cells.len() as usize);
            &&& z.step.raise is None
            &&& next_target(m, z.step.machine, import, next)
            &&& !target.wildcard ==> {
                &&& names_added(mods(modules), z.modules, cur, name, cell)
                &&& z.step.heap.cell(cell) == Some(
                    CellObj { kind: CellKind::Const, value: Some(Value::Module(id)) },
                )
                &&& forall|c: CellIdx|
                    c.0 < h.cells.len() ==> #[trigger] z.step.heap.cell(c) == h.cell(c)
            }
            &&& target.wildcard ==> {
                let (a, b) = (mods(modules)[cur], z.modules[cur]);
                &&& z.step.heap == h
                &&& z.modules.len() == modules.len()
                &&& b.names == a.names && b.resolved == a.resolved
                &&& b.wildcards.contains(id)
                &&& a.wildcards.contains(id) ==> b.wildcards == a.wildcards
                &&& !a.wildcards.contains(id) ==> b.wildcards == a.wildcards.push(id)
                &&& forall|k: int|
                    0 <= k < modules.len() && k != cur ==> #[trigger] z.modules[k] == mods(
                        modules,
                    )[k]
            }
        }),
{
    reveal(import_advanced);
    let ms = mods(modules);
    let name = match target.alias {
        Some(a) => a@,
        None => path[path.len() - 1],
    };
    let cell = CellIdx(h.cells.len() as usize);
    assert(ms[cur] == modules[cur]@);
    if forall|i: int| 0 <= i < ms[cur].names.len() ==> (#[trigger] ms[cur].names[i]).0 != name {
        lemma_pushed(ms[cur].names, name, cell, 0);
    }
    if target.wildcard && !ms[cur].wildcards.contains(id) {
        let after = ms[cur].wildcards.push(id);
        assert(after[after.len() - 1] == id);
    }
}

/// A path that is not known is asked for, as a module; one that is known to be none is asked for
/// without its last part; and with its last target an import is done.
pub proof fn law_unknown_modules_are_asked_for(
    modules: Seq<LoadedModule>,
    h: HeapView,
    m: MachineView,
    cur: int,
    import: NodeId,
    next: int,
    targets: Vec<ImportTarget>,
    path: Seq<Seq<char>>,
)
    requires
        0 <= cur < modules.len(),
        modules[cur].resolved.node_at(import) == Some(Node::Import(targets)),
        0 <= next <= usize::MAX,
        next < targets@.len() ==> texts(targets@[next].path@) == path && path.len() > 0,
        m.frames.len() > 0,
    ensures
        ({
            let z = import_advanced(modules, h, m, cur, import, next);
            let asked = |wanted: Seq<Seq<char>>|
                {
                    &&& z.step.raise is None
                    &&& z.step.machine.pending_import matches Some(p)
                    &&& p.path == wanted
                    &&& p.importer == m.frames.last().module
                    &&& z.step.machine.frames.last().conts == m.frames.last().conts.push(
                        Work::ImportTargets { import, next: next as usize },
                    )
                };
            &&& next >= targets@.len() ==> z.step.raise is None && z.step.machine == m
                && z.step.heap == h && z.modules == mods(modules)
            &&& next < targets@.len() && m.load.module_at(path) is None ==> {
                &&& path.len() == 1 || !m.load.not_module(path) ==> asked(path) && z.modules
                    == mods(modules) && z.step.heap == h
                &&& path.len() > 1 && m.load.not_module(path) && targets@[next].wildcard
                    ==> z.step.raise is Some && z.step.raise->0.kind
                    == ExceptionKind::ModuleNotFound
                &&& path.len() > 1 && m.load.not_module(path) && !targets@[next].wildcard
                    && m.load.module_at(path.take(path.len() - 1)) is None ==> asked(
                    path.take(path.len() - 1),
                ) && z.modules == mods(modules) && z.step.heap == h
            }
        }),
{
    reveal(import_advanced);
    if path.len() > 1 {
        assert(path.take(path.len() - 1) =~= path.drop_last());
    }
}

/// What a name means in a module: its own cell of that name if it has one; else that of the one
/// module that it imports all of and that shows the name. Two different cells are refused, and so
/// is none.
pub proof fn law_names_mean_their_own_first(
    modules: Seq<LoadedModule>,
    cur: int,
    load: LoadView,
    name: Seq<char>,
    span: Span,
    w: int,
    cell: CellIdx,
)
    requires
        0 <= cur < modules.len(),
    ensures
        named(named_view(modules[cur].namespace@), name) is Some ==> free_cell(
            modules,
            cur,
            load,
            name,
            span,
        ) == Ok::<CellIdx, RaiseView>(named(named_view(modules[cur].namespace@), name)->0),
        named(named_view(modules[cur].namespace@), name) is None && 0 <= w
            < modules[cur].wildcards@.len() && supplies(
            modules,
            modules[cur].wildcards@[w],
            name,
        ) == Some(cell) ==> {
            let r = free_cell(modules, cur, load, name, span);
            let alone = forall|u: int|
                0 <= u < modules[cur].wildcards@.len() ==> supplies(
                    modules,
                    #[trigger] modules[cur].wildcards@[u],
                    name,
                ) == Some(cell) || supplies(modules, modules[cur].wildcards@[u], name) is None;
            &&& alone ==> r == Ok::<CellIdx, RaiseView>(cell)
            &&& !alone ==> r is Err && r->Err_0.kind == ExceptionKind::AmbiguousImport
        },
        named(named_view(modules[cur].namespace@), name) is None && (forall|u: int|
            0 <= u < modules[cur].wildcards@.len() ==> supplies(
                modules,
                #[trigger] modules[cur].wildcards@[u],
                name,
            ) is None) ==> free_cell(modules, cur, load, name, span) is Err,
{
    let sources = modules[cur].wildcards@;
    lemma_hits(modules, sources, name, sources.len());
    let hits = exported_hits(modules, sources, name, sources.len());
    if 0 <= w < sources.len() && supplies(modules, sources[w], name) == Some(cell) {
        assert(has_cell(hits, cell));
        let a = choose|a: int| 0 <= a < hits.len() && (#[trigger] hits[a]).1 == cell;
        let alone = forall|u: int|
            0 <= u < sources.len() ==> supplies(modules, #[trigger] sources[u], name) == Some(cell)
                || supplies(modules, sources[u], name) is None;
        if alone {
            if hits.len() > 1 {
                assert(hits[0].1 != hits[1].1);
                let i = choose|i: int|
                    0 <= i < sources.len() && supplies(modules, #[trigger] sources[i], name)
                        == Some(hits[0].1);
                let j = choose|j: int|
                    0 <= j < sources.len() && supplies(modules, #[trigger] sources[j], name)
                        == Some(hits[1].1);
                assert(supplies(modules, sources[i], name) == Some(hits[0].1));
                assert(supplies(modules, sources[j], name) == Some(hits[1].1));
            }
        } else {
            let u = choose|u: int|
                0 <= u < sources.len() && !(supplies(modules, #[trigger] sources[u], name) == Some(
                    cell,
                ) || supplies(modules, sources[u], name) is None);
            let other = supplies(modules, sources[u], name)->0;
            assert(has_cell(hits, other));
            let b = choose|b: int| 0 <= b < hits.len() && (#[trigger] hits[b]).1 == other;
            assert(a != b);
        }
    }
    if forall|u: int|
        0 <= u < sources.len() ==> supplies(modules, #[trigger] sources[u], name) is None {
        if hits.len() > 0 {
            let i = choose|i: int|
                0 <= i < sources.len() && supplies(modules, #[trigger] sources[i], name) == Some(
                    hits[0].1,
                );
            assert(supplies(modules, sources[i], name) == Some(hits[0].1));
        }
    }
}

/// The cell that a module supplies under a name to those that import all of it.
pub open spec fn supplies(modules: Seq<LoadedModule>, w: ModuleId, name: Seq<char>) -> Option<
    CellIdx,
> {
    if w.0 < modules.len() && shows(modules[w.0 as int].resolved, name) {
        named(named_view(modules[w.0 as int].namespace@), name)
    } else {
        None
    }
}

proof fn lemma_hits(
    modules: Seq<LoadedModule>,
    sources: Seq<ModuleId>,
    name: Seq<char>,
    n: nat,
)
    requires
        n <= sources.len(),
    ensures
        ({
            let hits = exported_hits(modules, sources, name, n);
            &&& forall|i: int|
                0 <= i < n && supplies(modules, #[trigger] sources[i], name) is Some ==> has_cell(
                    hits,
                    supplies(modules, sources[i], name)->0,
                )
            &&& forall|a: int|
                0 <= a < hits.len() ==> exists|i: int|
                    0 <= i < n && supplies(modules, #[trigger] sources[i], name) == Some(
                        (#[trigger] hits[a]).1,
                    )
            &&& forall|a: int, b: int|
                0 <= a < b < hits.len() ==> (#[trigger] hits[a]).1 != (#[trigger] hits[b]).1
        }),
    decreases n,
{
    if n > 0 {
        lemma_hits(modules, sources, name, (n - 1) as nat);
        let before = exported_hits(modules, sources, name, (n - 1) as nat);
        let hits = exported_hits(modules, sources, name, n);
        let w = sources[n - 1];
        if w.0 < modules.len() {
            law_modules_show_what_they_export(modules, w, name);
        }
        assert forall|i: int|
            0 <= i < n && supplies(modules, #[trigger] sources[i], name) is Some implies has_cell(
            hits,
            supplies(modules, sources[i], name)->0,
        ) by {
            let c = supplies(modules, sources[i], name)->0;
            if i < n - 1 {
                assert(has_cell(before, c));
                let a = choose|a: int| 0 <= a < before.len() && (#[trigger] before[a]).1 == c;
                assert(hits[a].1 == c);
            } else if !has_cell(before, c) {
                assert(hits[hits.len() - 1].1 == c);
            }
        }
        assert forall|a: int| 0 <= a < hits.len() implies exists|i: int|
            0 <= i < n && supplies(modules, #[trigger] sources[i], name) == Some(
                (#[trigger] hits[a]).1,
            ) by {
            if a < before.len() {
                let i = choose|i: int|
                    0 <= i < n - 1 && supplies(modules, #[trigger] sources[i], name) == Some(
                        before[a].1,
                    );
                assert(supplies(modules, sources[i], name) == Some(hits[a].1));
            } else {
                assert(supplies(modules, sources[n - 1], name) == Some(hits[a].1));
            }
        }
    }
}

/// A module that is asked for and is not there: one part of a path is no more than a name, and
/// the import raises. Of several parts it is only noted that they name no module, and the import
/// looks again.
pub proof fn law_missing_modules(i: Instance, p: PendingImportView)
    requires
        i.machine@.pending_import == Some(p),
    ensures
        ({
            let (g, z) = not_found(i);
            &&& z.pending_import is None
            &&& z.frames == i.machine@.frames
            &&& p.path.len() > 1 && !i.machine@.load.not_module(p.path) ==> {
                &&& g == i.heap@
                &&& z.unwind == i.machine@.unwind
                &&& z.load.not_module(p.path)
                &&& z.load.module_at(p.path) == i.machine@.load.module_at(p.path)
            }
            &&& p.path.len() <= 1 || i.machine@.load.not_module(p.path) ==> {
                &&& z.unwind matches Some(Unwind::Raise { value, trace, .. })
                &&& value is Record
                &&& trace.raised_at == Some(p.span)
                &&& z.load == i.machine@.load
            }
        }),
{
    let m = i.machine@;
    if p.path.len() > 1 && !m.load.not_module(p.path) {
        let after = m.load.not_modules.push(crate::modload::dotted(p.path));
        assert(after[after.len() - 1] == crate::modload::dotted(p.path));
    }
}

} // verus!
