//! Loading: a resolved module becomes an instance that is ready to be driven. Every name of
//! the module has a cell, filled when its declaration runs; the prelude holds the names that
//! every module sees.
use crate::activation::Natives;
use crate::breakpoint::Breakpoints;
use crate::exception::diagnostics_view;
use crate::exception::Diagnostic;
use crate::exception::DiagnosticView;
use crate::exception::Severity;
use crate::frame::Frame;
use crate::frame::FrameView;
use crate::handle::HandleTable;
use crate::handle::TableView;
use crate::heap::CalObj;
use crate::heap::CalView;
use crate::heap::CallableTarget;
use crate::heap::CellKind;
use crate::heap::Heap;
use crate::heap::HeapView;
use crate::heap::RecordType;
use crate::heap::SchemaView;
use crate::heap::TypeKind;
use crate::heap::TypeView;
use crate::importing::ModView;
use crate::instance::Directive;
use crate::instance::Instance;
use crate::instance::InstanceState;
use crate::instance::ObservationMode;
use crate::intrinsic::builtin_types;
use crate::intrinsic::builtins;
use crate::intrinsic::intrinsics_view;
use crate::intrinsic::typed_view;
use crate::intrinsic::Intrinsic;
use crate::intrinsic::IntrinsicView;
use crate::intrinsic::Registry;
use crate::intrinsic::RegistryView;
use crate::limits::Limits;
use crate::limits::GC_MIN_BYTES;
use crate::local;
use crate::local::entry_locals;
use crate::machine::Machine;
use crate::machine::MachineView;
use crate::modload::LoadState;
use crate::modload::LoadView;
use crate::modload::LoadedModule;
use crate::modload::ModuleLoad;
use crate::named::find_named;
use crate::named::named;
use crate::named::named_view;
use crate::native::build_native_module;
use crate::native::members_built;
use crate::native::name_list;
use crate::native::synthetic;
use crate::native::synthetic_module;
use crate::native::Built;
use crate::native::NativeModule;
use crate::native::NativeModuleView;
use crate::protocol::WellKnown;
use crate::resolve::top_level_of;
use crate::resolve::GlobalDecl;
use crate::resolve::GlobalKind;
use crate::resolve::ResolvedModule;
use crate::span::ModuleId;
use crate::span::Span;
use crate::text::join5;
use crate::text::texts;
use crate::tokens::CancelToken;
use crate::tokens::PauseToken;
use crate::value::CalIdx;
use crate::value::CellIdx;
use crate::value::TypeIdx;
use crate::value::Value;
use vstd::prelude::*;

verus! {

/// A version of the Unicode standard.
#[derive(Clone, Copy, PartialEq, Eq, Debug, Structural)]
pub struct UnicodeVersion {
    /// The major version.
    pub major: u16,
    /// The minor version.
    pub minor: u16,
    /// The update.
    pub update: u16,
}

/// The version of the Unicode standard that texts are composed and segmented by.
pub open spec fn pinned_version() -> UnicodeVersion {
    UnicodeVersion { major: 17, minor: 0, update: 0 }
}

/// How an instance is to be made.
#[derive(Clone, Copy, PartialEq, Eq, Debug, Structural)]
pub struct Config {
    /// The limits.
    pub limits: Limits,
    /// The version of the Unicode standard that the host expects, if it expects one.
    pub unicode_version: Option<UnicodeVersion>,
}

/// Why an instance could not be made.
#[derive(Clone, Copy, PartialEq, Eq, Debug, Structural)]
pub enum ConfigError {
    /// The host expects another version of the Unicode standard.
    UnsupportedUnicodeVersion {
        /// What the host expects.
        requested: UnicodeVersion,
        /// What there is.
        pinned: UnicodeVersion,
    },
}

/// The schema of errors.
pub open spec fn error_schema() -> SchemaView {
    SchemaView {
        name: "Error"@,
        fields: seq!["kind"@, "message"@, "details"@],
        is_ref: false,
    }
}

fn alloc_error_type(heap: &mut Heap) -> (r: TypeIdx)
    ensures
        r.0 == old(heap)@.types.len(),
        final(heap)@ == old(heap)@.new_type(TypeView::Record(error_schema())),
{
    let mut fields: Vec<String> = Vec::new();
    fields.push("kind".to_owned());
    fields.push("message".to_owned());
    fields.push("details".to_owned());
    assert(texts(fields@) =~= error_schema().fields);
    heap.alloc_type(
        TypeKind::Record(RecordType { name: "Error".to_owned(), fields, is_ref: false }),
    )
}

/// The kind of cell a declaration gets: only a variable can be assigned.
pub open spec fn global_cell(kind: GlobalKind) -> CellKind {
    match kind {
        GlobalKind::Let => CellKind::Let,
        GlobalKind::Parameter => CellKind::Parameter,
        _ => CellKind::Const,
    }
}

fn cell_kind_of(kind: GlobalKind) -> (r: CellKind)
    ensures
        r == global_cell(kind),
{
    match kind {
        GlobalKind::Let => CellKind::Let,
        GlobalKind::Parameter => CellKind::Parameter,
        _ => CellKind::Const,
    }
}

/// The heap and the names with an empty cell for each of the first `n` declarations.
pub open spec fn seeded(h: HeapView, globals: Seq<GlobalDecl>, n: nat) -> (
    HeapView,
    Seq<(Seq<char>, CellIdx)>,
)
    decreases n,
{
    if n == 0 || n > globals.len() {
        (h, Seq::empty())
    } else {
        let (before, names) = seeded(h, globals, (n - 1) as nat);
        let g = globals[n - 1];
        (
            before.new_cell(global_cell(g.kind), None),
            names.push((g.name@, CellIdx(before.cells.len() as usize))),
        )
    }
}

/// Gives every declaration of a module an empty cell.
pub fn seed_namespace(module: &ResolvedModule, heap: &mut Heap) -> (r: Vec<(String, CellIdx)>)
    ensures
        (final(heap)@, named_view(r@)) == seeded(
            old(heap)@,
            module.globals@,
            module.globals@.len(),
        ),
{
    let mut r: Vec<(String, CellIdx)> = Vec::new();
    let mut i: usize = 0;
    assert(named_view(r@) =~= Seq::empty());
    while i < module.globals.len()
        invariant
            i <= module.globals@.len(),
            (heap@, named_view(r@)) == seeded(old(heap)@, module.globals@, i as nat),
        decreases module.globals@.len() - i,
    {
        let g = &module.globals[i];
        let ghost before = r@;
        let cell = heap.alloc_cell(cell_kind_of(g.kind), None);
        r.push((g.name.as_str().to_owned(), cell));
        assert(named_view(r@) =~= named_view(before).push((g.name@, cell)));
        i = i + 1;
    }
    r
}

/// The heap and names with a further constant.
pub open spec fn with_const(b: (HeapView, Seq<(Seq<char>, CellIdx)>), name: Seq<char>, v: Value) -> (
    HeapView,
    Seq<(Seq<char>, CellIdx)>,
) {
    (
        b.0.new_cell(CellKind::Const, Some(v)),
        b.1.push((name, CellIdx(b.0.cells.len() as usize))),
    )
}

/// The heap and names with the first `n` built-in types bound.
pub open spec fn types_bound(h: HeapView, n: nat) -> (HeapView, Seq<(Seq<char>, CellIdx)>)
    decreases n,
{
    if n == 0 || n > builtin_types().len() {
        (h, Seq::empty())
    } else {
        let (before, names) = types_bound(h, (n - 1) as nat);
        let (name, builtin) = builtin_types()[n - 1];
        with_const(
            (before.new_type(TypeView::Builtin(builtin)), names),
            name,
            Value::Type(TypeIdx(before.types.len() as usize)),
        )
    }
}

/// The same with a protocol bound.
pub open spec fn protocol_bound(b: (HeapView, Seq<(Seq<char>, CellIdx)>), name: Seq<char>) -> (
    HeapView,
    Seq<(Seq<char>, CellIdx)>,
) {
    with_const(
        (b.0.new_type(TypeView::Protocol(name)), b.1),
        name,
        Value::Type(TypeIdx(b.0.types.len() as usize)),
    )
}

/// The same with a callable of a module bound.
pub open spec fn callable_bound(
    b: (HeapView, Seq<(Seq<char>, CellIdx)>),
    id: ModuleId,
    name: Seq<char>,
    target: CallableTarget,
) -> (HeapView, Seq<(Seq<char>, CellIdx)>) {
    with_const(
        (b.0.new_callable(CalView { module: id, target, captures: Seq::empty() }), b.1),
        name,
        Value::Callable(CalIdx(b.0.callables.len() as usize)),
    )
}

/// The same with the first `n` of the flat host-registered functions bound.
pub open spec fn functions_bound(
    b: (HeapView, Seq<(Seq<char>, CellIdx)>),
    id: ModuleId,
    all: Seq<IntrinsicView>,
    n: nat,
) -> (HeapView, Seq<(Seq<char>, CellIdx)>)
    decreases n,
{
    if n == 0 || n > all.len() {
        b
    } else {
        callable_bound(
            functions_bound(b, id, all, (n - 1) as nat),
            id,
            all[n - 1].name,
            CallableTarget::Intrinsic((n - 1) as u32),
        )
    }
}

/// The heap and names of the prelude: the built-in types, the type of errors, the
/// well-known protocols, and the flat host-registered functions.
pub open spec fn prelude_bound(
    h: HeapView,
    id: ModuleId,
    error_type: TypeIdx,
    all: Seq<IntrinsicView>,
    flat: nat,
) -> (HeapView, Seq<(Seq<char>, CellIdx)>) {
    let typed = types_bound(h, builtin_types().len());
    let errors = with_const(typed, "Error"@, Value::Type(error_type));
    let known = protocol_bound(protocol_bound(errors, "Stringable"@), "Hashable"@);
    let dispatching = callable_bound(
        known,
        id,
        "to_string"@,
        CallableTarget::Dispatcher(WellKnown::Stringable),
    );
    functions_bound(dispatching, id, all, flat)
}

fn bind_const(heap: &mut Heap, names: &mut Vec<(String, CellIdx)>, name: &str, v: Value)
    ensures
        (final(heap)@, named_view(final(names)@)) == with_const(
            (old(heap)@, named_view(old(names)@)),
            name@,
            v,
        ),
{
    let cell = heap.alloc_cell(CellKind::Const, Some(v));
    names.push((name.to_owned(), cell));
    assert(named_view(names@) =~= named_view(old(names)@).push((name@, cell)));
}

fn bind_protocol(heap: &mut Heap, names: &mut Vec<(String, CellIdx)>, name: &str)
    ensures
        (final(heap)@, named_view(final(names)@)) == protocol_bound(
            (old(heap)@, named_view(old(names)@)),
            name@,
        ),
{
    let t = heap.alloc_type(TypeKind::Protocol(name.to_owned()));
    bind_const(heap, names, name, Value::Type(t));
}

fn bind_callable(
    heap: &mut Heap,
    names: &mut Vec<(String, CellIdx)>,
    id: ModuleId,
    name: &str,
    target: CallableTarget,
)
    ensures
        (final(heap)@, named_view(final(names)@)) == callable_bound(
            (old(heap)@, named_view(old(names)@)),
            id,
            name@,
            target,
        ),
{
    let captures: Vec<CellIdx> = Vec::new();
    assert(captures@ =~= Seq::empty());
    let cal = heap.alloc_callable(CalObj { module: id, target, captures });
    bind_const(heap, names, name, Value::Callable(cal));
}

fn build_prelude(
    id: ModuleId,
    heap: &mut Heap,
    error_type: TypeIdx,
    intrinsics: &Vec<Intrinsic>,
    flat: usize,
) -> (r: (ResolvedModule, Vec<(String, CellIdx)>))
    requires
        flat <= intrinsics@.len(),
    ensures
        synthetic(r.0, id, name_list(named_view(r.1@))),
        (final(heap)@, named_view(r.1@)) == prelude_bound(
            old(heap)@,
            id,
            error_type,
            intrinsics_view(intrinsics@),
            flat as nat,
        ),
{
    let mut names: Vec<(String, CellIdx)> = Vec::new();
    let types = builtins();
    let mut i: usize = 0;
    assert(named_view(names@) =~= Seq::empty());
    assert(typed_view(types@).len() == types@.len());
    while i < types.len()
        invariant
            i <= types@.len(),
            typed_view(types@) == builtin_types(),
            types@.len() == builtin_types().len(),
            (heap@, named_view(names@)) == types_bound(old(heap)@, i as nat),
        decreases types@.len() - i,
    {
        assert(typed_view(types@)[i as int] == (types@[i as int].0@, types@[i as int].1));
        let t = heap.alloc_type(TypeKind::Builtin(types[i].1));
        bind_const(heap, &mut names, types[i].0, Value::Type(t));
        i = i + 1;
    }
    bind_const(heap, &mut names, "Error", Value::Type(error_type));
    bind_protocol(heap, &mut names, "Stringable");
    bind_protocol(heap, &mut names, "Hashable");
    bind_callable(
        heap,
        &mut names,
        id,
        "to_string",
        CallableTarget::Dispatcher(WellKnown::Stringable),
    );
    let ghost start = (heap@, named_view(names@));
    let ghost all = intrinsics_view(intrinsics@);
    let mut k: usize = 0;
    while k < flat
        invariant
            k <= flat <= intrinsics@.len(),
            all == intrinsics_view(intrinsics@),
            (heap@, named_view(names@)) == functions_bound(start, id, all, k as nat),
        decreases flat - k,
    {
        assert(all[k as int] == intrinsics@[k as int]@);
        bind_callable(
            heap,
            &mut names,
            id,
            intrinsics[k].name.as_str(),
            CallableTarget::Intrinsic(k as u32),
        );
        k = k + 1;
    }
    let resolved = synthetic_module(id, &names);
    (resolved, names)
}

/// The warning for a declaration that hides a name of the prelude.
pub open spec fn hiding_warning(module: ModuleId, name: Seq<char>, span: Span) -> DiagnosticView {
    DiagnosticView {
        module,
        severity: Severity::Warning,
        code: "shadowing"@,
        message: "this `"@ + name + "` hides the built-in `"@ + name
            + "` from the prelude — that's allowed, but check you meant to"@,
        span: Some(span),
    }
}

/// The warnings for the first `n` declarations, in declaration order.
pub open spec fn shadowing(
    module: ResolvedModule,
    prelude: Seq<(Seq<char>, CellIdx)>,
    id: ModuleId,
    n: nat,
) -> Seq<DiagnosticView>
    decreases n,
{
    if n == 0 || n > module.globals@.len() {
        Seq::empty()
    } else {
        let before = shadowing(module, prelude, id, (n - 1) as nat);
        let g = module.globals@[n - 1];
        if named(prelude, g.name@) is Some {
            before.push(hiding_warning(id, g.name@, module.ast.range(g.decl)))
        } else {
            before
        }
    }
}

/// Warns of the declarations of a module that hide a name of the prelude.
pub fn prelude_shadowing(
    module: &ResolvedModule,
    prelude_ns: &Vec<(String, CellIdx)>,
    id: ModuleId,
) -> (r: Vec<Diagnostic>)
    ensures
        diagnostics_view(r@) == shadowing(
            *module,
            named_view(prelude_ns@),
            id,
            module.globals@.len(),
        ),
{
    let mut r: Vec<Diagnostic> = Vec::new();
    let mut i: usize = 0;
    assert(diagnostics_view(r@) =~= Seq::empty());
    while i < module.globals.len()
        invariant
            i <= module.globals@.len(),
            diagnostics_view(r@) == shadowing(*module, named_view(prelude_ns@), id, i as nat),
        decreases module.globals@.len() - i,
    {
        let g = &module.globals[i];
        if find_named(prelude_ns, g.name.as_str()).is_some() {
            let ghost before = r@;
            let d = Diagnostic {
                module: id,
                severity: Severity::Warning,
                code: "shadowing".to_owned(),
                message: join5(
                    "this `",
                    g.name.as_str(),
                    "` hides the built-in `",
                    g.name.as_str(),
                    "` from the prelude — that's allowed, but check you meant to",
                ),
                span: Some(module.ast.span(g.decl)),
            };
            r.push(d);
            assert(diagnostics_view(r@) =~= diagnostics_view(before).push(d@));
        }
        i = i + 1;
    }
    r
}

/// Where a finding begins.
pub open spec fn starts_at(d: DiagnosticView) -> u32 {
    match d.span {
        Some(s) => s.start,
        None => 0,
    }
}

/// A sorted list of findings with one put behind those that begin no later.
pub open spec fn sorted_in(list: Seq<DiagnosticView>, d: DiagnosticView) -> Seq<DiagnosticView>
    decreases list.len(),
{
    if list.len() == 0 {
        seq![d]
    } else if starts_at(list.last()) > starts_at(d) {
        sorted_in(list.drop_last(), d).push(list.last())
    } else {
        list.push(d)
    }
}

/// Findings by where they begin, those that begin together as they came.
pub open spec fn by_start(all: Seq<DiagnosticView>) -> Seq<DiagnosticView>
    decreases all.len(),
{
    if all.len() == 0 {
        Seq::empty()
    } else {
        sorted_in(by_start(all.drop_last()), all.last())
    }
}

fn start_of(d: &Diagnostic) -> (r: u32)
    ensures
        r == starts_at(d@),
{
    match d.span {
        Some(s) => s.start,
        None => 0,
    }
}

fn sort_in(list: &mut Vec<Diagnostic>, d: Diagnostic)
    ensures
        diagnostics_view(final(list)@) == sorted_in(diagnostics_view(old(list)@), d@),
{
    let mut i: usize = list.len();
    let ghost all = diagnostics_view(list@);
    let key: u32 = start_of(&d);
    assert(all.take(i as int) =~= all);
    assert(all.skip(i as int) =~= Seq::empty());
    assert(sorted_in(all, d@) =~= sorted_in(all.take(i as int), d@) + all.skip(i as int));
    while i > 0 && start_of(&list[i - 1]) > key
        invariant
            i <= list@.len(),
            all == diagnostics_view(list@),
            *list == *old(list),
            key == starts_at(d@),
            sorted_in(all, d@) == sorted_in(all.take(i as int), d@) + all.skip(i as int),
        decreases i,
    {
        proof {
            assert(all.take(i as int).drop_last() =~= all.take(i - 1));
            assert(all.take(i as int).last() == list@[i - 1]@);
            assert(all.skip(i - 1) =~= seq![all[i - 1]] + all.skip(i as int));
            assert(sorted_in(all.take(i - 1), d@).push(all[i - 1]) + all.skip(i as int)
                =~= sorted_in(all.take(i - 1), d@) + all.skip(i - 1));
        }
        i = i - 1;
    }
    proof {
        if i > 0 {
            assert(all.take(i as int).last() == list@[i - 1]@);
        } else {
            assert(all.take(0) =~= Seq::empty());
        }
        assert(sorted_in(all.take(i as int), d@) =~= all.take(i as int).push(d@));
    }
    let ghost value = d@;
    list.insert(i, d);
    assert(diagnostics_view(list@) =~= all.take(i as int).push(value) + all.skip(i as int));
}

/// Sorts findings by where they begin.
pub fn sort_by_start(all: Vec<Diagnostic>) -> (r: Vec<Diagnostic>)
    ensures
        diagnostics_view(r@) == by_start(diagnostics_view(all@)),
{
    let ghost views = diagnostics_view(all@);
    let ghost given = all@;
    let mut rest = all;
    let mut r: Vec<Diagnostic> = Vec::new();
    let n: usize = rest.len();
    let mut i: usize = 0;
    assert(views.take(0) =~= Seq::empty());
    assert(diagnostics_view(r@) =~= Seq::empty());
    while i < n
        invariant
            i <= n,
            n == given.len(),
            views == diagnostics_view(given),
            rest@ == given.skip(i as int),
            diagnostics_view(r@) == by_start(views.take(i as int)),
        decreases n - i,
    {
        let ghost before = rest@;
        let d = rest.remove(0);
        assert(before[0] == given[i as int]);
        assert(rest@ =~= given.skip(i + 1));
        assert(views.take(i + 1).drop_last() =~= views.take(i as int));
        assert(views.take(i + 1).last() == d@);
        sort_in(&mut r, d);
        i = i + 1;
    }
    assert(views.take(i as int) =~= views);
    r
}

/// The heap, functions, names and load state after pre-loading native modules.
pub struct Preloaded {
    /// The heap.
    pub heap: HeapView,
    /// The functions by number.
    pub intrinsics: Seq<IntrinsicView>,
    /// The names of each native module.
    pub names: Seq<Seq<(Seq<char>, CellIdx)>>,
    /// What is known of the modules.
    pub load: LoadView,
}

/// What is known of the modules with one more that needs no running.
pub open spec fn with_loaded(load: LoadView, name: Seq<char>, id: ModuleId) -> LoadView {
    load.begun(seq![name], name, id).with_state(id, LoadState::Loaded)
}

/// What pre-loading the first `n` native modules leaves: they are numbered after the entry
/// module.
pub open spec fn preloaded(p: Preloaded, modules: Seq<NativeModuleView>, n: nat) -> Preloaded
    decreases n,
{
    if n == 0 || n > modules.len() {
        p
    } else {
        let before = preloaded(p, modules, (n - 1) as nat);
        let id = ModuleId(n as u32);
        let b = members_built(
            Built { heap: before.heap, intrinsics: before.intrinsics, names: Seq::empty() },
            id,
            modules[n - 1].members,
            modules[n - 1].members.len(),
        );
        Preloaded {
            heap: b.heap,
            intrinsics: b.intrinsics,
            names: before.names.push(b.names),
            load: with_loaded(before.load, modules[n - 1].name, id),
        }
    }
}

/// Whether a module can be loaded as the entry module.
pub open spec fn loadable(module: ResolvedModule) -> bool {
    &&& module.canonical_id == ModuleId(0)
    &&& top_level_of(module.callables@, 0) is Some
}

/// The heap after the entry module is seeded, its names, and the locals of its top level.
pub open spec fn entry_seeded(module: ResolvedModule) -> (
    HeapView,
    Seq<(Seq<char>, CellIdx)>,
    Seq<crate::frame::Local>,
) {
    let h = empty_heap().new_type(TypeView::Record(error_schema()));
    let (h1, names) = seeded(h, module.globals@, module.globals@.len());
    let info = module.callables@[top_level_of(module.callables@, 0)->0 as int];
    let (h2, locals) = entry_locals(
        h1,
        info,
        Seq::new(info.slot_count as nat, |i: int| None::<Value>),
        Seq::empty(),
    );
    (h2, names, locals)
}

/// A heap with nothing in it.
pub open spec fn empty_heap() -> HeapView {
    HeapView {
        strings: Seq::empty(),
        bytes: Seq::empty(),
        bigs: Seq::empty(),
        lists: Seq::empty(),
        dicts: Seq::empty(),
        records: Seq::empty(),
        types: Seq::empty(),
        cells: Seq::empty(),
        callables: Seq::empty(),
        foreigns: Seq::empty(),
        allocated: 0,
    }
}

/// What pre-loading the native modules of a registry behind an entry module leaves.
pub open spec fn modules_preloaded(module: ResolvedModule, reg: RegistryView, path: Seq<char>) -> Preloaded {
    let (h, names, locals) = entry_seeded(module);
    preloaded(
        Preloaded {
            heap: h,
            intrinsics: reg.intrinsics,
            names: Seq::empty(),
            load: LoadView::entry(path),
        },
        reg.modules,
        reg.modules.len(),
    )
}

/// Whether an instance is the one that loading a module makes.
pub open spec fn freshly_loaded(
    i: Instance,
    module: ResolvedModule,
    limits: Limits,
    reg: RegistryView,
    path: Seq<char>,
) -> bool {
    let (h, names, locals) = entry_seeded(module);
    let p = modules_preloaded(module, reg, path);
    let prelude = ModuleId((reg.modules.len() + 1) as u32);
    let (heap, prelude_names) = prelude_bound(
        p.heap,
        prelude,
        TypeIdx(0),
        p.intrinsics,
        reg.intrinsics.len(),
    );
    let load = with_loaded(p.load, "prelude"@, prelude);
    &&& i.modules@.len() == reg.modules.len() + 2
    &&& i.modules@[0]@ == (ModView { resolved: module, names, wildcards: seq![prelude] })
    &&& forall|k: int|
        0 <= k < reg.modules.len() ==> {
            &&& (#[trigger] i.modules@[k + 1])@.names == p.names[k]
            &&& i.modules@[k + 1]@.wildcards == Seq::<ModuleId>::empty()
            &&& synthetic(
                i.modules@[k + 1].resolved,
                ModuleId((k + 1) as u32),
                name_list(p.names[k]),
            )
        }
    &&& i.modules@[prelude.0 as int]@.names == prelude_names
    &&& i.modules@[prelude.0 as int]@.wildcards == Seq::<ModuleId>::empty()
    &&& synthetic(i.modules@[prelude.0 as int].resolved, prelude, name_list(prelude_names))
    &&& i.heap@ == heap
    &&& i.machine@ == (MachineView {
        frames: seq![FrameView::top_level(ModuleId(0), locals, module.root, 0)],
        frame_serial: 1,
        ..MachineView::idle(limits, load, TypeIdx(0))
    })
    &&& i.natives@ == (crate::activation::NativesView {
        table: p.intrinsics,
        calls: Seq::empty(),
        output: Seq::empty(),
        pending: None,
    })
    &&& i.handles@ == (TableView { slots: Seq::empty(), free: Seq::empty() })
    &&& i.handles@.wf()
    &&& i.prelude == prelude
    &&& i.state == InstanceState::Ready
    &&& i.gc_threshold == GC_MIN_BYTES
    &&& !i.gc_every_safe_point
    &&& i.finalizations@.len() == 0
    &&& i.directive == Directive::RunToCompletion
    &&& i.breakpoints@ == (crate::breakpoint::BreakpointsView { next_id: 0, entries: Seq::empty() })
    &&& i.safe_point_stmt is None
    &&& i.fine_span is None
    &&& i.observation_mode == ObservationMode::Statement
    &&& !i.raise_trap_enabled
    &&& i.raised_trace is None
    &&& i.aside@.len() == 0
    &&& diagnostics_view(i.load_diagnostics@) == by_start(
        shadowing(module, prelude_names, ModuleId(0), module.globals@.len()),
    )
}

fn no_values(n: u16) -> (r: Vec<Option<Value>>)
    ensures
        r@ == Seq::new(n as nat, |i: int| None::<Value>),
{
    let mut r: Vec<Option<Value>> = Vec::new();
    let mut i: u16 = 0;
    while i < n
        invariant
            i <= n,
            r@ =~= Seq::new(i as nat, |k: int| None::<Value>),
        decreases n - i,
    {
        r.push(None);
        i = i + 1;
    }
    r
}

/// Builds the locals of a module's top level.
pub fn top_level_locals(module: &ResolvedModule, heap: &mut Heap, top: usize) -> (r: Vec<
    crate::frame::Local,
>)
    requires
        top < module.callables@.len(),
    ensures
        (final(heap)@, r@) == entry_locals(
            old(heap)@,
            module.callables@[top as int],
            Seq::new(module.callables@[top as int].slot_count as nat, |i: int| None::<Value>),
            Seq::empty(),
        ),
{
    let raw = no_values(module.callables[top].slot_count);
    let captured: Vec<CellIdx> = Vec::new();
    assert(captured@ =~= Seq::empty());
    local::build(&module.callables[top], heap, &raw, &captured)
}

fn single(name: &str) -> (r: Vec<String>)
    ensures
        texts(r@) == seq![name@],
{
    let mut r: Vec<String> = Vec::new();
    r.push(name.to_owned());
    assert(texts(r@) =~= seq![name@]);
    r
}

fn note_loaded(load: &mut ModuleLoad, name: &str, id: ModuleId)
    ensures
        final(load)@ == with_loaded(old(load)@, name@, id),
{
    let path = single(name);
    load.begin(&path, name, id);
    load.set_state(id, LoadState::Loaded);
}

/// Whether the modules behind the entry module are those of a pre-load.
pub open spec fn modules_match(modules: Seq<LoadedModule>, names: Seq<Seq<(Seq<char>, CellIdx)>>, n: int) -> bool {
    forall|k: int|
        0 <= k < n ==> {
            &&& (#[trigger] modules[k + 1])@.names == names[k]
            &&& modules[k + 1]@.wildcards == Seq::<ModuleId>::empty()
            &&& synthetic(modules[k + 1].resolved, ModuleId((k + 1) as u32), name_list(names[k]))
        }
}

proof fn lemma_preloaded_names(p: Preloaded, modules: Seq<NativeModuleView>, n: nat)
    requires
        n <= modules.len(),
        p.names.len() == 0,
    ensures
        preloaded(p, modules, n).names.len() == n,
    decreases n,
{
    if n > 0 {
        lemma_preloaded_names(p, modules, (n - 1) as nat);
    }
}

fn preload(
    natives: Vec<NativeModule>,
    modules: &mut Vec<LoadedModule>,
    heap: &mut Heap,
    intrinsics: &mut Vec<Intrinsic>,
    load: &mut ModuleLoad,
)
    requires
        old(modules)@.len() == 1,
    ensures
        final(modules)@.len() == natives@.len() + 1,
        final(modules)@[0] == old(modules)@[0],
        ({
            let p = preloaded(
                Preloaded {
                    heap: old(heap)@,
                    intrinsics: intrinsics_view(old(intrinsics)@),
                    names: Seq::empty(),
                    load: old(load)@,
                },
                natives@.map_values(|m: NativeModule| m@),
                natives@.len(),
            );
            &&& final(heap)@ == p.heap
            &&& intrinsics_view(final(intrinsics)@) == p.intrinsics
            &&& final(load)@ == p.load
            &&& modules_match(final(modules)@, p.names, natives@.len() as int)
        }),
{
    let ghost all = natives@;
    let ghost views = natives@.map_values(|m: NativeModule| m@);
    let ghost start = Preloaded {
        heap: heap@,
        intrinsics: intrinsics_view(intrinsics@),
        names: Seq::empty(),
        load: load@,
    };
    let mut rest = natives;
    let n: usize = rest.len();
    let mut i: usize = 0;
    while i < n
        invariant
            i <= n,
            n == all.len(),
            views == all.map_values(|m: NativeModule| m@),
            rest@ == all.skip(i as int),
            modules@.len() == i + 1,
            modules@[0] == old(modules)@[0],
            start.names.len() == 0,
            preloaded(start, views, i as nat) == (Preloaded {
                heap: heap@,
                intrinsics: intrinsics_view(intrinsics@),
                names: preloaded(start, views, i as nat).names,
                load: load@,
            }),
            modules_match(modules@, preloaded(start, views, i as nat).names, i as int),
        decreases n - i,
    {
        let ghost before = rest@;
        let ghost modules_before = modules@;
        let module = rest.remove(0);
        assert(before[0] == all[i as int]);
        assert(rest@ =~= all.skip(i + 1));
        assert(views[i as int] == module@);
        proof {
            lemma_preloaded_names(start, views, i as nat);
        }
        let id = ModuleId((i + 1) as u32);
        let name = module.name.as_str().to_owned();
        let (resolved, namespace) = build_native_module(module, id, heap, intrinsics);
        note_loaded(load, name.as_str(), id);
        let wildcards: Vec<ModuleId> = Vec::new();
        assert(wildcards@ =~= Seq::empty());
        modules.push(LoadedModule { resolved, namespace, wildcards });
        proof {
            let names = preloaded(start, views, (i + 1) as nat).names;
            assert(names =~= preloaded(start, views, i as nat).names.push(
                named_view(namespace@),
            ));
            assert forall|k: int| 0 <= k < i + 1 implies {
                &&& (#[trigger] modules@[k + 1])@.names == names[k]
                &&& modules@[k + 1]@.wildcards == Seq::<ModuleId>::empty()
                &&& synthetic(
                    modules@[k + 1].resolved,
                    ModuleId((k + 1) as u32),
                    name_list(names[k]),
                )
            } by {
                if k < i {
                    assert(modules@[k + 1] == modules_before[k + 1]);
                }
            }
        }
        i = i + 1;
    }
}

impl Instance {
    /// The canonical id of an entry module whose host gives it none.
    pub open spec fn default_path() -> Seq<char> {
        "main"@
    }

    /// Loads a module, if the host expects the Unicode version there is.
    pub fn create(module: ResolvedModule, config: Config) -> (r: Result<Instance, ConfigError>)
        requires
            loadable(module),
        ensures
            (match config.unicode_version {
                Some(v) if v != pinned_version() => r matches Err(e) && e
                    == (ConfigError::UnsupportedUnicodeVersion {
                    requested: v,
                    pinned: pinned_version(),
                }),
                _ => r is Ok && freshly_loaded(
                    r->Ok_0,
                    module,
                    config.limits,
                    (RegistryView { intrinsics: Seq::empty(), modules: Seq::empty() }),
                    Instance::default_path(),
                ),
            }),
    {
        Instance::create_with_module_path(module, config, "main")
    }

    /// The same under a canonical id that the host gives the entry module.
    pub fn create_with_module_path(module: ResolvedModule, config: Config, path: &str) -> (r:
        Result<Instance, ConfigError>)
        requires
            loadable(module),
        ensures
            (match config.unicode_version {
                Some(v) if v != pinned_version() => r matches Err(e) && e
                    == (ConfigError::UnsupportedUnicodeVersion {
                    requested: v,
                    pinned: pinned_version(),
                }),
                _ => r is Ok && freshly_loaded(
                    r->Ok_0,
                    module,
                    config.limits,
                    (RegistryView { intrinsics: Seq::empty(), modules: Seq::empty() }),
                    path@,
                ),
            }),
    {
        if let Some(requested) = config.unicode_version {
            let pinned = Instance::unicode_version();
            if requested != pinned {
                return Err(ConfigError::UnsupportedUnicodeVersion { requested, pinned });
            }
        }
        Ok(Instance::load_full(module, config.limits, Registry::new(), path))
    }

    /// The version of the Unicode standard that texts are composed and segmented by.
    pub fn unicode_version() -> (r: UnicodeVersion)
        ensures
            r == pinned_version(),
    {
        UnicodeVersion { major: 17, minor: 0, update: 0 }
    }

    /// Loads a module under generous limits.
    pub fn load(module: ResolvedModule) -> (r: Instance)
        requires
            loadable(module),
        ensures
            freshly_loaded(
                r,
                module,
                Limits::generous(),
                (RegistryView { intrinsics: Seq::empty(), modules: Seq::empty() }),
                Instance::default_path(),
            ),
    {
        Instance::load_full(module, Limits::standard(), Registry::new(), "main")
    }

    /// Loads a module under the given limits.
    pub fn load_with_limits(module: ResolvedModule, limits: Limits) -> (r: Instance)
        requires
            loadable(module),
        ensures
            freshly_loaded(
                r,
                module,
                limits,
                (RegistryView { intrinsics: Seq::empty(), modules: Seq::empty() }),
                Instance::default_path(),
            ),
    {
        Instance::load_full(module, limits, Registry::new(), "main")
    }

    /// Loads a module with host-registered functions and modules.
    pub fn load_with_intrinsics(module: ResolvedModule, registry: Registry) -> (r: Instance)
        requires
            loadable(module),
            registry@.modules.len() < u32::MAX,
        ensures
            freshly_loaded(
                r,
                module,
                Limits::generous(),
                registry@,
                Instance::default_path(),
            ),
    {
        Instance::load_full(module, Limits::standard(), registry, "main")
    }

    /// Loads a module with host-registered functions and modules, under the given limits.
    pub fn load_with_intrinsics_and_limits(
        module: ResolvedModule,
        limits: Limits,
        registry: Registry,
    ) -> (r: Instance)
        requires
            loadable(module),
            registry@.modules.len() < u32::MAX,
        ensures
            freshly_loaded(r, module, limits, registry@, Instance::default_path()),
    {
        Instance::load_full(module, limits, registry, "main")
    }

    fn load_full(module: ResolvedModule, limits: Limits, registry: Registry, path: &str) -> (r:
        Instance)
        requires
            loadable(module),
            registry@.modules.len() < u32::MAX,
        ensures
            freshly_loaded(r, module, limits, registry@, path@),
    {
        let mut heap = Heap::new();
        let error_type = alloc_error_type(&mut heap);
        let namespace = seed_namespace(&module, &mut heap);
        let top: usize = match module.top_level() {
            Some(t) => t,
            None => 0,
        };
        let locals = top_level_locals(&module, &mut heap, top);
        let root = module.root;
        let mut intrinsics = registry.intrinsics;
        let flat: usize = intrinsics.len();
        let ghost reg = registry@;
        let ghost entry = module;
        let frame = Frame::module_top_level(ModuleId(0), locals, root, 0);
        let mut modules: Vec<LoadedModule> = Vec::new();
        let none: Vec<ModuleId> = Vec::new();
        modules.push(LoadedModule { resolved: module, namespace, wildcards: none });
        let mut load = ModuleLoad::new(path);
        let count: usize = registry.modules.len();
        preload(registry.modules, &mut modules, &mut heap, &mut intrinsics, &mut load);
        let ghost p = modules_preloaded(entry, reg, path@);
        proof {
            lemma_functions_only_grow(
                Preloaded {
                    heap: entry_seeded(entry).0,
                    intrinsics: reg.intrinsics,
                    names: Seq::empty(),
                    load: LoadView::entry(path@),
                },
                reg.modules,
                reg.modules.len(),
            );
            assert(reg.modules.len() == count);
            assert(intrinsics_view(intrinsics@).len() == intrinsics@.len());
        }
        let prelude = ModuleId((count + 1) as u32);
        let (resolved, names) = build_prelude(prelude, &mut heap, error_type, &intrinsics, flat);
        note_loaded(&mut load, "prelude", prelude);
        let shadowed = prelude_shadowing(&modules[0].resolved, &names, ModuleId(0));
        let load_diagnostics = sort_by_start(shadowed);
        let none: Vec<ModuleId> = Vec::new();
        let ghost preloaded_modules = modules@;
        modules.push(LoadedModule { resolved, namespace: names, wildcards: none });
        modules[0].wildcards.push(prelude);
        proof {
            assert(modules@[0]@.wildcards =~= seq![prelude]);
            assert forall|k: int| 0 <= k < reg.modules.len() implies {
                &&& (#[trigger] modules@[k + 1])@.names == p.names[k]
                &&& modules@[k + 1]@.wildcards == Seq::<ModuleId>::empty()
                &&& synthetic(
                    modules@[k + 1].resolved,
                    ModuleId((k + 1) as u32),
                    name_list(p.names[k]),
                )
            } by {
                assert(modules@[k + 1] == preloaded_modules[k + 1]);
            }
            assert(modules@[count as int + 1]@.wildcards =~= Seq::<ModuleId>::empty());
        }
        let mut machine = Machine::new(limits, load, error_type);
        machine.push_frame(frame);
        machine.frame_serial = 1;
        assert(machine@.frames =~= seq![frame@]);
        Instance {
            modules,
            heap,
            machine,
            natives: Natives::new(intrinsics),
            handles: HandleTable::new(),
            prelude,
            state: InstanceState::Ready,
            gc_threshold: GC_MIN_BYTES,
            gc_every_safe_point: false,
            finalizations: Vec::new(),
            cancel: CancelToken::new(),
            host_pause: PauseToken::new(),
            directive: Directive::RunToCompletion,
            breakpoints: Breakpoints::new(),
            safe_point_stmt: None,
            fine_span: None,
            observation_mode: ObservationMode::Statement,
            raise_trap_enabled: false,
            raised_trace: None,
            load_diagnostics,
            aside: Vec::new(),
        }
    }
}

proof fn lemma_functions_only_grow(p: Preloaded, modules: Seq<NativeModuleView>, n: nat)
    requires
        n <= modules.len(),
    ensures
        preloaded(p, modules, n).intrinsics.len() >= p.intrinsics.len(),
    decreases n,
{
    if n > 0 {
        lemma_functions_only_grow(p, modules, (n - 1) as nat);
        let before = preloaded(p, modules, (n - 1) as nat);
        lemma_members_only_grow(
            Built { heap: before.heap, intrinsics: before.intrinsics, names: Seq::empty() },
            ModuleId(n as u32),
            modules[n - 1].members,
            modules[n - 1].members.len(),
        );
    }
}

proof fn lemma_members_only_grow(
    b: Built,
    id: ModuleId,
    members: Seq<(Seq<char>, crate::native::MemberView)>,
    n: nat,
)
    requires
        n <= members.len(),
    ensures
        members_built(b, id, members, n).intrinsics.len() >= b.intrinsics.len(),
    decreases n,
{
    if n > 0 {
        lemma_members_only_grow(b, id, members, (n - 1) as nat);
    }
}

/// A freshly loaded module's own names come with empty cells: reading one before its
/// declaration runs finds nothing.
pub proof fn law_names_start_empty(h: HeapView, globals: Seq<GlobalDecl>, n: nat, i: int)
    requires
        n <= globals.len(),
        0 <= i < n,
        h.cells.len() + n <= usize::MAX,
    ensures
        seeded(h, globals, n).1[i].0 == globals[i].name@,
        seeded(h, globals, n).0.cell_value(seeded(h, globals, n).1[i].1) is None,
        seeded(h, globals, n).1.len() == n,
    decreases n,
{
    lemma_seeded_sizes(h, globals, n);
    lemma_seeded_sizes(h, globals, (n - 1) as nat);
    if i < n - 1 {
        law_names_start_empty(h, globals, (n - 1) as nat, i);
    }
}

proof fn lemma_seeded_sizes(h: HeapView, globals: Seq<GlobalDecl>, n: nat)
    requires
        n <= globals.len(),
        h.cells.len() + n <= usize::MAX,
    ensures
        seeded(h, globals, n).0.cells.len() == h.cells.len() + n,
        seeded(h, globals, n).1.len() == n,
        forall|i: int|
            0 <= i < n ==> (#[trigger] seeded(h, globals, n).1[i]).1.0 == h.cells.len() + i,
    decreases n,
{
    if n > 0 {
        lemma_seeded_sizes(h, globals, (n - 1) as nat);
    }
}

/// Sorted findings begin in order.
pub proof fn law_findings_are_ordered(all: Seq<DiagnosticView>, i: int, j: int)
    requires
        0 <= i < j < by_start(all).len(),
    ensures
        starts_at(by_start(all)[i]) <= starts_at(by_start(all)[j]),
    decreases all.len(),
{
    if all.len() > 0 {
        let before = by_start(all.drop_last());
        assert forall|a: int, b: int| 0 <= a < b < before.len() implies starts_at(before[a])
            <= starts_at(before[b]) by {
            law_findings_are_ordered(all.drop_last(), a, b);
        }
        lemma_sorted_in(before, all.last());
    }
}

proof fn lemma_sorted_in(list: Seq<DiagnosticView>, d: DiagnosticView)
    requires
        forall|a: int, b: int|
            0 <= a < b < list.len() ==> starts_at(list[a]) <= starts_at(list[b]),
    ensures
        sorted_in(list, d).len() == list.len() + 1,
        forall|a: int, b: int|
            0 <= a < b < sorted_in(list, d).len() ==> starts_at(sorted_in(list, d)[a])
                <= starts_at(sorted_in(list, d)[b]),
        forall|a: int|
            0 <= a < sorted_in(list, d).len() ==> starts_at(#[trigger] sorted_in(list, d)[a])
                <= starts_at(d) || list.len() > 0 && starts_at(sorted_in(list, d)[a])
                <= starts_at(list.last()),
    decreases list.len(),
{
    if list.len() > 0 {
        if starts_at(list.last()) > starts_at(d) {
            let rest = list.drop_last();
            lemma_sorted_in(rest, d);
            if rest.len() > 0 {
                assert(starts_at(rest.last()) <= starts_at(list.last()));
            }
        }
    }
}

} // verus!
