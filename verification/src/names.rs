//! Names: which cell a name means, across a module's own names and the modules it imports
//! whole, and the exceptions for names that mean nothing.
use crate::ast::Node;
use crate::ast::NodeId;
use crate::error::details_view;
use crate::error::result_view;
use crate::error::DetailVal;
use crate::error::DetailView;
use crate::error::ExceptionKind;
use crate::error::Raise;
use crate::error::RaiseView;
use crate::exception::one_text;
use crate::exception::strs;
use crate::exception::text_detail;
use crate::exception::text_details;
use crate::exception::text_pair_detail;
use crate::exception::two_texts;
use crate::heap::CellKind;
use crate::heap::Heap;
use crate::heap::HeapView;
use crate::modload::LoadView;
use crate::modload::LoadedModule;
use crate::modload::ModuleLoad;
use crate::named::find_named;
use crate::named::named;
use crate::named::named_view;
use crate::resolve::Membership;
use crate::resolve::ResolvedModule;
use crate::span::ModuleId;
use crate::span::Span;
use crate::text::join3;
use crate::text::join5;
use crate::text::join7;
use crate::text::texts;
use crate::value::CellIdx;
use crate::value::Value;
use vstd::prelude::*;

verus! {

/// The cell of a name of a module.
pub open spec fn own_cell(modules: Seq<LoadedModule>, module: int, name: Seq<char>) -> Option<
    CellIdx,
> {
    if 0 <= module < modules.len() {
        named(named_view(modules[module].namespace@), name)
    } else {
        None
    }
}

/// The cell of a name.
pub fn find_cell(namespace: &Vec<(String, CellIdx)>, name: &str) -> (r: Option<CellIdx>)
    ensures
        r == named(named_view(namespace@), name@),
{
    find_named(namespace, name)
}

/// The raise for a name without a binding.
pub open spec fn undefined_raise(name: Seq<char>, span: Span) -> RaiseView {
    RaiseView::new(
        ExceptionKind::NameNotDefined,
        "`"@ + name + "` isn't defined"@,
        span,
    ).with(one_text("name"@, name))
}

/// The raise for a name without a binding.
pub fn name_not_defined(name: &str, span: Span) -> (r: Raise)
    ensures
        r@ == undefined_raise(name@, span),
{
    Raise::new(
        ExceptionKind::NameNotDefined,
        join3("`", name, "` isn't defined"),
        span,
    ).with_details(text_detail("name", name))
}

/// The raise for a binding used before its declaration ran.
pub open spec fn early_raise(name: Seq<char>, span: Span) -> RaiseView {
    RaiseView::new(
        ExceptionKind::UsedBeforeDefined,
        "`"@ + name + "` is used here before it's defined"@,
        span,
    ).with(one_text("name"@, name))
}

/// The raise for a binding used before its declaration ran.
pub fn used_before_defined(name: &str, span: Span) -> (r: Raise)
    ensures
        r@ == early_raise(name@, span),
{
    Raise::new(
        ExceptionKind::UsedBeforeDefined,
        join3("`", name, "` is used here before it's defined"),
        span,
    ).with_details(text_detail("name", name))
}

/// What reading a cell gives.
pub open spec fn cell_reading(h: HeapView, cell: Option<CellIdx>, name: Seq<char>, span: Span) -> Result<
    Value,
    RaiseView,
> {
    match cell {
        Some(c) => match h.cell_value(c) {
            Some(v) => Ok(v),
            None => Err(early_raise(name, span)),
        },
        None => Err(undefined_raise(name, span)),
    }
}

/// Reads a cell.
pub fn read_cell(heap: &Heap, cell: Option<CellIdx>, name: &str, span: Span) -> (r: Result<
    Value,
    Raise,
>)
    ensures
        result_view(r) == cell_reading(heap@, cell, name@, span),
{
    match cell {
        Some(c) => match heap.cell_value(c) {
            Some(v) => Ok(v),
            None => Err(used_before_defined(name, span)),
        },
        None => Err(name_not_defined(name, span)),
    }
}

/// What a name means across the modules imported whole.
#[allow(inconsistent_fields)]
#[derive(Clone, Copy, PartialEq, Eq, Debug, Structural)]
pub enum Wildcard {
    /// One binding.
    Bound(CellIdx),
    /// Two bindings, of two modules.
    Ambiguous(ModuleId, ModuleId),
    /// None; perhaps a module keeps the name private.
    Absent(Option<ModuleId>),
}

/// Whether a binding is among some.
pub open spec fn has_cell(hits: Seq<(ModuleId, CellIdx)>, cell: CellIdx) -> bool {
    exists|i: int| 0 <= i < hits.len() && (#[trigger] hits[i]).1 == cell
}

/// Whether a module shows a name.
pub open spec fn membership(modules: Seq<LoadedModule>, w: ModuleId, name: Seq<char>) -> Membership {
    if (w.0 as int) < modules.len() {
        modules[w.0 as int].resolved.visibility(name)
    } else {
        Membership::Absent
    }
}

/// The distinct bindings of a name that the first `n` of some modules export.
pub open spec fn exported_hits(
    modules: Seq<LoadedModule>,
    sources: Seq<ModuleId>,
    name: Seq<char>,
    n: nat,
) -> Seq<(ModuleId, CellIdx)>
    decreases n,
{
    if n == 0 || n > sources.len() {
        Seq::empty()
    } else {
        let before = exported_hits(modules, sources, name, (n - 1) as nat);
        let w = sources[n - 1];
        match (membership(modules, w, name), own_cell(modules, w.0 as int, name)) {
            (Membership::Exported, Some(cell)) => if has_cell(before, cell) {
                before
            } else {
                before.push((w, cell))
            },
            _ => before,
        }
    }
}

/// The first of some modules that keeps a name private.
pub open spec fn private_holder(
    modules: Seq<LoadedModule>,
    sources: Seq<ModuleId>,
    name: Seq<char>,
    n: nat,
) -> Option<ModuleId>
    decreases n,
{
    if n == 0 || n > sources.len() {
        None
    } else {
        match private_holder(modules, sources, name, (n - 1) as nat) {
            Some(w) => Some(w),
            None => if membership(modules, sources[n - 1], name) == Membership::Private {
                Some(sources[n - 1])
            } else {
                None
            },
        }
    }
}

/// What a name means across the modules that a module imports whole.
pub open spec fn wildcard_meaning(modules: Seq<LoadedModule>, cur: int, name: Seq<char>) -> Wildcard {
    if 0 <= cur < modules.len() {
        let sources = modules[cur].wildcards@;
        let hits = exported_hits(modules, sources, name, sources.len());
        if hits.len() == 0 {
            Wildcard::Absent(private_holder(modules, sources, name, sources.len()))
        } else if hits.len() == 1 {
            Wildcard::Bound(hits[0].1)
        } else {
            Wildcard::Ambiguous(hits[0].0, hits[1].0)
        }
    } else {
        Wildcard::Absent(None)
    }
}

fn hit_among(hits: &Vec<(ModuleId, CellIdx)>, cell: CellIdx) -> (r: bool)
    ensures
        r == has_cell(hits@, cell),
{
    let mut i: usize = 0;
    while i < hits.len()
        invariant
            i <= hits@.len(),
            forall|k: int| 0 <= k < i ==> (#[trigger] hits@[k]).1 != cell,
        decreases hits@.len() - i,
    {
        if hits[i].1 == cell {
            assert(hits@[i as int].1 == cell);
            return true;
        }
        i = i + 1;
    }
    false
}

/// What a name means across the modules that a module imports whole: one module's cell
/// reached twice is one binding.
pub fn wildcard_resolve(modules: &Vec<LoadedModule>, cur: usize, name: &str) -> (r: Wildcard)
    ensures
        r == wildcard_meaning(modules@, cur as int, name@),
{
    if cur >= modules.len() {
        return Wildcard::Absent(None);
    }
    let sources = &modules[cur].wildcards;
    let mut hits: Vec<(ModuleId, CellIdx)> = Vec::new();
    let mut private_in: Option<ModuleId> = None;
    let mut i: usize = 0;
    while i < sources.len()
        invariant
            i <= sources@.len(),
            hits@ == exported_hits(modules@, sources@, name@, i as nat),
            private_in == private_holder(modules@, sources@, name@, i as nat),
        decreases sources@.len() - i,
    {
        let w = sources[i];
        if (w.0 as usize) < modules.len() {
            let m = &modules[w.0 as usize];
            match m.resolved.member_visibility(name) {
                Membership::Exported => {
                    if let Some(cell) = find_cell(&m.namespace, name) {
                        if !hit_among(&hits, cell) {
                            hits.push((w, cell));
                        }
                    }
                },
                Membership::Private => {
                    if private_in.is_none() {
                        private_in = Some(w);
                    }
                },
                Membership::Absent => {},
            }
        }
        i = i + 1;
    }
    if hits.len() == 0 {
        Wildcard::Absent(private_in)
    } else if hits.len() == 1 {
        Wildcard::Bound(hits[0].1)
    } else {
        Wildcard::Ambiguous(hits[0].0, hits[1].0)
    }
}

/// A module's path, or another text where it has none.
pub open spec fn path_or(load: LoadView, module: ModuleId, other: Seq<char>) -> Seq<char> {
    match load.path_of(module) {
        Some(p) => p,
        None => other,
    }
}

fn path_or_else(load: &ModuleLoad, module: ModuleId, other: &str) -> (r: String)
    ensures
        r@ == path_or(load@, module, other@),
{
    match load.path_of(module) {
        Some(p) => p,
        None => other.to_owned(),
    }
}

/// A module as a message names it.
pub fn module_display(load: &ModuleLoad, module: ModuleId) -> (r: String)
    ensures
        r@ == path_or(load@, module, "this module"@),
{
    path_or_else(load, module, "this module")
}

/// The raise for a name that two modules supply.
pub open spec fn ambiguous_raise(name: Seq<char>, a: Seq<char>, b: Seq<char>, span: Span) -> RaiseView {
    RaiseView::new(
        ExceptionKind::AmbiguousImport,
        "`"@ + name + "` is imported by wildcards from both `"@ + a + "` and `"@ + b
            + "` — import it explicitly to say which one you mean"@,
        span,
    ).with(seq![("name"@, DetailView::Str(name)), ("modules"@, text_details(seq![a, b]))])
}

fn ambiguous_import(load: &ModuleLoad, name: &str, a: ModuleId, b: ModuleId, span: Span) -> (r:
    Raise)
    ensures
        r@ == ambiguous_raise(name@, path_or(load@, a, "?"@), path_or(load@, b, "?"@), span),
{
    let fa = path_or_else(load, a, "?");
    let fb = path_or_else(load, b, "?");
    let message = join7(
        "`",
        name,
        "` is imported by wildcards from both `",
        fa.as_str(),
        "` and `",
        fb.as_str(),
        "` — import it explicitly to say which one you mean",
    );
    let ghost both = seq![fa@, fb@];
    let mut modules: Vec<String> = Vec::new();
    modules.push(fa);
    modules.push(fb);
    assert(texts(modules@) =~= both);
    let mut details: Vec<(&'static str, DetailVal)> = Vec::new();
    details.push(("name", DetailVal::Str(name.to_owned())));
    details.push(("modules", strs(modules)));
    assert(details_view(details@) =~= seq![
        ("name"@, DetailView::Str(name@)),
        ("modules"@, text_details(both)),
    ]);
    Raise::new(ExceptionKind::AmbiguousImport, message, span).with_details(details)
}

/// The raise for a member that its module keeps private.
pub open spec fn private_raise(module: Seq<char>, member: Seq<char>, span: Span) -> RaiseView {
    RaiseView::new(
        ExceptionKind::NotExported,
        "`"@ + member + "` is private to module `"@ + module + "` — add it to `"@ + module
            + "`'s `exports` to use it here"@,
        span,
    ).with(two_texts("module"@, module, "member"@, member))
}

/// The raise for a member that its module keeps private.
pub fn not_exported(module: &str, member: &str, span: Span) -> (r: Raise)
    ensures
        r@ == private_raise(module@, member@, span),
{
    Raise::new(
        ExceptionKind::NotExported,
        join7(
            "`",
            member,
            "` is private to module `",
            module,
            "` — add it to `",
            module,
            "`'s `exports` to use it here",
        ),
        span,
    ).with_details(text_pair_detail("module", module, "member", member))
}

/// The raise for a member that its module does not declare.
pub open spec fn memberless_raise(module: Seq<char>, member: Seq<char>, span: Span) -> RaiseView {
    RaiseView::new(
        ExceptionKind::NoSuchMember,
        "module `"@ + module + "` has no member `"@ + member + "`"@,
        span,
    ).with(two_texts("module"@, module, "member"@, member))
}

/// The raise for a member that its module does not declare.
pub fn no_such_member(module: &str, member: &str, span: Span) -> (r: Raise)
    ensures
        r@ == memberless_raise(module@, member@, span),
{
    Raise::new(
        ExceptionKind::NoSuchMember,
        join5("module `", module, "` has no member `", member, "`"),
        span,
    ).with_details(text_pair_detail("module", module, "member", member))
}

/// The cell a name means where the module itself has none of that name.
pub open spec fn wildcard_finding(
    modules: Seq<LoadedModule>,
    cur: int,
    load: LoadView,
    name: Seq<char>,
    span: Span,
) -> Result<CellIdx, RaiseView> {
    match wildcard_meaning(modules, cur, name) {
        Wildcard::Bound(cell) => Ok(cell),
        Wildcard::Ambiguous(a, b) => Err(
            ambiguous_raise(name, path_or(load, a, "?"@), path_or(load, b, "?"@), span),
        ),
        Wildcard::Absent(Some(w)) => Err(
            private_raise(path_or(load, w, "this module"@), name, span),
        ),
        Wildcard::Absent(None) => Err(undefined_raise(name, span)),
    }
}

fn wildcard_cell(
    modules: &Vec<LoadedModule>,
    cur: usize,
    load: &ModuleLoad,
    name: &str,
    span: Span,
) -> (r: Result<CellIdx, Raise>)
    ensures
        result_view(r) == wildcard_finding(modules@, cur as int, load@, name@, span),
{
    match wildcard_resolve(modules, cur, name) {
        Wildcard::Bound(cell) => Ok(cell),
        Wildcard::Ambiguous(a, b) => Err(ambiguous_import(load, name, a, b, span)),
        Wildcard::Absent(Some(w)) => Err(
            not_exported(module_display(load, w).as_str(), name, span),
        ),
        Wildcard::Absent(None) => Err(name_not_defined(name, span)),
    }
}

/// The cell a free name means: the module's own, else one imported whole.
pub open spec fn free_cell(
    modules: Seq<LoadedModule>,
    cur: int,
    load: LoadView,
    name: Seq<char>,
    span: Span,
) -> Result<CellIdx, RaiseView> {
    match own_cell(modules, cur, name) {
        Some(cell) => Ok(cell),
        None => wildcard_finding(modules, cur, load, name, span),
    }
}

fn find_free(
    modules: &Vec<LoadedModule>,
    cur: usize,
    load: &ModuleLoad,
    name: &str,
    span: Span,
) -> (r: Result<CellIdx, Raise>)
    ensures
        result_view(r) == free_cell(modules@, cur as int, load@, name@, span),
{
    if cur < modules.len() {
        if let Some(cell) = find_cell(&modules[cur].namespace, name) {
            return Ok(cell);
        }
    }
    wildcard_cell(modules, cur, load, name, span)
}

/// What reading a free name gives.
pub open spec fn free_reading(
    modules: Seq<LoadedModule>,
    cur: int,
    load: LoadView,
    h: HeapView,
    name: Seq<char>,
    span: Span,
) -> Result<Value, RaiseView> {
    match free_cell(modules, cur, load, name, span) {
        Ok(cell) => cell_reading(h, Some(cell), name, span),
        Err(e) => Err(e),
    }
}

/// Reads a free name.
pub fn lookup_free(
    modules: &Vec<LoadedModule>,
    cur: usize,
    load: &ModuleLoad,
    heap: &Heap,
    name: &str,
    span: Span,
) -> (r: Result<Value, Raise>)
    ensures
        result_view(r) == free_reading(modules@, cur as int, load@, heap@, name@, span),
{
    match find_free(modules, cur, load, name, span) {
        Ok(cell) => read_cell(heap, Some(cell), name, span),
        Err(e) => Err(e),
    }
}

/// The raise for a `with` over what is no dynamic parameter.
pub open spec fn not_parameter_raise(name: Seq<char>, kind: CellKind, span: Span) -> RaiseView {
    let (what, slug) = match kind {
        CellKind::Const => ("a constant"@, "constant"@),
        CellKind::Let => ("a variable"@, "variable"@),
        CellKind::Dispatcher(_) => ("a protocol member"@, "protocol-member"@),
        CellKind::Parameter => ("a dynamic parameter"@, "parameter"@),
    };
    RaiseView::new(
        ExceptionKind::WithTargetNotParameter,
        "`"@ + name + "` is "@ + what
            + ", not a dynamic parameter — `with` needs a parameter"@,
        span,
    ).with(two_texts("name"@, name, "kind"@, slug))
}

fn with_target_not_parameter(name: &str, kind: CellKind, span: Span) -> (r: Raise)
    ensures
        r@ == not_parameter_raise(name@, kind, span),
{
    let (what, slug) = match kind {
        CellKind::Const => ("a constant", "constant"),
        CellKind::Let => ("a variable", "variable"),
        CellKind::Dispatcher(_) => ("a protocol member", "protocol-member"),
        CellKind::Parameter => ("a dynamic parameter", "parameter"),
    };
    let message = join5(
        "`",
        name,
        "` is ",
        what,
        ", not a dynamic parameter — `with` needs a parameter",
    );
    Raise::new(ExceptionKind::WithTargetNotParameter, message, span).with_details(
        text_pair_detail("name", name, "kind", slug),
    )
}

/// The cell a `with` rebinds, and its value now.
pub open spec fn parameter_reading(
    modules: Seq<LoadedModule>,
    cur: int,
    load: LoadView,
    h: HeapView,
    name: Seq<char>,
    span: Span,
) -> Result<(CellIdx, Value), RaiseView> {
    match free_cell(modules, cur, load, name, span) {
        Err(e) => Err(e),
        Ok(cell) => match h.cell(cell) {
            None => Err(undefined_raise(name, span)),
            Some(c) => if c.kind != CellKind::Parameter {
                Err(not_parameter_raise(name, c.kind, span))
            } else {
                match c.value {
                    Some(v) => Ok((cell, v)),
                    None => Err(early_raise(name, span)),
                }
            },
        },
    }
}

/// The cell a `with` rebinds, and its value now; the name has to mean a dynamic parameter.
pub fn param_cell(
    modules: &Vec<LoadedModule>,
    cur: usize,
    load: &ModuleLoad,
    heap: &Heap,
    name: &str,
    span: Span,
) -> (r: Result<(CellIdx, Value), Raise>)
    ensures
        result_view(r) == parameter_reading(modules@, cur as int, load@, heap@, name@, span),
{
    match find_free(modules, cur, load, name, span) {
        Err(e) => Err(e),
        Ok(cell) => match heap.cell(cell) {
            None => Err(name_not_defined(name, span)),
            Some(c) => {
                if c.kind != CellKind::Parameter {
                    return Err(with_target_not_parameter(name, c.kind, span));
                }
                match c.value {
                    Some(v) => Ok((cell, v)),
                    None => Err(used_before_defined(name, span)),
                }
            },
        },
    }
}

/// The name a reference spells.
pub open spec fn ident_text(resolved: ResolvedModule, node: NodeId) -> Seq<char> {
    match resolved.node_at(node) {
        Some(Node::Ident(name)) => name@,
        _ => "the name"@,
    }
}

/// The name a reference spells.
pub fn ident_name(resolved: &ResolvedModule, node: NodeId) -> (r: &str)
    ensures
        r@ == ident_text(*resolved, node),
{
    match resolved.ast.node(node) {
        Some(Node::Ident(name)) => name.as_str(),
        _ => "the name",
    }
}

/// The name a declaration binds.
pub open spec fn declared_name(resolved: ResolvedModule, decl: NodeId) -> Option<Seq<char>> {
    match resolved.node_at(decl) {
        Some(Node::Let { name, .. }) => Some(name@),
        Some(Node::Const { name, .. }) => Some(name@),
        Some(Node::Parameter { name, .. }) => Some(name@),
        Some(Node::Callable { name: Some(name), .. }) => Some(name@),
        Some(Node::Record { name, .. }) => Some(name@),
        _ => None,
    }
}

/// The name a declaration binds.
pub fn decl_name(resolved: &ResolvedModule, decl: NodeId) -> (r: Option<&str>)
    ensures
        (match r {
            Some(s) => declared_name(*resolved, decl) == Some(s@),
            None => declared_name(*resolved, decl) is None,
        }),
{
    match resolved.ast.node(decl) {
        Some(Node::Let { name, .. }) => Some(name.as_str()),
        Some(Node::Const { name, .. }) => Some(name.as_str()),
        Some(Node::Parameter { name, .. }) => Some(name.as_str()),
        Some(Node::Callable { name: Some(name), .. }) => Some(name.as_str()),
        Some(Node::Record { name, .. }) => Some(name.as_str()),
        _ => None,
    }
}

/// A module's own declaration hides whatever its imports supply under that name.
pub proof fn law_own_names_hide_imports(
    modules: Seq<LoadedModule>,
    cur: int,
    load: LoadView,
    h: HeapView,
    name: Seq<char>,
    span: Span,
)
    requires
        own_cell(modules, cur, name) is Some,
    ensures
        free_reading(modules, cur, load, h, name, span) == cell_reading(
            h,
            own_cell(modules, cur, name),
            name,
            span,
        ),
{
}

} // verus!
