//! Which modules are loaded, and under which paths: a module is loaded once, however it is
//! asked for.
use crate::named::find_named;
use crate::named::named;
use crate::named::named_view;
use crate::resolve::contains_text;
use crate::resolve::ResolvedModule;
use crate::span::ModuleId;
use crate::span::Span;
use crate::text::join3;
use crate::text::texts;
use crate::value::CellIdx;
use crate::value::Value;
use vstd::prelude::*;

verus! {

/// A loaded module: what resolution found, the cells of its names, and the modules it
/// imports whole.
pub struct LoadedModule {
    /// What resolution found.
    pub resolved: ResolvedModule,
    /// The cell of each name.
    pub namespace: Vec<(String, CellIdx)>,
    /// The modules imported whole.
    pub wildcards: Vec<ModuleId>,
}

/// How far a module has loaded.
#[derive(Clone, Copy, PartialEq, Eq, Debug, Structural)]
pub enum LoadState {
    /// Its top level is running.
    Loading,
    /// Its top level is done.
    Loaded,
    /// It failed with a value, which importing it again raises again.
    Failed(Value),
}

/// A parked import: what to ask the host for.
#[derive(Debug)]
pub struct PendingImport {
    /// The requested path.
    pub path: Vec<String>,
    /// The importing module.
    pub importer: ModuleId,
    /// Where the import stands.
    pub span: Span,
}

/// The contents of a parked import.
pub struct PendingImportView {
    /// The requested path.
    pub path: Seq<Seq<char>>,
    /// The importing module.
    pub importer: ModuleId,
    /// Where the import stands.
    pub span: Span,
}

impl View for PendingImport {
    type V = PendingImportView;

    open spec fn view(&self) -> PendingImportView {
        PendingImportView { path: texts(self.path@), importer: self.importer, span: self.span }
    }
}

/// What is known of the modules.
pub struct ModuleLoad {
    pub(crate) states: Vec<LoadState>,
    pub(crate) paths: Vec<(String, ModuleId)>,
    pub(crate) canonicals: Vec<(String, ModuleId)>,
    pub(crate) not_modules: Vec<String>,
}

/// What is known of the modules.
pub struct LoadView {
    /// How far each module has loaded.
    pub states: Seq<LoadState>,
    /// The module of each requested path.
    pub paths: Seq<(Seq<char>, ModuleId)>,
    /// The module of each canonical id.
    pub canonicals: Seq<(Seq<char>, ModuleId)>,
    /// The paths that name no module.
    pub not_modules: Seq<Seq<char>>,
}

impl View for ModuleLoad {
    type V = LoadView;

    closed spec fn view(&self) -> LoadView {
        LoadView {
            states: self.states@,
            paths: named_view(self.paths@),
            canonicals: named_view(self.canonicals@),
            not_modules: texts(self.not_modules@),
        }
    }
}

/// A dotted path.
pub open spec fn dotted(path: Seq<Seq<char>>) -> Seq<char>
    decreases path.len(),
{
    if path.len() == 0 {
        Seq::empty()
    } else if path.len() == 1 {
        path[0]
    } else {
        dotted(path.drop_last()) + "."@ + path.last()
    }
}

/// The first path of a module, from a position on.
pub open spec fn path_from(paths: Seq<(Seq<char>, ModuleId)>, module: ModuleId, from: nat) -> Option<
    Seq<char>,
>
    decreases paths.len() - from,
{
    if from >= paths.len() {
        None
    } else if paths[from as int].1 == module {
        Some(paths[from as int].0)
    } else {
        path_from(paths, module, from + 1)
    }
}

/// The values that failed modules keep.
pub open spec fn failures(states: Seq<LoadState>) -> Seq<Value>
    decreases states.len(),
{
    if states.len() == 0 {
        Seq::empty()
    } else {
        let before = failures(states.drop_last());
        match states.last() {
            LoadState::Failed(v) => before.push(v),
            _ => before,
        }
    }
}

impl LoadView {
    /// What is known when only the entry module is there.
    pub open spec fn entry(path: Seq<char>) -> LoadView {
        LoadView {
            states: seq![LoadState::Loading],
            paths: Seq::empty(),
            canonicals: seq![(path, ModuleId(0))],
            not_modules: Seq::empty(),
        }
    }

    /// How far a module has loaded.
    pub open spec fn state(self, module: ModuleId) -> Option<LoadState> {
        if (module.0 as int) < self.states.len() {
            Some(self.states[module.0 as int])
        } else {
            None
        }
    }

    /// The same with a module in another state.
    pub open spec fn with_state(self, module: ModuleId, state: LoadState) -> LoadView {
        if (module.0 as int) < self.states.len() {
            LoadView { states: self.states.update(module.0 as int, state), ..self }
        } else {
            self
        }
    }

    /// The module of a path.
    pub open spec fn module_at(self, path: Seq<Seq<char>>) -> Option<ModuleId> {
        named(self.paths, dotted(path))
    }

    /// The module of a canonical id.
    pub open spec fn module_of(self, canonical: Seq<char>) -> Option<ModuleId> {
        named(self.canonicals, canonical)
    }

    /// A path of a module.
    pub open spec fn path_of(self, module: ModuleId) -> Option<Seq<char>> {
        path_from(self.paths, module, 0)
    }

    /// The canonical id of a module.
    pub open spec fn canonical_of(self, module: ModuleId) -> Option<Seq<char>> {
        path_from(self.canonicals, module, 0)
    }

    /// The same with a module begun under a path and a canonical id.
    pub open spec fn begun(self, path: Seq<Seq<char>>, canonical: Seq<char>, id: ModuleId) -> LoadView {
        LoadView {
            states: self.states.push(LoadState::Loading),
            paths: self.paths.push((dotted(path), id)),
            canonicals: self.canonicals.push((canonical, id)),
            ..self
        }
    }

    /// The same with a further path of a module.
    pub open spec fn aliased(self, path: Seq<Seq<char>>, id: ModuleId) -> LoadView {
        LoadView { paths: self.paths.push((dotted(path), id)), ..self }
    }

    /// The same with a path known to name no module.
    pub open spec fn missed(self, path: Seq<Seq<char>>) -> LoadView {
        LoadView { not_modules: self.not_modules.push(dotted(path)), ..self }
    }

    /// Whether a path is known to name no module.
    pub open spec fn not_module(self, path: Seq<Seq<char>>) -> bool {
        self.not_modules.contains(dotted(path))
    }
}

/// A dotted path.
pub fn join_path(path: &Vec<String>) -> (r: String)
    ensures
        r@ == dotted(texts(path@)),
{
    if path.len() == 0 {
        proof {
            reveal_strlit("");
            assert(""@ =~= Seq::<char>::empty());
        }
        return "".to_owned();
    }
    let mut r = path[0].as_str().to_owned();
    let mut i: usize = 1;
    proof {
        assert(texts(path@).take(1) =~= seq![path@[0]@]);
    }
    while i < path.len()
        invariant
            1 <= i <= path@.len(),
            r@ == dotted(texts(path@).take(i as int)),
        decreases path@.len() - i,
    {
        proof {
            assert(texts(path@).take(i + 1).drop_last() =~= texts(path@).take(i as int));
        }
        r = join3(r.as_str(), ".", path[i].as_str());
        i = i + 1;
    }
    assert(texts(path@).take(i as int) =~= texts(path@));
    r
}

impl ModuleLoad {
    /// What is known when only the entry module is there: its top level is running.
    pub fn new(entry_path: &str) -> (r: ModuleLoad)
        ensures
            r@ == LoadView::entry(entry_path@),
    {
        let mut states: Vec<LoadState> = Vec::new();
        states.push(LoadState::Loading);
        let mut canonicals: Vec<(String, ModuleId)> = Vec::new();
        canonicals.push((entry_path.to_owned(), ModuleId(0)));
        let r = ModuleLoad { states, paths: Vec::new(), canonicals, not_modules: Vec::new() };
        proof {
            let v = LoadView::entry(entry_path@);
            assert(r@.states =~= v.states);
            assert(r@.paths =~= v.paths);
            assert(r@.canonicals =~= v.canonicals);
            assert(r@.not_modules =~= v.not_modules);
        }
        r
    }

    /// How far a module has loaded.
    pub fn state(&self, module: ModuleId) -> (r: Option<LoadState>)
        ensures
            r == self@.state(module),
    {
        if (module.0 as usize) < self.states.len() {
            Some(self.states[module.0 as usize])
        } else {
            None
        }
    }

    /// Puts a module in a state.
    pub fn set_state(&mut self, module: ModuleId, state: LoadState)
        ensures
            final(self)@ == old(self)@.with_state(module, state),
    {
        if (module.0 as usize) < self.states.len() {
            self.states.set(module.0 as usize, state);
        }
    }

    /// The module of a path.
    pub fn by_path(&self, path: &Vec<String>) -> (r: Option<ModuleId>)
        ensures
            r == self@.module_at(texts(path@)),
    {
        let key = join_path(path);
        find_named(&self.paths, key.as_str())
    }

    /// The module of a canonical id.
    pub fn by_canonical(&self, canonical: &str) -> (r: Option<ModuleId>)
        ensures
            r == self@.module_of(canonical@),
    {
        find_named(&self.canonicals, canonical)
    }

    /// Begins a module under a path and a canonical id.
    pub fn begin(&mut self, path: &Vec<String>, canonical: &str, id: ModuleId)
        ensures
            final(self)@ == old(self)@.begun(texts(path@), canonical@, id),
    {
        self.states.push(LoadState::Loading);
        self.paths.push((join_path(path), id));
        self.canonicals.push((canonical.to_owned(), id));
        proof {
            let v = old(self)@.begun(texts(path@), canonical@, id);
            assert(self@.paths =~= v.paths);
            assert(self@.canonicals =~= v.canonicals);
        }
    }

    /// Adds a further path of a module.
    pub fn alias_path(&mut self, path: &Vec<String>, id: ModuleId)
        ensures
            final(self)@ == old(self)@.aliased(texts(path@), id),
    {
        self.paths.push((join_path(path), id));
        assert(self@.paths =~= old(self)@.aliased(texts(path@), id).paths);
    }

    /// A path of a module.
    pub fn path_of(&self, module: ModuleId) -> (r: Option<String>)
        ensures
            (match r {
                Some(p) => self@.path_of(module) == Some(p@),
                None => self@.path_of(module) is None,
            }),
    {
        let mut i: usize = 0;
        while i < self.paths.len()
            invariant
                i <= self.paths@.len(),
                self@.path_of(module) == path_from(self@.paths, module, i as nat),
            decreases self.paths@.len() - i,
        {
            if self.paths[i].1 == module {
                return Some(self.paths[i].0.as_str().to_owned());
            }
            i = i + 1;
        }
        None
    }

    /// The canonical id of a module.
    pub fn canonical_of(&self, module: ModuleId) -> (r: Option<&str>)
        ensures
            (match r {
                Some(p) => self@.canonical_of(module) == Some(p@),
                None => self@.canonical_of(module) is None,
            }),
    {
        let mut i: usize = 0;
        while i < self.canonicals.len()
            invariant
                i <= self.canonicals@.len(),
                self@.canonical_of(module) == path_from(self@.canonicals, module, i as nat),
            decreases self.canonicals@.len() - i,
        {
            if self.canonicals[i].1 == module {
                return Some(self.canonicals[i].0.as_str());
            }
            i = i + 1;
        }
        None
    }

    /// Notes that a path names no module.
    pub fn mark_not_module(&mut self, path: &Vec<String>)
        ensures
            final(self)@ == old(self)@.missed(texts(path@)),
    {
        self.not_modules.push(join_path(path));
        assert(self@.not_modules =~= old(self)@.missed(texts(path@)).not_modules);
    }

    /// Whether a path is known to name no module.
    pub fn is_not_module(&self, path: &Vec<String>) -> (r: bool)
        ensures
            r == self@.not_module(texts(path@)),
    {
        let key = join_path(path);
        let r = contains_text(&self.not_modules, key.as_str());
        proof {
            let all = texts(self.not_modules@);
            if r {
                let i = choose|i: int|
                    0 <= i < self.not_modules@.len() && (#[trigger] self.not_modules@[i])@ == key@;
                assert(all[i] == key@);
            }
            if all.contains(key@) {
                let i = choose|i: int| 0 <= i < all.len() && all[i] == key@;
                assert(self.not_modules@[i]@ == key@);
            }
        }
        r
    }

    /// The values that failed modules keep.
    pub fn failed_values(&self) -> (r: Vec<Value>)
        ensures
            r@ == failures(self@.states),
    {
        let mut r: Vec<Value> = Vec::new();
        let mut i: usize = 0;
        assert(self.states@.take(0) =~= Seq::empty());
        while i < self.states.len()
            invariant
                i <= self.states@.len(),
                r@ == failures(self.states@.take(i as int)),
            decreases self.states@.len() - i,
        {
            assert(self.states@.take(i + 1).drop_last() =~= self.states@.take(i as int));
            if let LoadState::Failed(v) = self.states[i] {
                r.push(v);
            }
            i = i + 1;
        }
        assert(self.states@.take(i as int) =~= self.states@);
        r
    }
}

/// A module begun under a canonical id is the one found under it ever after, whatever else
/// is begun, and by the first path it was asked for under.
pub proof fn law_modules_are_singletons(
    load: LoadView,
    path: Seq<Seq<char>>,
    canonical: Seq<char>,
    id: ModuleId,
    other_path: Seq<Seq<char>>,
    other: Seq<char>,
    other_id: ModuleId,
)
    requires
        load.module_of(canonical) is None,
        load.module_at(path) is None,
    ensures
        load.begun(path, canonical, id).module_of(canonical) == Some(id),
        load.begun(path, canonical, id).module_at(path) == Some(id),
        load.begun(path, canonical, id).begun(other_path, other, other_id).module_of(canonical)
            == Some(id),
        load.begun(path, canonical, id).begun(other_path, other, other_id).module_at(path) == Some(
            id,
        ),
        load.begun(path, canonical, id).aliased(other_path, other_id).module_at(path) == Some(id),
{
    let one = load.begun(path, canonical, id);
    crate::named::law_first_of_a_name_wins(load.canonicals, (canonical, id), canonical);
    crate::named::law_first_of_a_name_wins(load.paths, (dotted(path), id), dotted(path));
    crate::named::law_first_of_a_name_wins(one.canonicals, (other, other_id), canonical);
    crate::named::law_first_of_a_name_wins(
        one.paths,
        (dotted(other_path), other_id),
        dotted(path),
    );
}

} // verus!
