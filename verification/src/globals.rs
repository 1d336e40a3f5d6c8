//! The module-level names of a module and their current values, for a host that shows them.
use crate::handle::Handle;
use crate::heap::HeapView;
use crate::instance::result_given;
use crate::instance::Instance;
use crate::modload::LoadedModule;
use crate::names::find_cell;
use crate::names::own_cell;
use crate::resolve::GlobalDecl;
use crate::resolve::GlobalKind;
use crate::value::Value;
use vstd::prelude::*;

verus! {

/// A module-level name.
#[derive(Debug)]
pub struct GlobalBinding {
    /// The name.
    pub name: String,
    /// What it declares.
    pub kind: GlobalKind,
    /// Its place in declaration order.
    pub slot: usize,
}

/// A module-level name, as mathematics sees it.
pub struct GlobalBindingView {
    /// The name.
    pub name: Seq<char>,
    /// What it declares.
    pub kind: GlobalKind,
    /// Its place in declaration order.
    pub slot: int,
}

impl View for GlobalBinding {
    type V = GlobalBindingView;

    open spec fn view(&self) -> GlobalBindingView {
        GlobalBindingView { name: self.name@, kind: self.kind, slot: self.slot as int }
    }
}

/// The contents of some module-level names.
pub open spec fn bindings_view(all: Seq<GlobalBinding>) -> Seq<GlobalBindingView> {
    all.map_values(|b: GlobalBinding| b@)
}

/// Some declarations, each with its place.
pub open spec fn numbered(globals: Seq<GlobalDecl>) -> Seq<GlobalBindingView> {
    globals.map(
        |i: int, g: GlobalDecl| GlobalBindingView { name: g.name@, kind: g.kind, slot: i },
    )
}

/// The module-level names of a module; none of one that there is not.
pub open spec fn global_list(modules: Seq<LoadedModule>, module: int) -> Seq<GlobalBindingView> {
    if module < modules.len() {
        numbered(modules[module].resolved.globals@)
    } else {
        Seq::empty()
    }
}

/// The value that a module-level name has now: none before its declaration has run.
pub open spec fn global_value(modules: Seq<LoadedModule>, h: HeapView, module: int, slot: int) -> Option<
    Value,
> {
    if module < modules.len() && slot < modules[module].resolved.globals@.len() {
        match own_cell(modules, module, modules[module].resolved.globals@[slot].name@) {
            Some(cell) => h.cell_value(cell),
            None => None,
        }
    } else {
        None
    }
}

impl Instance {
    /// The module-level names of a module, in declaration order.
    pub fn module_global_names(&self, module: usize) -> (r: Vec<GlobalBinding>)
        ensures
            bindings_view(r@) == global_list(self.modules@, module as int),
    {
        let mut r: Vec<GlobalBinding> = Vec::new();
        if module >= self.modules.len() {
            assert(bindings_view(r@) =~= Seq::empty());
            return r;
        }
        let globals = &self.modules[module].resolved.globals;
        let mut i: usize = 0;
        assert(bindings_view(r@) =~= numbered(globals@).take(0));
        while i < globals.len()
            invariant
                i <= globals@.len(),
                bindings_view(r@) == numbered(globals@).take(i as int),
            decreases globals@.len() - i,
        {
            let ghost before = r@;
            let b = GlobalBinding {
                name: globals[i].name.as_str().to_owned(),
                kind: globals[i].kind,
                slot: i,
            };
            r.push(b);
            assert(bindings_view(r@) =~= bindings_view(before).push(b@));
            assert(numbered(globals@)[i as int] == b@);
            assert(bindings_view(r@) =~= numbered(globals@).take(i + 1));
            i = i + 1;
        }
        assert(numbered(globals@).take(i as int) =~= numbered(globals@));
        r
    }

    /// Gives the value that a module-level name has now a handle.
    pub fn module_global_value(&mut self, module: usize, slot: usize) -> (r: Option<Handle>)
        requires
            old(self).ready(),
        ensures
            final(self).handles@.wf(),
            result_given(
                old(self).handles@,
                final(self).handles@,
                global_value(
                    old(self).modules@,
                    old(self).heap@,
                    module as int,
                    slot as int,
                ),
                r,
            ),
            *final(self) == (Instance { handles: final(self).handles, ..*old(self) }),
    {
        if module >= self.modules.len() || slot >= self.modules[module].resolved.globals.len() {
            return None;
        }
        let name = self.modules[module].resolved.globals[slot].name.as_str();
        let cell = match find_cell(&self.modules[module].namespace, name) {
            Some(c) => c,
            None => {
                return None;
            },
        };
        match self.heap.cell_value(cell) {
            Some(v) => Some(self.handles.intern(v)),
            None => None,
        }
    }
}

} // verus!
