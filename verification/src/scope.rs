//! The names in scope in a frame of a stopped instance: its locals, and the dynamic
//! parameters that it has rebound. A list of names costs nothing; each value is given a
//! handle when it is asked for.
use crate::frame::FrameKind;
use crate::frame::FrameView;
use crate::handle::Handle;
use crate::handle::TableView;
use crate::heap::CallableTarget;
use crate::heap::HeapView;
use crate::instance::result_given;
use crate::instance::Instance;
use crate::local;
use crate::local::local_value;
use crate::modload::LoadedModule;
use crate::named::named_view;
use crate::object::copy_texts;
use crate::observe::inner_frame;
use crate::resolve::top_level_of;
use crate::text::texts;
use crate::value::CellIdx;
use crate::value::Value;
use vstd::prelude::*;

verus! {

/// A name with its value, if it has one yet.
#[derive(Debug)]
pub struct Binding {
    /// The name.
    pub name: String,
    /// The value, as a handle that the host owns.
    pub value: Option<Handle>,
}

/// The contents of some names with values.
pub open spec fn pairs(all: Seq<Binding>) -> Seq<(Seq<char>, Option<Handle>)> {
    all.map_values(|b: Binding| (b.name@, b.value))
}

/// The body whose slots a frame's locals are, with its module: a block has no names of its
/// own, but uses those of the frame it was written in.
pub open spec fn frame_body(modules: Seq<LoadedModule>, h: HeapView, f: FrameView) -> Option<
    (int, int),
> {
    let (m, id) = match f.kind {
        FrameKind::Callable { cal } => match h.callable(cal) {
            Some(c) => match c.target {
                CallableTarget::Source(id) => (c.module.0 as int, Some(id as int)),
                _ => (0, None),
            },
            None => (0, None),
        },
        FrameKind::ModuleTopLevel => {
            let m = f.module.0 as int;
            (
                m,
                if m < modules.len() {
                    match top_level_of(modules[m].resolved.callables@, 0) {
                        Some(i) => Some(i as int),
                        None => None,
                    }
                } else {
                    None
                },
            )
        },
        FrameKind::Block { .. } => (0, None),
    };
    match id {
        Some(id) => if m < modules.len() && id < modules[m].resolved.callables@.len() {
            Some((m, id))
        } else {
            None
        },
        None => None,
    }
}

/// The names of a frame's locals, in slot order.
pub open spec fn local_names(i: Instance, index: int) -> Seq<Seq<char>> {
    match inner_frame(i, index) {
        Some(f) => match frame_body(i.modules@, i.heap@, f) {
            Some((m, id)) => texts(i.modules@[m].resolved.callables@[id].slot_names@),
            None => Seq::empty(),
        },
        None => Seq::empty(),
    }
}

/// The value of a frame's local: none before its declaration has run.
pub open spec fn local_seen(i: Instance, index: int, slot: int) -> Option<Value> {
    match inner_frame(i, index) {
        Some(f) => if !(f.kind is Block) && slot < f.locals.len() {
            local_value(i.heap@, f.locals[slot])
        } else {
            None
        },
        None => None,
    }
}

/// The saved dynamic bindings that a frame made: those between its own depth and that of
/// the frame above it.
pub open spec fn rebound_in(i: Instance, index: int) -> Seq<(CellIdx, Value)> {
    let n = i.machine@.frames.len();
    let saved = i.machine@.dyn_stack;
    if index < n {
        let start = i.machine@.frames[n - 1 - index].dyn_depth as int;
        let end = if index == 0 {
            saved.len() as int
        } else {
            i.machine@.frames[n - index].dyn_depth as int
        };
        if start <= end <= saved.len() {
            saved.subrange(start, end)
        } else {
            Seq::empty()
        }
    } else {
        Seq::empty()
    }
}

/// The first name of a cell among some, from a position on.
pub open spec fn name_from(names: Seq<(Seq<char>, CellIdx)>, cell: CellIdx, from: nat) -> Option<
    Seq<char>,
>
    decreases names.len() - from,
{
    if from >= names.len() {
        None
    } else if names[from as int].1 == cell {
        Some(names[from as int].0)
    } else {
        name_from(names, cell, from + 1)
    }
}

/// The first name of a cell in the modules from one on.
pub open spec fn cell_name_from(modules: Seq<LoadedModule>, cell: CellIdx, from: nat) -> Seq<char>
    decreases modules.len() - from,
{
    if from >= modules.len() {
        "?"@
    } else {
        match name_from(named_view(modules[from as int].namespace@), cell, 0) {
            Some(name) => name,
            None => cell_name_from(modules, cell, from + 1),
        }
    }
}

/// The names of some cells.
pub open spec fn cell_names(modules: Seq<LoadedModule>, cells: Seq<(CellIdx, Value)>) -> Seq<
    Seq<char>,
> {
    cells.map_values(|e: (CellIdx, Value)| cell_name_from(modules, e.0, 0))
}

/// The value that a dynamic parameter rebound by a frame has now.
pub open spec fn dynamic_seen(i: Instance, index: int, slot: int) -> Option<Value> {
    if slot < rebound_in(i, index).len() {
        i.heap@.cell_value(rebound_in(i, index)[slot].0)
    } else {
        None
    }
}

/// The handles after some values got some, and each name with its handle.
pub open spec fn bound_values(
    t: TableView,
    names: Seq<Seq<char>>,
    values: spec_fn(int) -> Option<Value>,
    n: nat,
) -> (TableView, Seq<(Seq<char>, Option<Handle>)>)
    decreases n,
{
    if n == 0 || n > names.len() {
        (t, Seq::empty())
    } else {
        let (before, bound) = bound_values(t, names, values, (n - 1) as nat);
        match values(n - 1) {
            Some(v) => (
                before.interned(v),
                bound.push((names[n - 1], Some(before.next_handle()))),
            ),
            None => (before, bound.push((names[n - 1], None))),
        }
    }
}

fn find_name(names: &Vec<(String, CellIdx)>, cell: CellIdx) -> (r: Option<String>)
    ensures
        (match r {
            Some(s) => name_from(named_view(names@), cell, 0) == Some(s@),
            None => name_from(named_view(names@), cell, 0) is None,
        }),
{
    let ghost all = named_view(names@);
    let mut i: usize = 0;
    while i < names.len()
        invariant
            i <= names@.len(),
            all == named_view(names@),
            name_from(all, cell, 0) == name_from(all, cell, i as nat),
        decreases names@.len() - i,
    {
        assert(all[i as int] == (names@[i as int].0@, names@[i as int].1));
        if names[i].1 == cell {
            return Some(names[i].0.as_str().to_owned());
        }
        i = i + 1;
    }
    None
}

impl Instance {
    fn cell_name(&self, cell: CellIdx) -> (r: String)
        ensures
            r@ == cell_name_from(self.modules@, cell, 0),
    {
        let mut i: usize = 0;
        while i < self.modules.len()
            invariant
                i <= self.modules@.len(),
                cell_name_from(self.modules@, cell, 0) == cell_name_from(
                    self.modules@,
                    cell,
                    i as nat,
                ),
            decreases self.modules@.len() - i,
        {
            if let Some(name) = find_name(&self.modules[i].namespace, cell) {
                return name;
            }
            i = i + 1;
        }
        "?".to_owned()
    }

    fn body_at(&self, at: usize) -> (r: Option<(usize, usize)>)
        requires
            at < self.machine@.frames.len(),
        ensures
            (match r {
                Some((m, id)) => {
                    &&& frame_body(
                        self.modules@,
                        self.heap@,
                        self.machine@.frames[at as int],
                    ) == Some((m as int, id as int))
                    &&& m < self.modules@.len()
                    &&& id < self.modules@[m as int].resolved.callables@.len()
                },
                None => frame_body(
                    self.modules@,
                    self.heap@,
                    self.machine@.frames[at as int],
                ) is None,
            }),
    {
        let f = &self.machine.frames[at];
        assert(self.machine@.frames[at as int] == f@);
        match f.kind {
            FrameKind::Callable { cal } => match self.heap.callable(cal) {
                Some(c) => match c.target {
                    CallableTarget::Source(id) => {
                        let m: usize = c.module.0 as usize;
                        if m < self.modules.len() && (id as usize)
                            < self.modules[m].resolved.callables.len() {
                            Some((m, id as usize))
                        } else {
                            None
                        }
                    },
                    _ => None,
                },
                None => None,
            },
            FrameKind::ModuleTopLevel => {
                let m: usize = f.module.0 as usize;
                if m < self.modules.len() {
                    match self.modules[m].resolved.top_level() {
                        Some(id) => Some((m, id)),
                        None => None,
                    }
                } else {
                    None
                }
            },
            FrameKind::Block { .. } => None,
        }
    }

    /// The names of a frame's locals, in slot order.
    pub fn frame_local_names(&self, index: usize) -> (r: Vec<String>)
        ensures
            texts(r@) == local_names(*self, index as int),
    {
        let n: usize = self.machine.frames.len();
        if index < n {
            if let Some((m, id)) = self.body_at(n - 1 - index) {
                return copy_texts(&self.modules[m].resolved.callables[id].slot_names);
            }
        }
        let r: Vec<String> = Vec::new();
        assert(texts(r@) =~= Seq::empty());
        r
    }

    fn local_at(&self, index: usize, slot: usize) -> (r: Option<Value>)
        ensures
            r == local_seen(*self, index as int, slot as int),
    {
        let n: usize = self.machine.frames.len();
        if index >= n {
            return None;
        }
        let f = &self.machine.frames[n - 1 - index];
        assert(self.machine@.frames[n - 1 - index] == f@);
        match f.kind {
            FrameKind::Block { .. } => None,
            _ => if slot < f.locals.len() {
                local::read(&self.heap, f.locals[slot])
            } else {
                None
            },
        }
    }

    /// Gives the value of a frame's local a handle.
    pub fn frame_local_value(&mut self, index: usize, slot: usize) -> (r: Option<Handle>)
        requires
            old(self).ready(),
        ensures
            final(self).handles@.wf(),
            result_given(
                old(self).handles@,
                final(self).handles@,
                local_seen(*old(self), index as int, slot as int),
                r,
            ),
            *final(self) == (Instance { handles: final(self).handles, ..*old(self) }),
    {
        match self.local_at(index, slot) {
            Some(v) => Some(self.handles.intern(v)),
            None => None,
        }
    }

    /// The names of a frame's locals, each with its value.
    pub fn frame_locals(&mut self, index: usize) -> (r: Vec<Binding>)
        requires
            old(self).handles@.wf(),
            old(self).handles@.room(local_names(*old(self), index as int).len() as int),
        ensures
            final(self).handles@.wf(),
            (final(self).handles@, pairs(r@)) == bound_values(
                old(self).handles@,
                local_names(*old(self), index as int),
                |slot: int| local_seen(*old(self), index as int, slot),
                local_names(*old(self), index as int).len(),
            ),
            *final(self) == (Instance { handles: final(self).handles, ..*old(self) }),
    {
        let names = self.frame_local_names(index);
        let ghost all = local_names(*self, index as int);
        let ghost values = |slot: int| local_seen(*old(self), index as int, slot);
        let mut r: Vec<Binding> = Vec::new();
        let mut k: usize = 0;
        assert(pairs(r@) =~= Seq::empty());
        assert(texts(names@).len() == names@.len());
        while k < names.len()
            invariant
                k <= names@.len(),
                all == texts(names@),
                all == local_names(*old(self), index as int),
                all.len() == names@.len(),
                values == (|slot: int| local_seen(*old(self), index as int, slot)),
                self.handles@.wf(),
                self.handles@.room(names@.len() - k),
                *self == (Instance { handles: self.handles, ..*old(self) }),
                (self.handles@, pairs(r@)) == bound_values(
                    old(self).handles@,
                    all,
                    values,
                    k as nat,
                ),
            decreases names@.len() - k,
        {
            let ghost before = r@;
            let name = names[k].as_str().to_owned();
            assert(all[k as int] == name@);
            assert(local_seen(*self, index as int, k as int) == values(k as int));
            let value = match self.local_at(index, k) {
                Some(v) => Some(self.handles.intern(v)),
                None => None,
            };
            let b = Binding { name, value };
            r.push(b);
            assert(pairs(r@) =~= pairs(before).push((b.name@, b.value)));
            k = k + 1;
        }
        r
    }

    fn dyn_range(&self, index: usize) -> (r: (usize, usize))
        ensures
            r.0 <= r.1 <= self.machine@.dyn_stack.len(),
            self.machine@.dyn_stack.subrange(r.0 as int, r.1 as int) == rebound_in(
                *self,
                index as int,
            ),
    {
        let n: usize = self.machine.frames.len();
        if index >= n {
            assert(self.machine@.dyn_stack.subrange(0, 0) =~= Seq::empty());
            return (0, 0);
        }
        let start: usize = self.machine.frames[n - 1 - index].dyn_depth;
        assert(self.machine@.frames[n - 1 - index] == self.machine.frames@[n - 1 - index]@);
        let end: usize = if index == 0 {
            self.machine.dyn_stack.len()
        } else {
            assert(self.machine@.frames[n - index] == self.machine.frames@[n - index]@);
            self.machine.frames[n - index].dyn_depth
        };
        if start <= end && end <= self.machine.dyn_stack.len() {
            (start, end)
        } else {
            assert(self.machine@.dyn_stack.subrange(0, 0) =~= Seq::empty());
            (0, 0)
        }
    }

    /// The names of the dynamic parameters that a frame has rebound, outermost first.
    pub fn frame_dynamic_names(&self, index: usize) -> (r: Vec<String>)
        ensures
            texts(r@) == cell_names(self.modules@, rebound_in(*self, index as int)),
    {
        let (start, end) = self.dyn_range(index);
        let ghost cells = rebound_in(*self, index as int);
        let mut r: Vec<String> = Vec::new();
        let mut k: usize = start;
        assert(texts(r@) =~= cell_names(self.modules@, cells).take(0));
        while k < end
            invariant
                start <= k <= end <= self.machine@.dyn_stack.len(),
                cells == self.machine@.dyn_stack.subrange(start as int, end as int),
                texts(r@) == cell_names(self.modules@, cells).take(k - start),
            decreases end - k,
        {
            let ghost before = r@;
            let name = self.cell_name(self.machine.dyn_stack[k].0);
            r.push(name);
            assert(cells[k - start] == self.machine@.dyn_stack[k as int]);
            assert(texts(r@) =~= texts(before).push(name@));
            assert(texts(r@) =~= cell_names(self.modules@, cells).take(k + 1 - start));
            k = k + 1;
        }
        assert(cell_names(self.modules@, cells).take(k - start) =~= cell_names(
            self.modules@,
            cells,
        ));
        r
    }

    fn dynamic_at(&self, index: usize, slot: usize) -> (r: Option<Value>)
        ensures
            r == dynamic_seen(*self, index as int, slot as int),
    {
        let (start, end) = self.dyn_range(index);
        if slot < end - start {
            let cell = self.machine.dyn_stack[start + slot].0;
            assert(rebound_in(*self, index as int)[slot as int].0 == cell);
            self.heap.cell_value(cell)
        } else {
            None
        }
    }

    /// Gives the value that a dynamic parameter rebound by a frame has now a handle.
    pub fn frame_dynamic_value(&mut self, index: usize, slot: usize) -> (r: Option<Handle>)
        requires
            old(self).ready(),
        ensures
            final(self).handles@.wf(),
            result_given(
                old(self).handles@,
                final(self).handles@,
                dynamic_seen(*old(self), index as int, slot as int),
                r,
            ),
            *final(self) == (Instance { handles: final(self).handles, ..*old(self) }),
    {
        match self.dynamic_at(index, slot) {
            Some(v) => Some(self.handles.intern(v)),
            None => None,
        }
    }

    /// The dynamic parameters that a frame has rebound, each with its value.
    pub fn frame_dynamic_bindings(&mut self, index: usize) -> (r: Vec<Binding>)
        requires
            old(self).handles@.wf(),
            old(self).handles@.room(rebound_in(*old(self), index as int).len() as int),
        ensures
            final(self).handles@.wf(),
            (final(self).handles@, pairs(r@)) == bound_values(
                old(self).handles@,
                cell_names(old(self).modules@, rebound_in(*old(self), index as int)),
                |slot: int| dynamic_seen(*old(self), index as int, slot),
                rebound_in(*old(self), index as int).len(),
            ),
            *final(self) == (Instance { handles: final(self).handles, ..*old(self) }),
    {
        let names = self.frame_dynamic_names(index);
        let ghost all = cell_names(self.modules@, rebound_in(*self, index as int));
        let ghost values = |slot: int| dynamic_seen(*old(self), index as int, slot);
        let mut r: Vec<Binding> = Vec::new();
        let mut k: usize = 0;
        assert(pairs(r@) =~= Seq::empty());
        assert(texts(names@).len() == names@.len());
        while k < names.len()
            invariant
                k <= names@.len(),
                all == texts(names@),
                all.len() == names@.len(),
                values == (|slot: int| dynamic_seen(*old(self), index as int, slot)),
                self.handles@.wf(),
                self.handles@.room(names@.len() - k),
                *self == (Instance { handles: self.handles, ..*old(self) }),
                (self.handles@, pairs(r@)) == bound_values(
                    old(self).handles@,
                    all,
                    values,
                    k as nat,
                ),
            decreases names@.len() - k,
        {
            let ghost before = r@;
            let name = names[k].as_str().to_owned();
            assert(all[k as int] == name@);
            assert(dynamic_seen(*self, index as int, k as int) == values(k as int));
            let value = match self.dynamic_at(index, k) {
                Some(v) => Some(self.handles.intern(v)),
                None => None,
            };
            let b = Binding { name, value };
            r.push(b);
            assert(pairs(r@) =~= pairs(before).push((b.name@, b.value)));
            k = k + 1;
        }
        r
    }
}

/// The innermost frame's rebound parameters and those of all the frames around it are all
/// the saved bindings there are, where the depths of the frames are in order.
pub proof fn law_every_rebinding_belongs_to_a_frame(i: Instance, k: int)
    requires
        0 <= k < i.machine@.dyn_stack.len(),
        i.machine@.frames.len() > 0,
        i.machine@.frames[0].dyn_depth == 0,
        forall|a: int, b: int|
            0 <= a <= b < i.machine@.frames.len() ==> i.machine@.frames[a].dyn_depth
                <= i.machine@.frames[b].dyn_depth,
        i.machine@.top().dyn_depth <= i.machine@.dyn_stack.len(),
    ensures
        exists|index: int|
            0 <= index < i.machine@.frames.len() && (#[trigger] rebound_in(i, index)).contains(
                i.machine@.dyn_stack[k],
            ),
{
    lemma_owner(i, k, i.machine@.frames.len());
}

proof fn lemma_owner(i: Instance, k: int, n: nat)
    requires
        0 < n <= i.machine@.frames.len(),
        0 <= k < i.machine@.dyn_stack.len(),
        i.machine@.frames[0].dyn_depth == 0,
        forall|a: int, b: int|
            0 <= a <= b < i.machine@.frames.len() ==> i.machine@.frames[a].dyn_depth
                <= i.machine@.frames[b].dyn_depth,
        i.machine@.top().dyn_depth <= i.machine@.dyn_stack.len(),
        n < i.machine@.frames.len() ==> k < i.machine@.frames[n as int].dyn_depth,
    ensures
        exists|index: int|
            0 <= index < i.machine@.frames.len() && (#[trigger] rebound_in(i, index)).contains(
                i.machine@.dyn_stack[k],
            ),
    decreases n,
{
    let frames = i.machine@.frames;
    let start = frames[n - 1].dyn_depth as int;
    if k >= start {
        let index = frames.len() - n;
        assert(frames[frames.len() - 1 - index].dyn_depth == start);
        assert(frames[n - 1].dyn_depth <= frames[frames.len() - 1].dyn_depth);
        assert(rebound_in(i, index)[k - start] == i.machine@.dyn_stack[k]);
        assert(rebound_in(i, index).contains(i.machine@.dyn_stack[k]));
    } else {
        lemma_owner(i, k, (n - 1) as nat);
    }
}

} // verus!
