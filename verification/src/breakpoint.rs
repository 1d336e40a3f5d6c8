//! Breakpoints: set at a line of a module by its canonical id, resolved to the first
//! statement at or after the line whenever that module is loaded.
use crate::ast::NodeId;
use crate::instance::BreakpointId;
use crate::instance::Instance;
use crate::modload::LoadView;
use crate::modload::LoadedModule;
use crate::resolve::ResolvedModule;
use crate::span::ModuleId;
use crate::span::Span;
use crate::text::same_text;
use vstd::prelude::*;

verus! {

/// An installed breakpoint.
pub struct BreakpointEntry {
    /// Its name.
    pub id: BreakpointId,
    /// The module it was set in.
    pub canonical: String,
    /// The line it was set at.
    pub line: u32,
    /// The statement it stands at, if it can be hit.
    pub resolved: Option<(ModuleId, NodeId)>,
}

/// An installed breakpoint, as mathematics sees it.
pub struct EntryView {
    /// Its name.
    pub id: BreakpointId,
    /// The module it was set in.
    pub canonical: Seq<char>,
    /// The line it was set at.
    pub line: u32,
    /// The statement it stands at, if it can be hit.
    pub resolved: Option<(ModuleId, NodeId)>,
}

impl View for BreakpointEntry {
    type V = EntryView;

    open spec fn view(&self) -> EntryView {
        EntryView {
            id: self.id,
            canonical: self.canonical@,
            line: self.line,
            resolved: self.resolved,
        }
    }
}

/// The breakpoints.
pub struct Breakpoints {
    /// The next name; none is used twice.
    pub next_id: u32,
    /// The installed breakpoints, in the order they were set.
    pub entries: Vec<BreakpointEntry>,
}

/// The breakpoints, as mathematics sees them.
pub struct BreakpointsView {
    /// The next name.
    pub next_id: u32,
    /// The installed breakpoints, in the order they were set.
    pub entries: Seq<EntryView>,
}

/// The contents of some breakpoints.
pub open spec fn entries_view(entries: Seq<BreakpointEntry>) -> Seq<EntryView> {
    entries.map_values(|e: BreakpointEntry| e@)
}

impl View for Breakpoints {
    type V = BreakpointsView;

    open spec fn view(&self) -> BreakpointsView {
        BreakpointsView { next_id: self.next_id, entries: entries_view(self.entries@) }
    }
}

impl BreakpointsView {
    /// Every installed breakpoint has a name that was given out, and no other has it.
    pub open spec fn wf(self) -> bool {
        &&& forall|i: int|
            0 <= i < self.entries.len() ==> (#[trigger] self.entries[i]).id.0 < self.next_id
        &&& forall|i: int, j: int|
            0 <= i < j < self.entries.len() ==> (#[trigger] self.entries[i]).id != (
            #[trigger] self.entries[j]).id
    }
}

impl Breakpoints {
    /// No breakpoints.
    pub fn new() -> (r: Breakpoints)
        ensures
            r@ == (BreakpointsView { next_id: 0, entries: Seq::empty() }),
            r@.wf(),
    {
        let r = Breakpoints { next_id: 0, entries: Vec::new() };
        assert(r@.entries =~= Seq::<EntryView>::empty());
        r
    }
}

/// A breakpoint as the host reads it back.
#[derive(Debug)]
pub struct BreakpointInfo {
    /// Its name.
    pub id: BreakpointId,
    /// The module it was set in.
    pub canonical_id: String,
    /// The line it was set at.
    pub line: u32,
    /// Whether it can be hit.
    pub resolved: bool,
}

/// Whether a statement comes before another: on an earlier line, or earlier on the same.
pub open spec fn earlier(resolved: ResolvedModule, a: Span, b: Span) -> bool {
    let la = crate::ast::line_number(
        resolved.ast.line_marks(),
        resolved.ast.line_marks().len(),
        a.start,
    );
    let lb = crate::ast::line_number(
        resolved.ast.line_marks(),
        resolved.ast.line_marks().len(),
        b.start,
    );
    la < lb || la == lb && a.start < b.start
}

/// The line a range begins on.
pub open spec fn line_at(resolved: ResolvedModule, s: Span) -> u32 {
    crate::ast::line_number(
        resolved.ast.line_marks(),
        resolved.ast.line_marks().len(),
        s.start,
    )
}

/// The first of the first `n` statements at or after a line: the earliest, and of two that
/// begin at one place the one listed first.
pub open spec fn first_at(resolved: ResolvedModule, line: u32, n: nat) -> Option<(Span, NodeId)>
    decreases n,
{
    if n == 0 || n > resolved.stmt_spans@.len() {
        None
    } else {
        let (span, node) = resolved.stmt_spans@[n - 1];
        match first_at(resolved, line, (n - 1) as nat) {
            None => if line_at(resolved, span) >= line {
                Some((span, node))
            } else {
                None
            },
            Some((best, at)) => if line_at(resolved, span) >= line && earlier(
                resolved,
                span,
                best,
            ) {
                Some((span, node))
            } else {
                Some((best, at))
            },
        }
    }
}

/// The statement a line stands for.
pub open spec fn line_statement(resolved: ResolvedModule, line: u32) -> Option<NodeId> {
    match first_at(resolved, line, resolved.stmt_spans@.len()) {
        Some((_, node)) => Some(node),
        None => None,
    }
}

/// The statement a line stands for: the first at or after it.
pub fn resolve_line(resolved: &ResolvedModule, line: u32) -> (r: Option<NodeId>)
    ensures
        r == line_statement(*resolved, line),
{
    let mut best: Option<(Span, NodeId)> = None;
    let mut i: usize = 0;
    while i < resolved.stmt_spans.len()
        invariant
            i <= resolved.stmt_spans@.len(),
            best == first_at(*resolved, line, i as nat),
        decreases resolved.stmt_spans@.len() - i,
    {
        let (span, node) = resolved.stmt_spans[i];
        let here: u32 = resolved.ast.line_of(span.start);
        if here >= line {
            match best {
                None => {
                    best = Some((span, node));
                },
                Some((other, _)) => {
                    let there: u32 = resolved.ast.line_of(other.start);
                    if here < there || here == there && span.start < other.start {
                        best = Some((span, node));
                    }
                },
            }
        }
        i = i + 1;
    }
    match best {
        Some((_, node)) => Some(node),
        None => None,
    }
}

/// Where a breakpoint stands: nowhere while its module is not loaded.
pub open spec fn breakpoint_place(
    modules: Seq<LoadedModule>,
    load: LoadView,
    canonical: Seq<char>,
    line: u32,
) -> Option<(ModuleId, NodeId)> {
    match load.module_of(canonical) {
        Some(id) => if (id.0 as int) < modules.len() {
            match line_statement(modules[id.0 as int].resolved, line) {
                Some(node) => Some((id, node)),
                None => None,
            }
        } else {
            None
        },
        None => None,
    }
}

/// The entries without those of a name.
pub open spec fn without(entries: Seq<EntryView>, id: BreakpointId) -> Seq<EntryView>
    decreases entries.len(),
{
    if entries.len() == 0 {
        Seq::empty()
    } else {
        let before = without(entries.drop_last(), id);
        if entries.last().id == id {
            before
        } else {
            before.push(entries.last())
        }
    }
}

/// An entry resolved anew, if it is of that module.
pub open spec fn re_resolved(
    modules: Seq<LoadedModule>,
    load: LoadView,
    canonical: Seq<char>,
    e: EntryView,
) -> EntryView {
    if e.canonical == canonical {
        EntryView { resolved: breakpoint_place(modules, load, canonical, e.line), ..e }
    } else {
        e
    }
}

/// The first entry that stands at a statement, from a position on.
pub open spec fn hit_from(entries: Seq<EntryView>, at: (ModuleId, NodeId), from: nat) -> Option<
    BreakpointId,
>
    decreases entries.len() - from,
{
    if from >= entries.len() {
        None
    } else if entries[from as int].resolved == Some(at) {
        Some(entries[from as int].id)
    } else {
        hit_from(entries, at, from + 1)
    }
}

/// The breakpoint at the statement about to run.
pub open spec fn breakpoint_at(i: Instance) -> Option<BreakpointId> {
    match i.safe_point_stmt {
        Some(node) => if i.machine@.frames.len() > 0 {
            hit_from(i.breakpoints@.entries, (i.machine@.top().module, node), 0)
        } else {
            None
        },
        None => None,
    }
}

impl Instance {
    fn resolve_breakpoint(&self, canonical_id: &str, line: u32) -> (r: Option<(ModuleId, NodeId)>)
        ensures
            r == breakpoint_place(self.modules@, self.machine@.load, canonical_id@, line),
    {
        match self.machine.load.by_canonical(canonical_id) {
            Some(id) => {
                if (id.0 as usize) < self.modules.len() {
                    match resolve_line(&self.modules[id.0 as usize].resolved, line) {
                        Some(node) => Some((id, node)),
                        None => None,
                    }
                } else {
                    None
                }
            },
            None => None,
        }
    }

    /// Sets a breakpoint; one of a module that is not loaded waits for it.
    pub fn set_breakpoint(&mut self, canonical_id: &str, line: u32) -> (r: BreakpointId)
        requires
            old(self).breakpoints.next_id < u32::MAX,
        ensures
            r == BreakpointId(old(self).breakpoints@.next_id),
            final(self).breakpoints@ == (BreakpointsView {
                next_id: (old(self).breakpoints@.next_id + 1) as u32,
                entries: old(self).breakpoints@.entries.push(
                    EntryView {
                        id: r,
                        canonical: canonical_id@,
                        line,
                        resolved: breakpoint_place(
                            old(self).modules@,
                            old(self).machine@.load,
                            canonical_id@,
                            line,
                        ),
                    },
                ),
            }),
            old(self).breakpoints@.wf() ==> final(self).breakpoints@.wf(),
            *final(self) == (Instance { breakpoints: final(self).breakpoints, ..*old(self) }),
    {
        let id = BreakpointId(self.breakpoints.next_id);
        let resolved = self.resolve_breakpoint(canonical_id, line);
        self.breakpoints.next_id = self.breakpoints.next_id + 1;
        self.breakpoints.entries.push(
            BreakpointEntry { id, canonical: canonical_id.to_owned(), line, resolved },
        );
        assert(self.breakpoints@.entries =~= old(self).breakpoints@.entries.push(
            EntryView { id, canonical: canonical_id@, line, resolved },
        ));
        id
    }

    /// Clears a breakpoint; clearing it again does nothing.
    pub fn clear_breakpoint(&mut self, id: BreakpointId)
        ensures
            final(self).breakpoints@ == (BreakpointsView {
                entries: without(old(self).breakpoints@.entries, id),
                ..old(self).breakpoints@
            }),
            *final(self) == (Instance { breakpoints: final(self).breakpoints, ..*old(self) }),
    {
        let mut kept: Vec<BreakpointEntry> = Vec::new();
        let mut i: usize = 0;
        let ghost all = self.breakpoints@.entries;
        assert(all.take(0) =~= Seq::empty());
        assert(entries_view(kept@) =~= Seq::empty());
        while i < self.breakpoints.entries.len()
            invariant
                i <= self.breakpoints.entries@.len(),
                all == self.breakpoints@.entries,
                entries_view(kept@) == without(all.take(i as int), id),
                *self == *old(self),
            decreases self.breakpoints.entries@.len() - i,
        {
            let e = &self.breakpoints.entries[i];
            let ghost before = kept@;
            assert(all.take(i + 1).drop_last() =~= all.take(i as int));
            assert(all.take(i + 1).last() == e@);
            if e.id != id {
                kept.push(
                    BreakpointEntry {
                        id: e.id,
                        canonical: e.canonical.as_str().to_owned(),
                        line: e.line,
                        resolved: e.resolved,
                    },
                );
                assert(entries_view(kept@) =~= entries_view(before).push(e@));
            }
            i = i + 1;
        }
        assert(all.take(i as int) =~= all);
        self.breakpoints.entries = kept;
    }

    /// The installed breakpoints, in the order they were set.
    pub fn breakpoints(&self) -> (r: Vec<BreakpointInfo>)
        ensures
            r@.len() == self.breakpoints@.entries.len(),
            forall|i: int|
                0 <= i < r@.len() ==> {
                    let e = self.breakpoints@.entries[i];
                    &&& (#[trigger] r@[i]).id == e.id
                    &&& r@[i].canonical_id@ == e.canonical
                    &&& r@[i].line == e.line
                    &&& r@[i].resolved == (e.resolved is Some)
                },
    {
        let mut r: Vec<BreakpointInfo> = Vec::new();
        let mut i: usize = 0;
        while i < self.breakpoints.entries.len()
            invariant
                i <= self.breakpoints.entries@.len(),
                r@.len() == i,
                forall|k: int|
                    0 <= k < i ==> {
                        let e = self.breakpoints@.entries[k];
                        &&& (#[trigger] r@[k]).id == e.id
                        &&& r@[k].canonical_id@ == e.canonical
                        &&& r@[k].line == e.line
                        &&& r@[k].resolved == (e.resolved is Some)
                    },
            decreases self.breakpoints.entries@.len() - i,
        {
            let e = &self.breakpoints.entries[i];
            assert(self.breakpoints@.entries[i as int] == e@);
            r.push(
                BreakpointInfo {
                    id: e.id,
                    canonical_id: e.canonical.as_str().to_owned(),
                    line: e.line,
                    resolved: e.resolved.is_some(),
                },
            );
            i = i + 1;
        }
        r
    }

    /// Resolves the breakpoints of a module anew, after it was loaded.
    pub fn reresolve_breakpoints(&mut self, canonical_id: &str)
        ensures
            final(self).breakpoints@ == (if old(self).machine@.load.module_of(canonical_id@)
                is None {
                old(self).breakpoints@
            } else {
                BreakpointsView {
                    entries: old(self).breakpoints@.entries.map_values(
                        |e: EntryView|
                            re_resolved(
                                old(self).modules@,
                                old(self).machine@.load,
                                canonical_id@,
                                e,
                            ),
                    ),
                    ..old(self).breakpoints@
                }
            }),
            *final(self) == (Instance { breakpoints: final(self).breakpoints, ..*old(self) }),
    {
        if self.machine.load.by_canonical(canonical_id).is_none() {
            return;
        }
        let ghost goal = old(self).breakpoints@.entries.map_values(
            |e: EntryView|
                re_resolved(old(self).modules@, old(self).machine@.load, canonical_id@, e),
        );
        let n: usize = self.breakpoints.entries.len();
        let mut i: usize = 0;
        while i < n
            invariant
                i <= n,
                n == self.breakpoints.entries@.len(),
                n == old(self).breakpoints.entries@.len(),
                goal == old(self).breakpoints@.entries.map_values(
                    |e: EntryView|
                        re_resolved(old(self).modules@, old(self).machine@.load, canonical_id@, e),
                ),
                forall|k: int| 0 <= k < i ==> (#[trigger] self.breakpoints.entries@[k])@ == goal[k],
                forall|k: int|
                    i <= k < n ==> (#[trigger] self.breakpoints.entries@[k])@ == old(self).breakpoints@.entries[k],
                *self == (Instance { breakpoints: self.breakpoints, ..*old(self) }),
                self.breakpoints.next_id == old(self).breakpoints.next_id,
            decreases n - i,
        {
            if same_text(self.breakpoints.entries[i].canonical.as_str(), canonical_id) {
                let line: u32 = self.breakpoints.entries[i].line;
                let resolved = self.resolve_breakpoint(canonical_id, line);
                self.breakpoints.entries[i].resolved = resolved;
            }
            i = i + 1;
        }
        assert(self.breakpoints@.entries =~= goal);
    }

    /// The breakpoint at the statement about to run.
    pub fn breakpoint_hit(&self) -> (r: Option<BreakpointId>)
        ensures
            r == breakpoint_at(*self),
    {
        let node = match self.safe_point_stmt {
            Some(node) => node,
            None => {
                return None;
            },
        };
        let n: usize = self.machine.frames.len();
        if n == 0 {
            return None;
        }
        let module = self.machine.frames[n - 1].module;
        assert(self.machine@.top() == self.machine.frames@[n - 1]@);
        let mut i: usize = 0;
        while i < self.breakpoints.entries.len()
            invariant
                i <= self.breakpoints.entries@.len(),
                breakpoint_at(*self) == hit_from(
                    self.breakpoints@.entries,
                    (module, node),
                    i as nat,
                ),
            decreases self.breakpoints.entries@.len() - i,
        {
            let e = &self.breakpoints.entries[i];
            assert(self.breakpoints@.entries[i as int] == e@);
            if let Some((m, s)) = e.resolved {
                if m == module && s == node {
                    return Some(e.id);
                }
            }
            i = i + 1;
        }
        None
    }
}

/// A breakpoint snaps forward: it stands at a statement on its line or a later one, and no
/// statement there comes before that; where it stands nowhere, every statement is on an
/// earlier line.
pub proof fn law_breakpoints_snap_forward(resolved: ResolvedModule, line: u32, n: nat, k: int)
    requires
        n <= resolved.stmt_spans@.len(),
        0 <= k < n,
    ensures
        (match first_at(resolved, line, n) {
            Some((span, node)) => {
                &&& line_at(resolved, span) >= line
                &&& line_at(resolved, resolved.stmt_spans@[k].0) >= line ==> !earlier(
                    resolved,
                    resolved.stmt_spans@[k].0,
                    span,
                )
            },
            None => line_at(resolved, resolved.stmt_spans@[k].0) < line,
        }),
    decreases n,
{
    if k < n - 1 {
        law_breakpoints_snap_forward(resolved, line, (n - 1) as nat, k);
    } else if n > 1 {
        law_breakpoints_snap_forward(resolved, line, (n - 1) as nat, 0);
    }
}

/// A cleared breakpoint is gone, and its name is not given out again: no later breakpoint is
/// cleared by it.
pub proof fn law_cleared_names_are_not_reused(b: BreakpointsView, id: BreakpointId)
    requires
        b.wf(),
        id.0 < b.next_id,
    ensures
        forall|i: int|
            0 <= i < without(b.entries, id).len() ==> (#[trigger] without(b.entries, id)[i]).id
                != id,
        BreakpointId(b.next_id) != id,
{
    lemma_without(b.entries, id);
}

proof fn lemma_without(entries: Seq<EntryView>, id: BreakpointId)
    ensures
        forall|i: int|
            0 <= i < without(entries, id).len() ==> (#[trigger] without(entries, id)[i]).id != id,
    decreases entries.len(),
{
    if entries.len() > 0 {
        lemma_without(entries.drop_last(), id);
    }
}

} // verus!
