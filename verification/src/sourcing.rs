//! Fulfilling an import: the host hands in a module that it has parsed and resolved, says
//! that there is none, or raises.
use crate::breakpoint::re_resolved;
use crate::breakpoint::BreakpointsView;
use crate::breakpoint::EntryView;
use crate::drive::driven;
use crate::drive::internal_fault;
use crate::drive::Outcome;
use crate::error::kind_slug;
use crate::error::EngineFault;
use crate::error::ExceptionKind;
use crate::exception::diagnostics_view;
use crate::exception::error_made;
use crate::exception::make_error;
use crate::exception::module_load_detail;
use crate::exception::module_load_details;
use crate::exception::module_ref_detail;
use crate::exception::module_ref_details;
use crate::exception::Diagnostic;
use crate::exception::DiagnosticView;
use crate::exception::Severity;
use crate::frame::Frame;
use crate::frame::FrameView;
use crate::handle::Handle;
use crate::heap::HeapView;
use crate::importing::mods;
use crate::importing::ModView;
use crate::instance::Instance;
use crate::instance::InstanceState;
use crate::load::by_start;
use crate::load::prelude_shadowing;
use crate::load::seed_namespace;
use crate::load::seeded;
use crate::load::shadowing;
use crate::load::sort_by_start;
use crate::load::top_level_locals;
use crate::local::entry_locals;
use crate::machine::capture_trace;
use crate::machine::trace_here;
use crate::machine::MachineView;
use crate::machine::Unwind;
use crate::modload::dotted;
use crate::modload::join_path;
use crate::modload::LoadState;
use crate::modload::LoadedModule;
use crate::modload::PendingImport;
use crate::modload::PendingImportView;
use crate::named::named_view;
use crate::object::copy_texts;
use crate::resolve::top_level_of;
use crate::resolve::ResolvedModule;
use crate::span::ModuleId;
use crate::text::join2;
use crate::text::join3;
use crate::text::texts;
use crate::value::Value;
use crate::values;
use crate::values::read;
use vstd::prelude::*;

verus! {

/// The host's answer to an import.
pub enum ImportResolution {
    /// A module, parsed and resolved, with what was found about its source.
    Source {
        /// The module.
        module: ResolvedModule,
        /// What was found.
        diagnostics: Vec<Diagnostic>,
        /// The name under which the host knows it: one module has one.
        canonical_id: String,
    },
    /// There is no such module.
    NotFound,
    /// An exception.
    Raise(Handle),
}

/// The message of the first finding that is an error, from a position on.
pub open spec fn error_from(all: Seq<DiagnosticView>, from: nat) -> Option<Seq<char>>
    decreases all.len() - from,
{
    if from >= all.len() {
        None
    } else if all[from as int].severity == Severity::Error {
        Some(all[from as int].message)
    } else {
        error_from(all, from + 1)
    }
}

/// The message of the first finding that is an error: a warning does not keep a module from
/// running.
pub fn first_error(diagnostics: &Vec<Diagnostic>) -> (r: Option<String>)
    ensures
        (match r {
            Some(s) => error_from(diagnostics_view(diagnostics@), 0) == Some(s@),
            None => error_from(diagnostics_view(diagnostics@), 0) is None,
        }),
{
    let ghost all = diagnostics_view(diagnostics@);
    let mut i: usize = 0;
    while i < diagnostics.len()
        invariant
            i <= diagnostics@.len(),
            all == diagnostics_view(diagnostics@),
            error_from(all, 0) == error_from(all, i as nat),
        decreases diagnostics@.len() - i,
    {
        assert(all[i as int] == diagnostics@[i as int]@);
        if diagnostics[i].severity == Severity::Error {
            return Some(diagnostics[i].message.as_str().to_owned());
        }
        i = i + 1;
    }
    None
}

/// Whether an import is parked that can be fulfilled.
pub open spec fn importing(i: Instance) -> bool {
    i.machine@.pending_import is Some
}

/// Whether a module can be handed in: it is numbered next.
pub open spec fn sourceable(i: Instance, module: ResolvedModule) -> bool {
    &&& i.modules@.len() < u32::MAX
    &&& i.prelude.0 < i.modules@.len()
    &&& module.canonical_id == ModuleId(i.modules@.len() as u32)
    &&& top_level_of(module.callables@, 0) is Some
}

/// The machine without the parked import.
pub open spec fn unparked(m: MachineView) -> MachineView {
    MachineView { pending_import: None, ..m }
}

/// The message of a module whose source has errors.
pub open spec fn unloadable(path: Seq<Seq<char>>, error: Seq<char>) -> Seq<char> {
    "the module `"@ + dotted(path) + "` could not be loaded: "@ + error
}

/// The message of a module that there is not.
pub open spec fn missing(path: Seq<Seq<char>>) -> Seq<char> {
    "the module `"@ + dotted(path) + "` was not found"@
}

/// Where a module whose source has errors leaves heap and machine: it is known as failed
/// with an error, which is raised where the import stands.
pub open spec fn failed_in(
    h: HeapView,
    m: MachineView,
    p: PendingImportView,
    id: ModuleId,
    canonical: Seq<char>,
    findings: Seq<DiagnosticView>,
    error: Seq<char>,
) -> (HeapView, MachineView) {
    let (heap, value) = error_made(
        h,
        m.error_type,
        kind_slug(ExceptionKind::ModuleLoadError),
        unloadable(p.path, error),
        module_load_detail(p.path, canonical, findings),
    );
    (
        heap,
        MachineView {
            load: m.load.begun(p.path, canonical, id).with_state(id, LoadState::Failed(value)),
            ..m.raising(value, trace_here(m, Some(p.span)))
        },
    )
}

/// Where a module that can run leaves heap and machine: its top level is next, above the
/// importer.
pub open spec fn begun_in(
    h: HeapView,
    m: MachineView,
    p: PendingImportView,
    id: ModuleId,
    canonical: Seq<char>,
    module: ResolvedModule,
) -> (HeapView, MachineView) {
    let info = module.callables@[top_level_of(module.callables@, 0)->0 as int];
    let (heap, locals) = entry_locals(
        h,
        info,
        Seq::new(info.slot_count as nat, |i: int| None::<Value>),
        Seq::empty(),
    );
    (
        heap,
        MachineView { load: m.load.begun(p.path, canonical, id), ..m.numbered() }.entered(
            FrameView::top_level(id, locals, module.root, m.frame_serial),
        ),
    )
}

/// What handing in a module leads to. One whose canonical id is known already is not loaded
/// again: the path leads to the module there is.
pub open spec fn sourced(
    before: Instance,
    module: ResolvedModule,
    diags: Seq<Diagnostic>,
    canonical: Seq<char>,
    after: Instance,
) -> bool {
    let p = before.machine@.pending_import->0;
    let m = unparked(before.machine@);
    match m.load.module_of(canonical) {
        Some(existing) => {
            &&& after.machine@ == (MachineView { load: m.load.aliased(p.path, existing), ..m })
            &&& after == (Instance { machine: after.machine, ..before })
        },
        None => {
            let id = ModuleId(before.modules@.len() as u32);
            let (h, names) = seeded(before.heap@, module.globals@, module.globals@.len());
            &&& mods(after.modules@) == mods(before.modules@).push(
                ModView { resolved: module, names, wildcards: seq![before.prelude] },
            )
            &&& match error_from(diagnostics_view(diags), 0) {
                Some(error) => {
                    &&& (after.heap@, after.machine@) == failed_in(
                        h,
                        m,
                        p,
                        id,
                        canonical,
                        by_start(diagnostics_view(diags)),
                        error,
                    )
                    &&& diagnostics_view(after.load_diagnostics@) == diagnostics_view(
                        before.load_diagnostics@,
                    ) + by_start(diagnostics_view(diags))
                    &&& after == (Instance {
                        modules: after.modules,
                        heap: after.heap,
                        machine: after.machine,
                        load_diagnostics: after.load_diagnostics,
                        ..before
                    })
                },
                None => {
                    &&& (after.heap@, after.machine@) == begun_in(h, m, p, id, canonical, module)
                    &&& diagnostics_view(after.load_diagnostics@) == diagnostics_view(
                        before.load_diagnostics@,
                    ) + by_start(
                        diagnostics_view(diags) + shadowing(
                            module,
                            named_view(before.modules@[before.prelude.0 as int].namespace@),
                            id,
                            module.globals@.len(),
                        ),
                    )
                    &&& after.breakpoints@ == (BreakpointsView {
                        entries: before.breakpoints@.entries.map_values(
                            |e: EntryView|
                                re_resolved(after.modules@, after.machine@.load, canonical, e),
                        ),
                        ..before.breakpoints@
                    })
                    &&& after == (Instance {
                        modules: after.modules,
                        heap: after.heap,
                        machine: after.machine,
                        load_diagnostics: after.load_diagnostics,
                        breakpoints: after.breakpoints,
                        ..before
                    })
                },
            }
        },
    }
}

/// What learning that there is no such module leads to: a path of several segments may
/// still name a member of a module, so it is noted and the import goes on; otherwise the
/// import raises.
pub open spec fn not_found(before: Instance) -> (HeapView, MachineView) {
    let p = before.machine@.pending_import->0;
    let m = unparked(before.machine@);
    if p.path.len() > 1 && !m.load.not_module(p.path) {
        (before.heap@, MachineView { load: m.load.missed(p.path), ..m })
    } else {
        let (heap, value) = error_made(
            before.heap@,
            m.error_type,
            kind_slug(ExceptionKind::ModuleNotFound),
            missing(p.path),
            module_ref_detail(p.path, p.importer),
        );
        (
            heap,
            m.raising(
                value,
                trace_here(m, Some(p.span)),
            ),
        )
    }
}

fn append_findings(out: &mut Vec<Diagnostic>, more: Vec<Diagnostic>)
    ensures
        diagnostics_view(final(out)@) == diagnostics_view(old(out)@) + diagnostics_view(more@),
{
    let ghost given = diagnostics_view(more@);
    let mut i: usize = 0;
    while i < more.len()
        invariant
            i <= more@.len(),
            given == diagnostics_view(more@),
            diagnostics_view(out@) =~= diagnostics_view(old(out)@) + given.take(i as int),
        decreases more@.len() - i,
    {
        let ghost before = out@;
        let d = more[i].copy();
        out.push(d);
        assert(diagnostics_view(out@) =~= diagnostics_view(before).push(d@));
        assert(given[i as int] == more@[i as int]@);
        i = i + 1;
    }
    assert(given.take(i as int) =~= given);
}

impl Instance {
    /// The number that a module handed in next is to have.
    pub fn next_module_id(&self) -> (r: ModuleId)
        requires
            self.modules@.len() < u32::MAX,
        ensures
            r == ModuleId(self.modules@.len() as u32),
    {
        ModuleId(self.modules.len() as u32)
    }

    fn take_import(&mut self) -> (r: PendingImport)
        requires
            old(self).machine@.pending_import is Some,
        ensures
            Some(r@) == old(self).machine@.pending_import,
            final(self).machine@ == unparked(old(self).machine@),
            *final(self) == (Instance { machine: final(self).machine, ..*old(self) }),
    {
        match self.machine.pending_import.take() {
            Some(p) => p,
            None => PendingImport {
                path: Vec::new(),
                importer: ModuleId(0),
                span: crate::span::Span::dummy(),
            },
        }
    }

    /// Takes in a module that the host has parsed and resolved.
    pub fn load_import_source(
        &mut self,
        module: ResolvedModule,
        diagnostics: Vec<Diagnostic>,
        canonical_id: &str,
    )
        requires
            importing(*old(self)),
            sourceable(*old(self), module),
        ensures
            sourced(*old(self), module, diagnostics@, canonical_id@, *final(self)),
    {
        let pending = self.take_import();
        if let Some(existing) = self.machine.load.by_canonical(canonical_id) {
            self.machine.load.alias_path(&pending.path, existing);
            return;
        }
        let id = self.next_module_id();
        let namespace = seed_namespace(&module, &mut self.heap);
        let ghost names = named_view(namespace@);
        let mut wildcards: Vec<ModuleId> = Vec::new();
        wildcards.push(self.prelude);
        assert(wildcards@ =~= seq![self.prelude]);
        let ghost added = ModView { resolved: module, names, wildcards: seq![self.prelude] };
        let ghost seeded_heap = self.heap@;
        match first_error(&diagnostics) {
            Some(error) => {
                let found = sort_by_start(diagnostics);
                self.enter_failed_module(
                    pending,
                    LoadedModule { resolved: module, namespace, wildcards },
                    id,
                    canonical_id,
                    &found,
                    error,
                );
                append_findings(&mut self.load_diagnostics, found);
                assert(mods(self.modules@) =~= mods(old(self).modules@).push(added));
            },
            None => {
                let top: usize = match module.top_level() {
                    Some(t) => t,
                    None => 0,
                };
                let locals = top_level_locals(&module, &mut self.heap, top);
                let root = module.root;
                let serial: u64 = self.machine.next_frame_serial();
                let frame = Frame::module_top_level(id, locals, root, serial);
                self.machine.load.begin(&pending.path, canonical_id, id);
                self.machine.push_frame(frame);
                let hidden = prelude_shadowing(
                    &module,
                    &self.modules[self.prelude.0 as usize].namespace,
                    id,
                );
                let mut found = diagnostics;
                append_findings(&mut found, hidden);
                let found = sort_by_start(found);
                append_findings(&mut self.load_diagnostics, found);
                self.modules.push(LoadedModule { resolved: module, namespace, wildcards });
                proof {
                    crate::named::law_first_of_a_name_wins(
                        old(self).machine@.load.canonicals,
                        (canonical_id@, id),
                        canonical_id@,
                    );
                    assert(mods(self.modules@) =~= mods(old(self).modules@).push(added));
                }
                self.reresolve_breakpoints(canonical_id);
            },
        }
    }

    fn enter_failed_module(
        &mut self,
        pending: PendingImport,
        loaded: LoadedModule,
        id: ModuleId,
        canonical_id: &str,
        diagnostics: &Vec<Diagnostic>,
        error: String,
    )
        ensures
            (final(self).heap@, final(self).machine@) == failed_in(
                old(self).heap@,
                old(self).machine@,
                pending@,
                id,
                canonical_id@,
                diagnostics_view(diagnostics@),
                error@,
            ),
            final(self).modules@ == old(self).modules@.push(loaded),
            *final(self) == (Instance {
                modules: final(self).modules,
                heap: final(self).heap,
                machine: final(self).machine,
                ..*old(self)
            }),
    {
        let path = join_path(&pending.path);
        let start = join3("the module `", path.as_str(), "` could not be loaded: ");
        let message = join2(start.as_str(), error.as_str());
        let details = module_load_details(copy_texts(&pending.path), canonical_id, diagnostics);
        let value = make_error(
            &mut self.heap,
            self.machine.error_type,
            ExceptionKind::ModuleLoadError.slug(),
            message.as_str(),
            &details,
        );
        let trace = capture_trace(&self.machine, Some(pending.span));
        self.machine.load.begin(&pending.path, canonical_id, id);
        self.machine.load.set_state(id, LoadState::Failed(value));
        self.machine.arm_raise_value(value, trace);
        self.modules.push(loaded);
    }

    /// Takes in that there is no such module.
    pub fn raise_import_not_found(&mut self)
        requires
            importing(*old(self)),
        ensures
            (final(self).heap@, final(self).machine@) == not_found(*old(self)),
            *final(self) == (Instance {
                heap: final(self).heap,
                machine: final(self).machine,
                ..*old(self)
            }),
    {
        let pending = self.take_import();
        assert(texts(pending.path@).len() == pending.path@.len());
        if pending.path.len() > 1 && !self.machine.load.is_not_module(&pending.path) {
            self.machine.load.mark_not_module(&pending.path);
            return;
        }
        let path = join_path(&pending.path);
        let message = join3("the module `", path.as_str(), "` was not found");
        let details = module_ref_details(copy_texts(&pending.path), pending.importer);
        let value = make_error(
            &mut self.heap,
            self.machine.error_type,
            ExceptionKind::ModuleNotFound.slug(),
            message.as_str(),
            &details,
        );
        let trace = capture_trace(&self.machine, Some(pending.span));
        self.machine.arm_raise_value(value, trace);
    }

    /// Takes in an exception of the host's; a stale handle is refused, and the import is no
    /// longer parked either way.
    pub fn raise_import_value(&mut self, handle: Handle) -> (ok: bool)
        requires
            importing(*old(self)),
        ensures
            ok == (read(old(self).handles@, handle) is Ok),
            final(self).machine@ == (match read(old(self).handles@, handle) {
                Ok(v) => unparked(old(self).machine@).raising(
                    v,
                    trace_here(
                        old(self).machine@,
                        Some(old(self).machine@.pending_import->0.span),
                    ),
                ),
                Err(_) => unparked(old(self).machine@),
            }),
            *final(self) == (Instance { machine: final(self).machine, ..*old(self) }),
    {
        let pending = self.take_import();
        match values::value_of(&self.handles, handle) {
            Ok(v) => {
                let trace = capture_trace(&self.machine, Some(pending.span));
                self.machine.arm_raise_value(v, trace);
                true
            },
            Err(_) => false,
        }
    }
}

/// What an answered import starts from.
pub open spec fn import_answered(a: Instance, r: ImportResolution, b: Instance) -> bool {
    match r {
        ImportResolution::Source { module, diagnostics, canonical_id } => sourced(
            a,
            module,
            diagnostics@,
            canonical_id@,
            b,
        ),
        ImportResolution::NotFound => {
            &&& (b.heap@, b.machine@) == not_found(a)
            &&& b == (Instance { heap: b.heap, machine: b.machine, ..a })
        },
        ImportResolution::Raise(h) => {
            &&& read(a.handles@, h) is Ok
            &&& b.machine@ == unparked(a.machine@).raising(
                read(a.handles@, h)->Ok_0,
                trace_here(
                    a.machine@,
                    Some(a.machine@.pending_import->0.span),
                ),
            )
            &&& b == (Instance { machine: b.machine, ..a })
        },
    }
}

/// What a cancelled import starts from: nothing of the answer is seen.
pub open spec fn import_cancelled(a: Instance, b: Instance) -> bool {
    &&& b.machine@ == (MachineView {
        pending_import: None,
        unwind: Some(Unwind::Cancel),
        ..a.machine@
    })
    &&& b == (Instance { machine: b.machine, ..a })
}

/// Whether an answer to an import can be taken in: an exception is if its handle is live.
pub open spec fn answerable(a: Instance, r: ImportResolution) -> bool {
    match r {
        ImportResolution::Raise(h) => read(a.handles@, h) is Ok,
        _ => true,
    }
}

/// What an answer with a stale handle leaves: the import is no longer parked, and nothing
/// else of the program has changed, but it has ended.
pub open spec fn import_refused(a: Instance, z: Instance) -> bool {
    &&& z.machine@ == unparked(a.machine@)
    &&& z == (Instance { state: InstanceState::Faulted, machine: z.machine, ..a })
}

/// How answering an import comes out, given whether cancellation was requested.
pub open spec fn import_resolved(
    a: Instance,
    r: ImportResolution,
    cancelled: bool,
    z: Instance,
    out: Outcome,
) -> bool {
    if cancelled {
        exists|b: Instance| #[trigger] import_cancelled(a, b) && driven(b, z, out)
    } else if answerable(a, r) {
        exists|b: Instance| #[trigger] import_answered(a, r, b) && driven(b, z, out)
    } else {
        internal_fault(out) && import_refused(a, z)
    }
}

/// Answers an import and drives on, given whether cancellation was requested meanwhile: then
/// the cancellation wins over the answer. A stale handle faults.
pub fn resolve_import_with(inst: &mut Instance, r: ImportResolution, cancelled: bool) -> (out:
    Outcome)
    requires
        old(inst).handles@.wf(),
        importing(*old(inst)),
        r matches ImportResolution::Source { module, .. } ==> sourceable(*old(inst), module),
    ensures
        final(inst).handles@.wf(),
        import_resolved(*old(inst), r, cancelled, *final(inst), out),
{
    if cancelled {
        inst.machine.pending_import = None;
        inst.machine.unwind = Some(Unwind::Cancel);
        assert(import_cancelled(*old(inst), *inst));
        return inst.drive();
    }
    let ghost answer = r;
    match r {
        ImportResolution::Source { module, diagnostics, canonical_id } => {
            inst.load_import_source(module, diagnostics, canonical_id.as_str());
        },
        ImportResolution::NotFound => {
            inst.raise_import_not_found();
        },
        ImportResolution::Raise(h) => {
            if !inst.raise_import_value(h) {
                inst.state = InstanceState::Faulted;
                return Outcome::Faulted(EngineFault::Internal);
            }
        },
    }
    assert(import_answered(*old(inst), answer, *inst));
    inst.drive()
}

/// Answers an import and drives on: a cancellation requested meanwhile wins over the
/// answer, and a stale handle faults.
pub fn resolve_import(inst: &mut Instance, r: ImportResolution) -> (out: Outcome)
    requires
        old(inst).handles@.wf(),
        importing(*old(inst)),
        r matches ImportResolution::Source { module, .. } ==> sourceable(*old(inst), module),
    ensures
        final(inst).handles@.wf(),
        import_resolved(*old(inst), r, true, *final(inst), out) || import_resolved(
            *old(inst),
            r,
            false,
            *final(inst),
            out,
        ),
{
    let cancelled: bool = inst.cancel.is_cancelled();
    resolve_import_with(inst, r, cancelled)
}

/// A module is loaded once: asked for under another path, it is the module there is, and
/// nothing runs again.
pub proof fn law_known_modules_are_not_loaded_again(
    before: Instance,
    module: ResolvedModule,
    diags: Seq<Diagnostic>,
    canonical: Seq<char>,
    after: Instance,
)
    requires
        importing(before),
        before.machine@.load.module_of(canonical) is Some,
        before.machine@.load.module_at(before.machine@.pending_import->0.path) is None,
        sourced(before, module, diags, canonical, after),
    ensures
        after.modules == before.modules,
        after.heap == before.heap,
        after.machine@.frames == before.machine@.frames,
        after.machine@.load.module_at(before.machine@.pending_import->0.path)
            == before.machine@.load.module_of(canonical),
{
    let p = before.machine@.pending_import->0;
    crate::named::law_first_of_a_name_wins(
        before.machine@.load.paths,
        (dotted(p.path), before.machine@.load.module_of(canonical)->0),
        dotted(p.path),
    );
}

/// A module whose source has errors never runs: it is known as failed with the very value
/// that is raised, and no frame is entered for it.
pub proof fn law_broken_modules_do_not_run(
    before: Instance,
    module: ResolvedModule,
    diags: Seq<Diagnostic>,
    canonical: Seq<char>,
    after: Instance,
)
    requires
        importing(before),
        before.machine@.load.module_of(canonical) is None,
        before.machine@.load.states.len() == before.modules@.len(),
        before.modules@.len() < u32::MAX,
        error_from(diagnostics_view(diags), 0) is Some,
        sourced(before, module, diags, canonical, after),
    ensures
        after.machine@.frames == before.machine@.frames,
        after.machine@.load.states.len() == after.modules@.len(),
        ({
            &&& after.machine@.load.state(ModuleId(before.modules@.len() as u32)) matches Some(
                LoadState::Failed(v),
            )
            &&& after.machine@.unwind matches Some(Unwind::Raise { value, .. })
            &&& value == v
        }),
{
    assert(mods(after.modules@).len() == after.modules@.len());
    assert(mods(before.modules@).len() == before.modules@.len());
}

} // verus!
