//! The records of an instance have the fields that their types declare: they do when it is
//! loaded, and whatever the program or the host does then, they still do.

use crate::activation::block_invoked;
use crate::aux_eval::aux_begun;
use crate::aux_eval::aux_driven;
use crate::aux_eval::aux_stopped;
use crate::aux_eval::AuxOutcome;
use crate::aux_eval::AuxResult;
use crate::aux_eval::put_back;
use crate::aux_eval::raised_error;
use crate::aux_eval::render_site;
use crate::aux_eval::side_machine;
use crate::call::entering_unary;
use crate::collect::collected;
use crate::collect::lemma_lengths;
use crate::drive::Answered;
use crate::drive::armed;
use crate::drive::driven;
use crate::drive::follows;
use crate::drive::goes_on;
use crate::drive::handle_values;
use crate::drive::host_answered;
use crate::drive::host_invoked;
use crate::drive::Outcome;
use crate::drive::passed;
use crate::drive::passes;
use crate::drive::passes_to;
use crate::drive::plodded;
use crate::drive::Resolution;
use crate::drive::resolved_as;
use crate::drive::resolved_call;
use crate::drive::resumed;
use crate::drive::runs;
use crate::drive::runs_to;
use crate::drive::stopped;
use crate::error::EngineFault;
use crate::error::ExceptionKind;
use crate::error::kind_slug;
use crate::error::LimitKind;
use crate::error::RaiseView;
use crate::exception::diagnostics_view;
use crate::exception::module_load_detail;
use crate::exception::module_ref_detail;
use crate::exception::type_mismatch_detail;
use crate::exception::type_text;
use crate::handle::Handle;
use crate::heap::at;
use crate::heap::CallableTarget;
use crate::heap::HeapView;
use crate::heap::SchemaView;
use crate::heap::TypeView;
use crate::instance::Directive;
use crate::instance::Instance;
use crate::instance::InstanceState;
use crate::intrinsic::builtin_types;
use crate::intrinsic::HostReply;
use crate::intrinsic::IntrinsicView;
use crate::intrinsic::RegistryView;
use crate::life_laws::host_drove;
use crate::limits::Limits;
use crate::load::by_start;
use crate::load::callable_bound;
use crate::load::empty_heap;
use crate::load::entry_seeded;
use crate::load::error_schema;
use crate::load::freshly_loaded;
use crate::load::functions_bound;
use crate::load::modules_preloaded;
use crate::load::preloaded;
use crate::load::Preloaded;
use crate::load::prelude_bound;
use crate::load::protocol_bound;
use crate::load::seeded;
use crate::load::types_bound;
use crate::load::with_const;
use crate::machine::Step;
use crate::modload::LoadView;
use crate::native::Built;
use crate::native::member_made;
use crate::native::members_built;
use crate::native::MemberView;
use crate::native::NativeModuleView;
use crate::protocol::WellKnown;
use crate::resolve::GlobalDecl;
use crate::resolve::ResolvedModule;
use crate::resolve::top_level_of;
use crate::shape_laws::law_field_readers_agree;
use crate::shape_laws::readers_agree;
use crate::shape_laws::records_fit;
use crate::sourcing::answerable;
use crate::sourcing::error_from;
use crate::sourcing::import_answered;
use crate::sourcing::import_cancelled;
use crate::sourcing::import_resolved;
use crate::sourcing::ImportResolution;
use crate::sourcing::missing;
use crate::sourcing::unloadable;
use crate::span::ModuleId;
use crate::turn::instance_roots;
use crate::turn::left_by;
use crate::turn::turned;
use crate::turn::TurnKind;
use crate::turn::untouched;
use crate::unwind::boundary_resumed;
use crate::upkeep::carried;
use crate::upkeep::lemma_alike;
use crate::upkeep::lemma_block_invoked;
use crate::upkeep::lemma_collected;
use crate::upkeep::lemma_entering_unary;
use crate::upkeep::lemma_entry_locals;
use crate::upkeep::lemma_error_made;
use crate::upkeep::lemma_raised_or;
use crate::upkeep::lemma_restored;
use crate::upkeep::lemma_turned;
use crate::upkeep::lemma_typed;
use crate::upkeep::sound;
use crate::value::CalIdx;
use crate::value::CellIdx;
use crate::value::TypeIdx;
use crate::value::Value;
use crate::values::read;
use vstd::prelude::*;

verus! {

/// Whether the records of an instance fit their types, and errors have the type that the
/// program, and every program set aside, makes them of.
pub open spec fn well_shaped(i: Instance) -> bool {
    &&& sound(i.heap@, i.machine@.error_type)
    &&& forall|k: int|
        0 <= k < i.aside@.len() ==> (#[trigger] i.aside@[k]).machine@.error_type
            == i.machine@.error_type
}

/// Every turn leaves the records fitting their types, whatever the program does in it.
pub proof fn law_turns_leave_records_fitting(a: Instance, t: TurnKind, b: Instance)
    requires
        follows(a, t, b),
        well_shaped(a),
    ensures
        well_shaped(b),
{
    lemma_lengths(&a.heap);
    lemma_lengths(&b.heap);
    assert(left_by(b, t).heap == b.heap@);
    if left_by(b, t) == turned(a, true) {
        lemma_turned(a, true);
    } else {
        lemma_turned(a, false);
    }
}

proof fn lemma_passes(a: Instance, b: Instance, n: nat)
    requires
        passes_to(a, b, n),
        well_shaped(a),
    ensures
        well_shaped(b),
    decreases n,
{
    if n > 0 {
        let (c, t) = choose|c: Instance, t: TurnKind|
            passes_to(a, c, (n - 1) as nat) && #[trigger] passes(c, t, b);
        lemma_passes(a, c, (n - 1) as nat);
        law_turns_leave_records_fitting(c, t, b);
    }
}

proof fn lemma_runs(a: Instance, b: Instance, n: nat)
    requires
        runs_to(a, b, n),
        well_shaped(a),
    ensures
        well_shaped(b),
    decreases n,
{
    if n > 0 {
        let (c, t) = choose|c: Instance, t: TurnKind|
            runs_to(a, c, (n - 1) as nat) && #[trigger] follows(c, t, b) && goes_on(t);
        lemma_runs(a, c, (n - 1) as nat);
        law_turns_leave_records_fitting(c, t, b);
    }
}

proof fn lemma_stopped(a: Instance, t: TurnKind, pause: bool, z: Instance, r: Option<Outcome>)
    requires
        stopped(a, t, pause, z, r),
        well_shaped(a),
    ensures
        well_shaped(z),
{
}

/// A drive leaves the records fitting their types, however it came out.
pub proof fn law_drives_leave_records_fitting(a: Instance, z: Instance, r: Outcome)
    requires
        driven(a, z, r),
        well_shaped(a),
    ensures
        well_shaped(z),
{
    if exists|b: Instance, c: Instance, t: TurnKind, n: nat, pause: bool|
        #![trigger passed(a, b, n), follows(b, t, c), stopped(c, t, pause, z, Some(r))]
        passed(a, b, n) && follows(b, t, c) && stopped(c, t, pause, z, Some(r)) {
        let (b, c, t, n, pause) = choose|b: Instance, c: Instance, t: TurnKind, n: nat, pause: bool|
            #![trigger passed(a, b, n), follows(b, t, c), stopped(c, t, pause, z, Some(r))]
            passed(a, b, n) && follows(b, t, c) && stopped(c, t, pause, z, Some(r));
        lemma_passes(a, b, n);
        law_turns_leave_records_fitting(b, t, c);
        lemma_stopped(c, t, pause, z, Some(r));
    } else {
        let (b, n) = choose|b: Instance, n: nat| #[trigger]
            passed(a, b, n) && plodded(a, b) && z == (Instance {
                state: InstanceState::Paused,
                ..b
            });
        lemma_passes(a, b, n);
    }
}

proof fn lemma_seeded(h: HeapView, globals: Seq<GlobalDecl>, n: nat, t: TypeIdx)
    ensures
        carried(h, seeded(h, globals, n).0, t),
    decreases n,
{
    if n > 0 && n <= globals.len() {
        lemma_seeded(h, globals, (n - 1) as nat, t);
        lemma_alike(seeded(h, globals, (n - 1) as nat).0, seeded(h, globals, n).0, t);
    }
}

proof fn lemma_import_answered(a: Instance, r: ImportResolution, b: Instance)
    requires
        import_answered(a, r, b),
        well_shaped(a),
    ensures
        well_shaped(b),
{
    let t = a.machine@.error_type;
    let p = a.machine@.pending_import->0;
    lemma_error_made(
        a.heap@,
        t,
        kind_slug(ExceptionKind::ModuleNotFound),
        missing(p.path),
        module_ref_detail(p.path, p.importer),
    );
    if let ImportResolution::Source { module, diagnostics, canonical_id } = r {
        let h = seeded(a.heap@, module.globals@, module.globals@.len()).0;
        lemma_seeded(a.heap@, module.globals@, module.globals@.len(), t);
        let info = module.callables@[top_level_of(module.callables@, 0)->0 as int];
        lemma_entry_locals(
            h,
            info,
            Seq::new(info.slot_count as nat, |i: int| None::<Value>),
            Seq::empty(),
            t,
        );
        let diags = diagnostics_view(diagnostics@);
        if let Some(error) = error_from(diags, 0) {
            lemma_error_made(
                h,
                t,
                kind_slug(ExceptionKind::ModuleLoadError),
                unloadable(p.path, error),
                module_load_detail(p.path, canonical_id@, by_start(diags)),
            );
        }
    }
}

/// Whatever the host has an instance driven for, its records fit their types afterwards.
pub proof fn law_driving_leaves_records_fitting(a: Instance, b: Instance)
    requires
        host_drove(a, b),
        well_shaped(a),
    ensures
        well_shaped(b),
{
    if exists|out: Outcome| #[trigger] driven(a, b, out) {
        let out = choose|out: Outcome| #[trigger] driven(a, b, out);
        law_drives_leave_records_fitting(a, b, out);
    } else if exists|c: Instance, directive: Directive, fuel: Option<u64>, out: Outcome| #[trigger]
        armed(a, c, directive, fuel) && #[trigger] driven(c, b, out) {
        let (c, directive, fuel, out) = choose|
            c: Instance,
            directive: Directive,
            fuel: Option<u64>,
            out: Outcome,
        | #[trigger]
            armed(a, c, directive, fuel) && #[trigger] driven(c, b, out);
        law_drives_leave_records_fitting(c, b, out);
    } else if exists|r: Resolution, cancelled: bool, out: Outcome| #[trigger]
        resolved_as(a, r, cancelled, b, out) {
        let (r, cancelled, out) = choose|r: Resolution, cancelled: bool, out: Outcome| #[trigger]
            resolved_as(a, r, cancelled, b, out);
        if cancelled || resolved_call(a, r).1 {
            let c = choose|c: Instance| #[trigger]
                resumed(a, r, cancelled, c) && driven(c, b, out);
            law_drives_leave_records_fitting(c, b, out);
        }
    } else {
        let (r, cancelled, out) = choose|r: ImportResolution, cancelled: bool, out: Outcome|
         #[trigger]
            import_resolved(a, r, cancelled, b, out);
        if cancelled {
            let c = choose|c: Instance| #[trigger] import_cancelled(a, c) && driven(c, b, out);
            law_drives_leave_records_fitting(c, b, out);
        } else if answerable(a, r) {
            let c = choose|c: Instance| #[trigger] import_answered(a, r, c) && driven(c, b, out);
            lemma_import_answered(a, r, c);
            law_drives_leave_records_fitting(c, b, out);
        }
    }
}

/// Whether the host answered the call of one of its functions, or had its block run.
pub open spec fn host_served(a: Instance, b: Instance) -> bool {
    &&& b.aside == a.aside
    &&& {
        ||| exists|reply: HostReply| #[trigger]
            host_answered(a, reply) == (Answered {
                heap: b.heap@,
                machine: b.machine@,
                natives: b.natives@,
            })
        ||| exists|handles: Seq<Handle>| #[trigger]
            host_invoked(a, handles).0 == (Answered {
                heap: b.heap@,
                machine: b.machine@,
                natives: b.natives@,
            })
    }
}

/// Whether the host made, read or let go of values, none of which is a record or a type, had
/// the heap collected, or set anything but what errors are made of.
pub open spec fn host_stored(a: Instance, b: Instance) -> bool {
    &&& b.aside == a.aside
    &&& b.machine@.error_type == a.machine@.error_type
    &&& {
        ||| b.heap@.records == a.heap@.records && b.heap@.types == a.heap@.types
        ||| b.heap@ == collected(a.heap@, instance_roots(a))
    }
}

/// Whether the host had a value rendered by the program's code, in part or whole.
pub open spec fn host_showed(a: Instance, b: Instance) -> bool {
    ||| exists|cal: CalIdx, value: Value, fuel: u64, raise: Option<RaiseView>| #[trigger]
        aux_begun(a, cal, value, fuel, b, raise)
    ||| a.aside@.len() > 0 && exists|out: AuxOutcome| #[trigger] aux_driven(a, b, out)
    ||| a.aside@.len() > 0 && exists|e: RaiseView, result: AuxResult, out: AuxOutcome| #[trigger]
        put_back(a, raised_error(a.heap@, a.machine@, e).0, result, b, out)
}

proof fn lemma_put_back(d: Instance, h: HeapView, result: AuxResult, z: Instance, out: AuxOutcome)
    requires
        put_back(d, h, result, z, out),
        d.aside@.len() > 0,
        well_shaped(d),
        sound(h, d.machine@.error_type),
    ensures
        well_shaped(z),
{
    lemma_restored(h, d.machine@.dyn_stack, 0, d.machine@.error_type);
    assert(d.aside@.last() == d.aside@[d.aside@.len() - 1]);
    assert forall|k: int| 0 <= k < z.aside@.len() implies (#[trigger] z.aside@[k]).machine@.error_type
        == z.machine@.error_type by {
        assert(z.aside@[k] == d.aside@[k]);
    }
}

proof fn lemma_aux_stopped(d: Instance, t: TurnKind, z: Instance, out: AuxOutcome)
    requires
        aux_stopped(d, t, z, out),
        d.aside@.len() > 0,
        well_shaped(d),
    ensures
        well_shaped(z),
{
    if let Some((h, result)) = crate::aux_eval::settled(d, t) {
        let value = match d.machine@.reg {
            Some(v) => v,
            None => Value::Nil,
        };
        lemma_error_made(
            d.heap@,
            d.machine@.error_type,
            kind_slug(ExceptionKind::TypeMismatch),
            "a `to_string` implementation must return a String"@,
            type_mismatch_detail("to_string"@, "String"@, type_text(d.heap@, value)),
        );
        lemma_put_back(d, h, result, z, out);
    }
}

proof fn lemma_runs_keep_what_is_aside(a: Instance, b: Instance, n: nat)
    requires
        runs_to(a, b, n),
    ensures
        b.aside == a.aside,
    decreases n,
{
    if n > 0 {
        let (c, t) = choose|c: Instance, t: TurnKind|
            runs_to(a, c, (n - 1) as nat) && #[trigger] follows(c, t, b) && goes_on(t);
        lemma_runs_keep_what_is_aside(a, c, (n - 1) as nat);
    }
}

proof fn lemma_aux_driven(a: Instance, z: Instance, out: AuxOutcome)
    requires
        aux_driven(a, z, out),
        a.aside@.len() > 0,
        well_shaped(a),
    ensures
        well_shaped(z),
{
    if exists|b: Instance, c: Instance, t: TurnKind, n: nat|
        #![trigger runs(a, b, n), follows(b, t, c), aux_stopped(c, t, z, out)]
        runs(a, b, n) && follows(b, t, c) && aux_stopped(c, t, z, out) {
        let (b, c, t, n) = choose|b: Instance, c: Instance, t: TurnKind, n: nat|
            #![trigger runs(a, b, n), follows(b, t, c), aux_stopped(c, t, z, out)]
            runs(a, b, n) && follows(b, t, c) && aux_stopped(c, t, z, out);
        lemma_runs(a, b, n);
        lemma_runs_keep_what_is_aside(a, b, n);
        law_turns_leave_records_fitting(b, t, c);
        lemma_aux_stopped(c, t, z, out);
    } else {
        let fault = AuxResult::Faulted(EngineFault::LimitExceeded(LimitKind::StepBudget));
        let (b, n) = choose|b: Instance, n: nat| #[trigger]
            runs(a, b, n) && plodded(a, b) && put_back(b, b.heap@, fault, z, out);
        lemma_runs(a, b, n);
        lemma_runs_keep_what_is_aside(a, b, n);
        lemma_put_back(b, b.heap@, fault, z, out);
    }
}

/// Rendering a value leaves the records fitting their types.
pub proof fn law_rendering_leaves_records_fitting(a: Instance, b: Instance)
    requires
        host_showed(a, b),
        well_shaped(a),
    ensures
        well_shaped(b),
{
    if exists|cal: CalIdx, value: Value, fuel: u64, raise: Option<RaiseView>| #[trigger]
        aux_begun(a, cal, value, fuel, b, raise) {
        let (cal, value, fuel, raise) = choose|
            cal: CalIdx,
            value: Value,
            fuel: u64,
            raise: Option<RaiseView>,
        | #[trigger]
            aux_begun(a, cal, value, fuel, b, raise);
        let (node, span) = render_site(a.modules@, a.heap@, cal);
        let side = side_machine(a.machine@, fuel);
        lemma_entering_unary(a.modules@, a.heap@, side, cal, value, node, span);
        let s = entering_unary(a.modules@, a.heap@, side, cal, value, node, span);
        assert(s == (Step { heap: b.heap@, machine: b.machine@, raise }));
        assert forall|k: int| 0 <= k < b.aside@.len() implies (
        #[trigger] b.aside@[k]).machine@.error_type == b.machine@.error_type by {
            if k < a.aside@.len() {
                assert(b.aside@.drop_last()[k] == a.aside@[k]);
            } else {
                assert(b.aside@[k] == b.aside@.last());
            }
        }
    } else if a.aside@.len() > 0 && exists|out: AuxOutcome| #[trigger] aux_driven(a, b, out) {
        let out = choose|out: AuxOutcome| #[trigger] aux_driven(a, b, out);
        lemma_aux_driven(a, b, out);
    } else {
        let (e, result, out) = choose|e: RaiseView, result: AuxResult, out: AuxOutcome| #[trigger]
            put_back(a, raised_error(a.heap@, a.machine@, e).0, result, b, out);
        let t = a.machine@.error_type;
        lemma_error_made(a.heap@, t, kind_slug(e.kind), e.message, e.details);
        lemma_put_back(a, raised_error(a.heap@, a.machine@, e).0, result, b, out);
    }
}

/// Answering a call and running its block leave the records fitting their types.
pub proof fn law_serving_leaves_records_fitting(a: Instance, b: Instance)
    requires
        host_served(a, b),
        well_shaped(a),
    ensures
        well_shaped(b),
{
    let after = Answered { heap: b.heap@, machine: b.machine@, natives: b.natives@ };
    if exists|reply: HostReply| #[trigger] host_answered(a, reply) == after {
        let c = a.natives@.calls.last();
        let (m, e) = boundary_resumed(a.machine@, c.boundary as int, c.kind);
        lemma_raised_or(a.heap@, m, e);
    } else {
        let handles = choose|handles: Seq<Handle>| #[trigger] host_invoked(a, handles).0 == after;
        if let Some(values) = handle_values(a.handles@, handles, handles.len()) {
            lemma_block_invoked(a.modules@, a.heap@, a.machine@, a.natives@, values);
            let s = block_invoked(a.modules@, a.heap@, a.machine@, a.natives@, values);
            lemma_raised_or(s.heap, s.machine, s.raise);
        }
    }
}

/// Making values and collecting the heap leave the records fitting their types.
pub proof fn law_storing_leaves_records_fitting(a: Instance, b: Instance)
    requires
        host_stored(a, b),
        well_shaped(a),
    ensures
        well_shaped(b),
{
    lemma_alike(a.heap@, b.heap@, a.machine@.error_type);
    lemma_lengths(&a.heap);
    lemma_collected(a, untouched(a));
}

proof fn lemma_types_bound(h: HeapView, n: nat, t: TypeIdx)
    ensures
        carried(h, types_bound(h, n).0, t),
    decreases n,
{
    if n > 0 && n <= builtin_types().len() {
        lemma_types_bound(h, (n - 1) as nat, t);
        let before = types_bound(h, (n - 1) as nat).0;
        let kind = TypeView::Builtin(builtin_types()[n - 1].1);
        lemma_typed(before, kind, t);
        lemma_alike(before.new_type(kind), types_bound(h, n).0, t);
    }
}

proof fn lemma_functions_bound(
    b: (HeapView, Seq<(Seq<char>, CellIdx)>),
    id: ModuleId,
    all: Seq<IntrinsicView>,
    n: nat,
    t: TypeIdx,
)
    ensures
        carried(b.0, functions_bound(b, id, all, n).0, t),
    decreases n,
{
    if n > 0 && n <= all.len() {
        lemma_functions_bound(b, id, all, (n - 1) as nat, t);
        lemma_alike(
            functions_bound(b, id, all, (n - 1) as nat).0,
            functions_bound(b, id, all, n).0,
            t,
        );
    }
}

proof fn lemma_protocol_bound(
    b: (HeapView, Seq<(Seq<char>, CellIdx)>),
    name: Seq<char>,
    t: TypeIdx,
)
    ensures
        carried(b.0, protocol_bound(b, name).0, t),
{
    lemma_typed(b.0, TypeView::Protocol(name), t);
    lemma_alike(b.0.new_type(TypeView::Protocol(name)), protocol_bound(b, name).0, t);
}

proof fn lemma_prelude_bound(
    h: HeapView,
    id: ModuleId,
    error_type: TypeIdx,
    all: Seq<IntrinsicView>,
    flat: nat,
)
    ensures
        carried(h, prelude_bound(h, id, error_type, all, flat).0, error_type),
{
    let t = error_type;
    let typed = types_bound(h, builtin_types().len());
    lemma_types_bound(h, builtin_types().len(), t);
    let errors = with_const(typed, "Error"@, Value::Type(error_type));
    lemma_alike(typed.0, errors.0, t);
    let stringable = protocol_bound(errors, "Stringable"@);
    lemma_protocol_bound(errors, "Stringable"@, t);
    let known = protocol_bound(stringable, "Hashable"@);
    lemma_protocol_bound(stringable, "Hashable"@, t);
    let target = CallableTarget::Dispatcher(WellKnown::Stringable);
    let dispatching = callable_bound(known, id, "to_string"@, target);
    lemma_alike(known.0, dispatching.0, t);
    lemma_functions_bound(dispatching, id, all, flat, t);
}

proof fn lemma_members_built(
    b: Built,
    id: ModuleId,
    members: Seq<(Seq<char>, MemberView)>,
    n: nat,
    t: TypeIdx,
)
    ensures
        carried(b.heap, members_built(b, id, members, n).heap, t),
    decreases n,
{
    if n > 0 && n <= members.len() {
        lemma_members_built(b, id, members, (n - 1) as nat, t);
        let before = members_built(b, id, members, (n - 1) as nat);
        let (name, member) = members[n - 1];
        let made = member_made(before, id, name, member).0;
        lemma_alike(before.heap, made, t);
        if let MemberView::Record { fields, is_ref } = member {
            lemma_typed(
                before.heap,
                TypeView::Record(SchemaView { name, fields, is_ref }),
                t,
            );
        }
        lemma_alike(made, members_built(b, id, members, n).heap, t);
    }
}

proof fn lemma_preloaded(p: Preloaded, modules: Seq<NativeModuleView>, n: nat, t: TypeIdx)
    ensures
        carried(p.heap, preloaded(p, modules, n).heap, t),
    decreases n,
{
    if n > 0 && n <= modules.len() {
        lemma_preloaded(p, modules, (n - 1) as nat, t);
        let before = preloaded(p, modules, (n - 1) as nat);
        let members = modules[n - 1].members;
        lemma_members_built(
            Built { heap: before.heap, intrinsics: before.intrinsics, names: Seq::empty() },
            ModuleId(n as u32),
            members,
            members.len(),
            t,
        );
    }
}

/// The records of an instance fit their types when it has been loaded.
pub proof fn law_loaded_records_fit(
    i: Instance,
    module: ResolvedModule,
    limits: Limits,
    reg: RegistryView,
    path: Seq<char>,
)
    requires
        freshly_loaded(i, module, limits, reg, path),
    ensures
        well_shaped(i),
{
    let t = TypeIdx(0);
    let h = empty_heap().new_type(TypeView::Record(error_schema()));
    assert(sound(h, t)) by {
        reveal(sound);
        assert(at(h.types, 0) is Some);
    }
    lemma_seeded(h, module.globals@, module.globals@.len(), t);
    let h1 = seeded(h, module.globals@, module.globals@.len()).0;
    let info = module.callables@[top_level_of(module.callables@, 0)->0 as int];
    lemma_entry_locals(
        h1,
        info,
        Seq::new(info.slot_count as nat, |i: int| None::<Value>),
        Seq::empty(),
        t,
    );
    let start = Preloaded {
        heap: entry_seeded(module).0,
        intrinsics: reg.intrinsics,
        names: Seq::empty(),
        load: LoadView::entry(path),
    };
    lemma_preloaded(start, reg.modules, reg.modules.len(), t);
    let p = modules_preloaded(module, reg, path);
    let prelude = ModuleId((reg.modules.len() + 1) as u32);
    lemma_prelude_bound(p.heap, prelude, t, p.intrinsics, reg.intrinsics.len());
}

/// Whether the host did one thing with an instance.
#[verifier::opaque]
pub open spec fn host_acted(a: Instance, b: Instance) -> bool {
    host_drove(a, b) || host_showed(a, b) || host_served(a, b) || host_stored(a, b)
}

/// Whether a number of such things leads from an instance to another.
pub open spec fn acted_to(a: Instance, b: Instance, n: nat) -> bool
    decreases n,
{
    if n == 0 {
        a == b
    } else {
        exists|c: Instance| acted_to(a, c, (n - 1) as nat) && #[trigger] host_acted(c, b)
    }
}

proof fn lemma_acted(a: Instance, b: Instance)
    requires
        host_acted(a, b),
        well_shaped(a),
    ensures
        well_shaped(b),
{
    reveal(host_acted);
    if host_drove(a, b) {
        law_driving_leaves_records_fitting(a, b);
    } else if host_showed(a, b) {
        law_rendering_leaves_records_fitting(a, b);
    } else if host_served(a, b) {
        law_serving_leaves_records_fitting(a, b);
    } else {
        law_storing_leaves_records_fitting(a, b);
    }
}

/// From loading on, whatever the program and the host do, every record has the fields that
/// its type declares.
pub proof fn law_records_always_fit(a: Instance, b: Instance, n: nat)
    requires
        well_shaped(a),
        acted_to(a, b, n),
    ensures
        well_shaped(b),
        records_fit(b.heap@),
    decreases n,
{
    reveal(sound);
    if n > 0 {
        let c = choose|c: Instance| acted_to(a, c, (n - 1) as nat) && #[trigger] host_acted(c, b);
        law_records_always_fit(a, c, (n - 1) as nat);
        lemma_acted(c, b);
    }
}

/// In an instance that was loaded, the readers of a record's fields agree, whatever the
/// program and the host have done since.
pub proof fn law_field_readers_always_agree(
    i: Instance,
    module: ResolvedModule,
    limits: Limits,
    reg: RegistryView,
    path: Seq<char>,
    b: Instance,
    n: nat,
    handle: Handle,
    index: nat,
)
    requires
        freshly_loaded(i, module, limits, reg, path),
        acted_to(i, b, n),
        read(b.handles@, handle) is Ok,
    ensures
        readers_agree(b.handles@, b.heap@, handle, index),
{
    law_loaded_records_fit(i, module, limits, reg, path);
    law_records_always_fit(i, b, n);
    law_field_readers_agree(b.handles@, b.heap@, handle, index);
}

} // verus!
