//! The dicts of an instance over its whole life, from loading on.

use crate::activation::block_invoked;
use crate::activation::calls_view;
use crate::activation::Progress;
use crate::aux_eval::aux_begun;
use crate::aux_eval::aux_driven;
use crate::aux_eval::aux_stopped;
use crate::aux_eval::AuxOutcome;
use crate::aux_eval::AuxResult;
use crate::aux_eval::put_back;
use crate::aux_eval::raised_error;
use crate::aux_eval::render_site;
use crate::aux_eval::side_machine;
use crate::call::entering_unary;
use crate::collect::lemma_lengths;
use crate::compare::law_equality_is_reflexive;
use crate::compare::same;
use crate::dict_laws::keyed;
use crate::dict_laws::law_equality_is_symmetric;
use crate::dict_laws::law_equality_is_transitive;
use crate::dict_laws::law_keys_equal_to_one_are_equal;
use crate::dict_laws::natively_keyed;
use crate::drive::Answered;
use crate::drive::follows;
use crate::drive::handle_values;
use crate::drive::host_answered;
use crate::drive::host_invoked;
use crate::drive::plodded;
use crate::drive::runs;
use crate::dynamic::restored;
use crate::error::EngineFault;
use crate::error::ExceptionKind;
use crate::error::kind_slug;
use crate::error::LimitKind;
use crate::error::RaiseView;
use crate::exception::type_mismatch_detail;
use crate::exception::type_text;
use crate::frame::FrameView;
use crate::frame::Local;
use crate::handle::Handle;
use crate::heap::CallableTarget;
use crate::heap::CalView;
use crate::heap::CellKind;
use crate::heap::HeapView;
use crate::heap::TypeView;
use crate::holding::frame_free;
use crate::holding::frames_free;
use crate::holding::lemma_entering_unary;
use crate::holding::lemma_entry_locals;
use crate::holding::lemma_machine_wider;
use crate::holding::machine_free;
use crate::holding::raise_free;
use crate::holding::stood;
use crate::holding::values_free;
use crate::holding_steps::calls_free;
use crate::holding_steps::calm;
use crate::holding_steps::const_calm;
use crate::holding_steps::lemma_block_invoked;
use crate::holding_steps::lemma_calls_wider;
use crate::holding_steps::lemma_raised_or;
use crate::holding_steps::lemma_restored;
use crate::holding_steps::natives_free;
use crate::holding_steps::params_calm;
use crate::holding_steps::table_calm;
use crate::importing::mods;
use crate::instance::Instance;
use crate::intrinsic::builtin_types;
use crate::intrinsic::HostReply;
use crate::intrinsic::IntrinsicView;
use crate::intrinsic::RegistryView;
use crate::key_laws::bare;
use crate::key_laws::handles_taken;
use crate::key_laws::host_drove;
use crate::key_laws::host_stored;
use crate::key_laws::law_driving_leaves_dicts_keyed;
use crate::key_laws::law_storing_leaves_dicts_keyed;
use crate::key_laws::lemma_follows;
use crate::key_laws::lemma_handed;
use crate::key_laws::lemma_interned;
use crate::key_laws::lemma_rest_wider;
use crate::key_laws::lemma_runs;
use crate::key_laws::lemma_seeded;
use crate::key_laws::lemma_taken;
use crate::key_laws::pending_view;
use crate::key_laws::tidy;
use crate::key_laws::unmarked;
use crate::key_laws::well_keyed;
use crate::limits::Limits;
use crate::load::callable_bound;
use crate::load::empty_heap;
use crate::load::entry_seeded;
use crate::load::error_schema;
use crate::load::freshly_loaded;
use crate::load::functions_bound;
use crate::load::modules_preloaded;
use crate::load::preloaded;
use crate::load::Preloaded;
use crate::load::prelude_bound;
use crate::load::protocol_bound;
use crate::load::seeded;
use crate::load::types_bound;
use crate::load::with_const;
use crate::local::fresh_locals;
use crate::local::paired;
use crate::local::spliced;
use crate::machine::Step;
use crate::modload::LoadView;
use crate::native::Built;
use crate::native::member_made;
use crate::native::members_built;
use crate::native::MemberView;
use crate::native::NativeModuleView;
use crate::protocol::WellKnown;
use crate::resolve::CallableInfo;
use crate::resolve::CaptureInfo;
use crate::resolve::ResolvedModule;
use crate::resolve::top_level_of;
use crate::sealing::dicts_keyed;
use crate::sealing::free;
use crate::sealing::group_details;
use crate::sealing::lemma_aside;
use crate::sealing::lemma_error_made;
use crate::sealing::lemma_new_cell;
use crate::sealing::lemma_wider;
use crate::sealing::lemma_wider_refl;
use crate::sealing::lemma_wider_trans;
use crate::sealing::orderly;
use crate::sealing::wider;
use crate::span::ModuleId;
use crate::turn::raised_or;
use crate::turn::TurnKind;
use crate::turn::TurnOf;
use crate::unwind::boundary_resumed;
use crate::value::CalIdx;
use crate::value::CellIdx;
use crate::value::DictIdx;
use crate::value::TypeIdx;
use crate::value::Value;
use crate::values::read;
use vstd::prelude::*;

verus! {

/// Whether the host answered the call of one of its functions, or had its block run, with no
/// marked handle.
pub open spec fn host_served(a: Instance, x: Set<int>, b: Instance, y: Set<int>) -> bool {
    &&& b == (Instance {
        heap: b.heap,
        machine: b.machine,
        natives: b.natives,
        handles: b.handles,
        ..a
    })
    &&& handles_taken(a, x, b, y, None)
    &&& {
        ||| exists|reply: HostReply| #[trigger]
            host_answered(a, reply) == answered_as(b) && reply_unmarked(x, reply)
        ||| exists|handles: Seq<Handle>| #[trigger]
            host_invoked(a, handles).0 == answered_as(b) && forall|k: int|
                0 <= k < handles.len() ==> unmarked(x, #[trigger] handles[k])
    }
}

/// What an answer is to lead to, for an instance.
pub open spec fn answered_as(b: Instance) -> Answered {
    Answered { heap: b.heap@, machine: b.machine@, natives: b.natives@ }
}

/// Whether a reply is not a marked handle.
pub open spec fn reply_unmarked(x: Set<int>, reply: HostReply) -> bool {
    match reply {
        HostReply::Value(Some(h)) => unmarked(x, h),
        HostReply::Raise(h) => unmarked(x, h),
        HostReply::Value(None) => true,
    }
}

proof fn lemma_handle_values(
    a: Instance,
    x: Set<int>,
    s: Set<int>,
    handles: Seq<Handle>,
    n: nat,
)
    requires
        tidy(a, x, s),
        forall|k: int| 0 <= k < handles.len() ==> unmarked(x, #[trigger] handles[k]),
    ensures
        handle_values(a.handles@, handles, n) matches Some(values) ==> values_free(
            a.heap@,
            s,
            values,
        ),
    decreases n,
{
    if n > 0 && n <= handles.len() {
        lemma_handle_values(a, x, s, handles, (n - 1) as nat);
        assert(unmarked(x, handles[n - 1]));
        lemma_handed(a, x, s, handles[n - 1]);
    }
}

proof fn lemma_answered(
    a: Instance,
    x: Set<int>,
    s: Set<int>,
    reply: HostReply,
) -> (t: Set<int>)
    requires
        tidy(a, x, s),
        reply_unmarked(x, reply),
        a.natives@.calls.len() > 0,
    ensures
        ({
            let z = host_answered(a, reply);
            stood(a.heap@, s, z.heap, t, z.machine, None) && natives_free(z.heap, t, z.natives)
        }),
{
    let h = a.heap@;
    let c = a.natives@.calls.last();
    lemma_wider_refl(h, s);
    assert(natives_free(h, s, a.natives@.left()));
    match reply {
        HostReply::Value(Some(handle)) => lemma_handed(a, x, s, handle),
        HostReply::Raise(handle) => lemma_handed(a, x, s, handle),
        HostReply::Value(None) => {},
    }
    if a.machine@.meter.pending_fault is None && a.machine@.unwind is Some && reply
        == HostReply::Value(None) {
        let (m, e) = boundary_resumed(a.machine@, c.boundary as int, c.kind);
        let t = lemma_raised_or(h, s, m, e);
        let g = raised_or(h, m, e).0;
        lemma_calls_wider(h, s, g, t, a.natives@.left().calls, a.natives@.pending);
        t
    } else {
        s
    }
}

proof fn lemma_invoked(
    a: Instance,
    x: Set<int>,
    s: Set<int>,
    handles: Seq<Handle>,
) -> (t: Set<int>)
    requires
        tidy(a, x, s),
        forall|k: int| 0 <= k < handles.len() ==> unmarked(x, #[trigger] handles[k]),
        a.natives@.calls.len() > 0,
    ensures
        ({
            let z = host_invoked(a, handles).0;
            stood(a.heap@, s, z.heap, t, z.machine, None) && natives_free(z.heap, t, z.natives)
        }),
{
    let h = a.heap@;
    lemma_wider_refl(h, s);
    lemma_handle_values(a, x, s, handles, handles.len());
    if a.machine@.unwind is Some {
        s
    } else if let Some(values) = handle_values(a.handles@, handles, handles.len()) {
        lemma_block_invoked(a.modules@, h, s, a.machine@, a.natives@, values);
        let p = block_invoked(a.modules@, h, a.machine@, a.natives@, values);
        let t = lemma_raised_or(p.heap, s, p.machine, p.raise);
        let g = raised_or(p.heap, p.machine, p.raise).0;
        lemma_wider_trans(h, s, p.heap, s, g, t);
        assert forall|progress: Progress| natives_free(
            h,
            s,
            #[trigger] a.natives@.progressed(progress),
        ) by {
            let after = a.natives@.progressed(progress).calls;
            assert forall|k: int| 0 <= k < after.len() implies values_free(
                h,
                s,
                (#[trigger] after[k]).args,
            ) by {
                assert(values_free(h, s, a.natives@.calls[k].args));
            }
        }
        let z = host_invoked(a, handles).0;
        assert(natives_free(h, s, z.natives));
        lemma_calls_wider(h, s, g, t, z.natives.calls, z.natives.pending);
        t
    } else {
        s
    }
}

/// Answering a call and running its block leave the dicts well keyed.
pub proof fn law_serving_leaves_dicts_keyed(a: Instance, x: Set<int>, b: Instance, y: Set<int>)
    requires
        host_served(a, x, b, y),
        a.natives@.calls.len() > 0,
        well_keyed(a, x),
    ensures
        well_keyed(b, y),
{
    let s = choose|s: Set<int>| #[trigger] tidy(a, x, s);
    let t = if exists|reply: HostReply| #[trigger]
        host_answered(a, reply) == answered_as(b) && reply_unmarked(x, reply) {
        let reply = choose|reply: HostReply| #[trigger]
            host_answered(a, reply) == answered_as(b) && reply_unmarked(x, reply);
        lemma_answered(a, x, s, reply)
    } else {
        let handles = choose|handles: Seq<Handle>| #[trigger]
            host_invoked(a, handles).0 == answered_as(b) && forall|k: int|
                0 <= k < handles.len() ==> unmarked(x, #[trigger] handles[k]);
        lemma_invoked(a, x, s, handles)
    };
    let z = answered_as(b);
    assert(stood(a.heap@, s, z.heap, t, z.machine, None));
    lemma_rest_wider(a.heap@, s, b.heap@, t, a.aside@, a.handles@, x);
    lemma_taken(a, x, s, b, y, t, None);
    assert(tidy(b, y, t));
}

/// Whether the host had the value of a handle which is not marked rendered by the program's
/// code, or went on with a rendering.
pub open spec fn host_showed(a: Instance, x: Set<int>, b: Instance) -> bool {
    ||| a.aside@.len() > 0 && exists|out: AuxOutcome| #[trigger] aux_driven(a, b, out)
    ||| exists|cal: CalIdx, handle: Handle, fuel: u64| #[trigger]
        rendered_by(a, cal, handle, fuel, b) && unmarked(x, handle)
}

/// Whether the value of a handle was rendered by a callable.
pub open spec fn rendered_by(
    a: Instance,
    cal: CalIdx,
    handle: Handle,
    fuel: u64,
    b: Instance,
) -> bool {
    &&& read(a.handles@, handle) is Ok
    &&& {
        ||| exists|c: Instance, out: AuxOutcome|
            #![trigger aux_driven(c, b, out)]
            aux_begun(a, cal, read(a.handles@, handle)->Ok_0, fuel, c, None) && aux_driven(
                c,
                b,
                out,
            )
        ||| exists|c: Instance, e: RaiseView, out: AuxOutcome|
            #![trigger error_put_back(c, e, b, out)]
            aux_begun(a, cal, read(a.handles@, handle)->Ok_0, fuel, c, Some(e))
                && error_put_back(c, e, b, out)
    }
}

/// Whether the program is back after an exception instead of a rendering.
pub open spec fn error_put_back(c: Instance, e: RaiseView, b: Instance, out: AuxOutcome) -> bool {
    let (h, v) = raised_error(c.heap@, c.machine@, e);
    put_back(c, h, AuxResult::Raised(v), b, out)
}

proof fn lemma_begun(
    a: Instance,
    x: Set<int>,
    s: Set<int>,
    cal: CalIdx,
    value: Value,
    fuel: u64,
    c: Instance,
    raise: Option<RaiseView>,
)
    requires
        aux_begun(a, cal, value, fuel, c, raise),
        tidy(a, x, s),
        free(a.heap@, s, value),
    ensures
        tidy(c, x, s),
        raise_free(c.heap@, s, raise),
        c.aside@.len() > 0,
{
    let h = a.heap@;
    let (node, span) = render_site(a.modules@, h, cal);
    let side = side_machine(a.machine@, fuel);
    assert(frames_free(h, s, side.frames)) by {
        reveal(frames_free);
    }
    assert(machine_free(h, s, side));
    lemma_entering_unary(a.modules@, h, s, side, cal, value, node, span);
    let p = entering_unary(a.modules@, h, side, cal, value, node, span);
    assert(p == (Step { heap: c.heap@, machine: c.machine@, raise }));
    let g = c.heap@;
    lemma_machine_wider(h, s, g, s, a.machine@);
    lemma_calls_wider(h, s, g, s, a.natives@.calls, a.natives@.pending);
    lemma_rest_wider(h, s, g, s, a.aside@, a.handles@, x);
    lemma_wider(h, s, g, s, value);
    let last = c.aside@[c.aside@.len() - 1];
    assert(last == c.aside@.last());
    assert(machine_free(g, s, bare(last.machine@)));
    assert(pending_view(last.pending) == a.natives@.pending);
    assert forall|k: int| 0 <= k < c.aside@.len() implies machine_free(
        g,
        s,
        bare((#[trigger] c.aside@[k]).machine@),
    ) && calls_free(g, s, calls_view(c.aside@[k].calls@), pending_view(c.aside@[k].pending)) by {
        if k < a.aside@.len() {
            assert(c.aside@.drop_last()[k] == a.aside@[k]);
        }
    }
}

proof fn lemma_put_back(
    d: Instance,
    x: Set<int>,
    s: Set<int>,
    h: HeapView,
    t: Set<int>,
    result: AuxResult,
    z: Instance,
    out: AuxOutcome,
)
    requires
        put_back(d, h, result, z, out),
        d.aside@.len() > 0,
        tidy(d, x, s),
        orderly(h, t),
        wider(d.heap@, s, h, t),
        result matches AuxResult::Completed(v) ==> free(h, t, v),
        result matches AuxResult::Raised(v) ==> free(h, t, v),
    ensures
        tidy(z, x, t),
{
    let last = d.aside@[d.aside@.len() - 1];
    assert(last == d.aside@.last());
    lemma_machine_wider(d.heap@, s, h, t, d.machine@);
    lemma_restored(h, t, d.machine@, 0);
    let (g, m) = restored(h, d.machine@, 0);
    lemma_wider_trans(d.heap@, s, h, t, g, t);
    lemma_rest_wider(d.heap@, s, g, t, d.aside@, d.handles@, x);
    assert(machine_free(g, t, bare(last.machine@)));
    assert(z.machine@.frames == bare(last.machine@).frames);
    assert(z.machine@.dyn_stack == bare(last.machine@).dyn_stack);
    assert(z.machine@.handling == bare(last.machine@).handling);
    assert(z.machine@.foreign == bare(last.machine@).foreign);
    assert(z.machine@.reg == bare(last.machine@).reg);
    assert(z.machine@.unwind == bare(last.machine@).unwind);
    assert(z.machine@.load == m.load);
    assert(z.machine@.protocols == m.protocols);
    assert(machine_free(g, t, m));
    assert(machine_free(g, t, z.machine@));
    lemma_calls_wider(d.heap@, s, g, t, d.natives@.calls, d.natives@.pending);
    assert(calls_free(g, t, calls_view(last.calls@), pending_view(last.pending)));
    assert(z.natives@.pending == pending_view(last.pending));
    match result {
        AuxResult::Completed(v) => {
            lemma_wider(h, t, g, t, v);
            lemma_interned(g, t, d.handles@, x, v);
        },
        AuxResult::Raised(v) => {
            lemma_wider(h, t, g, t, v);
            lemma_interned(g, t, d.handles@, x, v);
        },
        AuxResult::Faulted(_) => {},
    }
    assert forall|k: int| 0 <= k < z.aside@.len() implies machine_free(
        g,
        t,
        bare((#[trigger] z.aside@[k]).machine@),
    ) && calls_free(g, t, calls_view(z.aside@[k].calls@), pending_view(z.aside@[k].pending)) by {
        assert(z.aside@[k] == d.aside@[k]);
    }
}

proof fn lemma_aux_stopped(
    d: Instance,
    x: Set<int>,
    s: Set<int>,
    t: TurnKind,
    z: Instance,
    out: AuxOutcome,
)
    requires
        aux_stopped(d, t, z, out),
        d.aside@.len() > 0,
        tidy(d, x, s),
        t matches TurnOf::Raised(v, _) ==> free(d.heap@, s, v),
    ensures
        well_keyed(z, x),
{
    broadcast use group_details;

    lemma_wider_refl(d.heap@, s);
    if let Some((h, result)) = crate::aux_eval::settled(d, t) {
        if t is BlockDone && d.machine@.unwind is None {
            let value = match d.machine@.reg {
                Some(v) => v,
                None => Value::Nil,
            };
            if !(value is Str) {
                let u = lemma_error_made(
                    d.heap@,
                    s,
                    d.machine@.error_type,
                    kind_slug(ExceptionKind::TypeMismatch),
                    "a `to_string` implementation must return a String"@,
                    type_mismatch_detail("to_string"@, "String"@, type_text(d.heap@, value)),
                );
                lemma_put_back(d, x, s, h, u, result, z, out);
                assert(tidy(z, x, u));
            } else {
                lemma_put_back(d, x, s, h, s, result, z, out);
                assert(tidy(z, x, s));
            }
        } else {
            lemma_put_back(d, x, s, h, s, result, z, out);
            assert(tidy(z, x, s));
        }
    } else {
        assert(tidy(z, x, s));
    }
}

proof fn lemma_aux_driven(a: Instance, x: Set<int>, z: Instance, out: AuxOutcome)
    requires
        aux_driven(a, z, out),
        a.aside@.len() > 0,
        well_keyed(a, x),
    ensures
        well_keyed(z, x),
{
    if exists|b: Instance, c: Instance, t: TurnKind, n: nat|
        #![trigger runs(a, b, n), follows(b, t, c), aux_stopped(c, t, z, out)]
        runs(a, b, n) && follows(b, t, c) && aux_stopped(c, t, z, out) {
        let (b, c, t, n) = choose|b: Instance, c: Instance, t: TurnKind, n: nat|
            #![trigger runs(a, b, n), follows(b, t, c), aux_stopped(c, t, z, out)]
            runs(a, b, n) && follows(b, t, c) && aux_stopped(c, t, z, out);
        lemma_runs(a, x, b, n);
        let s = choose|s: Set<int>| #[trigger] tidy(b, x, s);
        let u = lemma_follows(b, x, s, t, c);
        lemma_aux_stopped(c, x, u, t, z, out);
    } else {
        let fault = AuxResult::Faulted(EngineFault::LimitExceeded(LimitKind::StepBudget));
        let (b, n) = choose|b: Instance, n: nat| #[trigger]
            runs(a, b, n) && plodded(a, b) && put_back(b, b.heap@, fault, z, out);
        lemma_runs(a, x, b, n);
        let s = choose|s: Set<int>| #[trigger] tidy(b, x, s);
        lemma_wider_refl(b.heap@, s);
        lemma_put_back(b, x, s, b.heap@, s, fault, z, out);
    }
}

/// Rendering a value leaves the dicts well keyed.
pub proof fn law_rendering_leaves_dicts_keyed(a: Instance, x: Set<int>, b: Instance)
    requires
        host_showed(a, x, b),
        well_keyed(a, x),
    ensures
        well_keyed(b, x),
{
    if a.aside@.len() > 0 && exists|out: AuxOutcome| #[trigger] aux_driven(a, b, out) {
        let out = choose|out: AuxOutcome| #[trigger] aux_driven(a, b, out);
        lemma_aux_driven(a, x, b, out);
    } else {
        let (cal, handle, fuel) = choose|cal: CalIdx, handle: Handle, fuel: u64| #[trigger]
            rendered_by(a, cal, handle, fuel, b) && unmarked(x, handle);
        let value = read(a.handles@, handle)->Ok_0;
        let s = choose|s: Set<int>| #[trigger] tidy(a, x, s);
        lemma_handed(a, x, s, handle);
        if exists|c: Instance, out: AuxOutcome|
            #![trigger aux_driven(c, b, out)]
            aux_begun(a, cal, value, fuel, c, None) && aux_driven(c, b, out) {
            let (c, out) = choose|c: Instance, out: AuxOutcome|
                #![trigger aux_driven(c, b, out)]
                aux_begun(a, cal, value, fuel, c, None) && aux_driven(c, b, out);
            lemma_begun(a, x, s, cal, value, fuel, c, None);
            lemma_aux_driven(c, x, b, out);
        } else {
            let (c, e, out) = choose|c: Instance, e: RaiseView, out: AuxOutcome|
                #![trigger error_put_back(c, e, b, out)]
                aux_begun(a, cal, value, fuel, c, Some(e)) && error_put_back(c, e, b, out);
            lemma_begun(a, x, s, cal, value, fuel, c, Some(e));
            let slug = kind_slug(e.kind);
            let t = c.machine@.error_type;
            let u = lemma_error_made(c.heap@, s, t, slug, e.message, e.details);
            let (h, v) = raised_error(c.heap@, c.machine@, e);
            lemma_put_back(c, x, s, h, u, AuxResult::Raised(v), b, out);
            assert(tidy(b, x, u));
        }
    }
}

/// Whether a member of a native module holds no NaN but the canonical one.
pub open spec fn member_calm(m: MemberView) -> bool {
    match m {
        MemberView::Function(i) => params_calm(i.params),
        MemberView::Const(c) => const_calm(Some(c)),
        _ => true,
    }
}

/// Whether some members of a native module hold no NaN but the canonical one.
pub open spec fn members_calm(members: Seq<(Seq<char>, MemberView)>) -> bool {
    forall|j: int| 0 <= j < members.len() ==> member_calm((#[trigger] members[j]).1)
}

/// Whether what a host registers holds no NaN but the canonical one.
pub open spec fn registry_calm(reg: RegistryView) -> bool {
    &&& table_calm(reg.intrinsics)
    &&& forall|k: int|
        0 <= k < reg.modules.len() ==> members_calm((#[trigger] reg.modules[k]).members)
}

proof fn lemma_with_const(
    b: (HeapView, Seq<(Seq<char>, CellIdx)>),
    s: Set<int>,
    name: Seq<char>,
    v: Value,
)
    requires
        orderly(b.0, s),
        free(b.0, s, v),
    ensures
        orderly(with_const(b, name, v).0, s),
{
    lemma_new_cell(b.0, s, CellKind::Const, Some(v));
}

proof fn lemma_types_bound(h: HeapView, s: Set<int>, n: nat)
    requires
        orderly(h, s),
    ensures
        orderly(types_bound(h, n).0, s),
    decreases n,
{
    if n > 0 && n <= builtin_types().len() {
        lemma_types_bound(h, s, (n - 1) as nat);
        let (before, names) = types_bound(h, (n - 1) as nat);
        let (name, builtin) = builtin_types()[n - 1];
        let typed = before.new_type(TypeView::Builtin(builtin));
        lemma_aside(before, s, typed);
        let v = Value::Type(TypeIdx(before.types.len() as usize));
        lemma_with_const((typed, names), s, name, v);
    }
}

proof fn lemma_protocol_bound(
    b: (HeapView, Seq<(Seq<char>, CellIdx)>),
    s: Set<int>,
    name: Seq<char>,
)
    requires
        orderly(b.0, s),
    ensures
        orderly(protocol_bound(b, name).0, s),
{
    let typed = b.0.new_type(TypeView::Protocol(name));
    lemma_aside(b.0, s, typed);
    let v = Value::Type(TypeIdx(b.0.types.len() as usize));
    lemma_with_const((typed, b.1), s, name, v);
}

proof fn lemma_callable_bound(
    b: (HeapView, Seq<(Seq<char>, CellIdx)>),
    s: Set<int>,
    id: ModuleId,
    name: Seq<char>,
    target: CallableTarget,
)
    requires
        orderly(b.0, s),
    ensures
        orderly(callable_bound(b, id, name, target).0, s),
{
    let called = b.0.new_callable(CalView { module: id, target, captures: Seq::empty() });
    lemma_aside(b.0, s, called);
    let v = Value::Callable(CalIdx(b.0.callables.len() as usize));
    lemma_with_const((called, b.1), s, name, v);
}

proof fn lemma_functions_bound(
    b: (HeapView, Seq<(Seq<char>, CellIdx)>),
    s: Set<int>,
    id: ModuleId,
    all: Seq<IntrinsicView>,
    n: nat,
)
    requires
        orderly(b.0, s),
    ensures
        orderly(functions_bound(b, id, all, n).0, s),
    decreases n,
{
    if n > 0 && n <= all.len() {
        lemma_functions_bound(b, s, id, all, (n - 1) as nat);
        lemma_callable_bound(
            functions_bound(b, id, all, (n - 1) as nat),
            s,
            id,
            all[n - 1].name,
            CallableTarget::Intrinsic((n - 1) as u32),
        );
    }
}

proof fn lemma_prelude_bound(
    h: HeapView,
    s: Set<int>,
    id: ModuleId,
    error_type: TypeIdx,
    all: Seq<IntrinsicView>,
    flat: nat,
)
    requires
        orderly(h, s),
    ensures
        orderly(prelude_bound(h, id, error_type, all, flat).0, s),
{
    let typed = types_bound(h, builtin_types().len());
    lemma_types_bound(h, s, builtin_types().len());
    lemma_with_const(typed, s, "Error"@, Value::Type(error_type));
    let errors = with_const(typed, "Error"@, Value::Type(error_type));
    lemma_protocol_bound(errors, s, "Stringable"@);
    let stringable = protocol_bound(errors, "Stringable"@);
    lemma_protocol_bound(stringable, s, "Hashable"@);
    let known = protocol_bound(stringable, "Hashable"@);
    let target = CallableTarget::Dispatcher(WellKnown::Stringable);
    lemma_callable_bound(known, s, id, "to_string"@, target);
    let dispatching = callable_bound(known, id, "to_string"@, target);
    lemma_functions_bound(dispatching, s, id, all, flat);
}

proof fn lemma_members_built(
    b: Built,
    s: Set<int>,
    id: ModuleId,
    members: Seq<(Seq<char>, MemberView)>,
    n: nat,
)
    requires
        orderly(b.heap, s),
        table_calm(b.intrinsics),
        members_calm(members),
    ensures
        orderly(members_built(b, id, members, n).heap, s),
        table_calm(members_built(b, id, members, n).intrinsics),
    decreases n,
{
    if n > 0 && n <= members.len() {
        lemma_members_built(b, s, id, members, (n - 1) as nat);
        let before = members_built(b, id, members, (n - 1) as nat);
        let (name, member) = members[n - 1];
        assert(member_calm(members[n - 1].1));
        let (made_heap, intrinsics, v) = member_made(before, id, name, member);
        lemma_aside(before.heap, s, made_heap);
        assert(free(made_heap, s, v));
        lemma_new_cell(made_heap, s, CellKind::Const, Some(v));
        assert(table_calm(intrinsics)) by {
            assert forall|k: int| 0 <= k < intrinsics.len() implies params_calm(
                (#[trigger] intrinsics[k]).params,
            ) by {
                if k < before.intrinsics.len() {
                    assert(params_calm(before.intrinsics[k].params));
                }
            }
        }
    }
}

/// Whether no module has failed to load.
spec fn unfailed(load: LoadView) -> bool {
    forall|j: int| 0 <= j < load.states.len() ==> !((#[trigger] load.states[j]) is Failed)
}

proof fn lemma_preloaded(p: Preloaded, s: Set<int>, modules: Seq<NativeModuleView>, n: nat)
    requires
        orderly(p.heap, s),
        table_calm(p.intrinsics),
        unfailed(p.load),
        forall|k: int| 0 <= k < modules.len() ==> members_calm((#[trigger] modules[k]).members),
    ensures
        orderly(preloaded(p, modules, n).heap, s),
        table_calm(preloaded(p, modules, n).intrinsics),
        unfailed(preloaded(p, modules, n).load),
    decreases n,
{
    if n > 0 && n <= modules.len() {
        lemma_preloaded(p, s, modules, (n - 1) as nat);
        let before = preloaded(p, modules, (n - 1) as nat);
        let members = modules[n - 1].members;
        assert(members_calm(modules[n - 1].members));
        lemma_members_built(
            Built { heap: before.heap, intrinsics: before.intrinsics, names: Seq::empty() },
            s,
            ModuleId(n as u32),
            members,
            members.len(),
        );
    }
}

proof fn lemma_empty()
    ensures
        orderly(empty_heap().new_type(TypeView::Record(error_schema())), Set::empty()),
{
    reveal(orderly);
    let h = empty_heap().new_type(TypeView::Record(error_schema()));
    assert forall|d: DictIdx| keyed(h, #[trigger] h.dict(d)) by {
        assert(h.dict(d).entries.len() == 0);
    }
}

/// Whether no local has a value of its own.
spec fn unbound_all(locals: Seq<Local>) -> bool {
    forall|j: int|
        0 <= j < locals.len() ==> (#[trigger] locals[j]) == Local::Direct(None) || locals[j] is Boxed
}

proof fn lemma_unbound_locals(h: HeapView, info: CallableInfo, raw: Seq<Option<Value>>, n: nat)
    requires
        forall|j: int| 0 <= j < raw.len() ==> (#[trigger] raw[j]) is None,
    ensures
        unbound_all(fresh_locals(h, info, raw, n).1),
    decreases n,
{
    if n > 0 {
        lemma_unbound_locals(h, info, raw, (n - 1) as nat);
    }
}

proof fn lemma_unbound_splices(
    locals: Seq<Local>,
    captures: Seq<CaptureInfo>,
    cells: Seq<CellIdx>,
    n: nat,
)
    requires
        unbound_all(locals),
    ensures
        unbound_all(spliced(locals, captures, cells, n)),
    decreases n,
{
    if n > 0 && n <= captures.len() && n <= cells.len() {
        lemma_unbound_splices(locals, captures, cells, (n - 1) as nat);
    }
}

/// The dicts of an instance are well keyed when it has been loaded, and no handle is marked.
pub proof fn law_loaded_dicts_are_keyed(
    i: Instance,
    module: ResolvedModule,
    limits: Limits,
    reg: RegistryView,
    path: Seq<char>,
)
    requires
        freshly_loaded(i, module, limits, reg, path),
        calm(module),
        registry_calm(reg),
        reg.modules.len() < u32::MAX,
    ensures
        well_keyed(i, Set::empty()),
{
    let s = Set::<int>::empty();
    let h = empty_heap().new_type(TypeView::Record(error_schema()));
    lemma_empty();
    lemma_seeded(h, s, module.globals@, module.globals@.len());
    let h1 = seeded(h, module.globals@, module.globals@.len()).0;
    let info = module.callables@[top_level_of(module.callables@, 0)->0 as int];
    let none = Seq::new(info.slot_count as nat, |i: int| None::<Value>);
    lemma_entry_locals(h1, s, info, none, Seq::empty());
    let start = Preloaded {
        heap: entry_seeded(module).0,
        intrinsics: reg.intrinsics,
        names: Seq::empty(),
        load: LoadView::entry(path),
    };
    lemma_preloaded(start, s, reg.modules, reg.modules.len());
    let p = modules_preloaded(module, reg, path);
    let prelude = ModuleId((reg.modules.len() + 1) as u32);
    lemma_prelude_bound(p.heap, s, prelude, TypeIdx(0), p.intrinsics, reg.intrinsics.len());
    let g = i.heap@;
    let locals = entry_seeded(module).2;
    lemma_unbound_locals(h1, info, none, info.slot_count as nat);
    let fresh = fresh_locals(h1, info, none, info.slot_count as nat).1;
    let n = paired(info.captures@, Seq::<CellIdx>::empty());
    lemma_unbound_splices(fresh, info.captures@, Seq::empty(), n);
    assert(unbound_all(locals));
    let f = FrameView::top_level(ModuleId(0), locals, module.root, 0);
    assert(frame_free(g, s, f));
    assert(frames_free(g, s, i.machine@.frames)) by {
        reveal(frames_free);
    }
    assert(unfailed(i.machine@.load));
    assert(machine_free(g, s, i.machine@));
    let ms = mods(i.modules@);
    assert forall|k: int| 0 <= k < ms.len() implies calm((#[trigger] ms[k]).resolved) by {
        if k == 0 {
            assert(ms[0] == i.modules@[0]@);
        } else if k <= reg.modules.len() {
            let j = k - 1;
            assert(ms[k] == i.modules@[j + 1]@);
        } else {
            assert(ms[k] == i.modules@[prelude.0 as int]@);
        }
    }
    assert(tidy(i, Set::empty(), s));
}

/// Whether the host did one thing with an instance, and which handles are marked then.
#[verifier::opaque]
pub open spec fn host_acted(a: Instance, x: Set<int>, b: Instance, y: Set<int>) -> bool {
    ||| host_drove(a, x, b, y)
    ||| host_showed(a, x, b) && y == x
    ||| host_served(a, x, b, y) && a.natives@.calls.len() > 0
    ||| host_stored(a, x, b, y)
}

/// Whether a number of such things leads from an instance to another.
pub open spec fn acted_to(a: Instance, x: Set<int>, b: Instance, y: Set<int>, n: nat) -> bool
    decreases n,
{
    if n == 0 {
        a == b && x == y
    } else {
        exists|c: Instance, w: Set<int>|
            acted_to(a, x, c, w, (n - 1) as nat) && #[trigger] host_acted(c, w, b, y)
    }
}

proof fn lemma_acted(a: Instance, x: Set<int>, b: Instance, y: Set<int>)
    requires
        host_acted(a, x, b, y),
        well_keyed(a, x),
    ensures
        well_keyed(b, y),
{
    reveal(host_acted);
    if host_drove(a, x, b, y) {
        law_driving_leaves_dicts_keyed(a, x, b, y);
    } else if host_showed(a, x, b) && y == x {
        law_rendering_leaves_dicts_keyed(a, x, b);
    } else if host_served(a, x, b, y) && a.natives@.calls.len() > 0 {
        law_serving_leaves_dicts_keyed(a, x, b, y);
    } else {
        law_storing_leaves_dicts_keyed(a, x, b, y);
    }
}

/// Whatever the program and the host do, every dict stays well keyed: its keys may be keys,
/// each is stored under its hash, and no two of them are equal.
pub proof fn law_dicts_are_always_keyed(
    a: Instance,
    x: Set<int>,
    b: Instance,
    y: Set<int>,
    n: nat,
)
    requires
        well_keyed(a, x),
        acted_to(a, x, b, y, n),
    ensures
        well_keyed(b, y),
        dicts_keyed(b.heap@),
    decreases n,
{
    if n > 0 {
        let (c, w) = choose|c: Instance, w: Set<int>|
            acted_to(a, x, c, w, (n - 1) as nat) && #[trigger] host_acted(c, w, b, y);
        law_dicts_are_always_keyed(a, x, c, w, (n - 1) as nat);
        lemma_acted(c, w, b, y);
    }
    let s = choose|s: Set<int>| #[trigger] tidy(b, y, s);
    lemma_lengths(&b.heap);
    reveal(orderly);
}

/// In an instance that was loaded, the keys at different indices of a dict are never equal,
/// whatever the program and the host have done since.
pub proof fn law_keys_are_always_distinct(
    i: Instance,
    module: ResolvedModule,
    limits: Limits,
    reg: RegistryView,
    path: Seq<char>,
    b: Instance,
    y: Set<int>,
    n: nat,
    d: DictIdx,
    p: int,
    q: int,
)
    requires
        freshly_loaded(i, module, limits, reg, path),
        calm(module),
        registry_calm(reg),
        reg.modules.len() < u32::MAX,
        acted_to(i, Set::empty(), b, y, n),
        0 <= p < b.heap@.dict(d).entries.len(),
        0 <= q < b.heap@.dict(d).entries.len(),
        p != q,
    ensures
        !same(b.heap@, b.heap@.dict(d).entries[p].0, b.heap@.dict(d).entries[q].0),
{
    law_loaded_dicts_are_keyed(i, module, limits, reg, path);
    law_dicts_are_always_keyed(i, Set::empty(), b, y, n);
    let h = b.heap@;
    let e = h.dict(d);
    assert(keyed(h, e));
    let (k, l) = (e.entries[p].0, e.entries[q].0);
    if p > q && same(h, k, l) {
        law_keys_equal_to_one_are_equal(h, k, k, l);
        lemma_natively_keyed(h);
        law_equality_is_symmetric(h, k, l);
    }
}

proof fn lemma_natively_keyed(h: HeapView)
    requires
        dicts_keyed(h),
    ensures
        forall|d: DictIdx| natively_keyed(h, #[trigger] h.dict(d)),
{
    assert forall|d: DictIdx| natively_keyed(h, #[trigger] h.dict(d)) by {
        assert(keyed(h, h.dict(d)));
    }
}

/// In an instance that was loaded, equality is symmetric and transitive, whatever the program
/// and the host have done since.
pub proof fn law_equality_is_always_an_equivalence(
    i: Instance,
    module: ResolvedModule,
    limits: Limits,
    reg: RegistryView,
    path: Seq<char>,
    b: Instance,
    y: Set<int>,
    n: nat,
    u: Value,
    v: Value,
    w: Value,
)
    requires
        freshly_loaded(i, module, limits, reg, path),
        calm(module),
        registry_calm(reg),
        reg.modules.len() < u32::MAX,
        acted_to(i, Set::empty(), b, y, n),
    ensures
        same(b.heap@, u, u),
        same(b.heap@, u, v) == same(b.heap@, v, u),
        same(b.heap@, u, v) && same(b.heap@, v, w) ==> same(b.heap@, u, w),
{
    law_loaded_dicts_are_keyed(i, module, limits, reg, path);
    law_dicts_are_always_keyed(i, Set::empty(), b, y, n);
    let h = b.heap@;
    lemma_natively_keyed(h);
    if same(h, u, v) {
        law_equality_is_symmetric(h, u, v);
        if same(h, v, w) {
            law_equality_is_transitive(h, u, v, w);
        }
    }
    if same(h, v, u) {
        law_equality_is_symmetric(h, v, u);
    }
    law_equality_is_reflexive(h, u);
}

} // verus!
