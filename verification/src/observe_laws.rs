//! Orders, positions and histories: what comes before what, and where a program stands.

use crate::ast::line_number;
use crate::ast::NodeId;
use crate::binding::ParamView;
use crate::binding::unfilled;
use crate::breakpoint::breakpoint_place;
use crate::breakpoint::EntryView;
use crate::breakpoint::line_statement;
use crate::breakpoint::re_resolved;
use crate::compare::agree;
use crate::compare::same;
use crate::compare::value_order;
use crate::cont::ContView;
use crate::float::Order;
use crate::frame::FrameView;
use crate::hash::hashable;
use crate::hash::hashable_within;
use crate::hash::scalar;
use crate::heap::HeapView;
use crate::heap::RecordView;
use crate::heap::SchemaView;
use crate::instance::Instance;
use crate::modload::LoadedModule;
use crate::modload::LoadView;
use crate::number::number;
use crate::number::NumView;
use crate::observe::frame_position;
use crate::observe::frame_seen;
use crate::observe::inner_frame;
use crate::observe::Position;
use crate::order_laws::text_order;
use crate::resolve::ResolvedModule;
use crate::ring::ElidedFrame;
use crate::ring::recent_callables;
use crate::ring::recorded;
use crate::span::ModuleId;
use crate::value::Value;
use vstd::prelude::*;

verus! {

/// Of two texts the one is before the other if, after what they share, it is over or has the
/// smaller character next.
pub proof fn law_texts_are_ordered_by_their_first_difference(a: Seq<char>, b: Seq<char>, i: int)
    requires
        0 <= i <= a.len(),
        i <= b.len(),
        a.take(i) == b.take(i),
    ensures
        i == a.len() && i == b.len() ==> text_order(a, b) == Order::Equal,
        i == a.len() && i < b.len() ==> text_order(a, b) == Order::Less && text_order(b, a)
            == Order::Greater,
        i < a.len() && i < b.len() && a[i] < b[i] ==> text_order(a, b) == Order::Less
            && text_order(b, a) == Order::Greater,
    decreases i,
{
    if i > 0 {
        assert(a[0] == a.take(i)[0]);
        assert(b[0] == b.take(i)[0]);
        let (s, t) = (a.skip(1), b.skip(1));
        assert forall|k: int| 0 <= k < i - 1 implies #[trigger] s.take(i - 1)[k] == t.take(i - 1)[k] by {
            assert(a.take(i)[k + 1] == b.take(i)[k + 1]);
            assert(a.take(i)[k + 1] == a[k + 1] && b.take(i)[k + 1] == b[k + 1]);
            assert(s.take(i - 1)[k] == a[k + 1]);
            assert(t.take(i - 1)[k] == b[k + 1]);
        }
        assert(s.take(i - 1) =~= t.take(i - 1));
        law_texts_are_ordered_by_their_first_difference(s, t, i - 1);
        if i < a.len() && i < b.len() {
            assert(s[i - 1] == a[i] && t[i - 1] == b[i]);
        }
    }
}

/// Integers are ordered as integers, however they are held.
pub proof fn law_integers_are_ordered_as_integers(h: HeapView, a: Value, b: Value, x: int, y: int)
    requires
        number(h, a) == Some(NumView::Int(x)),
        number(h, b) == Some(NumView::Int(y)),
    ensures
        x < y ==> value_order(h, a, b) == Some(Order::Less),
        x == y ==> value_order(h, a, b) == Some(Order::Equal),
        x > y ==> value_order(h, a, b) == Some(Order::Greater),
        same(h, a, b) <==> x == y,
{
    vstd::arithmetic::power2::lemma_pow2_pos(1074);
    let q = vstd::arithmetic::power2::pow2(1074) as int;
    assert(x < y ==> x * q < y * q) by (nonlinear_arith)
        requires
            q > 0,
    ;
    assert(x > y ==> x * q > y * q) by (nonlinear_arith)
        requires
            q > 0,
    ;
    assert(same(h, a, b) ==> agree(h, 0, a, b));
    if x == y {
        assert forall|k: nat| #[trigger] agree(h, k, a, b) by {}
    }
}

/// Numbers, texts, bytes, booleans and nil can be keys of a dict; so can a record that is
/// copied, if its fields can. What has an identity cannot, nor what holds more than it is.
pub proof fn law_what_can_be_a_key(h: HeapView, v: Value, rec: RecordView, schema: SchemaView)
    ensures
        v is Nil || v is Bool || v is Int || v is BigInt || v is Float || v is Str || v is Bytes
            ==> hashable(h, v),
        v is List || v is Dict || v is Callable || v is Module || v is Type || v is Foreign
            ==> !hashable(h, v),
        v is Record && h.record(v->Record_0) == Some(rec) && h.schema(rec.type_idx) == Some(schema)
            && schema.is_ref ==> !hashable(h, v),
        v is Record && h.record(v->Record_0) == Some(rec) && h.schema(rec.type_idx) == Some(schema)
            && !schema.is_ref && h.records.len() > 0 && (forall|i: int|
            0 <= i < rec.fields.len() ==> scalar(#[trigger] rec.fields[i])) ==> hashable(h, v),
{
    if h.records.len() > 0 {
        assert forall|i: int|
            0 <= i < rec.fields.len() && scalar(rec.fields[i]) implies hashable_within(
            h,
            #[trigger] rec.fields[i],
            (h.records.len() - 1) as nat,
        ) by {}
    }
}

/// The first argument that is still wanted is the one that is asked for.
pub proof fn law_the_first_missing_argument_is_told(
    params: Seq<ParamView>,
    filled: Seq<bool>,
    from: nat,
    p: nat,
)
    requires
        from <= p <= params.len(),
        filled.len() == params.len(),
        forall|i: int|
            from <= i < p ==> (#[trigger] filled[i]) || params[i].is_block || params[i].has_default,
    ensures
        p < params.len() && !filled[p as int] && !params[p as int].is_block
            && !params[p as int].has_default ==> unfilled(params, filled, from) == Some(p),
        p == params.len() ==> unfilled(params, filled, from) is None,
    decreases p - from,
{
    if from < p {
        assert(filled[from as int] || params[from as int].is_block
            || params[from as int].has_default);
        law_the_first_missing_argument_is_told(params, filled, from + 1, p);
    }
}

/// An offset is on the line after as many marks as lie at or before it.
pub proof fn law_lines_are_counted(marks: Seq<u32>, n: nat, offset: u32, later: u32)
    requires
        n <= marks.len(),
        n < u32::MAX,
        offset <= later,
    ensures
        1 <= line_number(marks, n, offset) <= n + 1,
        line_number(marks, n, offset) <= line_number(marks, n, later),
        n > 0 && marks[n - 1] <= offset ==> line_number(marks, n, offset) == line_number(
            marks,
            (n - 1) as nat,
            offset,
        ) + 1,
        n > 0 && marks[n - 1] > offset ==> line_number(marks, n, offset) == line_number(
            marks,
            (n - 1) as nat,
            offset,
        ),
    decreases n,
{
    if n > 0 {
        law_lines_are_counted(marks, (n - 1) as nat, offset, later);
        law_lines_are_counted(marks, (n - 1) as nat, later, later);
    }
}

/// A frame stands at its next work, and one without any where it was called.
pub proof fn law_frames_stand_at_their_next_work(
    resolved: ResolvedModule,
    f: FrameView,
    node: NodeId,
)
    ensures
        f.conts.len() > 0 && f.conts.last() == (ContView::Eval { node }) ==> frame_position(
            resolved,
            f,
        ) == (Position { module: resolved.canonical_id, span: resolved.ast.range(node) }),
        f.conts.len() > 0 && f.conts.last() == (ContView::AssignTo { assign: node })
            ==> frame_position(resolved, f) == (Position {
            module: resolved.canonical_id,
            span: resolved.ast.range(node),
        }),
        f.conts.len() > 0 && f.conts.last() == (ContView::CallGotCallee { call: node })
            ==> frame_position(resolved, f) == (Position {
            module: resolved.canonical_id,
            span: resolved.ast.range(node),
        }),
        f.conts.len() == 0 ==> (f.call_site matches Some(site) ==> frame_position(resolved, f)
            == site),
{
}

/// Frames are counted from the innermost.
pub proof fn law_frames_are_counted_from_the_innermost(i: Instance, k: int)
    requires
        0 <= k < i.machine@.frames.len(),
    ensures
        inner_frame(i, 0) == Some(i.machine@.frames.last()),
        inner_frame(i, i.machine@.frames.len() - 1) == Some(i.machine@.frames[0]),
        inner_frame(i, k) == Some(i.machine@.frames[i.machine@.frames.len() - 1 - k]),
        inner_frame(i, i.machine@.frames.len() as int) is None,
        frame_seen(i.machine@.frames.last()).module == i.machine@.frames.last().module,
        frame_seen(i.machine@.frames.last()).tail_count == i.machine@.frames.last().tail_count,
{
}

/// The history of taken-over frames has the latest first, and forgets none but the oldest.
pub proof fn law_the_latest_is_remembered_first(
    ring: Seq<ElidedFrame>,
    frame: ElidedFrame,
    k: int,
)
    requires
        0 <= k,
        k + 1 < recorded(ring, frame).len(),
    ensures
        recent_callables(recorded(ring, frame))[0] == frame.callable,
        recent_callables(recorded(ring, frame))[k + 1] == recent_callables(ring)[k],
{
}

/// A breakpoint of a module that is not loaded stands nowhere; a module's loading places
/// those of that module, and no others.
pub proof fn law_loading_places_the_modules_breakpoints(
    modules: Seq<LoadedModule>,
    load: LoadView,
    canonical: Seq<char>,
    e: EntryView,
    id: ModuleId,
    node: NodeId,
)
    ensures
        e.canonical != canonical ==> re_resolved(modules, load, canonical, e) == e,
        e.canonical == canonical && load.module_of(canonical) == Some(id) && id.0 < modules.len()
            && line_statement(modules[id.0 as int].resolved, e.line) == Some(node) ==> re_resolved(
            modules,
            load,
            canonical,
            e,
        ) == (EntryView { resolved: Some((id, node)), ..e }),
        load.module_of(canonical) is None ==> breakpoint_place(
            modules,
            load,
            canonical,
            e.line,
        ) is None,
{
}

} // verus!
