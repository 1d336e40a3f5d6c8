//! Driving is deterministic: a turn reads the instance's contents, never how they are
//! stored, so runs that begin alike and are not interrupted stay alike.
use crate::activation::NativesView;
use crate::activation::block_invoked;
use crate::activation::each_advanced;
use crate::ast::Arg;
use crate::ast::ImportTarget;
use crate::ast::NodeId;
use crate::block::block_applied;
use crate::block::block_argument_known;
use crate::block::block_call_scheduled;
use crate::block::block_entering;
use crate::block::block_source;
use crate::call::applied;
use crate::call::argument_known;
use crate::call::call_scheduled;
use crate::call::callee_known;
use crate::call::entering;
use crate::call::entering_unary;
use crate::call::site_of;
use crate::call::source_of;
use crate::cont::ContView;
use crate::control::reference_reading;
use crate::dict::inserted;
use crate::drive::goes_on;
use crate::dynamic::with_opened;
use crate::error::RaiseView;
use crate::eval::evaluated;
use crate::eval::value_interpolated;
use crate::frame::BlockDescriptor;
use crate::frame::Consumer;
use crate::frame::FrameView;
use crate::gc::module_cells;
use crate::gc::roots_of;
use crate::hash::key_hash;
use crate::heap::HeapView;
use crate::importing::import_advanced;
use crate::importing::known_target;
use crate::importing::member_bound;
use crate::importing::mods;
use crate::index::built;
use crate::index::element_read;
use crate::index::element_set;
use crate::index::literal_advanced;
use crate::index::literal_hash_known;
use crate::index::literal_value_known;
use crate::instance::Instance;
use crate::machine::MachineView;
use crate::modload::LoadView;
use crate::modload::LoadedModule;
use crate::named::named_view;
use crate::names::exported_hits;
use crate::names::free_cell;
use crate::names::free_reading;
use crate::names::membership;
use crate::names::own_cell;
use crate::names::parameter_reading;
use crate::names::private_holder;
use crate::names::wildcard_finding;
use crate::names::wildcard_meaning;
use crate::object::field_read_step;
use crate::object::field_reading;
use crate::object::member_reading;
use crate::resolve::BodyKind;
use crate::resolve::ResolvedModule;
use crate::span::ModuleId;
use crate::span::Span;
use crate::step::dispatched;
use crate::turn::TurnKind;
use crate::turn::TurnOf;
use crate::turn::TurnView;
use crate::turn::accounted;
use crate::turn::current;
use crate::turn::kept_by_turns;
use crate::turn::left_by;
use crate::turn::roots_at;
use crate::turn::turned;
use crate::turn::untouched;
use crate::unwind::frame_unwound;
use crate::unwind::runs_procedure;
use crate::unwind::unwound;
use crate::value::CalIdx;
use crate::value::DictIdx;
use crate::value::Value;
use vstd::prelude::*;

verus! {

/// Whether two module tables have the same contents.
pub open spec fn alike(a: Seq<LoadedModule>, b: Seq<LoadedModule>) -> bool {
    &&& a.len() == b.len()
    &&& forall|k: int|
        #![trigger a[k]]
        #![trigger b[k]]
        0 <= k < a.len() ==> {
            &&& a[k].resolved == b[k].resolved
            &&& named_view(a[k].namespace@) == named_view(b[k].namespace@)
            &&& a[k].wildcards@ == b[k].wildcards@
        }
}

proof fn alike_mods(a: Seq<LoadedModule>, b: Seq<LoadedModule>)
    requires
        alike(a, b),
    ensures
        mods(a) == mods(b),
{
    assert forall|k: int| 0 <= k < a.len() implies #[trigger] mods(a)[k] == mods(b)[k] by {
        assert(mods(a)[k] == a[k]@ && mods(b)[k] == b[k]@);
    }
    assert(mods(a) =~= mods(b));
}

proof fn alike_block_source(a: Seq<LoadedModule>, b: Seq<LoadedModule>)
    requires
        alike(a, b),
    ensures
        forall|m: MachineView, desc: BlockDescriptor|
            #[trigger] block_source(a, m, desc) == block_source(b, m, desc),
{
}

proof fn alike_site_of(a: Seq<LoadedModule>, b: Seq<LoadedModule>)
    requires
        alike(a, b),
    ensures
        forall|m: MachineView, callee: ModuleId, call: NodeId|
            #[trigger] site_of(a, m, callee, call) == site_of(b, m, callee, call),
{
}

proof fn alike_block_entering(a: Seq<LoadedModule>, b: Seq<LoadedModule>)
    requires
        alike(a, b),
    ensures
        forall|
            h: HeapView,
            m: MachineView,
            desc: BlockDescriptor,
            consumer: Consumer,
            args: Seq<Arg>,
            values: Seq<Value>,
            call_site: Option<NodeId>,
            span: Span,
        |
            #[trigger] block_entering(
                a,
                h,
                m,
                desc,
                consumer,
                args,
                values,
                call_site,
                span,
            ) == block_entering(
                b,
                h,
                m,
                desc,
                consumer,
                args,
                values,
                call_site,
                span,
            ),
{
    alike_block_source(a, b);
    alike_site_of(a, b);
}

proof fn alike_block_invoked(a: Seq<LoadedModule>, b: Seq<LoadedModule>)
    requires
        alike(a, b),
    ensures
        forall|h: HeapView, m: MachineView, ns: NativesView, values: Seq<Value>|
            #[trigger] block_invoked(a, h, m, ns, values) == block_invoked(b, h, m, ns, values),
{
    alike_block_entering(a, b);
}

proof fn alike_each_advanced(a: Seq<LoadedModule>, b: Seq<LoadedModule>)
    requires
        alike(a, b),
    ensures
        forall|h: HeapView, m: MachineView, ns: NativesView, next: usize, count: usize|
            #[trigger] each_advanced(
                a,
                h,
                m,
                ns,
                next,
                count,
            ) == each_advanced(
                b,
                h,
                m,
                ns,
                next,
                count,
            ),
{
    reveal(each_advanced);
    alike_block_invoked(a, b);
}

proof fn alike_block_applied(a: Seq<LoadedModule>, b: Seq<LoadedModule>)
    requires
        alike(a, b),
    ensures
        forall|
            resolved: ResolvedModule,
            h: HeapView,
            m: MachineView,
            call: NodeId,
            values: Seq<Value>,
        |
            #[trigger] block_applied(
                resolved,
                a,
                h,
                m,
                call,
                values,
            ) == block_applied(
                resolved,
                b,
                h,
                m,
                call,
                values,
            ),
{
    alike_block_entering(a, b);
}

proof fn alike_block_argument_known(a: Seq<LoadedModule>, b: Seq<LoadedModule>)
    requires
        alike(a, b),
    ensures
        forall|
            resolved: ResolvedModule,
            h: HeapView,
            m: MachineView,
            call: NodeId,
            values: Seq<Value>,
            index: int,
        |
            #[trigger] block_argument_known(
                resolved,
                a,
                h,
                m,
                call,
                values,
                index,
            ) == block_argument_known(
                resolved,
                b,
                h,
                m,
                call,
                values,
                index,
            ),
{
    alike_block_applied(a, b);
}

proof fn alike_block_call_scheduled(a: Seq<LoadedModule>, b: Seq<LoadedModule>)
    requires
        alike(a, b),
    ensures
        forall|resolved: ResolvedModule, h: HeapView, m: MachineView, call: NodeId|
            #[trigger] block_call_scheduled(
                resolved,
                a,
                h,
                m,
                call,
            ) == block_call_scheduled(
                resolved,
                b,
                h,
                m,
                call,
            ),
{
    alike_block_applied(a, b);
}

proof fn alike_source_of(a: Seq<LoadedModule>, b: Seq<LoadedModule>)
    requires
        alike(a, b),
    ensures
        forall|h: HeapView, cal: CalIdx|
            #[trigger] source_of(a, h, cal) == source_of(b, h, cal),
{
}

proof fn alike_entering(a: Seq<LoadedModule>, b: Seq<LoadedModule>)
    requires
        alike(a, b),
    ensures
        forall|
            h: HeapView,
            m: MachineView,
            cal: CalIdx,
            args: Seq<Arg>,
            values: Seq<Value>,
            block: Result<Option<BlockDescriptor>, RaiseView>,
            call: NodeId,
            span: Span,
            tail_of: Option<BodyKind>,
        |
            #[trigger] entering(
                a,
                h,
                m,
                cal,
                args,
                values,
                block,
                call,
                span,
                tail_of,
            ) == entering(
                b,
                h,
                m,
                cal,
                args,
                values,
                block,
                call,
                span,
                tail_of,
            ),
{
    alike_site_of(a, b);
    alike_source_of(a, b);
}

proof fn alike_applied(a: Seq<LoadedModule>, b: Seq<LoadedModule>)
    requires
        alike(a, b),
    ensures
        forall|
            resolved: ResolvedModule,
            h: HeapView,
            m: MachineView,
            call: NodeId,
            callee: Value,
            values: Seq<Value>,
        |
            #[trigger] applied(
                resolved,
                a,
                h,
                m,
                call,
                callee,
                values,
            ) == applied(
                resolved,
                b,
                h,
                m,
                call,
                callee,
                values,
            ),
{
    alike_entering(a, b);
    alike_source_of(a, b);
}

proof fn alike_argument_known(a: Seq<LoadedModule>, b: Seq<LoadedModule>)
    requires
        alike(a, b),
    ensures
        forall|
            resolved: ResolvedModule,
            h: HeapView,
            m: MachineView,
            call: NodeId,
            callee: Value,
            values: Seq<Value>,
            index: int,
        |
            #[trigger] argument_known(
                resolved,
                a,
                h,
                m,
                call,
                callee,
                values,
                index,
            ) == argument_known(
                resolved,
                b,
                h,
                m,
                call,
                callee,
                values,
                index,
            ),
{
    alike_applied(a, b);
}

proof fn alike_call_scheduled(a: Seq<LoadedModule>, b: Seq<LoadedModule>)
    requires
        alike(a, b),
    ensures
        forall|resolved: ResolvedModule, h: HeapView, m: MachineView, call: NodeId|
            #[trigger] call_scheduled(
                resolved,
                a,
                h,
                m,
                call,
            ) == call_scheduled(
                resolved,
                b,
                h,
                m,
                call,
            ),
{
    alike_block_call_scheduled(a, b);
}

proof fn alike_callee_known(a: Seq<LoadedModule>, b: Seq<LoadedModule>)
    requires
        alike(a, b),
    ensures
        forall|resolved: ResolvedModule, h: HeapView, m: MachineView, call: NodeId|
            #[trigger] callee_known(
                resolved,
                a,
                h,
                m,
                call,
            ) == callee_known(
                resolved,
                b,
                h,
                m,
                call,
            ),
{
    alike_applied(a, b);
}

proof fn alike_entering_unary(a: Seq<LoadedModule>, b: Seq<LoadedModule>)
    requires
        alike(a, b),
    ensures
        forall|h: HeapView, m: MachineView, cal: CalIdx, value: Value, node: NodeId, span: Span|
            #[trigger] entering_unary(
                a,
                h,
                m,
                cal,
                value,
                node,
                span,
            ) == entering_unary(
                b,
                h,
                m,
                cal,
                value,
                node,
                span,
            ),
{
    alike_entering(a, b);
}

proof fn alike_own_cell(a: Seq<LoadedModule>, b: Seq<LoadedModule>)
    requires
        alike(a, b),
    ensures
        forall|module: int, name: Seq<char>|
            #[trigger] own_cell(a, module, name) == own_cell(b, module, name),
{
}

proof fn alike_membership(a: Seq<LoadedModule>, b: Seq<LoadedModule>)
    requires
        alike(a, b),
    ensures
        forall|w: ModuleId, name: Seq<char>|
            #[trigger] membership(a, w, name) == membership(b, w, name),
{
}

proof fn alike_exported_hits_at(
    a: Seq<LoadedModule>,
    b: Seq<LoadedModule>,
    sources: Seq<ModuleId>,
    name: Seq<char>,
    n: nat,
)
    requires
        alike(a, b),
    ensures
        exported_hits(a, sources, name, n) == exported_hits(b, sources, name, n),
    decreases n,
{
    alike_membership(a, b);
    alike_own_cell(a, b);
    if n > 0 {
        alike_exported_hits_at(a, b, sources, name, (n - 1) as nat);
    }
}

proof fn alike_exported_hits(a: Seq<LoadedModule>, b: Seq<LoadedModule>)
    requires
        alike(a, b),
    ensures
        forall|sources: Seq<ModuleId>, name: Seq<char>, n: nat|
            #[trigger] exported_hits(a, sources, name, n) == exported_hits(b, sources, name, n),
{
    assert forall|sources: Seq<ModuleId>, name: Seq<char>, n: nat| #[trigger]
        exported_hits(a, sources, name, n) == exported_hits(b, sources, name, n) by {
        alike_exported_hits_at(a, b, sources, name, n);
    }
}

proof fn alike_private_holder_at(
    a: Seq<LoadedModule>,
    b: Seq<LoadedModule>,
    sources: Seq<ModuleId>,
    name: Seq<char>,
    n: nat,
)
    requires
        alike(a, b),
    ensures
        private_holder(a, sources, name, n) == private_holder(b, sources, name, n),
    decreases n,
{
    alike_membership(a, b);
    alike_own_cell(a, b);
    if n > 0 {
        alike_private_holder_at(a, b, sources, name, (n - 1) as nat);
    }
}

proof fn alike_private_holder(a: Seq<LoadedModule>, b: Seq<LoadedModule>)
    requires
        alike(a, b),
    ensures
        forall|sources: Seq<ModuleId>, name: Seq<char>, n: nat|
            #[trigger] private_holder(a, sources, name, n) == private_holder(b, sources, name, n),
{
    assert forall|sources: Seq<ModuleId>, name: Seq<char>, n: nat| #[trigger]
        private_holder(a, sources, name, n) == private_holder(b, sources, name, n) by {
        alike_private_holder_at(a, b, sources, name, n);
    }
}

proof fn alike_wildcard_meaning(a: Seq<LoadedModule>, b: Seq<LoadedModule>)
    requires
        alike(a, b),
    ensures
        forall|cur: int, name: Seq<char>|
            #[trigger] wildcard_meaning(a, cur, name) == wildcard_meaning(b, cur, name),
{
    alike_exported_hits(a, b);
    alike_private_holder(a, b);
}

proof fn alike_wildcard_finding(a: Seq<LoadedModule>, b: Seq<LoadedModule>)
    requires
        alike(a, b),
    ensures
        forall|cur: int, load: LoadView, name: Seq<char>, span: Span|
            #[trigger] wildcard_finding(
                a,
                cur,
                load,
                name,
                span,
            ) == wildcard_finding(
                b,
                cur,
                load,
                name,
                span,
            ),
{
    alike_wildcard_meaning(a, b);
}

proof fn alike_free_cell(a: Seq<LoadedModule>, b: Seq<LoadedModule>)
    requires
        alike(a, b),
    ensures
        forall|cur: int, load: LoadView, name: Seq<char>, span: Span|
            #[trigger] free_cell(a, cur, load, name, span) == free_cell(b, cur, load, name, span),
{
    alike_own_cell(a, b);
    alike_wildcard_finding(a, b);
}

proof fn alike_free_reading(a: Seq<LoadedModule>, b: Seq<LoadedModule>)
    requires
        alike(a, b),
    ensures
        forall|cur: int, load: LoadView, h: HeapView, name: Seq<char>, span: Span|
            #[trigger] free_reading(
                a,
                cur,
                load,
                h,
                name,
                span,
            ) == free_reading(
                b,
                cur,
                load,
                h,
                name,
                span,
            ),
{
    alike_free_cell(a, b);
}

proof fn alike_reference_reading(a: Seq<LoadedModule>, b: Seq<LoadedModule>)
    requires
        alike(a, b),
    ensures
        forall|resolved: ResolvedModule, h: HeapView, m: MachineView, node: NodeId|
            #[trigger] reference_reading(
                resolved,
                a,
                h,
                m,
                node,
            ) == reference_reading(
                resolved,
                b,
                h,
                m,
                node,
            ),
{
    alike_free_reading(a, b);
}

proof fn alike_parameter_reading(a: Seq<LoadedModule>, b: Seq<LoadedModule>)
    requires
        alike(a, b),
    ensures
        forall|cur: int, load: LoadView, h: HeapView, name: Seq<char>, span: Span|
            #[trigger] parameter_reading(
                a,
                cur,
                load,
                h,
                name,
                span,
            ) == parameter_reading(
                b,
                cur,
                load,
                h,
                name,
                span,
            ),
{
    alike_free_cell(a, b);
}

proof fn alike_with_opened(a: Seq<LoadedModule>, b: Seq<LoadedModule>)
    requires
        alike(a, b),
    ensures
        forall|resolved: ResolvedModule, h: HeapView, m: MachineView, with_node: NodeId|
            #[trigger] with_opened(
                resolved,
                a,
                h,
                m,
                with_node,
            ) == with_opened(
                resolved,
                b,
                h,
                m,
                with_node,
            ),
{
    alike_parameter_reading(a, b);
}

proof fn alike_built_at(
    a: Seq<LoadedModule>,
    b: Seq<LoadedModule>,
    resolved: ResolvedModule,
    h: HeapView,
    m: MachineView,
    node: NodeId,
    dict: DictIdx,
    entries: Seq<(Value, Value)>,
    index: nat,
)
    requires
        alike(a, b),
    ensures
        built(
            resolved,
            a,
            h,
            m,
            node,
            dict,
            entries,
            index,
        ) == built(
            resolved,
            b,
            h,
            m,
            node,
            dict,
            entries,
            index,
        ),
    decreases entries.len() - index,
{
    alike_entering_unary(a, b);
    if index < entries.len() {
        let (key, value) = entries[index as int];
        alike_built_at(
            a,
            b,
            resolved,
            inserted(h, dict, key, value, key_hash(h, key)),
            m,
            node,
            dict,
            entries,
            index + 1,
        );
    }
}

proof fn alike_built(a: Seq<LoadedModule>, b: Seq<LoadedModule>)
    requires
        alike(a, b),
    ensures
        forall|
            resolved: ResolvedModule,
            h: HeapView,
            m: MachineView,
            node: NodeId,
            dict: DictIdx,
            entries: Seq<(Value, Value)>,
            index: nat,
        |
            #[trigger] built(
                resolved,
                a,
                h,
                m,
                node,
                dict,
                entries,
                index,
            ) == built(
                resolved,
                b,
                h,
                m,
                node,
                dict,
                entries,
                index,
            ),
{
    assert forall|
        resolved: ResolvedModule,
        h: HeapView,
        m: MachineView,
        node: NodeId,
        dict: DictIdx,
        entries: Seq<(Value, Value)>,
        index: nat,
    | #[trigger]
        built(
            resolved,
            a,
            h,
            m,
            node,
            dict,
            entries,
            index,
        ) == built(
            resolved,
            b,
            h,
            m,
            node,
            dict,
            entries,
            index,
        ) by {
        alike_built_at(a, b, resolved, h, m, node, dict, entries, index);
    }
}

proof fn alike_literal_advanced(a: Seq<LoadedModule>, b: Seq<LoadedModule>)
    requires
        alike(a, b),
    ensures
        forall|
            resolved: ResolvedModule,
            h: HeapView,
            m: MachineView,
            node: NodeId,
            entries: Seq<(Value, Value)>,
            index: int,
        |
            #[trigger] literal_advanced(
                resolved,
                a,
                h,
                m,
                node,
                entries,
                index,
            ) == literal_advanced(
                resolved,
                b,
                h,
                m,
                node,
                entries,
                index,
            ),
{
    alike_built(a, b);
}

proof fn alike_evaluated(a: Seq<LoadedModule>, b: Seq<LoadedModule>)
    requires
        alike(a, b),
    ensures
        forall|resolved: ResolvedModule, h: HeapView, m: MachineView, node: NodeId|
            #[trigger] evaluated(resolved, a, h, m, node) == evaluated(resolved, b, h, m, node),
{
    alike_call_scheduled(a, b);
    alike_reference_reading(a, b);
    alike_literal_advanced(a, b);
}

proof fn alike_value_interpolated(a: Seq<LoadedModule>, b: Seq<LoadedModule>)
    requires
        alike(a, b),
    ensures
        forall|
            resolved: ResolvedModule,
            h: HeapView,
            m: MachineView,
            node: NodeId,
            acc: Seq<char>,
            index: int,
        |
            #[trigger] value_interpolated(
                resolved,
                a,
                h,
                m,
                node,
                acc,
                index,
            ) == value_interpolated(
                resolved,
                b,
                h,
                m,
                node,
                acc,
                index,
            ),
{
    alike_entering_unary(a, b);
}

proof fn alike_module_cells(a: Seq<LoadedModule>, b: Seq<LoadedModule>)
    requires
        alike(a, b),
    ensures
        module_cells(a) == module_cells(b),
    decreases a.len(),
{
    if a.len() > 0 {
        let (c, d) = (a.drop_last(), b.drop_last());
        assert forall|k: int|
            #![trigger c[k]]
            #![trigger d[k]]
            0 <= k < c.len() implies {
            &&& c[k].resolved == d[k].resolved
            &&& named_view(c[k].namespace@) == named_view(d[k].namespace@)
            &&& c[k].wildcards@ == d[k].wildcards@
        } by {
            assert(c[k] == a[k] && d[k] == b[k]);
        }
        alike_module_cells(c, d);
        let k = a.len() - 1;
        assert(a[k] == a.last() && b[k] == b.last());
    }
}

proof fn alike_roots_of(a: Seq<LoadedModule>, b: Seq<LoadedModule>)
    requires
        alike(a, b),
    ensures
        forall|m: MachineView, more: Seq<Value>|
            #[trigger] roots_of(m, a, more) == roots_of(m, b, more),
{
    reveal(roots_of);
    alike_module_cells(a, b);
}

proof fn alike_member_bound(a: Seq<LoadedModule>, b: Seq<LoadedModule>)
    requires
        alike(a, b),
    ensures
        forall|
            load: LoadView,
            cur: int,
            target: ImportTarget,
            id: ModuleId,
            member: Seq<char>,
            span: Span,
        |
            0 <= cur < a.len() ==> #[trigger] member_bound(
                a,
                load,
                cur,
                target,
                id,
                member,
                span,
            ) == member_bound(
                b,
                load,
                cur,
                target,
                id,
                member,
                span,
            ),
{
    alike_mods(a, b);
    alike_membership(a, b);
    alike_own_cell(a, b);
}

proof fn alike_known_target(a: Seq<LoadedModule>, b: Seq<LoadedModule>)
    requires
        alike(a, b),
    ensures
        forall|
            h: HeapView,
            m: MachineView,
            cur: int,
            import: NodeId,
            next: int,
            target: ImportTarget,
            id: ModuleId,
            member: Option<Seq<char>>,
            span: Span,
        |
            0 <= cur < a.len() ==> #[trigger] known_target(
                a,
                h,
                m,
                cur,
                import,
                next,
                target,
                id,
                member,
                span,
            ) == known_target(
                b,
                h,
                m,
                cur,
                import,
                next,
                target,
                id,
                member,
                span,
            ),
{
    alike_mods(a, b);
    alike_member_bound(a, b);
}

proof fn alike_import_advanced(a: Seq<LoadedModule>, b: Seq<LoadedModule>)
    requires
        alike(a, b),
    ensures
        forall|h: HeapView, m: MachineView, cur: int, import: NodeId, next: int|
            0 <= cur < a.len() ==> #[trigger] import_advanced(
                a,
                h,
                m,
                cur,
                import,
                next,
            ) == import_advanced(
                b,
                h,
                m,
                cur,
                import,
                next,
            ),
{
    alike_mods(a, b);
    reveal(import_advanced);
    alike_known_target(a, b);
}

proof fn alike_element_read(a: Seq<LoadedModule>, b: Seq<LoadedModule>)
    requires
        alike(a, b),
    ensures
        forall|h: HeapView, m: MachineView, object: Value, key: Value, key_node: NodeId, span: Span|
            #[trigger] element_read(
                a,
                h,
                m,
                object,
                key,
                key_node,
                span,
            ) == element_read(
                b,
                h,
                m,
                object,
                key,
                key_node,
                span,
            ),
{
    alike_entering_unary(a, b);
}

proof fn alike_element_set(a: Seq<LoadedModule>, b: Seq<LoadedModule>)
    requires
        alike(a, b),
    ensures
        forall|
            resolved: ResolvedModule,
            h: HeapView,
            m: MachineView,
            assign: NodeId,
            object: Value,
            key: Value,
        |
            #[trigger] element_set(
                resolved,
                a,
                h,
                m,
                assign,
                object,
                key,
            ) == element_set(
                resolved,
                b,
                h,
                m,
                assign,
                object,
                key,
            ),
{
    alike_entering_unary(a, b);
}

proof fn alike_literal_hash_known(a: Seq<LoadedModule>, b: Seq<LoadedModule>)
    requires
        alike(a, b),
    ensures
        forall|
            resolved: ResolvedModule,
            h: HeapView,
            m: MachineView,
            node: NodeId,
            dict: DictIdx,
            entries: Seq<(Value, Value)>,
            index: nat,
        |
            #[trigger] literal_hash_known(
                resolved,
                a,
                h,
                m,
                node,
                dict,
                entries,
                index,
            ) == literal_hash_known(
                resolved,
                b,
                h,
                m,
                node,
                dict,
                entries,
                index,
            ),
{
    alike_built(a, b);
}

proof fn alike_literal_value_known(a: Seq<LoadedModule>, b: Seq<LoadedModule>)
    requires
        alike(a, b),
    ensures
        forall|
            resolved: ResolvedModule,
            h: HeapView,
            m: MachineView,
            node: NodeId,
            entries: Seq<(Value, Value)>,
            index: int,
            key: Value,
        |
            #[trigger] literal_value_known(
                resolved,
                a,
                h,
                m,
                node,
                entries,
                index,
                key,
            ) == literal_value_known(
                resolved,
                b,
                h,
                m,
                node,
                entries,
                index,
                key,
            ),
{
    alike_literal_advanced(a, b);
}

proof fn alike_member_reading(a: Seq<LoadedModule>, b: Seq<LoadedModule>)
    requires
        alike(a, b),
    ensures
        forall|load: LoadView, h: HeapView, module: ModuleId, name: Seq<char>, span: Span|
            #[trigger] member_reading(
                a,
                load,
                h,
                module,
                name,
                span,
            ) == member_reading(
                b,
                load,
                h,
                module,
                name,
                span,
            ),
{
    alike_membership(a, b);
    alike_own_cell(a, b);
}

proof fn alike_field_reading(a: Seq<LoadedModule>, b: Seq<LoadedModule>)
    requires
        alike(a, b),
    ensures
        forall|load: LoadView, h: HeapView, object: Value, name: Seq<char>, span: Span|
            #[trigger] field_reading(
                a,
                load,
                h,
                object,
                name,
                span,
            ) == field_reading(
                b,
                load,
                h,
                object,
                name,
                span,
            ),
{
    alike_member_reading(a, b);
}

proof fn alike_field_read_step(a: Seq<LoadedModule>, b: Seq<LoadedModule>)
    requires
        alike(a, b),
    ensures
        forall|resolved: ResolvedModule, h: HeapView, m: MachineView, field: NodeId|
            #[trigger] field_read_step(
                resolved,
                a,
                h,
                m,
                field,
            ) == field_read_step(
                resolved,
                b,
                h,
                m,
                field,
            ),
{
    alike_field_reading(a, b);
}

proof fn alike_dispatched(a: Seq<LoadedModule>, b: Seq<LoadedModule>)
    requires
        alike(a, b),
    ensures
        forall|resolved: ResolvedModule, h: HeapView, m: MachineView, c: ContView|
            #[trigger] dispatched(resolved, a, h, m, c) == dispatched(resolved, b, h, m, c),
{
    reveal(dispatched);
    alike_block_argument_known(a, b);
    alike_argument_known(a, b);
    alike_callee_known(a, b);
    alike_with_opened(a, b);
    alike_evaluated(a, b);
    alike_value_interpolated(a, b);
    alike_element_read(a, b);
    alike_element_set(a, b);
    alike_literal_hash_known(a, b);
    alike_literal_value_known(a, b);
    alike_field_read_step(a, b);
}

proof fn alike_runs_procedure(a: Seq<LoadedModule>, b: Seq<LoadedModule>)
    requires
        alike(a, b),
    ensures
        forall|h: HeapView, f: FrameView|
            #[trigger] runs_procedure(a, h, f) == runs_procedure(b, h, f),
{
    alike_source_of(a, b);
}

proof fn alike_frame_unwound(a: Seq<LoadedModule>, b: Seq<LoadedModule>)
    requires
        alike(a, b),
    ensures
        forall|h: HeapView, m: MachineView|
            #[trigger] frame_unwound(a, h, m) == frame_unwound(b, h, m),
{
    alike_runs_procedure(a, b);
}

proof fn alike_unwound(a: Seq<LoadedModule>, b: Seq<LoadedModule>)
    requires
        alike(a, b),
    ensures
        forall|resolved: ResolvedModule, h: HeapView, m: MachineView|
            #[trigger] unwound(resolved, a, h, m) == unwound(resolved, b, h, m),
{
    reveal(unwound);
    alike_frame_unwound(a, b);
}

/// Whether two instances have the same contents.
pub open spec fn same_state(a: Instance, b: Instance) -> bool {
    &&& left_by(a, TurnOf::Ran) == left_by(b, TurnOf::Ran)
    &&& kept_by_turns(a, b)
}

/// A turn reads an instance's contents only.
proof fn lemma_turns_read_contents(a: Instance, b: Instance, cancelled: bool)
    requires
        same_state(a, b),
    ensures
        turned(a, cancelled) == turned(b, cancelled),
{
    let (c, d) = (a.modules@, b.modules@);
    assert(mods(c).len() == c.len() && mods(d).len() == d.len());
    assert forall|k: int|
        #![trigger c[k]]
        #![trigger d[k]]
        0 <= k < c.len() implies {
        &&& c[k].resolved == d[k].resolved
        &&& named_view(c[k].namespace@) == named_view(d[k].namespace@)
        &&& c[k].wildcards@ == d[k].wildcards@
    } by {
        assert(mods(c)[k] == c[k]@ && mods(d)[k] == d[k]@);
    }
    assert(alike(c, d));
    assert(untouched(a) == untouched(b));
    assert(current(a) == current(b));
    alike_dispatched(c, d);
    alike_unwound(c, d);
    alike_import_advanced(c, d);
    alike_each_advanced(c, d);
    alike_roots_of(c, d);
    assert forall|t: TurnView| #[trigger] accounted(a, t) == accounted(b, t) by {
        assert(roots_at(a, t) == roots_at(b, t));
    }
}

/// Whether an uninterrupted turn leads from an instance to another.
pub open spec fn leads(a: Instance, t: TurnKind, b: Instance) -> bool {
    &&& left_by(b, t) == turned(a, false)
    &&& kept_by_turns(a, b)
}

/// Whether a number of uninterrupted turns leads from an instance to another, none of which
/// ended or suspended the program.
pub open spec fn unfolds(a: Instance, b: Instance, n: nat) -> bool
    decreases n,
{
    if n == 0 {
        a == b
    } else {
        exists|c: Instance, t: TurnKind|
            unfolds(a, c, (n - 1) as nat) && #[trigger] leads(c, t, b) && goes_on(t)
    }
}

/// Driving is deterministic: a program that begins in the same state is in the same state
/// after the same number of turns.
pub proof fn law_runs_are_determined(a: Instance, b: Instance, c: Instance, d: Instance, n: nat)
    requires
        same_state(a, b),
        unfolds(a, c, n),
        unfolds(b, d, n),
    ensures
        same_state(c, d),
    decreases n,
{
    if n > 0 {
        let (e, t) = choose|e: Instance, t: TurnKind|
            unfolds(a, e, (n - 1) as nat) && #[trigger] leads(e, t, c) && goes_on(t);
        let (f, u) = choose|f: Instance, u: TurnKind|
            unfolds(b, f, (n - 1) as nat) && #[trigger] leads(f, u, d) && goes_on(u);
        law_runs_are_determined(a, b, e, f, (n - 1) as nat);
        lemma_turns_read_contents(e, f, false);
    }
}

} // verus!
