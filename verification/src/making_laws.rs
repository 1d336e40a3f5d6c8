//! What is made of what is written: numbers of their digits, members of registered modules,
//! types of record declarations; and what a host is told when a drive stops.

use crate::ast::Node;
use crate::ast::NodeId;
use crate::bignum::digits_value;
use crate::drive::Outcome;
use crate::drive::pause_due;
use crate::drive::stopped;
use crate::exception::type_text;
use crate::heap::BuiltinType;
use crate::heap::CallableTarget;
use crate::heap::CalView;
use crate::heap::HeapView;
use crate::heap::RecordView;
use crate::heap::SchemaView;
use crate::heap::TypeView;
use crate::inspect::declared_at;
use crate::inspect::is_function;
use crate::inspect::spelled;
use crate::instance::Instance;
use crate::intrinsic::IntrinsicView;
use crate::machine::MachineView;
use crate::modload::LoadedModule;
use crate::named::named;
use crate::names::declared_name;
use crate::native::Built;
use crate::native::ConstView;
use crate::native::member_built;
use crate::native::MemberView;
use crate::object::record_declared;
use crate::observe::Position;
use crate::resolve::BodyKind;
use crate::resolve::ResolvedModule;
use crate::span::ModuleId;
use crate::text::texts;
use crate::turn::TurnKind;
use crate::turn::TurnOf;
use crate::value::CellIdx;
use crate::value::RecIdx;
use crate::value::Value;
use vstd::prelude::*;

verus! {

/// A number is read digit by digit: each makes ten of the ones before it, or as many as the
/// radix says, and adds its own value. A separator between them adds nothing, a letter stands
/// for ten and more in either case, and what is no digit of the radix is refused.
pub proof fn law_numbers_are_read_digit_by_digit(s: Seq<char>, c: char, radix: int)
    ensures
        digits_value(Seq::empty(), radix) == Some(0int),
        digits_value(s, radix) is None ==> digits_value(s.push(c), radix) is None,
        digits_value(s, radix) is Some ==> {
            let n = digits_value(s, radix)->0;
            let z = digits_value(s.push(c), radix);
            let d = if '0' <= c && c <= '9' {
                c as int - '0' as int
            } else if 'a' <= c && c <= 'z' {
                c as int - 'a' as int + 10
            } else if 'A' <= c && c <= 'Z' {
                c as int - 'A' as int + 10
            } else {
                radix
            };
            &&& c == '_' ==> z == Some(n)
            &&& c != '_' && d < radix ==> z == Some(n * radix + d)
            &&& c != '_' && d >= radix ==> z is None
        },
{
    assert(s.push(c).drop_last() =~= s);
}

/// A member of a registered module is a constant under its name, behind the members before it,
/// and is what it was registered as.
pub proof fn law_members_are_bound_as_registered(
    b: Built,
    id: ModuleId,
    name: Seq<char>,
    member: MemberView,
)
    requires
        b.heap.cells.len() < usize::MAX,
        b.heap.callables.len() < usize::MAX,
        b.heap.types.len() < u32::MAX,
        b.heap.strings.len() < usize::MAX,
        b.heap.bytes.len() < usize::MAX,
        b.intrinsics.len() < u32::MAX,
    ensures
        ({
            let z = member_built(b, id, name, member);
            let cell = CellIdx(b.heap.cells.len() as usize);
            &&& z.names == b.names.push((name, cell))
            &&& z.heap.cell(cell) matches Some(o)
            &&& o.kind is Const
            &&& match (member, o.value) {
                (MemberView::Const(ConstView::Int(n)), Some(v)) => v == Value::Int(n),
                (MemberView::Const(ConstView::Float(x)), Some(v)) => v == Value::Float(x),
                (MemberView::Const(ConstView::Bool(t)), Some(v)) => v == Value::Bool(t),
                (MemberView::Const(ConstView::Nil), Some(v)) => v is Nil,
                (MemberView::Const(ConstView::Str(s)), Some(Value::Str(i))) => z.heap.text(i) == s,
                (MemberView::Const(ConstView::Bytes(s)), Some(Value::Bytes(i))) => z.heap.bytes_of(
                    i,
                ) == s,
                (MemberView::Function(f), Some(Value::Callable(c))) => {
                    &&& z.intrinsics == b.intrinsics.push(f)
                    &&& z.heap.callable(c) matches Some(made)
                    &&& made.module == id
                    &&& made.target == CallableTarget::Intrinsic(b.intrinsics.len() as u32)
                },
                (MemberView::Record { fields, is_ref }, Some(Value::Type(t))) => z.heap.type_kind(
                    t,
                ) == Some(TypeView::Record(SchemaView { name, fields, is_ref })),
                (MemberView::Foreign(_), Some(v)) => v is Foreign,
                _ => false,
            }
        }),
{
}

/// A record declaration makes a type of its own, with the declared name and fields.
pub proof fn law_record_declarations_make_a_type(
    resolved: ResolvedModule,
    h: HeapView,
    m: MachineView,
    namespace: Seq<(Seq<char>, CellIdx)>,
    decl: NodeId,
    name: String,
    fields: Vec<String>,
    is_ref: bool,
    cell: CellIdx,
)
    requires
        resolved.node_at(decl) == Some(Node::Record { name, fields, is_ref }),
        resolved.resolution(decl) is None,
        declared_name(resolved, decl) is Some,
        named(namespace, declared_name(resolved, decl)->0) == Some(cell),
        h.cell(cell) is Some,
        h.types.len() < u32::MAX,
    ensures
        ({
            let (g, z) = record_declared(resolved, h, m, namespace, decl);
            &&& z == m
            &&& g.cell_value(cell) matches Some(Value::Type(t))
            &&& t.0 == h.types.len()
            &&& g.type_kind(t) matches Some(TypeView::Record(schema))
            &&& schema.name == name@
            &&& schema.fields.len() == fields@.len()
            &&& forall|i: int|
                0 <= i < fields@.len() ==> #[trigger] schema.fields[i] == fields@[i]@
            &&& schema.is_ref == is_ref
        }),
{
}

/// What a host is told when a drive stops is what the last turn came to: the value of a
/// program that is done, the exception that ended it, the fault, the function to run.
pub proof fn law_hosts_are_told_what_a_turn_came_to(
    i: Instance,
    t: TurnKind,
    host_pause: bool,
    z: Instance,
    r: Option<Outcome>,
)
    requires
        stopped(i, t, host_pause, z, r),
    ensures
        t is Done ==> r == Some(Outcome::Completed(i.machine@.reg)) && z.state is Completed
            && z.machine == i.machine,
        (t matches TurnOf::Faulted(f) ==> r == Some(Outcome::Faulted(f)) && z.state is Faulted),
        (t matches TurnOf::Raised(v, _) ==> r is Some && r->0 is Raised && r->0->Raised_0 == v
            && z.state is Raised),
        (t matches TurnOf::BlockDone(o) ==> r == Some(Outcome::BlockDone(o)) && z.state is Suspended),
        t is Ran || t is SafePoint || t is FinePoint ==> {
            &&& pause_due(i, t, host_pause) is None ==> r is None && z == i
            &&& (pause_due(i, t, host_pause) matches Some(reason) ==> r == Some(
                Outcome::Paused(reason),
            ) && z.state is Paused && z.heap == i.heap)
        },
        t is Suspended && i.natives@.pending is None && i.machine@.pending_import is Some ==> {
            &&& r is Some && r->0 is SuspendedImport
            &&& texts(r->0->SuspendedImport_0.path@) == i.machine@.pending_import->0.path
            &&& z.state is Suspended
        },
{
}

/// What is told of a callable is told of its declaration.
pub proof fn law_callables_are_told_by_their_declaration(
    modules: Seq<LoadedModule>,
    table: Seq<IntrinsicView>,
    c: CalView,
    id: u32,
)
    ensures
        c.target == CallableTarget::Source(id) && c.module.0 < modules.len() && id
            < modules[c.module.0 as int].resolved.callables@.len() ==> {
            let m = modules[c.module.0 as int].resolved;
            let info = m.callables@[id as int];
            &&& is_function(modules, table, c) == Some(info.kind == BodyKind::Func)
            &&& declared_at(modules, c) == Some(
                Position { module: m.canonical_id, span: m.ast.range(info.decl) },
            )
            &&& (m.node_at(info.decl) matches Some(Node::Callable { name: Some(n), .. })
                ==> crate::inspect::declared_name(modules, c) == Some(n@))
        },
        c.target == CallableTarget::Intrinsic(id) ==> {
            &&& id < table.len() ==> is_function(modules, table, c) == Some(
                table[id as int].kind == BodyKind::Func,
            )
            &&& declared_at(modules, c) is None
            &&& crate::inspect::declared_name(modules, c) is None
        },
{
}

/// The name of a record's type is the one it was declared with, and that of any other value
/// the name of its built-in type.
pub proof fn law_types_are_spelled_by_their_name(
    h: HeapView,
    r: RecIdx,
    rec: RecordView,
    schema: SchemaView,
    v: Value,
)
    requires
        h.record(r) == Some(rec),
        h.schema(rec.type_idx) == Some(schema),
    ensures
        type_text(h, Value::Record(r)) == schema.name,
        spelled(TypeView::Record(schema)) == schema.name,
        v is Int || v is BigInt ==> type_text(h, v) == spelled(TypeView::Builtin(BuiltinType::Int)),
        v is Nil ==> type_text(h, v) == spelled(TypeView::Builtin(BuiltinType::Nil)),
        v is Bool ==> type_text(h, v) == spelled(TypeView::Builtin(BuiltinType::Bool)),
        v is Float ==> type_text(h, v) == spelled(TypeView::Builtin(BuiltinType::Float)),
        v is Str ==> type_text(h, v) == spelled(TypeView::Builtin(BuiltinType::String)),
        v is Bytes ==> type_text(h, v) == spelled(TypeView::Builtin(BuiltinType::Bytes)),
        v is List ==> type_text(h, v) == spelled(TypeView::Builtin(BuiltinType::List)),
        v is Dict ==> type_text(h, v) == spelled(TypeView::Builtin(BuiltinType::Dict)),
        v is Callable ==> type_text(h, v) == spelled(TypeView::Builtin(BuiltinType::Callable)),
        v is Module ==> type_text(h, v) == spelled(TypeView::Builtin(BuiltinType::Module)),
        v is Type ==> type_text(h, v) == spelled(TypeView::Builtin(BuiltinType::Type)),
        v is Foreign ==> type_text(h, v) == spelled(TypeView::Builtin(BuiltinType::Foreign)),
{
}

} // verus!
