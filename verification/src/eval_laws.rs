//! What expressions come to: in which order their operands are evaluated, and what an
//! operator makes of them.

use crate::ast::BinaryOp;
use crate::ast::Node;
use crate::ast::NodeId;
use crate::ast::StrPart;
use crate::ast::UnaryOp;
use crate::compare::same;
use crate::compare::value_order;
use crate::cont::ContView;
use crate::control_laws::goes_on_with;
use crate::control_laws::pending;
use crate::control_laws::running;
use crate::error::ExceptionKind;
use crate::eval::evaluated;
use crate::eval::left_known;
use crate::eval::operator_work;
use crate::eval::runs_text;
use crate::eval::short_circuited;
use crate::eval::value_interpolated;
use crate::float::Order;
use crate::frame::Local;
use crate::heap::BuiltinType;
use crate::heap::HeapView;
use crate::heap::TypeView;
use crate::index::element_read;
use crate::index::index_object_known;
use crate::machine::MachineView;
use crate::modload::LoadedModule;
use crate::named::named;
use crate::named::named_view;
use crate::protocol::implementation;
use crate::protocol::WellKnown;
use crate::render::value_text;
use crate::resolve::Resolution;
use crate::resolve::ResolvedModule;
use crate::span::Span;
use crate::step::bool_asserted;
use crate::step::operator_applied;
use crate::step::unary_applied;
use crate::unicode::nfc_text;
use crate::value::BytesIdx;
use crate::value::CellIdx;
use crate::value::ListIdx;
use crate::value::StrIdx;
use crate::value::Value;
use vstd::prelude::*;

verus! {

/// Work goes on top of what the innermost frame has to do, the next last.
proof fn lemma_scheduled(m: MachineView, a: ContView, b: ContView)
    requires
        running(m),
    ensures
        goes_on_with(m, m.doing(a).doing(b), pending(m).push(a).push(b)),
        m.doing(a).doing(b).reg == m.reg,
        goes_on_with(m, m.voided().doing(a).doing(b), pending(m).push(a).push(b)),
        m.voided().doing(a).doing(b).reg is None,
{
    let z = m.doing(a).doing(b);
    let y = m.voided().doing(a).doing(b);
    assert(z.frames.drop_last() =~= m.frames.drop_last());
    assert(y.frames.drop_last() =~= m.frames.drop_last());
}

/// An operator's left operand is evaluated before the right one, and the right one of `and`
/// and `or` only where the left one is known. The object of a field or an element is evaluated
/// before it is read, and the first element of a list before the others.
pub proof fn law_operands_come_first(
    resolved: ResolvedModule,
    modules: Seq<LoadedModule>,
    h: HeapView,
    m: MachineView,
    node: NodeId,
)
    requires
        running(m),
    ensures
        ({
            let z = evaluated(resolved, modules, h, m, node);
            let span = resolved.ast.range(node);
            let first = |operand: NodeId, rest: ContView|
                {
                    &&& z.raise is None
                    &&& z.heap == h
                    &&& z.machine.reg == m.reg
                    &&& goes_on_with(
                        m,
                        z.machine,
                        pending(m).push(rest).push(ContView::Eval { node: operand }),
                    )
                };
            match resolved.node_at(node) {
                Some(Node::Binary { op, lhs, rhs }) => first(
                    lhs,
                    if op is And {
                        ContView::AndRhs { rhs, span }
                    } else if op is Or {
                        ContView::OrRhs { rhs, span }
                    } else {
                        ContView::BinRhs { op, rhs, span }
                    },
                ),
                Some(Node::Unary { op, operand }) => first(
                    operand,
                    ContView::UnaryApply { op, span },
                ),
                Some(Node::Field { object, .. }) => first(
                    object,
                    ContView::FieldRead { field: node },
                ),
                Some(Node::Index { object, index }) => first(
                    object,
                    ContView::IndexGotObject { index, span },
                ),
                Some(Node::List(elements)) => elements@.len() > 0 ==> first(
                    elements@[0],
                    ContView::ListGotElem { list: node, values: Seq::empty(), index: 0 },
                ),
                _ => true,
            }
        }),
{
    let span = resolved.ast.range(node);
    match resolved.node_at(node) {
        Some(Node::Binary { op, lhs, rhs }) => {
            lemma_scheduled(m, operator_work(op, rhs, span), ContView::Eval { node: lhs });
        },
        Some(Node::Unary { op, operand }) => {
            lemma_scheduled(
                m,
                ContView::UnaryApply { op, span },
                ContView::Eval { node: operand },
            );
        },
        Some(Node::Field { object, .. }) => {
            lemma_scheduled(
                m,
                ContView::FieldRead { field: node },
                ContView::Eval { node: object },
            );
        },
        Some(Node::Index { object, index }) => {
            lemma_scheduled(
                m,
                ContView::IndexGotObject { index, span },
                ContView::Eval { node: object },
            );
        },
        Some(Node::List(elements)) => {
            lemma_scheduled(
                m,
                ContView::ListGotElem { list: node, values: Seq::empty(), index: 0 },
                ContView::Eval { node: elements@[0] },
            );
        },
        _ => {},
    }
}

/// A left operand is kept as the left one while the right one is evaluated.
pub proof fn law_left_operands_are_kept(
    m: MachineView,
    op: BinaryOp,
    rhs: NodeId,
    span: Span,
    l: Value,
)
    requires
        running(m),
        m.reg == Some(l),
    ensures
        ({
            let (z, e) = left_known(m, op, rhs, span);
            &&& e is None
            &&& z.reg is None
            &&& goes_on_with(
                m,
                z,
                pending(m).push(ContView::BinApply { op, lhs: l, span }).push(
                    ContView::Eval { node: rhs },
                ),
            )
        }),
{
    lemma_scheduled(m, ContView::BinApply { op, lhs: l, span }, ContView::Eval { node: rhs });
}

/// `and` is decided by a left operand that is false and `or` by one that is true; else the
/// right one is evaluated, and must be a boolean too. What is no boolean is refused.
pub proof fn law_logic_evaluates_no_more_than_it_needs(
    m: MachineView,
    rhs: NodeId,
    span: Span,
    l: Value,
)
    requires
        running(m),
        m.reg == Some(l),
    ensures
        ({
            let (y, d) = short_circuited(m, rhs, span, true);
            let (z, e) = short_circuited(m, rhs, span, false);
            let (x, f) = bool_asserted(m, span);
            let works = pending(m).push(ContView::AssertBool { span }).push(
                ContView::Eval { node: rhs },
            );
            &&& l == Value::Bool(false) ==> {
                &&& d is None && y.reg == Some(Value::Bool(false)) && goes_on_with(m, y, pending(m))
                &&& e is None && z.reg is None && goes_on_with(m, z, works)
            }
            &&& l == Value::Bool(true) ==> {
                &&& d is None && y.reg is None && goes_on_with(m, y, works)
                &&& e is None && z.reg == Some(Value::Bool(true)) && goes_on_with(m, z, pending(m))
            }
            &&& l is Bool ==> x == m && f is None
            &&& !(l is Bool) ==> {
                &&& d is Some && d->0.kind == ExceptionKind::TypeMismatch
                &&& e is Some && e->0.kind == ExceptionKind::TypeMismatch
                &&& f is Some && f->0.kind == ExceptionKind::TypeMismatch
            }
        }),
{
    lemma_scheduled(m, ContView::AssertBool { span }, ContView::Eval { node: rhs });
}

/// `==` says whether two values are equal and `!=` whether they are not.
pub proof fn law_equality_operators(h: HeapView, m: MachineView, l: Value, r: Value, span: Span)
    requires
        running(m),
        m.reg == Some(r),
    ensures
        ({
            let y = operator_applied(h, m, BinaryOp::Eq, l, span);
            let z = operator_applied(h, m, BinaryOp::Ne, l, span);
            &&& y.raise is None && y.heap == h && goes_on_with(m, y.machine, pending(m))
            &&& z.raise is None && z.heap == h && goes_on_with(m, z.machine, pending(m))
            &&& same(h, l, r) ==> y.machine.reg == Some(Value::Bool(true)) && z.machine.reg == Some(
                Value::Bool(false),
            )
            &&& !same(h, l, r) ==> y.machine.reg == Some(Value::Bool(false)) && z.machine.reg
                == Some(Value::Bool(true))
        }),
{
}

/// An ordering operator says how the left operand stands to the right one. Of two values
/// without an order it says nothing.
pub proof fn law_ordering_operators(
    h: HeapView,
    m: MachineView,
    op: BinaryOp,
    l: Value,
    r: Value,
    span: Span,
)
    requires
        running(m),
        m.reg == Some(r),
        op is Lt || op is Gt || op is Le || op is Ge,
    ensures
        ({
            let z = operator_applied(h, m, op, l, span);
            let said = |b: bool| z.raise is None && z.machine.reg == Some(Value::Bool(b))
                && goes_on_with(m, z.machine, pending(m));
            &&& z.heap == h
            &&& match value_order(h, l, r) {
                Some(Order::Less) => said(op is Lt || op is Le),
                Some(Order::Equal) => said(op is Le || op is Ge),
                Some(Order::Greater) => said(op is Gt || op is Ge),
                None => z.raise is Some && z.raise->0.kind == ExceptionKind::UndefinedOrdering
                    && z.machine.reg is None,
            }
        }),
{
}

/// `not` gives the other boolean, and refuses what is none.
pub proof fn law_not_gives_the_other_boolean(h: HeapView, m: MachineView, v: Value, span: Span)
    requires
        running(m),
        m.reg == Some(v),
    ensures
        ({
            let z = unary_applied(h, m, UnaryOp::Not, span);
            &&& z.heap == h
            &&& v == Value::Bool(true) ==> z.raise is None && z.machine.reg == Some(
                Value::Bool(false),
            ) && goes_on_with(m, z.machine, pending(m))
            &&& v == Value::Bool(false) ==> z.raise is None && z.machine.reg == Some(
                Value::Bool(true),
            ) && goes_on_with(m, z.machine, pending(m))
            &&& !(v is Bool) ==> z.raise is Some && z.raise->0.kind == ExceptionKind::TypeMismatch
        }),
{
}

/// A literal is its value, and nothing else changes but for the table that the value is in.
pub proof fn law_literals_are_their_value(
    resolved: ResolvedModule,
    modules: Seq<LoadedModule>,
    h: HeapView,
    m: MachineView,
    node: NodeId,
)
    requires
        running(m),
        h.bytes.len() < usize::MAX,
    ensures
        ({
            let z = evaluated(resolved, modules, h, m, node);
            let leaf = |v: Value| z.raise is None && z.machine.reg == Some(v) && goes_on_with(
                m,
                z.machine,
                pending(m),
            );
            &&& (resolved.node_at(node) matches Some(Node::IntLit(n)) ==> leaf(Value::Int(n))
                && z.heap == h)
            &&& (resolved.node_at(node) matches Some(Node::FloatLit(x)) ==> leaf(Value::Float(x))
                && z.heap == h)
            &&& (resolved.node_at(node) matches Some(Node::BoolLit(b)) ==> leaf(Value::Bool(b))
                && z.heap == h)
            &&& (resolved.node_at(node) == Some(Node::NilLit) ==> leaf(Value::Nil) && z.heap == h)
            &&& (resolved.node_at(node) matches Some(Node::BytesLit(bytes)) ==> {
                &&& leaf(Value::Bytes(BytesIdx(h.bytes.len() as usize)))
                &&& z.heap.bytes_of(BytesIdx(h.bytes.len() as usize)) == bytes@
            })
        }),
{
}

/// `is` says whether a value is of a type: a built-in type's values are those of its kind, and
/// a record type's are the records made of that very type.
pub proof fn law_is_tells_the_type(
    h: HeapView,
    m: MachineView,
    l: Value,
    t: Value,
    span: Span,
)
    requires
        running(m),
        m.reg == Some(t),
    ensures
        ({
            let z = operator_applied(h, m, BinaryOp::Is, l, span);
            let said = |b: bool| z.raise is None && z.machine.reg == Some(Value::Bool(b))
                && goes_on_with(m, z.machine, pending(m));
            &&& z.heap == h
            &&& (t matches Value::Type(idx) ==> {
                let b = match h.type_kind(idx) {
                    Some(TypeView::Builtin(b)) => Some(b),
                    _ => None,
                };
                &&& b == Some(BuiltinType::Nil) ==> said(l is Nil)
                &&& b == Some(BuiltinType::Bool) ==> said(l is Bool)
                &&& b == Some(BuiltinType::Int) ==> said(l is Int || l is BigInt)
                &&& b == Some(BuiltinType::Float) ==> said(l is Float)
                &&& b == Some(BuiltinType::Number) ==> said(l is Int || l is BigInt || l is Float)
                &&& b == Some(BuiltinType::String) ==> said(l is Str)
                &&& b == Some(BuiltinType::Bytes) ==> said(l is Bytes)
                &&& b == Some(BuiltinType::List) ==> said(l is List)
                &&& b == Some(BuiltinType::Dict) ==> said(l is Dict)
                &&& b == Some(BuiltinType::Callable) ==> said(l is Callable)
                &&& b == Some(BuiltinType::Module) ==> said(l is Module)
                &&& b == Some(BuiltinType::Type) ==> said(l is Type)
                &&& b == Some(BuiltinType::Foreign) ==> said(l is Foreign)
                &&& h.type_kind(idx) is Some && h.type_kind(idx)->0 is Record ==> said(
                    l is Record && h.record(l->Record_0) is Some && h.record(
                        l->Record_0,
                    )->0.type_idx == idx,
                )
                &&& h.type_kind(idx) is Some && h.type_kind(idx)->0 is Protocol ==> said(false)
            })
            &&& !(t is Type) ==> z.raise is Some && z.raise->0.kind == ExceptionKind::TypeMismatch
        }),
{
}

/// Reading a name changes nothing. A local is what its slot has, and a name of the module what
/// its cell has; one that has nothing yet is refused.
pub proof fn law_names_read_what_they_are_bound_to(
    resolved: ResolvedModule,
    modules: Seq<LoadedModule>,
    h: HeapView,
    m: MachineView,
    node: NodeId,
    name: String,
    slot: u16,
    i: u32,
    free: Seq<char>,
    cell: CellIdx,
)
    requires
        running(m),
        resolved.node_at(node) == Some(Node::Ident(name)),
    ensures
        ({
            let z = evaluated(resolved, modules, h, m, node);
            let cur = resolved.canonical_id.0 as int;
            let reads = |v: Option<Value>|
                match v {
                    Some(w) => z.raise is None && z.machine.reg == Some(w) && goes_on_with(
                        m,
                        z.machine,
                        pending(m),
                    ),
                    None => z.raise is Some && z.raise->0.kind == ExceptionKind::UsedBeforeDefined
                        && z.machine == m,
                };
            &&& z.heap == h
            &&& resolved.resolution(node) == Some(Resolution::LocalSlot(slot)) && slot
                < m.frames.last().locals.len() ==> match m.frames.last().locals[slot as int] {
                Local::Direct(v) => reads(v),
                Local::Boxed(c) => reads(h.cell_value(c)),
            }
            &&& resolved.resolution(node) == Some(Resolution::ModuleName(i)) && resolved.name_ref(i)
                == Some(free) && 0 <= cur < modules.len() && named(
                named_view(modules[cur].namespace@),
                free,
            ) == Some(cell) ==> reads(h.cell_value(cell))
        }),
{
}

/// The frame that a reference to an enclosing body's local reads, and what it reads there.
pub proof fn law_outer_names_read_their_frame(
    resolved: ResolvedModule,
    modules: Seq<LoadedModule>,
    h: HeapView,
    m: MachineView,
    node: NodeId,
    name: String,
    slot: u16,
    hops: u16,
    frame: int,
)
    requires
        running(m),
        resolved.node_at(node) == Some(Node::Ident(name)),
        resolved.resolution(node) == Some(Resolution::BlockOuter { hops, slot }),
        m.enclosing(hops as nat) == Some(frame),
        0 <= frame < m.frames.len(),
        slot < m.frames[frame].locals.len(),
    ensures
        ({
            let z = evaluated(resolved, modules, h, m, node);
            let v = match m.frames[frame].locals[slot as int] {
                Local::Direct(v) => v,
                Local::Boxed(c) => h.cell_value(c),
            };
            &&& z.heap == h
            &&& (v matches Some(w) ==> z.raise is None && z.machine.reg == Some(w) && goes_on_with(
                m,
                z.machine,
                pending(m),
            ))
            &&& v is None ==> z.raise is Some && z.raise->0.kind
                == ExceptionKind::UsedBeforeDefined && z.machine == m
        }),
{
}

/// The element at a position of a list or a byte string is the one that many after the first,
/// and reading it changes nothing. A position outside is refused.
pub proof fn law_positions_count_from_zero(
    modules: Seq<LoadedModule>,
    h: HeapView,
    m: MachineView,
    l: ListIdx,
    b: BytesIdx,
    n: i64,
    key_node: NodeId,
    span: Span,
)
    requires
        running(m),
    ensures
        ({
            let y = element_read(modules, h, m, Value::List(l), Value::Int(n), key_node, span);
            let z = element_read(modules, h, m, Value::Bytes(b), Value::Int(n), key_node, span);
            &&& y.heap == h && z.heap == h
            &&& 0 <= n < h.items(l).len() ==> y.raise is None && y.machine.reg == Some(
                h.items(l)[n as int],
            ) && goes_on_with(m, y.machine, pending(m))
            &&& !(0 <= n < h.items(l).len()) ==> y.raise is Some && y.raise->0.kind
                == ExceptionKind::IndexOutOfRange && y.machine == m
            &&& 0 <= n < h.bytes_of(b).len() ==> z.raise is None && z.machine.reg == Some(
                Value::Int(h.bytes_of(b)[n as int] as i64),
            ) && goes_on_with(m, z.machine, pending(m))
            &&& !(0 <= n < h.bytes_of(b).len()) ==> z.raise is Some && z.raise->0.kind
                == ExceptionKind::IndexOutOfRange && z.machine == m
        }),
{
}

/// The object of an element is kept while its key is evaluated.
pub proof fn law_keys_come_after_their_object(
    m: MachineView,
    index: NodeId,
    span: Span,
    object: Value,
)
    requires
        running(m),
        m.reg == Some(object),
    ensures
        ({
            let (z, e) = index_object_known(m, index, span);
            &&& e is None
            &&& z.reg is None
            &&& goes_on_with(
                m,
                z,
                pending(m).push(ContView::IndexApply { object, span, key_node: index }).push(
                    ContView::Eval { node: index },
                ),
            )
        }),
{
    lemma_scheduled(
        m,
        ContView::IndexApply { object, span, key_node: index },
        ContView::Eval { node: index },
    );
}

/// A part of a string that is a value goes into it where it stands: the text so far, then the
/// value's own text, and then the parts after it.
pub proof fn law_interpolated_values_are_joined_on(
    resolved: ResolvedModule,
    modules: Seq<LoadedModule>,
    h: HeapView,
    m: MachineView,
    node: NodeId,
    parts: Vec<StrPart>,
    acc: Seq<char>,
    index: int,
    v: Value,
)
    requires
        running(m),
        resolved.node_at(node) == Some(Node::StrLit(parts)),
        0 <= index < parts@.len(),
        parts@[index] is Interp,
        m.reg == Some(v),
        implementation(m.protocols, WellKnown::Stringable, h, v) is None,
        h.strings.len() < usize::MAX,
    ensures
        ({
            let z = value_interpolated(resolved, modules, h, m, node, acc, index);
            let text = nfc_text(acc + value_text(h, v));
            let s = StrIdx(h.strings.len() as usize);
            &&& z.raise is None
            &&& index + 1 == parts@.len() ==> z.machine.reg == Some(Value::Str(s))
                && z.heap.text(s) == text && goes_on_with(m, z.machine, pending(m))
            &&& (index + 1 < parts@.len() && parts@[index + 1] is Interp ==> z.heap == h
                && z.machine.reg is None && goes_on_with(
                m,
                z.machine,
                pending(m).push(
                    ContView::StrInterp { node, acc: text, index: (index + 1) as usize },
                ).push(ContView::Eval { node: parts@[index + 1]->Interp_0 }),
            ))
        }),
{
    let text = nfc_text(acc + value_text(h, v));
    lemma_scheduled(
        m,
        ContView::StrInterp { node, acc: text, index: (index + 1) as usize },
        ContView::Eval { node: parts@[index + 1]->Interp_0 },
    );
}

/// A string without values in it is its runs of text, joined in order.
pub proof fn law_runs_are_joined_in_order(parts: Seq<StrPart>, run: String)
    ensures
        runs_text(Seq::empty(), 0) == Seq::<char>::empty(),
        runs_text(parts.push(StrPart::Text(run)), parts.len() + 1) == runs_text(
            parts,
            parts.len(),
        ) + run@,
{
    let all = parts.push(StrPart::Text(run));
    lemma_runs_before(parts, StrPart::Text(run), parts.len());
    assert(all[parts.len() as int] == StrPart::Text(run));
}

proof fn lemma_runs_before(parts: Seq<StrPart>, last: StrPart, n: nat)
    requires
        n <= parts.len(),
    ensures
        runs_text(parts.push(last), n) == runs_text(parts, n),
    decreases n,
{
    if n > 0 {
        lemma_runs_before(parts, last, (n - 1) as nat);
        assert(parts.push(last)[n - 1] == parts[n - 1]);
    }
}

} // verus!
