//! Expressions: turning a node into a value in the register, or into the work that will.
use crate::ast::BinaryOp;
use crate::ast::Node;
use crate::ast::NodeId;
use crate::ast::StrPart;
use crate::bignum::int_literal;
use crate::bignum::BigNum;
use crate::call::call_scheduled;
use crate::call::callable_made;
use crate::call::enter_unary;
use crate::call::entering_unary;
use crate::call::eval_call;
use crate::call::make_callable;
use crate::compare::as_bool;
use crate::compare::not_bool_raise;
use crate::cont::Work;
use crate::control::choosing;
use crate::control::read_ref;
use crate::control::reference_reading;
use crate::control::schedule_if;
use crate::error::ExceptionKind;
use crate::error::Raise;
use crate::error::RaiseView;
use crate::exception::alloc_str;
use crate::exception::text_heap;
use crate::exception::text_value;
use crate::exception::type_mismatch_detail;
use crate::exception::type_mismatch_details;
use crate::exception::type_text;
use crate::heap::BuiltinType;
use crate::heap::Heap;
use crate::heap::HeapView;
use crate::heap::TypeKind;
use crate::heap::TypeView;
use crate::index::dict_advance;
use crate::index::literal_advanced;
use crate::machine::raise_of;
use crate::machine::stepped;
use crate::machine::take_value;
use crate::machine::void_raise;
use crate::machine::Machine;
use crate::machine::MachineView;
use crate::machine::Step;
use crate::modload::LoadedModule;
use crate::number::int_value;
use crate::number::int_value_heap;
use crate::number::int_value_of;
use crate::protect::schedule_try;
use crate::protect::trying;
use crate::protocol::implementation;
use crate::protocol::resolve;
use crate::protocol::WellKnown;
use crate::record::copied;
use crate::record::copy_on_bind;
use crate::render::render;
use crate::render::value_text;
use crate::resolve::ResolvedModule;
use crate::span::Span;
use crate::text::join2;
use crate::unicode::nfc;
use crate::unicode::nfc_text;
use crate::value::BytesIdx;
use crate::value::ListIdx;
use crate::value::StrIdx;
use crate::value::Value;
use vstd::prelude::*;

verus! {

/// What the left operand of `and` or `or` leads to.
pub open spec fn short_circuited(m: MachineView, rhs: NodeId, span: Span, is_and: bool) -> (
    MachineView,
    Option<RaiseView>,
) {
    match m.reg {
        None => (m, Some(void_raise(span))),
        Some(Value::Bool(b)) => if b == is_and {
            (m.voided().doing(Work::AssertBool { span }).doing(Work::Eval { node: rhs }), None)
        } else {
            (m.valued(Value::Bool(!is_and)), None)
        },
        Some(v) => (
            m.voided(),
            Some(
                not_bool_raise(
                    v,
                    if is_and {
                        "and"@
                    } else {
                        "or"@
                    },
                    span,
                ),
            ),
        ),
    }
}

/// The left operand of `and` or `or` is in the register: it decides, or the right one does.
pub fn logical_rhs(machine: &mut Machine, rhs: NodeId, span: Span, is_and: bool) -> (r: Result<
    (),
    Raise,
>)
    ensures
        (final(machine)@, raise_of(r)) == short_circuited(old(machine)@, rhs, span, is_and),
{
    let op = if is_and {
        "and"
    } else {
        "or"
    };
    let value = match take_value(machine, span) {
        Ok(v) => v,
        Err(e) => {
            return Err(e);
        },
    };
    match as_bool(value, op, span) {
        Ok(lhs) => {
            if lhs == is_and {
                machine.push_cont(Work::AssertBool { span });
                machine.push_cont(Work::Eval { node: rhs });
            } else {
                machine.reg = Some(Value::Bool(!is_and));
            }
            Ok(())
        },
        Err(e) => Err(e),
    }
}

/// What having an element of a list literal leads to: the next one, or the list.
pub open spec fn element_known(
    resolved: ResolvedModule,
    h: HeapView,
    m: MachineView,
    list: NodeId,
    values: Seq<Value>,
    index: int,
) -> Step {
    match m.reg {
        None => Step::raised(h, m, void_raise(resolved.ast.range(list))),
        Some(v) => {
            let (h2, copy) = copied(h, v);
            let all = values.push(copy);
            match resolved.node_at(list) {
                Some(Node::List(elements)) => if index + 1 < elements@.len() {
                    Step::done(
                        h2,
                        m.voided().doing(
                            Work::ListGotElem { list, values: all, index: (index + 1) as usize },
                        ).doing(Work::Eval { node: elements@[index + 1] }),
                    )
                } else {
                    Step::done(
                        h2.new_list(all),
                        m.valued(Value::List(ListIdx(h2.lists.len() as usize))),
                    )
                },
                _ => Step::done(h2, m.voided().broken()),
            }
        },
    }
}

/// An element of a list literal is in the register: evaluates the next one, or makes the
/// list.
pub fn list_got_elem(
    resolved: &ResolvedModule,
    heap: &mut Heap,
    machine: &mut Machine,
    list: NodeId,
    values: Vec<Value>,
    index: usize,
) -> (r: Result<(), Raise>)
    ensures
        stepped(r, final(heap)@, final(machine)@) == element_known(
            *resolved,
            old(heap)@,
            old(machine)@,
            list,
            values@,
            index as int,
        ),
{
    let mut values = values;
    match take_value(machine, resolved.ast.span(list)) {
        Ok(v) => values.push(copy_on_bind(v, heap)),
        Err(e) => {
            return Err(e);
        },
    }
    match resolved.ast.node(list) {
        Some(Node::List(elements)) => {
            if index < elements.len() && index + 1 < elements.len() {
                let next = elements[index + 1];
                machine.push_cont(Work::ListGotElem { list, values, index: index + 1 });
                machine.push_cont(Work::Eval { node: next });
            } else {
                machine.reg = Some(Value::List(heap.alloc_list(values)));
            }
        },
        _ => machine.fail(),
    }
    Ok(())
}

/// What going on with a string literal from a part leads to: literal runs are joined on, an
/// interpolated expression is evaluated first, and at the end the string is made.
pub open spec fn interpolated(
    resolved: ResolvedModule,
    h: HeapView,
    m: MachineView,
    node: NodeId,
    parts: Seq<StrPart>,
    acc: Seq<char>,
    from: nat,
) -> (HeapView, MachineView)
    decreases parts.len() - from,
{
    if from >= parts.len() {
        (h.new_string(acc), m.valued(Value::Str(StrIdx(h.strings.len() as usize))))
    } else {
        match parts[from as int] {
            StrPart::Text(run) => interpolated(
                resolved,
                h,
                m,
                node,
                parts,
                nfc_text(acc + nfc_text(run@)),
                from + 1,
            ),
            StrPart::Interp(expr) => (
                h,
                m.doing(Work::StrInterp { node, acc, index: from as usize }).doing(
                    Work::Eval { node: expr },
                ),
            ),
        }
    }
}

fn str_interp_advance(
    resolved: &ResolvedModule,
    heap: &mut Heap,
    machine: &mut Machine,
    node: NodeId,
    parts: &Vec<StrPart>,
    acc: String,
    start: usize,
)
    ensures
        (final(heap)@, final(machine)@) == interpolated(
            *resolved,
            old(heap)@,
            old(machine)@,
            node,
            parts@,
            acc@,
            start as nat,
        ),
{
    let mut text = acc;
    let mut i: usize = start;
    while i < parts.len()
        invariant
            heap@ == old(heap)@,
            machine@ == old(machine)@,
            interpolated(*resolved, heap@, machine@, node, parts@, text@, i as nat)
                == interpolated(
                *resolved,
                old(heap)@,
                old(machine)@,
                node,
                parts@,
                acc@,
                start as nat,
            ),
        decreases parts@.len() - i,
    {
        match &parts[i] {
            StrPart::Text(run) => {
                let joined = join2(text.as_str(), nfc(run.as_str()).as_str());
                text = nfc(joined.as_str());
            },
            StrPart::Interp(expr) => {
                machine.push_cont(Work::StrInterp { node, acc: text, index: i });
                machine.push_cont(Work::Eval { node: *expr });
                return;
            },
        }
        i = i + 1;
    }
    machine.reg = Some(Value::Str(heap.alloc_string(text)));
}

/// What an interpolated value leads to: its own rendering where its type has one, else the
/// engine's.
pub open spec fn value_interpolated(
    resolved: ResolvedModule,
    modules: Seq<LoadedModule>,
    h: HeapView,
    m: MachineView,
    node: NodeId,
    acc: Seq<char>,
    index: int,
) -> Step {
    match resolved.node_at(node) {
        Some(Node::StrLit(parts)) => if index < parts@.len() && parts@[index] is Interp {
            let span = resolved.ast.range(parts@[index]->Interp_0);
            match m.reg {
                None => Step::raised(h, m, void_raise(span)),
                Some(v) => match implementation(m.protocols, WellKnown::Stringable, h, v) {
                    Some(cal) => entering_unary(
                        modules,
                        h,
                        m.voided().doing(
                            Work::StrInterpRendered { node, acc, index: index as usize },
                        ),
                        cal,
                        v,
                        node,
                        span,
                    ),
                    None => {
                        let (h2, m2) = interpolated(
                            resolved,
                            h,
                            m.voided(),
                            node,
                            parts@,
                            nfc_text(acc + value_text(h, v)),
                            (index + 1) as nat,
                        );
                        Step::done(h2, m2)
                    },
                },
            }
        } else {
            Step::done(h, m.broken())
        },
        _ => Step::done(h, m.broken()),
    }
}

/// An interpolated value is in the register: renders it and goes on with the literal.
pub fn str_interp(
    resolved: &ResolvedModule,
    modules: &Vec<LoadedModule>,
    heap: &mut Heap,
    machine: &mut Machine,
    node: NodeId,
    acc: String,
    index: usize,
) -> (r: Result<(), Raise>)
    ensures
        stepped(r, final(heap)@, final(machine)@) == value_interpolated(
            *resolved,
            modules@,
            old(heap)@,
            old(machine)@,
            node,
            acc@,
            index as int,
        ),
{
    let parts: &Vec<StrPart> = match resolved.ast.node(node) {
        Some(Node::StrLit(parts)) => parts,
        _ => {
            machine.fail();
            return Ok(());
        },
    };
    if index >= parts.len() {
        machine.fail();
        return Ok(());
    }
    let expr = match &parts[index] {
        StrPart::Interp(expr) => *expr,
        _ => {
            machine.fail();
            return Ok(());
        },
    };
    let span = resolved.ast.span(expr);
    let value = match take_value(machine, span) {
        Ok(v) => v,
        Err(e) => {
            return Err(e);
        },
    };
    match resolve(&machine.protocols, WellKnown::Stringable, heap, value) {
        Some(cal) => {
            machine.push_cont(Work::StrInterpRendered { node, acc, index });
            enter_unary(modules, heap, machine, cal, value, node, span)
        },
        None => {
            let rendered = render(heap, value);
            let joined = join2(acc.as_str(), rendered.as_str());
            let acc = nfc(joined.as_str());
            str_interp_advance(resolved, heap, machine, node, parts, acc, index + 1);
            Ok(())
        },
    }
}

/// The raise for a rendering that is no string.
pub open spec fn unrendered_raise(h: HeapView, v: Value, span: Span) -> RaiseView {
    RaiseView::new(
        ExceptionKind::TypeMismatch,
        "a `to_string` implementation must return a String"@,
        span,
    ).with(type_mismatch_detail("to_string"@, "String"@, type_text(h, v)))
}

/// What the rendering of an interpolated value leads to.
pub open spec fn rendering_known(
    resolved: ResolvedModule,
    h: HeapView,
    m: MachineView,
    node: NodeId,
    acc: Seq<char>,
    index: int,
) -> Step {
    let span = resolved.ast.range(node);
    match m.reg {
        None => Step::raised(h, m, void_raise(span)),
        Some(Value::Str(s)) => match resolved.node_at(node) {
            Some(Node::StrLit(parts)) => if index < parts@.len() {
                let (h2, m2) = interpolated(
                    resolved,
                    h,
                    m.voided(),
                    node,
                    parts@,
                    nfc_text(acc + h.text(s)),
                    (index + 1) as nat,
                );
                Step::done(h2, m2)
            } else {
                Step::done(h, m.voided().broken())
            },
            _ => Step::done(h, m.voided().broken()),
        },
        Some(v) => Step::raised(h, m.voided(), unrendered_raise(h, v, span)),
    }
}

/// The rendering of an interpolated value is in the register: joins it on and goes on with
/// the literal.
pub fn str_interp_rendered(
    resolved: &ResolvedModule,
    heap: &mut Heap,
    machine: &mut Machine,
    node: NodeId,
    acc: String,
    index: usize,
) -> (r: Result<(), Raise>)
    ensures
        stepped(r, final(heap)@, final(machine)@) == rendering_known(
            *resolved,
            old(heap)@,
            old(machine)@,
            node,
            acc@,
            index as int,
        ),
{
    let span = resolved.ast.span(node);
    let value = match take_value(machine, span) {
        Ok(v) => v,
        Err(e) => {
            return Err(e);
        },
    };
    match value {
        Value::Str(s) => {
            match resolved.ast.node(node) {
                Some(Node::StrLit(parts)) => {
                    if index < parts.len() {
                        let joined = join2(acc.as_str(), heap.string(s));
                        let acc = nfc(joined.as_str());
                        str_interp_advance(
                            resolved,
                            heap,
                            machine,
                            node,
                            parts,
                            acc,
                            index + 1,
                        );
                    } else {
                        machine.fail();
                    }
                },
                _ => machine.fail(),
            }
            Ok(())
        },
        _ => Err(
            Raise::new(
                ExceptionKind::TypeMismatch,
                "a `to_string` implementation must return a String".to_owned(),
                span,
            ).with_details(type_mismatch_details("to_string", "String", value, heap)),
        ),
    }
}

/// Whether a string literal interpolates.
pub open spec fn interpolates(parts: Seq<StrPart>) -> bool {
    exists|i: int| 0 <= i < parts.len() && (#[trigger] parts[i]) is Interp
}

/// The literal runs of the first `n` parts, joined.
pub open spec fn runs_text(parts: Seq<StrPart>, n: nat) -> Seq<char>
    decreases n,
{
    if n == 0 || n > parts.len() {
        Seq::empty()
    } else {
        match parts[n - 1] {
            StrPart::Text(run) => runs_text(parts, (n - 1) as nat) + run@,
            _ => runs_text(parts, (n - 1) as nat),
        }
    }
}

fn has_interp(parts: &Vec<StrPart>) -> (r: bool)
    ensures
        r == interpolates(parts@),
{
    let mut i: usize = 0;
    while i < parts.len()
        invariant
            i <= parts@.len(),
            forall|k: int| 0 <= k < i ==> !((#[trigger] parts@[k]) is Interp),
        decreases parts@.len() - i,
    {
        if let StrPart::Interp(_) = &parts[i] {
            assert(parts@[i as int] is Interp);
            return true;
        }
        i = i + 1;
    }
    false
}

fn join_runs(parts: &Vec<StrPart>) -> (r: String)
    ensures
        r@ == runs_text(parts@, parts@.len()),
{
    proof {
        reveal_strlit("");
        assert(""@ =~= Seq::<char>::empty());
    }
    let mut text = "".to_owned();
    let mut i: usize = 0;
    while i < parts.len()
        invariant
            i <= parts@.len(),
            text@ == runs_text(parts@, i as nat),
        decreases parts@.len() - i,
    {
        if let StrPart::Text(run) = &parts[i] {
            text = join2(text.as_str(), run.as_str());
        }
        i = i + 1;
    }
    text
}

fn copy_bytes(bytes: &Vec<u8>) -> (r: Vec<u8>)
    ensures
        r@ == bytes@,
{
    let mut r: Vec<u8> = Vec::new();
    let mut i: usize = 0;
    while i < bytes.len()
        invariant
            i <= bytes@.len(),
            r@ =~= bytes@.take(i as int),
        decreases bytes@.len() - i,
    {
        r.push(bytes[i]);
        i = i + 1;
    }
    assert(r@ =~= bytes@);
    r
}

/// The work an operator leaves after its left operand.
pub open spec fn operator_work(op: BinaryOp, rhs: NodeId, span: Span) -> crate::cont::ContView {
    match op {
        BinaryOp::And => Work::AndRhs { rhs, span },
        BinaryOp::Or => Work::OrRhs { rhs, span },
        _ => Work::BinRhs { op, rhs, span },
    }
}

/// What evaluating an expression leads to.
pub open spec fn evaluated(
    resolved: ResolvedModule,
    modules: Seq<LoadedModule>,
    h: HeapView,
    m: MachineView,
    node: NodeId,
) -> Step {
    let span = resolved.ast.range(node);
    match resolved.node_at(node) {
        Some(Node::IntLit(n)) => Step::done(h, m.valued(Value::Int(n))),
        Some(Node::FloatLit(x)) => Step::done(h, m.valued(Value::Float(x))),
        Some(Node::BoolLit(b)) => Step::done(h, m.valued(Value::Bool(b))),
        Some(Node::NilLit) => Step::done(h, m.valued(Value::Nil)),
        Some(Node::BytesLit(bytes)) => Step::done(
            h.new_bytes(bytes@),
            m.valued(Value::Bytes(BytesIdx(h.bytes.len() as usize))),
        ),
        Some(Node::StrLit(parts)) => if interpolates(parts@) {
            let (h2, m2) = interpolated(resolved, h, m, node, parts@, Seq::empty(), 0);
            Step::done(h2, m2)
        } else {
            Step::done(
                text_heap(h, runs_text(parts@, parts@.len())),
                m.valued(text_value(h)),
            )
        },
        Some(Node::BigIntLit { radix, digits }) => match int_literal(digits@, radix as int) {
            Some(n) => if 2 <= radix <= 36 {
                Step::done(int_value_heap(h, n), m.valued(int_value_of(h, n)))
            } else {
                Step::done(h, m.broken())
            },
            None => Step::done(h, m.broken()),
        },
        Some(Node::List(elements)) => if elements@.len() == 0 {
            Step::done(
                h.new_list(Seq::empty()),
                m.valued(Value::List(ListIdx(h.lists.len() as usize))),
            )
        } else {
            Step::done(
                h,
                m.doing(
                    Work::ListGotElem { list: node, values: Seq::empty(), index: 0 },
                ).doing(Work::Eval { node: elements@[0] }),
            )
        },
        Some(Node::Ident(_)) => match reference_reading(resolved, modules, h, m, node) {
            Ok(v) => Step::done(h, m.valued(v)),
            Err(e) => Step::raised(h, m, e),
        },
        Some(Node::If { .. }) => Step::done(h, choosing(resolved, m, node)),
        Some(Node::Try { .. }) => Step::done(h, trying(resolved, m, node)),
        Some(Node::Binary { op, lhs, rhs }) => Step::done(
            h,
            m.doing(operator_work(op, rhs, span)).doing(Work::Eval { node: lhs }),
        ),
        Some(Node::Unary { op, operand }) => Step::done(
            h,
            m.doing(Work::UnaryApply { op, span }).doing(Work::Eval { node: operand }),
        ),
        Some(Node::Dict(_)) => literal_advanced(resolved, modules, h, m, node, Seq::empty(), 0),
        Some(Node::Field { object, .. }) => Step::done(
            h,
            m.doing(Work::FieldRead { field: node }).doing(Work::Eval { node: object }),
        ),
        Some(Node::Index { object, index }) => Step::done(
            h,
            m.doing(Work::IndexGotObject { index, span }).doing(Work::Eval { node: object }),
        ),
        Some(Node::Call { .. }) => call_scheduled(resolved, modules, h, m, node),
        Some(Node::Callable { .. }) => {
            let (h2, m2, v) = callable_made(resolved, h, m, node);
            Step::done(h2, m2.valued(v))
        },
        _ => Step::done(h, m.broken()),
    }
}

/// Evaluates one expression: a leaf puts its value in the register, anything else adds the
/// work that will.
#[verifier::rlimit(60)]
pub fn eval(
    resolved: &ResolvedModule,
    modules: &Vec<LoadedModule>,
    heap: &mut Heap,
    machine: &mut Machine,
    node: NodeId,
) -> (r: Result<(), Raise>)
    ensures
        stepped(r, final(heap)@, final(machine)@) == evaluated(
            *resolved,
            modules@,
            old(heap)@,
            old(machine)@,
            node,
        ),
{
    let span = resolved.ast.span(node);
    let value: Value = match resolved.ast.node(node) {
        Some(Node::IntLit(n)) => Value::Int(*n),
        Some(Node::FloatLit(x)) => Value::Float(*x),
        Some(Node::BoolLit(b)) => Value::Bool(*b),
        Some(Node::NilLit) => Value::Nil,
        Some(Node::BytesLit(bytes)) => Value::Bytes(heap.alloc_bytes(copy_bytes(bytes))),
        Some(Node::StrLit(parts)) => {
            if has_interp(parts) {
                proof {
                    reveal_strlit("");
                    assert(""@ =~= Seq::<char>::empty());
                }
                str_interp_advance(resolved, heap, machine, node, parts, "".to_owned(), 0);
                return Ok(());
            }
            let text = join_runs(parts);
            Value::Str(alloc_str(heap, text.as_str()))
        },
        Some(Node::BigIntLit { radix, digits }) => {
            if *radix < 2 || *radix > 36 {
                machine.fail();
                return Ok(());
            }
            match BigNum::from_text(digits.as_str(), *radix as u32) {
                Some(n) => int_value(n, heap),
                None => {
                    machine.fail();
                    return Ok(());
                },
            }
        },
        Some(Node::List(elements)) => {
            let values: Vec<Value> = Vec::new();
            assert(values@ =~= Seq::empty());
            if elements.len() == 0 {
                Value::List(heap.alloc_list(values))
            } else {
                machine.push_cont(Work::ListGotElem { list: node, values, index: 0 });
                machine.push_cont(Work::Eval { node: elements[0] });
                return Ok(());
            }
        },
        Some(Node::Ident(_)) => match read_ref(resolved, modules, heap, machine, node) {
            Ok(v) => v,
            Err(e) => {
                return Err(e);
            },
        },
        Some(Node::If { .. }) => {
            schedule_if(machine, resolved, node);
            return Ok(());
        },
        Some(Node::Try { .. }) => {
            schedule_try(machine, resolved, node);
            return Ok(());
        },
        Some(Node::Binary { op, lhs, rhs }) => {
            match *op {
                BinaryOp::And => machine.push_cont(Work::AndRhs { rhs: *rhs, span }),
                BinaryOp::Or => machine.push_cont(Work::OrRhs { rhs: *rhs, span }),
                _ => machine.push_cont(Work::BinRhs { op: *op, rhs: *rhs, span }),
            }
            machine.push_cont(Work::Eval { node: *lhs });
            return Ok(());
        },
        Some(Node::Unary { op, operand }) => {
            machine.push_cont(Work::UnaryApply { op: *op, span });
            machine.push_cont(Work::Eval { node: *operand });
            return Ok(());
        },
        Some(Node::Dict(_)) => {
            let entries: Vec<(Value, Value)> = Vec::new();
            assert(entries@ =~= Seq::empty());
            return dict_advance(resolved, modules, heap, machine, node, entries, 0);
        },
        Some(Node::Field { object, .. }) => {
            machine.push_cont(Work::FieldRead { field: node });
            machine.push_cont(Work::Eval { node: *object });
            return Ok(());
        },
        Some(Node::Index { object, index }) => {
            machine.push_cont(Work::IndexGotObject { index: *index, span });
            machine.push_cont(Work::Eval { node: *object });
            return Ok(());
        },
        Some(Node::Call { .. }) => {
            return eval_call(resolved, modules, heap, machine, node);
        },
        Some(Node::Callable { .. }) => make_callable(resolved, heap, machine, node),
        _ => {
            machine.fail();
            return Ok(());
        },
    };
    machine.reg = Some(value);
    Ok(())
}

/// What the left operand leads to: the right one.
pub open spec fn left_known(m: MachineView, op: BinaryOp, rhs: NodeId, span: Span) -> (
    MachineView,
    Option<RaiseView>,
) {
    match m.reg {
        None => (m, Some(void_raise(span))),
        Some(lhs) => (
            m.voided().doing(Work::BinApply { op, lhs, span }).doing(Work::Eval { node: rhs }),
            None,
        ),
    }
}

/// The left operand is in the register: keeps it and evaluates the right one.
pub fn bin_rhs(machine: &mut Machine, op: BinaryOp, rhs: NodeId, span: Span) -> (r: Result<
    (),
    Raise,
>)
    ensures
        (final(machine)@, raise_of(r)) == left_known(old(machine)@, op, rhs, span),
{
    let lhs = match take_value(machine, span) {
        Ok(v) => v,
        Err(e) => {
            return Err(e);
        },
    };
    machine.push_cont(Work::BinApply { op, lhs, span });
    machine.push_cont(Work::Eval { node: rhs });
    Ok(())
}

/// Whether a value is of a type.
pub open spec fn is_of_type(h: HeapView, v: Value, t: TypeView, idx: crate::value::TypeIdx) -> bool {
    match t {
        TypeView::Builtin(b) => match b {
            BuiltinType::Nil => v is Nil,
            BuiltinType::Bool => v is Bool,
            BuiltinType::Int => v is Int || v is BigInt,
            BuiltinType::Float => v is Float,
            BuiltinType::Number => v is Int || v is BigInt || v is Float,
            BuiltinType::String => v is Str,
            BuiltinType::Bytes => v is Bytes,
            BuiltinType::List => v is List,
            BuiltinType::Dict => v is Dict,
            BuiltinType::Callable => v is Callable,
            BuiltinType::Module => v is Module,
            BuiltinType::Type => v is Type,
            BuiltinType::Foreign => v is Foreign,
        },
        TypeView::Record(_) => match v {
            Value::Record(r) => h.record(r) is Some && h.record(r)->0.type_idx == idx,
            _ => false,
        },
        TypeView::Protocol(_) => false,
    }
}

/// What `is` gives.
pub open spec fn type_test(h: HeapView, lhs: Value, rhs: Value, span: Span) -> Result<
    Value,
    RaiseView,
> {
    match rhs {
        Value::Type(idx) => match h.type_kind(idx) {
            Some(t) => Ok(Value::Bool(is_of_type(h, lhs, t, idx))),
            None => Ok(Value::Bool(false)),
        },
        _ => Err(
            RaiseView::new(ExceptionKind::TypeMismatch, "`is` needs a type"@, span).with(
                type_mismatch_detail("is"@, "Type"@, type_text(h, rhs)),
            ),
        ),
    }
}

/// Whether a value is of a type.
pub fn test_type(heap: &Heap, lhs: Value, rhs: Value, span: Span) -> (r: Result<Value, Raise>)
    ensures
        crate::error::result_view(r) == type_test(heap@, lhs, rhs, span),
{
    match rhs {
        Value::Type(idx) => match heap.type_value(idx) {
            Some(TypeKind::Builtin(b)) => Ok(
                Value::Bool(
                    match (*b, lhs) {
                        (BuiltinType::Nil, Value::Nil) => true,
                        (BuiltinType::Bool, Value::Bool(_)) => true,
                        (BuiltinType::Int, Value::Int(_)) => true,
                        (BuiltinType::Int, Value::BigInt(_)) => true,
                        (BuiltinType::Float, Value::Float(_)) => true,
                        (BuiltinType::Number, Value::Int(_)) => true,
                        (BuiltinType::Number, Value::BigInt(_)) => true,
                        (BuiltinType::Number, Value::Float(_)) => true,
                        (BuiltinType::String, Value::Str(_)) => true,
                        (BuiltinType::Bytes, Value::Bytes(_)) => true,
                        (BuiltinType::List, Value::List(_)) => true,
                        (BuiltinType::Dict, Value::Dict(_)) => true,
                        (BuiltinType::Callable, Value::Callable(_)) => true,
                        (BuiltinType::Module, Value::Module(_)) => true,
                        (BuiltinType::Type, Value::Type(_)) => true,
                        (BuiltinType::Foreign, Value::Foreign(_)) => true,
                        _ => false,
                    },
                ),
            ),
            Some(TypeKind::Record(_)) => match lhs {
                Value::Record(rec) => match heap.record(rec) {
                    Some(obj) => Ok(Value::Bool(obj.type_idx == idx)),
                    None => Ok(Value::Bool(false)),
                },
                _ => Ok(Value::Bool(false)),
            },
            Some(TypeKind::Protocol(_)) => Ok(Value::Bool(false)),
            None => Ok(Value::Bool(false)),
        },
        _ => Err(
            Raise::new(ExceptionKind::TypeMismatch, "`is` needs a type".to_owned(), span)
                .with_details(type_mismatch_details("is", "Type", rhs, heap)),
        ),
    }
}

} // verus!
