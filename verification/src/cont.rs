//! Continuations: the pending work of a frame, as data. A step takes the top one and does
//! one transition.
use crate::ast::BinaryOp;
use crate::ast::NodeId;
use crate::ast::UnaryOp;
use crate::span::Span;
use crate::value::DictIdx;
use crate::value::Value;
use vstd::prelude::*;

verus! {

/// One piece of pending work, over a type of value lists, of entry lists and of texts.
#[allow(inconsistent_fields)]
pub enum Work<L, E, S> {
    /// Run a body's statements from one on; each boundary is a safe point.
    Statements {
        /// The body.
        block: NodeId,
        /// The next statement.
        next: usize,
    },
    /// Evaluate an expression into the register.
    Eval {
        /// The expression.
        node: NodeId,
    },
    /// The left operand is in the register: keep it and evaluate the right one.
    BinRhs {
        /// The operator.
        op: BinaryOp,
        /// The right operand.
        rhs: NodeId,
        /// Where to raise.
        span: Span,
    },
    /// The right operand is in the register: apply the operator.
    BinApply {
        /// The operator.
        op: BinaryOp,
        /// The left operand.
        lhs: Value,
        /// Where to raise.
        span: Span,
    },
    /// The operand is in the register: apply the operator.
    UnaryApply {
        /// The operator.
        op: UnaryOp,
        /// Where to raise.
        span: Span,
    },
    /// The left operand of `and` is in the register.
    AndRhs {
        /// The right operand.
        rhs: NodeId,
        /// Where to raise.
        span: Span,
    },
    /// The left operand of `or` is in the register.
    OrRhs {
        /// The right operand.
        rhs: NodeId,
        /// Where to raise.
        span: Span,
    },
    /// The right operand of `and` or `or` is in the register and has to be a boolean.
    AssertBool {
        /// Where to raise.
        span: Span,
    },
    /// An initializer is in the register: bind it.
    BindLet {
        /// The declaration.
        decl: NodeId,
    },
    /// The value for a name is in the register: assign it.
    AssignTo {
        /// The assignment.
        assign: NodeId,
    },
    /// The object of an assigned place is in the register.
    AssignPlaceObj {
        /// The assignment.
        assign: NodeId,
    },
    /// The value for a field is in the register: set the field.
    AssignFieldVal {
        /// The assignment.
        assign: NodeId,
        /// The record.
        object: Value,
    },
    /// The key of an assigned element is in the register.
    AssignIndexKey {
        /// The assignment.
        assign: NodeId,
        /// The container.
        object: Value,
    },
    /// The value for an element is in the register: store it.
    AssignIndexVal {
        /// The assignment.
        assign: NodeId,
        /// The container.
        object: Value,
        /// The key.
        key: Value,
    },
    /// The condition of an `if` arm is in the register.
    IfChoose {
        /// The `if`.
        node: NodeId,
        /// The arm.
        index: usize,
    },
    /// The condition of a `while` is in the register.
    WhileCheck {
        /// The `while`.
        node: NodeId,
    },
    /// Run the body of a `loop` again.
    LoopReloop {
        /// The `loop`.
        node: NodeId,
    },
    /// The callee is in the register.
    CallGotCallee {
        /// The call.
        call: NodeId,
    },
    /// An argument is in the register.
    CallGotArg {
        /// The call.
        call: NodeId,
        /// The callee.
        callee: Value,
        /// The arguments before it.
        values: L,
        /// Which argument it is.
        index: usize,
    },
    /// An argument of a block invocation is in the register.
    BlockGotArg {
        /// The invocation.
        call: NodeId,
        /// The arguments before it.
        values: L,
        /// Which argument it is.
        index: usize,
    },
    /// An element of a list literal is in the register.
    ListGotElem {
        /// The literal.
        list: NodeId,
        /// The elements before it.
        values: L,
        /// Which element it is.
        index: usize,
    },
    /// A key of a dict literal is in the register.
    DictGotKey {
        /// The literal.
        dict: NodeId,
        /// The entries before it.
        entries: E,
        /// Which entry it is.
        index: usize,
    },
    /// A value of a dict literal is in the register.
    DictGotValue {
        /// The literal.
        dict: NodeId,
        /// The entries before it.
        entries: E,
        /// Which entry it is.
        index: usize,
        /// Its key.
        key: Value,
    },
    /// The hash of a dict literal's key is in the register.
    DictBuildHashed {
        /// The literal.
        node: NodeId,
        /// The dict being filled.
        dict: DictIdx,
        /// All the entries.
        entries: E,
        /// Which entry it is.
        index: usize,
    },
    /// The object of a field read is in the register.
    FieldRead {
        /// The field expression.
        field: NodeId,
    },
    /// The object of an element read is in the register.
    IndexGotObject {
        /// The key expression.
        index: NodeId,
        /// Where to raise.
        span: Span,
    },
    /// The key of an element read is in the register.
    IndexApply {
        /// The object.
        object: Value,
        /// Where to raise.
        span: Span,
        /// The key expression.
        key_node: NodeId,
    },
    /// The hash of the key of an element read is in the register.
    IndexReadHashed {
        /// The dict.
        dict: DictIdx,
        /// The key.
        key: Value,
        /// Where to raise.
        span: Span,
    },
    /// The hash of the key of an assigned element is in the register.
    IndexAssignHashed {
        /// The dict.
        dict: DictIdx,
        /// The key.
        key: Value,
        /// The value.
        value: Value,
        /// Where to raise.
        span: Span,
    },
    /// An interpolated value is in the register.
    StrInterp {
        /// The literal.
        node: NodeId,
        /// The text so far.
        acc: S,
        /// Which part it is.
        index: usize,
    },
    /// The text of an interpolated value is in the register.
    StrInterpRendered {
        /// The literal.
        node: NodeId,
        /// The text so far.
        acc: S,
        /// Which part it is.
        index: usize,
    },
    /// A parameter's default is in the register: bind it.
    BindDefault {
        /// The parameter's slot.
        slot: u16,
        /// The default.
        default: NodeId,
    },
    /// Make and bind a declared callable.
    DefineCallable {
        /// The declaration.
        decl: NodeId,
    },
    /// Make and bind a declared record type.
    DefineRecord {
        /// The declaration.
        decl: NodeId,
    },
    /// The end of a body: the frame returns.
    ReturnBarrier,
    /// The operand of an exit, if it has one, is in the register.
    ExitApply {
        /// The `return`, `break` or `continue`.
        exit: NodeId,
    },
    /// The value of a `with` is in the register: bind it.
    WithBind {
        /// The `with`.
        with_node: NodeId,
    },
    /// The end of a `with`: restore its binding.
    WithRestore {
        /// How many saved bindings to keep.
        dyn_mark: usize,
    },
    /// The end of a protected body, where a raise is caught.
    TryHandler {
        /// The `try`.
        try_node: NodeId,
    },
    /// The end of a rescue body.
    PopHandler,
    /// The operand of a `raise`, if it has one, is in the register.
    RaiseApply {
        /// The `raise`.
        node: NodeId,
    },
    /// Import the targets of an `import` from one on.
    ImportTargets {
        /// The `import`.
        import: NodeId,
        /// The next target.
        next: usize,
    },
}

/// A continuation.
pub type Cont = Work<Vec<Value>, Vec<(Value, Value)>, String>;

/// The contents of a continuation.
pub type ContView = Work<Seq<Value>, Seq<(Value, Value)>, Seq<char>>;

impl View for Work<Vec<Value>, Vec<(Value, Value)>, String> {
    type V = ContView;

    open spec fn view(&self) -> ContView {
        match *self {
            Work::Statements { block, next } => Work::Statements { block, next },
            Work::Eval { node } => Work::Eval { node },
            Work::BinRhs { op, rhs, span } => Work::BinRhs { op, rhs, span },
            Work::BinApply { op, lhs, span } => Work::BinApply { op, lhs, span },
            Work::UnaryApply { op, span } => Work::UnaryApply { op, span },
            Work::AndRhs { rhs, span } => Work::AndRhs { rhs, span },
            Work::OrRhs { rhs, span } => Work::OrRhs { rhs, span },
            Work::AssertBool { span } => Work::AssertBool { span },
            Work::BindLet { decl } => Work::BindLet { decl },
            Work::AssignTo { assign } => Work::AssignTo { assign },
            Work::AssignPlaceObj { assign } => Work::AssignPlaceObj { assign },
            Work::AssignFieldVal { assign, object } => Work::AssignFieldVal { assign, object },
            Work::AssignIndexKey { assign, object } => Work::AssignIndexKey { assign, object },
            Work::AssignIndexVal { assign, object, key } => Work::AssignIndexVal { assign, object, key },
            Work::IfChoose { node, index } => Work::IfChoose { node, index },
            Work::WhileCheck { node } => Work::WhileCheck { node },
            Work::LoopReloop { node } => Work::LoopReloop { node },
            Work::CallGotCallee { call } => Work::CallGotCallee { call },
            Work::CallGotArg { call, callee, values, index } => Work::CallGotArg { call, callee, values: values@, index },
            Work::BlockGotArg { call, values, index } => Work::BlockGotArg { call, values: values@, index },
            Work::ListGotElem { list, values, index } => Work::ListGotElem { list, values: values@, index },
            Work::DictGotKey { dict, entries, index } => Work::DictGotKey { dict, entries: entries@, index },
            Work::DictGotValue { dict, entries, index, key } => Work::DictGotValue { dict, entries: entries@, index, key },
            Work::DictBuildHashed { node, dict, entries, index } => Work::DictBuildHashed { node, dict, entries: entries@, index },
            Work::FieldRead { field } => Work::FieldRead { field },
            Work::IndexGotObject { index, span } => Work::IndexGotObject { index, span },
            Work::IndexApply { object, span, key_node } => Work::IndexApply { object, span, key_node },
            Work::IndexReadHashed { dict, key, span } => Work::IndexReadHashed { dict, key, span },
            Work::IndexAssignHashed { dict, key, value, span } => Work::IndexAssignHashed { dict, key, value, span },
            Work::StrInterp { node, acc, index } => Work::StrInterp { node, acc: acc@, index },
            Work::StrInterpRendered { node, acc, index } => Work::StrInterpRendered { node, acc: acc@, index },
            Work::BindDefault { slot, default } => Work::BindDefault { slot, default },
            Work::DefineCallable { decl } => Work::DefineCallable { decl },
            Work::DefineRecord { decl } => Work::DefineRecord { decl },
            Work::ReturnBarrier => Work::ReturnBarrier,
            Work::ExitApply { exit } => Work::ExitApply { exit },
            Work::WithBind { with_node } => Work::WithBind { with_node },
            Work::WithRestore { dyn_mark } => Work::WithRestore { dyn_mark },
            Work::TryHandler { try_node } => Work::TryHandler { try_node },
            Work::PopHandler => Work::PopHandler,
            Work::RaiseApply { node } => Work::RaiseApply { node },
            Work::ImportTargets { import, next } => Work::ImportTargets { import, next },
        }
    }
}

/// The keys and values of some entries, in order.
pub open spec fn flattened(entries: Seq<(Value, Value)>) -> Seq<Value>
    decreases entries.len(),
{
    if entries.len() == 0 {
        Seq::empty()
    } else {
        flattened(entries.drop_last()).push(entries.last().0).push(entries.last().1)
    }
}

/// Every value a continuation holds.
pub open spec fn held_values(c: ContView) -> Seq<Value> {
    match c {
        Work::BinApply { lhs, .. } => seq![lhs],
        Work::CallGotArg { callee, values, .. } => seq![callee] + values,
        Work::BlockGotArg { values, .. } => values,
        Work::ListGotElem { values, .. } => values,
        Work::DictGotKey { entries, .. } => flattened(entries),
        Work::DictGotValue { entries, key, .. } => flattened(entries).push(key),
        Work::DictBuildHashed { dict, entries, .. } => flattened(entries).push(Value::Dict(dict)),
        Work::IndexApply { object, .. } => seq![object],
        Work::IndexReadHashed { dict, key, .. } => seq![Value::Dict(dict), key],
        Work::IndexAssignHashed { dict, key, value, .. } => seq![Value::Dict(dict), key, value],
        Work::AssignFieldVal { object, .. } => seq![object],
        Work::AssignIndexKey { object, .. } => seq![object],
        Work::AssignIndexVal { object, key, .. } => seq![object, key],
        _ => Seq::empty(),
    }
}

fn flatten(entries: &Vec<(Value, Value)>) -> (r: Vec<Value>)
    ensures
        r@ == flattened(entries@),
{
    let mut r: Vec<Value> = Vec::new();
    let mut i: usize = 0;
    assert(entries@.take(0) =~= Seq::empty());
    while i < entries.len()
        invariant
            i <= entries@.len(),
            r@ == flattened(entries@.take(i as int)),
        decreases entries@.len() - i,
    {
        assert(entries@.take(i + 1).drop_last() =~= entries@.take(i as int));
        let (k, v) = entries[i];
        r.push(k);
        r.push(v);
        i = i + 1;
    }
    assert(entries@.take(i as int) =~= entries@);
    r
}

fn copied_list(values: &Vec<Value>) -> (r: Vec<Value>)
    ensures
        r@ == values@,
{
    let mut r: Vec<Value> = Vec::new();
    let mut i: usize = 0;
    while i < values.len()
        invariant
            i <= values@.len(),
            r@ =~= values@.take(i as int),
        decreases values@.len() - i,
    {
        r.push(values[i]);
        i = i + 1;
    }
    assert(r@ =~= values@);
    r
}

/// Every value a continuation holds, so that a collection can keep them.
pub fn each_value(c: &Cont) -> (r: Vec<Value>)
    ensures
        r@ == held_values(c@),
{
    let mut r: Vec<Value> = Vec::new();
    match c {
        Work::BinApply { lhs, .. } => {
            r.push(*lhs);
        },
        Work::CallGotArg { callee, values, .. } => {
            r.push(*callee);
            let mut rest = copied_list(values);
            r.append(&mut rest);
        },
        Work::BlockGotArg { values, .. } => {
            r = copied_list(values);
        },
        Work::ListGotElem { values, .. } => {
            r = copied_list(values);
        },
        Work::DictGotKey { entries, .. } => {
            r = flatten(entries);
        },
        Work::DictGotValue { entries, key, .. } => {
            r = flatten(entries);
            r.push(*key);
        },
        Work::DictBuildHashed { dict, entries, .. } => {
            r = flatten(entries);
            r.push(Value::Dict(*dict));
        },
        Work::IndexApply { object, .. } => {
            r.push(*object);
        },
        Work::IndexReadHashed { dict, key, .. } => {
            r.push(Value::Dict(*dict));
            r.push(*key);
        },
        Work::IndexAssignHashed { dict, key, value, .. } => {
            r.push(Value::Dict(*dict));
            r.push(*key);
            r.push(*value);
        },
        Work::AssignFieldVal { object, .. } => {
            r.push(*object);
        },
        Work::AssignIndexKey { object, .. } => {
            r.push(*object);
        },
        Work::AssignIndexVal { object, key, .. } => {
            r.push(*object);
            r.push(*key);
        },
        Work::Statements { .. }
        | Work::Eval { .. }
        | Work::BinRhs { .. }
        | Work::UnaryApply { .. }
        | Work::AndRhs { .. }
        | Work::OrRhs { .. }
        | Work::AssertBool { .. }
        | Work::BindLet { .. }
        | Work::AssignTo { .. }
        | Work::AssignPlaceObj { .. }
        | Work::IfChoose { .. }
        | Work::WhileCheck { .. }
        | Work::LoopReloop { .. }
        | Work::CallGotCallee { .. }
        | Work::FieldRead { .. }
        | Work::IndexGotObject { .. }
        | Work::StrInterp { .. }
        | Work::StrInterpRendered { .. }
        | Work::BindDefault { .. }
        | Work::DefineCallable { .. }
        | Work::DefineRecord { .. }
        | Work::ReturnBarrier
        | Work::ExitApply { .. }
        | Work::WithBind { .. }
        | Work::WithRestore { .. }
        | Work::TryHandler { .. }
        | Work::PopHandler
        | Work::RaiseApply { .. }
        | Work::ImportTargets { .. } => {},
    }
    assert(r@ =~= held_values(c@));
    r
}

} // verus!
