//! One step of the machine: the next work of the innermost frame, done.
use crate::arith;
use crate::arith::arithmetic;
use crate::arith::binary_outcome;
use crate::arith::unary_outcome;
use crate::assign::assign_index_key;
use crate::assign::assign_place_obj;
use crate::assign::assign_to;
use crate::assign::assigned;
use crate::assign::keyed;
use crate::assign::placed;
use crate::ast::BinaryOp;
use crate::ast::Node;
use crate::ast::NodeId;
use crate::ast::UnaryOp;
use crate::block::block_argument_known;
use crate::block::got_block_arg;
use crate::call::argument_known;
use crate::call::bind_default;
use crate::call::callable_declared;
use crate::call::callee_known;
use crate::call::default_bound;
use crate::call::define_callable;
use crate::call::got_arg;
use crate::call::got_callee;
use crate::call::return_from_callable;
use crate::call::returned;
use crate::compare;
use crate::compare::as_bool;
use crate::compare::comparing;
use crate::compare::comparison;
use crate::compare::not_bool_raise;
use crate::cont::Cont;
use crate::cont::ContView;
use crate::cont::Work;
use crate::control::bind_let;
use crate::control::choosing;
use crate::control::chosen;
use crate::control::declared;
use crate::control::if_choose;
use crate::control::loop_reloop;
use crate::control::rechecked;
use crate::control::relooped;
use crate::control::schedule_if;
use crate::control::while_check;
use crate::dynamic::restore;
use crate::dynamic::restored;
use crate::dynamic::with_bind;
use crate::dynamic::with_opened;
use crate::error::Raise;
use crate::error::RaiseView;
use crate::eval::bin_rhs;
use crate::eval::element_known;
use crate::eval::eval;
use crate::eval::evaluated;
use crate::eval::left_known;
use crate::eval::list_got_elem;
use crate::eval::logical_rhs;
use crate::eval::rendering_known;
use crate::eval::short_circuited;
use crate::eval::str_interp;
use crate::eval::str_interp_rendered;
use crate::eval::test_type;
use crate::eval::type_test;
use crate::eval::value_interpolated;
use crate::exception::error_made;
use crate::exception::make_error;
use crate::heap::Heap;
use crate::heap::HeapView;
use crate::index::assign_hash_known;
use crate::index::dict_build_hashed;
use crate::index::dict_got_key;
use crate::index::dict_got_value;
use crate::index::element_read;
use crate::index::element_set;
use crate::index::index_apply;
use crate::index::index_assign_hashed;
use crate::index::index_got_object;
use crate::index::index_object_known;
use crate::index::index_read_hashed;
use crate::index::index_set;
use crate::index::literal_hash_known;
use crate::index::literal_key_known;
use crate::index::literal_value_known;
use crate::index::read_hash_known;
use crate::machine::capture_trace;
use crate::machine::raise_of;
use crate::machine::stepped;
use crate::machine::take_value;
use crate::machine::trace_here;
use crate::machine::void_raise;
use crate::machine::Machine;
use crate::machine::MachineView;
use crate::machine::Step;
use crate::modload::LoadedModule;
use crate::named::named_view;
use crate::object::define_record;
use crate::object::field_read;
use crate::object::field_read_step;
use crate::object::field_set;
use crate::object::field_set_step;
use crate::object::record_declared;
use crate::protect::raise_apply;
use crate::protect::raised;
use crate::protect::schedule_try;
use crate::protect::trying;
use crate::resolve::ResolvedModule;
use crate::span::Span;
use crate::unwind::exit_apply;
use crate::unwind::exited;
use crate::value::Value;
use vstd::prelude::*;

verus! {

/// The statements of a body.
pub open spec fn statements_of(resolved: ResolvedModule, block: NodeId) -> Option<Seq<NodeId>> {
    match resolved.node_at(block) {
        Some(Node::Module { stmts, .. }) => Some(stmts@),
        Some(Node::Block(stmts)) => Some(stmts@),
        _ => None,
    }
}

/// A statement of a body.
pub open spec fn statement_at(resolved: ResolvedModule, block: NodeId, i: int) -> Option<NodeId> {
    match statements_of(resolved, block) {
        Some(stmts) => if i < stmts.len() {
            Some(stmts[i])
        } else {
            None
        },
        None => None,
    }
}

/// The machine with an optional operand to evaluate before some work.
pub open spec fn after_operand(m: MachineView, work: ContView, operand: Option<NodeId>) -> MachineView {
    match operand {
        Some(e) => m.doing(work).doing(Work::Eval { node: e }),
        None => m.doing(work),
    }
}

/// The machine with a statement to run.
pub open spec fn statement_scheduled(resolved: ResolvedModule, m: MachineView, stmt: NodeId) -> MachineView {
    match resolved.node_at(stmt) {
        Some(Node::Let { value, .. }) => m.doing(Work::BindLet { decl: stmt }).doing(
            Work::Eval { node: value },
        ),
        Some(Node::Const { value, .. }) => m.doing(Work::BindLet { decl: stmt }).doing(
            Work::Eval { node: value },
        ),
        Some(Node::Parameter { value, .. }) => m.doing(Work::BindLet { decl: stmt }).doing(
            Work::Eval { node: value },
        ),
        Some(Node::Assign { target, value }) => match resolved.node_at(target) {
            Some(Node::Field { object, .. }) => m.doing(
                Work::AssignPlaceObj { assign: stmt },
            ).doing(Work::Eval { node: object }),
            Some(Node::Index { object, .. }) => m.doing(
                Work::AssignPlaceObj { assign: stmt },
            ).doing(Work::Eval { node: object }),
            _ => m.doing(Work::AssignTo { assign: stmt }).doing(Work::Eval { node: value }),
        },
        Some(Node::If { .. }) => choosing(resolved, m, stmt),
        Some(Node::While { cond, .. }) => m.doing(Work::WhileCheck { node: stmt }).doing(
            Work::Eval { node: cond },
        ),
        Some(Node::Loop { .. }) => m.doing(Work::LoopReloop { node: stmt }),
        Some(Node::Try { .. }) => trying(resolved, m, stmt),
        Some(Node::Raise(e)) => after_operand(m, Work::RaiseApply { node: stmt }, e),
        Some(Node::Return(e)) => after_operand(m, Work::ExitApply { exit: stmt }, e),
        Some(Node::Break(e)) => after_operand(m, Work::ExitApply { exit: stmt }, e),
        Some(Node::Continue(e)) => after_operand(m, Work::ExitApply { exit: stmt }, e),
        Some(Node::With { value, .. }) => m.doing(Work::WithBind { with_node: stmt }).doing(
            Work::Eval { node: value },
        ),
        Some(Node::Callable { name: Some(_), .. }) => m.doing(
            Work::DefineCallable { decl: stmt },
        ),
        Some(Node::Record { .. }) => m.doing(Work::DefineRecord { decl: stmt }),
        Some(Node::Import(_)) => m.doing(Work::ImportTargets { import: stmt, next: 0 }),
        _ => m.doing(Work::Eval { node: stmt }),
    }
}

fn push_after_operand(machine: &mut Machine, work: Cont, operand: Option<NodeId>)
    ensures
        final(machine)@ == after_operand(old(machine)@, work@, operand),
{
    machine.push_cont(work);
    if let Some(e) = operand {
        machine.push_cont(Work::Eval { node: e });
    }
}

/// Schedules a statement.
pub fn schedule_stmt(resolved: &ResolvedModule, machine: &mut Machine, stmt: NodeId)
    ensures
        final(machine)@ == statement_scheduled(*resolved, old(machine)@, stmt),
{
    match resolved.ast.node(stmt) {
        Some(Node::Let { value, .. }) => {
            push_after_operand(machine, Work::BindLet { decl: stmt }, Some(*value));
        },
        Some(Node::Const { value, .. }) => {
            push_after_operand(machine, Work::BindLet { decl: stmt }, Some(*value));
        },
        Some(Node::Parameter { value, .. }) => {
            push_after_operand(machine, Work::BindLet { decl: stmt }, Some(*value));
        },
        Some(Node::Assign { target, value }) => {
            match resolved.ast.node(*target) {
                Some(Node::Field { object, .. }) => {
                    push_after_operand(
                        machine,
                        Work::AssignPlaceObj { assign: stmt },
                        Some(*object),
                    );
                },
                Some(Node::Index { object, .. }) => {
                    push_after_operand(
                        machine,
                        Work::AssignPlaceObj { assign: stmt },
                        Some(*object),
                    );
                },
                _ => {
                    push_after_operand(machine, Work::AssignTo { assign: stmt }, Some(*value));
                },
            }
        },
        Some(Node::If { .. }) => schedule_if(machine, resolved, stmt),
        Some(Node::While { cond, .. }) => {
            push_after_operand(machine, Work::WhileCheck { node: stmt }, Some(*cond));
        },
        Some(Node::Loop { .. }) => machine.push_cont(Work::LoopReloop { node: stmt }),
        Some(Node::Try { .. }) => schedule_try(machine, resolved, stmt),
        Some(Node::Raise(e)) => push_after_operand(machine, Work::RaiseApply { node: stmt }, *e),
        Some(Node::Return(e)) => push_after_operand(machine, Work::ExitApply { exit: stmt }, *e),
        Some(Node::Break(e)) => push_after_operand(machine, Work::ExitApply { exit: stmt }, *e),
        Some(Node::Continue(e)) => push_after_operand(
            machine,
            Work::ExitApply { exit: stmt },
            *e,
        ),
        Some(Node::With { value, .. }) => {
            push_after_operand(machine, Work::WithBind { with_node: stmt }, Some(*value));
        },
        Some(Node::Callable { name: Some(_), .. }) => machine.push_cont(
            Work::DefineCallable { decl: stmt },
        ),
        Some(Node::Record { .. }) => machine.push_cont(Work::DefineRecord { decl: stmt }),
        Some(Node::Import(_)) => machine.push_cont(
            Work::ImportTargets { import: stmt, next: 0 },
        ),
        _ => machine.push_cont(Work::Eval { node: stmt }),
    }
}

/// What running a body from a statement leads to: that statement with the rest after it, or
/// nothing at the end.
pub open spec fn statement_entered(resolved: ResolvedModule, m: MachineView, block: NodeId, next: int) -> MachineView {
    match statement_at(resolved, block, next) {
        Some(stmt) => statement_scheduled(
            resolved,
            m.voided().doing(Work::Statements { block, next: (next + 1) as usize }),
            stmt,
        ),
        None => if statements_of(resolved, block) is Some {
            m
        } else {
            m.broken()
        },
    }
}

/// A statement of a body.
pub fn find_statement(resolved: &ResolvedModule, block: NodeId, next: usize) -> (r: Option<NodeId>)
    ensures
        r == statement_at(*resolved, block, next as int),
        r is Some ==> next < usize::MAX,
{
    match resolved.ast.node(block) {
        Some(Node::Module { stmts, .. }) => if next < stmts.len() {
            Some(stmts[next])
        } else {
            None
        },
        Some(Node::Block(stmts)) => if next < stmts.len() {
            Some(stmts[next])
        } else {
            None
        },
        _ => None,
    }
}

fn enter_statement(resolved: &ResolvedModule, machine: &mut Machine, block: NodeId, next: usize)
    ensures
        final(machine)@ == statement_entered(*resolved, old(machine)@, block, next as int),
{
    match find_statement(resolved, block, next) {
        Some(stmt) => {
            machine.reg = None;
            machine.push_cont(Work::Statements { block, next: next + 1 });
            schedule_stmt(resolved, machine, stmt);
        },
        None => match resolved.ast.node(block) {
            Some(Node::Module { .. }) => {},
            Some(Node::Block(_)) => {},
            _ => machine.fail(),
        },
    }
}

/// What applying a binary operator to both operands leaves.
pub open spec fn operator_applied(h: HeapView, m: MachineView, op: BinaryOp, lhs: Value, span: Span) -> Step {
    match m.reg {
        None => Step::raised(h, m, void_raise(span)),
        Some(rhs) => if arithmetic(op) {
            let (r, h2, meter) = binary_outcome(op, lhs, rhs, h, m.meter, span);
            let m2 = MachineView { meter, ..m.voided() };
            match r {
                Ok(v) => Step::done(h2, m2.valued(v)),
                Err(e) => Step::raised(h2, m2, e),
            }
        } else if comparison(op) {
            match comparing(op, lhs, rhs, h, span) {
                Ok(v) => Step::done(h, m.valued(v)),
                Err(e) => Step::raised(h, m.voided(), e),
            }
        } else if op is Is {
            match type_test(h, lhs, rhs, span) {
                Ok(v) => Step::done(h, m.valued(v)),
                Err(e) => Step::raised(h, m.voided(), e),
            }
        } else {
            Step::done(h, m.voided().broken())
        },
    }
}

/// The right operand is in the register: applies the operator.
pub fn bin_apply(heap: &mut Heap, machine: &mut Machine, op: BinaryOp, lhs: Value, span: Span) -> (r:
    Result<(), Raise>)
    ensures
        stepped(r, final(heap)@, final(machine)@) == operator_applied(
            old(heap)@,
            old(machine)@,
            op,
            lhs,
            span,
        ),
{
    let rhs = match take_value(machine, span) {
        Ok(v) => v,
        Err(e) => {
            return Err(e);
        },
    };
    let result = match op {
        BinaryOp::Add | BinaryOp::Sub | BinaryOp::Mul | BinaryOp::Div | BinaryOp::FloorDiv
        | BinaryOp::Rem | BinaryOp::Pow => arith::binary(
            op,
            lhs,
            rhs,
            heap,
            &mut machine.meter,
            span,
        ),
        BinaryOp::Eq | BinaryOp::Ne | BinaryOp::Lt | BinaryOp::Gt | BinaryOp::Le
        | BinaryOp::Ge => compare::binary(op, lhs, rhs, heap, span),
        BinaryOp::Is => test_type(heap, lhs, rhs, span),
        BinaryOp::And | BinaryOp::Or => {
            machine.fail();
            return Ok(());
        },
    };
    match result {
        Ok(v) => {
            machine.reg = Some(v);
            Ok(())
        },
        Err(e) => Err(e),
    }
}

/// What applying a unary operator leaves.
pub open spec fn unary_applied(h: HeapView, m: MachineView, op: UnaryOp, span: Span) -> Step {
    match m.reg {
        None => Step::raised(h, m, void_raise(span)),
        Some(v) => if op is Not {
            match v {
                Value::Bool(b) => Step::done(h, m.valued(Value::Bool(!b))),
                _ => Step::raised(h, m.voided(), not_bool_raise(v, "not"@, span)),
            }
        } else {
            let (r, h2) = unary_outcome(op, v, h, span);
            match r {
                Ok(w) => Step::done(h2, m.valued(w)),
                Err(e) => Step::raised(h2, m.voided(), e),
            }
        },
    }
}

/// The operand is in the register: applies the operator.
pub fn unary_apply(heap: &mut Heap, machine: &mut Machine, op: UnaryOp, span: Span) -> (r: Result<
    (),
    Raise,
>)
    ensures
        stepped(r, final(heap)@, final(machine)@) == unary_applied(
            old(heap)@,
            old(machine)@,
            op,
            span,
        ),
{
    let v = match take_value(machine, span) {
        Ok(v) => v,
        Err(e) => {
            return Err(e);
        },
    };
    let result = match op {
        UnaryOp::Not => compare::not(v, span),
        _ => arith::unary(op, v, heap, span),
    };
    match result {
        Ok(w) => {
            machine.reg = Some(w);
            Ok(())
        },
        Err(e) => Err(e),
    }
}

/// What checking the right operand of `and` or `or` leaves.
pub open spec fn bool_asserted(m: MachineView, span: Span) -> (MachineView, Option<RaiseView>) {
    match m.reg {
        None => (m, Some(void_raise(span))),
        Some(Value::Bool(b)) => (m, None),
        Some(v) => (m.voided(), Some(not_bool_raise(v, "and/or"@, span))),
    }
}

/// The right operand of `and` or `or` is in the register: it has to be a boolean.
pub fn assert_bool(machine: &mut Machine, span: Span) -> (r: Result<(), Raise>)
    ensures
        (final(machine)@, raise_of(r)) == bool_asserted(old(machine)@, span),
{
    let v = match take_value(machine, span) {
        Ok(v) => v,
        Err(e) => {
            return Err(e);
        },
    };
    match as_bool(v, "and/or", span) {
        Ok(b) => {
            machine.reg = Some(Value::Bool(b));
            Ok(())
        },
        Err(e) => Err(e),
    }
}

/// A transition of the machine alone as a step.
pub open spec fn machine_step(h: HeapView, t: (MachineView, Option<RaiseView>)) -> Step {
    Step { heap: h, machine: t.0, raise: t.1 }
}

/// A transition that raises nothing as a step.
pub open spec fn quiet_step(t: (HeapView, MachineView)) -> Step {
    Step { heap: t.0, machine: t.1, raise: None }
}

/// What doing a piece of work leads to.
#[verifier::opaque]
pub open spec fn dispatched(
    resolved: ResolvedModule,
    modules: Seq<LoadedModule>,
    h: HeapView,
    m: MachineView,
    c: ContView,
) -> Step {
    let cur = resolved.canonical_id.0 as int;
    let names = if cur < modules.len() {
        named_view(modules[cur].namespace@)
    } else {
        Seq::empty()
    };
    match c {
        Work::Statements { block, next } => Step::done(
            h,
            statement_entered(resolved, m, block, next as int),
        ),
        Work::Eval { node } => evaluated(resolved, modules, h, m, node),
        Work::BinRhs { op, rhs, span } => machine_step(h, left_known(m, op, rhs, span)),
        Work::BinApply { op, lhs, span } => operator_applied(h, m, op, lhs, span),
        Work::UnaryApply { op, span } => unary_applied(h, m, op, span),
        Work::AndRhs { rhs, span } => machine_step(h, short_circuited(m, rhs, span, true)),
        Work::OrRhs { rhs, span } => machine_step(h, short_circuited(m, rhs, span, false)),
        Work::AssertBool { span } => machine_step(h, bool_asserted(m, span)),
        Work::BindLet { decl } => match m.reg {
            Some(v) => quiet_step(declared(resolved, h, m.voided(), names, decl, v)),
            None => Step::raised(h, m, void_raise(resolved.ast.range(decl))),
        },
        Work::AssignTo { assign } => assigned(resolved, h, m, names, assign),
        Work::AssignPlaceObj { assign } => machine_step(h, placed(resolved, m, assign)),
        Work::AssignFieldVal { assign, object } => field_set_step(resolved, h, m, assign, object),
        Work::AssignIndexKey { assign, object } => machine_step(
            h,
            keyed(resolved, m, assign, object),
        ),
        Work::AssignIndexVal { assign, object, key } => element_set(
            resolved,
            modules,
            h,
            m,
            assign,
            object,
            key,
        ),
        Work::IfChoose { node, index } => machine_step(
            h,
            chosen(resolved, m, node, index as int),
        ),
        Work::WhileCheck { node } => machine_step(h, rechecked(resolved, m, node)),
        Work::LoopReloop { node } => Step::done(h, relooped(resolved, m, node)),
        Work::CallGotCallee { call } => callee_known(resolved, modules, h, m, call),
        Work::CallGotArg { call, callee, values, index } => argument_known(
            resolved,
            modules,
            h,
            m,
            call,
            callee,
            values,
            index as int,
        ),
        Work::BlockGotArg { call, values, index } => block_argument_known(
            resolved,
            modules,
            h,
            m,
            call,
            values,
            index as int,
        ),
        Work::ListGotElem { list, values, index } => element_known(
            resolved,
            h,
            m,
            list,
            values,
            index as int,
        ),
        Work::DictGotKey { dict, entries, index } => machine_step(
            h,
            literal_key_known(resolved, m, dict, entries, index as int),
        ),
        Work::DictGotValue { dict, entries, index, key } => literal_value_known(
            resolved,
            modules,
            h,
            m,
            dict,
            entries,
            index as int,
            key,
        ),
        Work::DictBuildHashed { node, dict, entries, index } => literal_hash_known(
            resolved,
            modules,
            h,
            m,
            node,
            dict,
            entries,
            index as nat,
        ),
        Work::FieldRead { field } => machine_step(
            h,
            field_read_step(resolved, modules, h, m, field),
        ),
        Work::IndexGotObject { index, span } => machine_step(
            h,
            index_object_known(m, index, span),
        ),
        Work::IndexApply { object, span, key_node } => match m.reg {
            Some(key) => element_read(modules, h, m.voided(), object, key, key_node, span),
            None => Step::raised(h, m, void_raise(span)),
        },
        Work::IndexReadHashed { dict, key, span } => machine_step(
            h,
            read_hash_known(h, m, dict, key, span),
        ),
        Work::IndexAssignHashed { dict, key, value, span } => assign_hash_known(
            h,
            m,
            dict,
            key,
            value,
            span,
        ),
        Work::StrInterp { node, acc, index } => value_interpolated(
            resolved,
            modules,
            h,
            m,
            node,
            acc,
            index as int,
        ),
        Work::StrInterpRendered { node, acc, index } => rendering_known(
            resolved,
            h,
            m,
            node,
            acc,
            index as int,
        ),
        Work::BindDefault { slot, default } => default_bound(resolved, h, m, slot, default),
        Work::DefineCallable { decl } => quiet_step(
            callable_declared(resolved, h, m, names, decl),
        ),
        Work::DefineRecord { decl } => quiet_step(record_declared(resolved, h, m, names, decl)),
        Work::ReturnBarrier => machine_step(h, returned(resolved, h, m)),
        Work::ExitApply { exit } => machine_step(h, exited(resolved, m, exit)),
        Work::WithBind { with_node } => with_opened(resolved, modules, h, m, with_node),
        Work::WithRestore { dyn_mark } => quiet_step(restored(h, m, dyn_mark as nat)),
        Work::TryHandler { .. } => Step::done(h, m),
        Work::PopHandler => Step::done(
            h,
            if m.handling.len() == 0 {
                m
            } else {
                MachineView { handling: m.handling.drop_last(), ..m }
            },
        ),
        Work::RaiseApply { node } => machine_step(h, raised(resolved, m, node)),
        Work::ImportTargets { .. } => Step::done(h, m.broken()),
    }
}

/// Does a piece of work.
#[verifier::rlimit(100)]
#[verifier::spinoff_prover]
pub fn dispatch(
    resolved: &ResolvedModule,
    modules: &Vec<LoadedModule>,
    heap: &mut Heap,
    machine: &mut Machine,
    c: Cont,
) -> (r: Result<(), Raise>)
    requires
        (resolved.canonical_id.0 as int) < modules@.len(),
    ensures
        stepped(r, final(heap)@, final(machine)@) == dispatched(
            *resolved,
            modules@,
            old(heap)@,
            old(machine)@,
            c@,
        ),
{
    proof {
        reveal(dispatched);
    }
    let names = &modules[resolved.canonical_id.0 as usize].namespace;
    match c {
        Work::Statements { block, next } => {
            enter_statement(resolved, machine, block, next);
            Ok(())
        },
        Work::Eval { node } => eval(resolved, modules, heap, machine, node),
        Work::BinRhs { op, rhs, span } => bin_rhs(machine, op, rhs, span),
        Work::BinApply { op, lhs, span } => bin_apply(heap, machine, op, lhs, span),
        Work::UnaryApply { op, span } => unary_apply(heap, machine, op, span),
        Work::AndRhs { rhs, span } => logical_rhs(machine, rhs, span, true),
        Work::OrRhs { rhs, span } => logical_rhs(machine, rhs, span, false),
        Work::AssertBool { span } => assert_bool(machine, span),
        Work::BindLet { decl } => bind_let(resolved, heap, machine, names, decl),
        Work::AssignTo { assign } => assign_to(resolved, heap, machine, names, assign),
        Work::AssignPlaceObj { assign } => assign_place_obj(resolved, machine, assign),
        Work::AssignFieldVal { assign, object } => field_set(
            resolved,
            heap,
            machine,
            assign,
            object,
        ),
        Work::AssignIndexKey { assign, object } => assign_index_key(
            resolved,
            machine,
            assign,
            object,
        ),
        Work::AssignIndexVal { assign, object, key } => index_set(
            resolved,
            modules,
            heap,
            machine,
            assign,
            object,
            key,
        ),
        Work::IfChoose { node, index } => if_choose(resolved, machine, node, index),
        Work::WhileCheck { node } => while_check(resolved, machine, node),
        Work::LoopReloop { node } => {
            loop_reloop(resolved, machine, node);
            Ok(())
        },
        Work::CallGotCallee { call } => got_callee(resolved, modules, heap, machine, call),
        Work::CallGotArg { call, callee, values, index } => got_arg(
            resolved,
            modules,
            heap,
            machine,
            call,
            callee,
            values,
            index,
        ),
        Work::BlockGotArg { call, values, index } => got_block_arg(
            resolved,
            modules,
            heap,
            machine,
            call,
            values,
            index,
        ),
        Work::ListGotElem { list, values, index } => list_got_elem(
            resolved,
            heap,
            machine,
            list,
            values,
            index,
        ),
        Work::DictGotKey { dict, entries, index } => dict_got_key(
            resolved,
            machine,
            dict,
            entries,
            index,
        ),
        Work::DictGotValue { dict, entries, index, key } => dict_got_value(
            resolved,
            modules,
            heap,
            machine,
            dict,
            entries,
            index,
            key,
        ),
        Work::DictBuildHashed { node, dict, entries, index } => dict_build_hashed(
            resolved,
            modules,
            heap,
            machine,
            node,
            dict,
            entries,
            index,
        ),
        Work::FieldRead { field } => field_read(resolved, modules, heap, machine, field),
        Work::IndexGotObject { index, span } => index_got_object(machine, index, span),
        Work::IndexApply { object, span, key_node } => index_apply(
            modules,
            heap,
            machine,
            object,
            key_node,
            span,
        ),
        Work::IndexReadHashed { dict, key, span } => index_read_hashed(
            heap,
            machine,
            dict,
            key,
            span,
        ),
        Work::IndexAssignHashed { dict, key, value, span } => index_assign_hashed(
            heap,
            machine,
            dict,
            key,
            value,
            span,
        ),
        Work::StrInterp { node, acc, index } => str_interp(
            resolved,
            modules,
            heap,
            machine,
            node,
            acc,
            index,
        ),
        Work::StrInterpRendered { node, acc, index } => str_interp_rendered(
            resolved,
            heap,
            machine,
            node,
            acc,
            index,
        ),
        Work::BindDefault { slot, default } => bind_default(
            resolved,
            heap,
            machine,
            slot,
            default,
        ),
        Work::DefineCallable { decl } => {
            define_callable(resolved, heap, machine, names, decl);
            Ok(())
        },
        Work::DefineRecord { decl } => {
            define_record(resolved, heap, machine, names, decl);
            Ok(())
        },
        Work::ReturnBarrier => return_from_callable(resolved, heap, machine),
        Work::ExitApply { exit } => exit_apply(resolved, machine, exit),
        Work::WithBind { with_node } => with_bind(resolved, modules, heap, machine, with_node),
        Work::WithRestore { dyn_mark } => {
            restore(heap, machine, dyn_mark);
            Ok(())
        },
        Work::TryHandler { .. } => Ok(()),
        Work::PopHandler => {
            machine.pop_handling();
            Ok(())
        },
        Work::RaiseApply { node } => raise_apply(resolved, machine, node),
        Work::ImportTargets { .. } => {
            machine.fail();
            Ok(())
        },
    }
}

/// Heap and machine with an engine exception made a value and put in flight.
#[verifier::opaque]
pub open spec fn materialized(h: HeapView, m: MachineView, e: RaiseView) -> (
    HeapView,
    MachineView,
) {
    let trace = trace_here(m, e.trace.raised_at);
    let (h2, value) = error_made(
        h,
        m.error_type,
        crate::error::kind_slug(e.kind),
        e.message,
        e.details,
    );
    (h2, m.raising(value, trace))
}

/// Makes an engine exception a value and puts it in flight.
pub fn materialize(heap: &mut Heap, machine: &mut Machine, raise: Raise)
    ensures
        (final(heap)@, final(machine)@) == materialized(
            old(heap)@,
            old(machine)@,
            raise@,
        ),
{
    proof {
        reveal(materialized);
    }
    let trace = capture_trace(machine, raise.trace.raised_at);
    let value = make_error(
        heap,
        machine.error_type,
        raise.exception.kind.slug(),
        raise.exception.message.as_str(),
        &raise.details,
    );
    machine.arm_raise_value(value, trace);
}

} // verus!
