//! Arithmetic. Integers are exact and of any magnitude; a float among the operands widens
//! the other. No operation yields an infinity or a NaN: it raises instead.
use crate::ast::BinaryOp;
use crate::ast::UnaryOp;
use crate::bignum::bit_length;
use crate::bignum::floor_div;
use crate::bignum::floor_mod;
use crate::bignum::int_to_float;
use crate::bignum::magnitude;
use crate::bignum::BigNum;
use crate::error::result_view;
use crate::error::ExceptionKind;
use crate::error::Raise;
use crate::error::RaiseView;
use crate::exception::type_mismatch_detail;
use crate::exception::type_mismatch_details;
use crate::exception::type_text;
use crate::float::add_floats;
use crate::float::divide_floats;
use crate::float::finite;
use crate::float::float_difference;
use crate::float::float_floor;
use crate::float::float_power;
use crate::float::float_product;
use crate::float::float_quotient;
use crate::float::float_remainder;
use crate::float::float_sum;
use crate::float::floor_float;
use crate::float::is_finite;
use crate::float::is_nan;
use crate::float::is_zero;
use crate::float::multiply_floats;
use crate::float::nan;
use crate::float::negate;
use crate::float::negative;
use crate::float::power_floats;
use crate::float::remainder_floats;
use crate::float::same_float;
use crate::float::subtract_floats;
use crate::float::unsigned_part;
use crate::float::SIGN_WEIGHT;
use crate::heap::Heap;
use crate::heap::HeapView;
use crate::limits::op_metered;
use crate::limits::op_refused;
use crate::limits::Meter;
use crate::number::as_num;
use crate::number::int_value;
use crate::number::int_value_heap;
use crate::number::int_value_of;
use crate::number::number;
use crate::number::Num;
use crate::number::NumView;
use crate::span::Span;
use crate::text::join3;
use crate::value::Value;
use vstd::arithmetic::power::pow;
use vstd::prelude::*;

verus! {

/// The symbol of an arithmetic operator.
pub open spec fn symbol_text(op: BinaryOp) -> Seq<char> {
    match op {
        BinaryOp::Add => "+"@,
        BinaryOp::Sub => "-"@,
        BinaryOp::Mul => "*"@,
        BinaryOp::Div => "/"@,
        BinaryOp::FloorDiv => "//"@,
        BinaryOp::Rem => "%"@,
        _ => "**"@,
    }
}

/// Whether an operator computes.
pub open spec fn arithmetic(op: BinaryOp) -> bool {
    op is Add || op is Sub || op is Mul || op is Div || op is FloorDiv || op is Rem || op is Pow
}

/// What an operation on numbers comes to.
pub enum Computed {
    /// An exact integer.
    Int(int),
    /// A finite float.
    Float(u64),
    /// A division by zero.
    DivisionByZero,
    /// A float that would not be finite.
    NonFinite,
}

/// Whether a number is zero, of either sign.
pub open spec fn zero(n: NumView) -> bool {
    match n {
        NumView::Int(v) => v == 0,
        NumView::Float(x) => unsigned_part(x) == 0,
    }
}

/// The float of a number, unless it is an integer too large for one.
pub open spec fn widened(n: NumView) -> Option<u64> {
    match n {
        NumView::Int(v) => match int_to_float(v) {
            Some(x) => if finite(x) {
                Some(x)
            } else {
                None
            },
            None => None,
        },
        NumView::Float(x) => Some(x),
    }
}

/// The float quotient, rounded down.
pub open spec fn floored_quotient(x: u64, y: u64) -> u64 {
    let q = float_quotient(x, y);
    if nan(q) {
        q
    } else {
        float_floor(q)
    }
}

/// The float remainder, with the sign of the divisor.
pub open spec fn floored_remainder(x: u64, y: u64) -> u64 {
    let m = float_remainder(x, y);
    if !nan(m) && unsigned_part(m) != 0 && negative(m) != negative(y) {
        float_sum(m, y)
    } else {
        m
    }
}

/// The float of an operation on floats, before it is checked to be finite.
pub open spec fn float_result(op: BinaryOp, x: u64, y: u64) -> u64 {
    match op {
        BinaryOp::Add => float_sum(x, y),
        BinaryOp::Sub => float_difference(x, y),
        BinaryOp::Mul => float_product(x, y),
        BinaryOp::Div => float_quotient(x, y),
        BinaryOp::FloorDiv => floored_quotient(x, y),
        BinaryOp::Rem => floored_remainder(x, y),
        _ => float_power(x, y),
    }
}

/// A float result, which has to be finite.
pub open spec fn checked(x: u64) -> Computed {
    if finite(x) {
        Computed::Float(x)
    } else {
        Computed::NonFinite
    }
}

/// What an arithmetic operator comes to on two numbers.
pub open spec fn computed(op: BinaryOp, a: NumView, b: NumView) -> Computed {
    if (op is Div || op is FloorDiv || op is Rem) && zero(b) {
        Computed::DivisionByZero
    } else {
        match (op, a, b) {
            (BinaryOp::Add, NumView::Int(x), NumView::Int(y)) => Computed::Int(x + y),
            (BinaryOp::Sub, NumView::Int(x), NumView::Int(y)) => Computed::Int(x - y),
            (BinaryOp::Mul, NumView::Int(x), NumView::Int(y)) => Computed::Int(x * y),
            (BinaryOp::FloorDiv, NumView::Int(x), NumView::Int(y)) => Computed::Int(
                floor_div(x, y),
            ),
            (BinaryOp::Rem, NumView::Int(x), NumView::Int(y)) => Computed::Int(
                floor_mod(x, y),
            ),
            (BinaryOp::Pow, NumView::Int(x), NumView::Int(y)) => if y >= 0 {
                Computed::Int(pow(x, y as nat))
            } else {
                computed_float(op, a, b)
            },
            _ => computed_float(op, a, b),
        }
    }
}

/// What an arithmetic operator comes to on two numbers taken as floats.
pub open spec fn computed_float(op: BinaryOp, a: NumView, b: NumView) -> Computed {
    match (widened(a), widened(b)) {
        (Some(x), Some(y)) => checked(float_result(op, x, y)),
        _ => Computed::NonFinite,
    }
}

/// The bytes to admit before an operation whose result grows with its operands.
pub open spec fn result_bytes(op: BinaryOp, a: NumView, b: NumView) -> Option<int> {
    match (op, a, b) {
        (BinaryOp::Mul, NumView::Int(x), NumView::Int(y)) => Some(
            (bit_length(magnitude(x)) + bit_length(magnitude(y))) as int / 8 + 1,
        ),
        (BinaryOp::Pow, NumView::Int(x), NumView::Int(y)) => if y < 0 || bit_length(
            magnitude(x),
        ) <= 1 {
            None
        } else if y <= u32::MAX {
            Some(y * bit_length(magnitude(x)) / 8 + 1)
        } else {
            Some(u128::MAX as int)
        },
        _ => None,
    }
}

/// The raise for a division by zero.
pub open spec fn zero_raise(span: Span) -> RaiseView {
    RaiseView::new(ExceptionKind::DivisionByZero, "you can't divide by zero"@, span)
}

/// The raise for a float that would not be finite.
pub open spec fn nonfinite_raise(span: Span) -> RaiseView {
    RaiseView::new(
        ExceptionKind::NonFiniteFloat,
        "that number got too big to be a real number"@,
        span,
    )
}

/// The raise for an operand that is no number.
pub open spec fn operand_raise(h: HeapView, symbol: Seq<char>, needs: Seq<char>, got: Value, span: Span) -> RaiseView {
    RaiseView::new(ExceptionKind::TypeMismatch, "`"@ + symbol + needs, span).with(
        type_mismatch_detail(symbol, "Number"@, type_text(h, got)),
    )
}

/// What computing leaves behind: the result, the heap and the meter.
pub open spec fn settles(
    c: Computed,
    span: Span,
    h: HeapView,
    r: Result<Value, Raise>,
    after: HeapView,
) -> bool {
    match c {
        Computed::Int(n) => r is Ok && r->Ok_0 == int_value_of(h, n) && after == int_value_heap(
            h,
            n,
        ),
        Computed::Float(x) => r is Ok && r->Ok_0 == Value::Float(x) && after == h,
        Computed::DivisionByZero => r is Err && r->Err_0@ == zero_raise(span) && after == h,
        Computed::NonFinite => r is Err && r->Err_0@ == nonfinite_raise(span) && after == h,
    }
}

/// What an operation on two numbers leaves behind: one refused by a limit leaves only the
/// parked fault and a placeholder.
pub open spec fn operates(
    op: BinaryOp,
    a: NumView,
    b: NumView,
    span: Span,
    h: HeapView,
    m: Meter,
    r: Result<Value, Raise>,
    h2: HeapView,
    m2: Meter,
) -> bool {
    match result_bytes(op, a, b) {
        Some(n) => m2 == op_metered(m, n) && if op_refused(m, n) is Some {
            r is Ok && r->Ok_0 == Value::Nil && h2 == h
        } else {
            settles(computed(op, a, b), span, h, r, h2)
        },
        None => m2 == m && settles(computed(op, a, b), span, h, r, h2),
    }
}

/// A computed number as a result and the heap it leaves.
pub open spec fn settled_result(c: Computed, span: Span, h: HeapView) -> (
    Result<Value, RaiseView>,
    HeapView,
) {
    match c {
        Computed::Int(n) => (Ok(int_value_of(h, n)), int_value_heap(h, n)),
        Computed::Float(x) => (Ok(Value::Float(x)), h),
        Computed::DivisionByZero => (Err(zero_raise(span)), h),
        Computed::NonFinite => (Err(nonfinite_raise(span)), h),
    }
}

/// What applying an arithmetic operator comes to: the result, the heap and the meter.
pub open spec fn binary_outcome(
    op: BinaryOp,
    lhs: Value,
    rhs: Value,
    h: HeapView,
    m: Meter,
    span: Span,
) -> (Result<Value, RaiseView>, HeapView, Meter) {
    match (number(h, lhs), number(h, rhs)) {
        (Some(a), Some(b)) => {
            let (r, h2) = settled_result(computed(op, a, b), span, h);
            match result_bytes(op, a, b) {
                Some(n) => if op_refused(m, n) is Some {
                    (Ok(Value::Nil), h, op_metered(m, n))
                } else {
                    (r, h2, op_metered(m, n))
                },
                None => (r, h2, m),
            }
        },
        (a, _) => (
            Err(
                operand_raise(
                    h,
                    symbol_text(op),
                    "` needs two numbers"@,
                    if a is None {
                        lhs
                    } else {
                        rhs
                    },
                    span,
                ),
            ),
            h,
            m,
        ),
    }
}

/// Applies an arithmetic operator.
pub fn binary(
    op: BinaryOp,
    lhs: Value,
    rhs: Value,
    heap: &mut Heap,
    meter: &mut Meter,
    span: Span,
) -> (r: Result<Value, Raise>)
    requires
        arithmetic(op),
    ensures
        (result_view(r), final(heap)@, *final(meter)) == binary_outcome(
            op,
            lhs,
            rhs,
            old(heap)@,
            *old(meter),
            span,
        ),
{
    let a = match as_num(lhs, heap) {
        Some(a) => a,
        None => {
            return Err(type_error(symbol(op), "` needs two numbers", lhs, heap, span));
        },
    };
    let b = match as_num(rhs, heap) {
        Some(b) => b,
        None => {
            return Err(type_error(symbol(op), "` needs two numbers", rhs, heap, span));
        },
    };
    let r = match op {
        BinaryOp::Add | BinaryOp::Sub | BinaryOp::Mul => add_sub_mul(op, &a, &b, heap, meter, span),
        BinaryOp::Div => divide(&a, &b, span),
        BinaryOp::FloorDiv | BinaryOp::Rem => floor_div_rem(op, &a, &b, heap, span),
        _ => power(&a, &b, heap, meter, span),
    };
    assert(operates(op, a@, b@, span, old(heap)@, *old(meter), r, heap@, *meter));
    r
}

/// What a unary operator comes to on a number.
pub open spec fn negation(n: NumView) -> Computed {
    match n {
        NumView::Int(v) => Computed::Int(-v),
        NumView::Float(x) => checked(flipped(x)),
    }
}

/// A float with its sign flipped.
pub open spec fn flipped(x: u64) -> u64 {
    if negative(x) {
        (x - SIGN_WEIGHT) as u64
    } else {
        (x + SIGN_WEIGHT) as u64
    }
}

/// What applying a numeric unary operator comes to: the result and the heap.
pub open spec fn unary_outcome(op: UnaryOp, v: Value, h: HeapView, span: Span) -> (
    Result<Value, RaiseView>,
    HeapView,
) {
    match number(h, v) {
        None => (
            Err(
                operand_raise(
                    h,
                    if op is Neg {
                        "-"@
                    } else {
                        "+"@
                    },
                    "` needs a number"@,
                    v,
                    span,
                ),
            ),
            h,
        ),
        Some(n) => if op is Neg {
            settled_result(negation(n), span, h)
        } else {
            match v {
                Value::Float(x) => settled_result(checked(x), span, h),
                _ => (Ok(v), h),
            }
        },
    }
}

/// Applies a numeric unary operator: `-`, or `+`, which leaves a number as it is.
pub fn unary(op: UnaryOp, v: Value, heap: &mut Heap, span: Span) -> (r: Result<Value, Raise>)
    requires
        op is Neg || op is Pos,
    ensures
        (result_view(r), final(heap)@) == unary_outcome(op, v, old(heap)@, span),
{
    match op {
        UnaryOp::Neg => match as_num(v, heap) {
            Some(Num::Int(n)) => Ok(int_value(n.negated(), heap)),
            Some(Num::Float(x)) => {
                let y: u64 = negate(x);
                assert(y == flipped(x));
                finite_value(y, span)
            },
            None => Err(type_error("-", "` needs a number", v, heap, span)),
        },
        _ => match v {
            Value::Int(_) | Value::BigInt(_) => Ok(v),
            Value::Float(x) => finite_value(x, span),
            _ => Err(type_error("+", "` needs a number", v, heap, span)),
        },
    }
}

fn add_sub_mul(
    op: BinaryOp,
    a: &Num,
    b: &Num,
    heap: &mut Heap,
    meter: &mut Meter,
    span: Span,
) -> (r: Result<Value, Raise>)
    requires
        op is Add || op is Sub || op is Mul,
        a.wf(),
        b.wf(),
    ensures
        operates(op, a@, b@, span, old(heap)@, *old(meter), r, final(heap)@, *final(meter)),
{
    match (a, b) {
        (Num::Int(x), Num::Int(y)) => {
            let n = match op {
                BinaryOp::Add => x.plus(y),
                BinaryOp::Sub => x.minus(y),
                _ => {
                    let bits: u128 = x.bits() as u128 + y.bits() as u128;
                    if !meter.admit_op_result(bits / 8 + 1) {
                        return Ok(Value::Nil);
                    }
                    x.times(y)
                },
            };
            Ok(int_value(n, heap))
        },
        _ => float_operation(op, a, b, span),
    }
}

/// An operation on two numbers taken as floats.
fn float_operation(op: BinaryOp, a: &Num, b: &Num, span: Span) -> (r: Result<Value, Raise>)
    requires
        arithmetic(op),
    ensures
        forall|h: HeapView| #[trigger] settles(computed_float(op, a@, b@), span, h, r, h),
{
    let x = match num_to_float(a, span) {
        Ok(x) => x,
        Err(e) => {
            return Err(e);
        },
    };
    let y = match num_to_float(b, span) {
        Ok(y) => y,
        Err(e) => {
            return Err(e);
        },
    };
    let result: u64 = match op {
        BinaryOp::Add => add_floats(x, y),
        BinaryOp::Sub => subtract_floats(x, y),
        BinaryOp::Mul => multiply_floats(x, y),
        BinaryOp::Div => divide_floats(x, y),
        BinaryOp::FloorDiv => {
            let q: u64 = divide_floats(x, y);
            if is_nan(q) {
                q
            } else {
                floor_float(q)
            }
        },
        BinaryOp::Rem => {
            let m: u64 = remainder_floats(x, y);
            if !is_nan(m) && m % SIGN_WEIGHT != 0 && (m >= SIGN_WEIGHT) != (y >= SIGN_WEIGHT) {
                add_floats(m, y)
            } else {
                m
            }
        },
        _ => power_floats(x, y),
    };
    assert(same_float(result, float_result(op, x, y)));
    finite_value(result, span)
}

/// Division, which always yields a float.
fn divide(a: &Num, b: &Num, span: Span) -> (r: Result<Value, Raise>)
    ensures
        forall|h: HeapView| #[trigger] settles(computed(BinaryOp::Div, a@, b@), span, h, r, h),
{
    if is_zero_num(b) {
        return Err(div_by_zero(span));
    }
    float_operation(BinaryOp::Div, a, b, span)
}

/// Division and remainder rounded toward negative infinity.
fn floor_div_rem(op: BinaryOp, a: &Num, b: &Num, heap: &mut Heap, span: Span) -> (r: Result<
    Value,
    Raise,
>)
    requires
        op is FloorDiv || op is Rem,
        a.wf(),
        b.wf(),
    ensures
        settles(computed(op, a@, b@), span, old(heap)@, r, final(heap)@),
{
    if is_zero_num(b) {
        return Err(div_by_zero(span));
    }
    match (a, b) {
        (Num::Int(x), Num::Int(y)) => {
            let n = match op {
                BinaryOp::FloorDiv => x.div_floor(y),
                _ => x.mod_floor(y),
            };
            Ok(int_value(n, heap))
        },
        _ => float_operation(op, a, b, span),
    }
}

/// Powers: exact for an integer to a natural power, else a float.
fn power(a: &Num, b: &Num, heap: &mut Heap, meter: &mut Meter, span: Span) -> (r: Result<
    Value,
    Raise,
>)
    requires
        a.wf(),
        b.wf(),
    ensures
        operates(
            BinaryOp::Pow,
            a@,
            b@,
            span,
            old(heap)@,
            *old(meter),
            r,
            final(heap)@,
            *final(meter),
        ),
{
    if let (Num::Int(base), Num::Int(exp)) = (a, b) {
        if !exp.is_negative() {
            let bits: u64 = base.bits();
            if bits <= 1 {
                proof {
                    lemma_short_base(base@);
                }
                return Ok(int_value(small_base_pow(base, exp), heap));
            }
            if !meter.admit_op_result(pow_result_bytes(bits, exp)) {
                return Ok(Value::Nil);
            }
            return match exp.to_u32() {
                Some(e) => Ok(int_value(base.power(e), heap)),
                None => Ok(Value::Nil),
            };
        }
    }
    float_operation(BinaryOp::Pow, a, b, span)
}

/// An integer of at most one bit is `-1`, `0` or `1`.
proof fn lemma_short_base(base: int)
    requires
        bit_length(magnitude(base)) <= 1,
    ensures
        -1 <= base <= 1,
{
    reveal_with_fuel(bit_length, 3);
}

proof fn lemma_small_powers(n: nat)
    ensures
        pow(1, n) == 1,
        n > 0 ==> pow(0, n) == 0,
        pow(-1, n) == (if n % 2 == 0 {
            1int
        } else {
            -1int
        }),
    decreases n,
{
    reveal(pow);
    if n > 0 {
        lemma_small_powers((n - 1) as nat);
    }
}

/// The power of `-1`, `0` or `1`, whatever the exponent's size.
fn small_base_pow(base: &BigNum, exp: &BigNum) -> (r: BigNum)
    requires
        -1 <= base@ <= 1,
        exp@ >= 0,
    ensures
        r@ == pow(base@, exp@ as nat),
        r.wf(),
{
    proof {
        lemma_small_powers(exp@ as nat);
        reveal(pow);
    }
    if base.is_zero() {
        if exp.is_zero() {
            BigNum::from_i64(1)
        } else {
            BigNum::from_i64(0)
        }
    } else if base.is_negative() {
        if exp.is_even() {
            BigNum::from_i64(1)
        } else {
            BigNum::from_i64(-1)
        }
    } else {
        BigNum::from_i64(1)
    }
}

/// An upper bound on the bytes of a power; one that cannot be computed has no bound.
fn pow_result_bytes(base_bits: u64, exp: &BigNum) -> (r: u128)
    requires
        exp@ >= 0,
    ensures
        r == (if exp@ <= u32::MAX {
            exp@ * base_bits / 8 + 1
        } else {
            u128::MAX as int
        }),
{
    match exp.to_u32() {
        Some(e) => {
            assert(0 <= e * base_bits <= 0xffff_ffff * 0xffff_ffff_ffff_ffff) by (nonlinear_arith)
                requires
                    0 <= e <= 0xffff_ffff,
                    0 <= base_bits <= 0xffff_ffff_ffff_ffff,
            ;
            e as u128 * base_bits as u128 / 8 + 1
        },
        None => u128::MAX,
    }
}

/// The float of a number; an integer too large for one raises.
pub fn num_to_float(n: &Num, span: Span) -> (r: Result<u64, Raise>)
    ensures
        (match widened(n@) {
            Some(x) => r is Ok && r->Ok_0 == x,
            None => r is Err && r->Err_0@ == nonfinite_raise(span),
        }),
{
    match n {
        Num::Int(i) => match i.to_float() {
            Some(x) => if is_finite(x) {
                Ok(x)
            } else {
                Err(nonfinite(span))
            },
            None => Err(nonfinite(span)),
        },
        Num::Float(x) => Ok(*x),
    }
}

/// A float as a value, which has to be finite.
fn finite_value(x: u64, span: Span) -> (r: Result<Value, Raise>)
    ensures
        forall|h: HeapView| #[trigger] settles(checked(x), span, h, r, h),
        r is Ok <==> finite(x),
        r is Ok ==> r->Ok_0 == Value::Float(x),
        r is Err ==> r->Err_0@ == nonfinite_raise(span),
{
    if is_finite(x) {
        Ok(Value::Float(x))
    } else {
        Err(nonfinite(span))
    }
}

fn is_zero_num(n: &Num) -> (r: bool)
    ensures
        r == zero(n@),
{
    match n {
        Num::Int(i) => i.is_zero(),
        Num::Float(x) => *x % SIGN_WEIGHT == 0,
    }
}

fn div_by_zero(span: Span) -> (r: Raise)
    ensures
        r@ == zero_raise(span),
{
    Raise::new(ExceptionKind::DivisionByZero, "you can't divide by zero".to_owned(), span)
}

fn nonfinite(span: Span) -> (r: Raise)
    ensures
        r@ == nonfinite_raise(span),
{
    Raise::new(
        ExceptionKind::NonFiniteFloat,
        "that number got too big to be a real number".to_owned(),
        span,
    )
}

fn type_error(sym: &str, needs: &str, got: Value, heap: &Heap, span: Span) -> (r: Raise)
    ensures
        r@ == operand_raise(heap@, sym@, needs@, got, span),
{
    Raise::new(ExceptionKind::TypeMismatch, join3("`", sym, needs), span).with_details(
        type_mismatch_details(sym, "Number", got, heap),
    )
}

fn symbol(op: BinaryOp) -> (r: &'static str)
    ensures
        r@ == symbol_text(op),
{
    match op {
        BinaryOp::Add => "+",
        BinaryOp::Sub => "-",
        BinaryOp::Mul => "*",
        BinaryOp::Div => "/",
        BinaryOp::FloorDiv => "//",
        BinaryOp::Rem => "%",
        _ => "**",
    }
}

/// No arithmetic operator yields an infinity or a NaN.
pub proof fn law_floats_stay_finite(op: BinaryOp, a: NumView, b: NumView)
    ensures
        computed(op, a, b) is Float ==> finite(computed(op, a, b)->Float_0),
        negation(a) is Float ==> finite(negation(a)->Float_0),
{
}

/// Arithmetic on integers is exact: the integers' own sum, difference and product, and a
/// floored quotient and remainder that belong together.
pub proof fn law_integers_stay_exact(x: int, y: int)
    ensures
        computed(BinaryOp::Add, NumView::Int(x), NumView::Int(y)) == Computed::Int(x + y),
        computed(BinaryOp::Sub, NumView::Int(x), NumView::Int(y)) == Computed::Int(x - y),
        computed(BinaryOp::Mul, NumView::Int(x), NumView::Int(y)) == Computed::Int(x * y),
        y != 0 ==> {
            let q = computed(BinaryOp::FloorDiv, NumView::Int(x), NumView::Int(y));
            let m = computed(BinaryOp::Rem, NumView::Int(x), NumView::Int(y));
            &&& q is Int && m is Int
            &&& x == y * q->Int_0 + m->Int_0
            &&& m->Int_0 == 0 || (m->Int_0 < 0) == (y < 0)
        },
{
    if y != 0 {
        crate::bignum::law_floor_division(x, y);
    }
}

} // verus!
