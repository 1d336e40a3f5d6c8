//! What operators on numbers come to, in terms of the numbers.

use crate::arith::Computed;
use crate::arith::computed;
use crate::arith::flipped;
use crate::arith::negation;
use crate::arith::unary_outcome;
use crate::arith::zero;
use crate::ast::BinaryOp;
use crate::ast::UnaryOp;
use crate::bignum::int_to_float;
use crate::cont::Work;
use crate::error::ExceptionKind;
use crate::error::RaiseView;
use crate::float::Exact;
use crate::float::exact_float;
use crate::float::EXPONENT_WEIGHT;
use crate::float::finite;
use crate::float::float_difference;
use crate::float::float_floor;
use crate::float::float_power;
use crate::float::float_product;
use crate::float::float_quotient;
use crate::float::float_remainder;
use crate::float::float_sum;
use crate::float::fraction;
use crate::float::nan;
use crate::float::scale;
use crate::float::SIGN_WEIGHT;
use crate::float::significand;
use crate::float::unsigned_part;
use crate::heap::HeapView;
use crate::machine::MachineView;
use crate::modload::LoadedModule;
use crate::number::law_integers_are_canonical;
use crate::number::number;
use crate::number::NumView;
use crate::resolve::ResolvedModule;
use crate::span::Span;
use crate::step::dispatched;
use crate::value::Value;
use vstd::arithmetic::power2::pow2;
use vstd::arithmetic::power::pow;
use vstd::prelude::*;

verus! {

/// Negating a finite float gives the other sign and the same magnitude: minus its value, and
/// the float itself when done twice. Negating an integer gives minus it.
pub proof fn law_negation_changes_the_sign(x: u64, n: int)
    requires
        finite(x),
    ensures
        negation(NumView::Int(n)) == Computed::Int(-n),
        negation(NumView::Float(x)) is Float,
        ({
            let y = negation(NumView::Float(x))->Float_0;
            &&& x < 0x8000_0000_0000_0000 ==> y == x + 0x8000_0000_0000_0000
            &&& x >= 0x8000_0000_0000_0000 ==> y == x - 0x8000_0000_0000_0000
            &&& finite(y)
            &&& exact_float(x) is Finite && exact_float(y) is Finite
            &&& exact_float(y)->Finite_0 == -exact_float(x)->Finite_0
            &&& negation(NumView::Float(y)) == Computed::Float(x)
        }),
{
    let y = flipped(x);
    assert(SIGN_WEIGHT == 0x8000_0000_0000_0000u64);
    let w: int = 0x8000_0000_0000_0000;
    assert(unsigned_part(y) == unsigned_part(x)) by {
        if x < 0x8000_0000_0000_0000 {
            vstd::arithmetic::div_mod::lemma_mod_add_multiples_vanish(x as int, w);
        } else {
            vstd::arithmetic::div_mod::lemma_mod_sub_multiples_vanish(x as int, w);
        }
    }
    assert(fraction(y) == fraction(x)) by {
        let e: int = EXPONENT_WEIGHT as int;
        assert(w == e * 2048) by (nonlinear_arith)
            requires
                w == 0x8000_0000_0000_0000int,
                e == 0x10_0000_0000_0000int,
        ;
        if x < 0x8000_0000_0000_0000 {
            vstd::arithmetic::div_mod::lemma_mod_multiples_vanish(2048, x as int, e);
        } else {
            vstd::arithmetic::div_mod::lemma_mod_multiples_vanish(2048, y as int, e);
        }
    }
    assert(flipped(y) == x);
}

/// What a unary operator comes to on a value: `-` gives minus the number and `+` the value
/// itself; anything but a number is refused, and so is a float that is not finite.
pub proof fn law_unary_operators(h: HeapView, v: Value, span: Span)
    requires
        h.bigs.len() < usize::MAX,
    ensures
        ({
            let (r, g) = unary_outcome(UnaryOp::Neg, v, h, span);
            &&& number(h, v) is None ==> r is Err && r->Err_0.kind == ExceptionKind::TypeMismatch
            &&& number(h, v) matches Some(NumView::Int(n)) ==> r is Ok && number(g, r->Ok_0)
                == Some(NumView::Int(-n)) && (r->Ok_0 is Int <==> i64::MIN <= -n <= i64::MAX)
            &&& number(h, v) matches Some(NumView::Float(x)) ==> {
                &&& finite(x) ==> r is Ok && number(g, r->Ok_0) is Some && number(
                    g,
                    r->Ok_0,
                )->0 is Float && number(g, r->Ok_0)->0.exact() == Exact::Finite(
                    -exact_float(x)->Finite_0,
                )
                &&& !finite(x) ==> r is Err && r->Err_0.kind == ExceptionKind::NonFiniteFloat
            }
        }),
        ({
            let (r, g) = unary_outcome(UnaryOp::Pos, v, h, span);
            &&& number(h, v) is None ==> r is Err && r->Err_0.kind == ExceptionKind::TypeMismatch
            &&& g == h
            &&& number(h, v) is Some && (v is Float ==> finite(v->Float_0)) ==> r == Ok::<
                Value,
                RaiseView,
            >(v)
        }),
{
    if let Value::Float(x) = v {
        if finite(x) {
            law_negation_changes_the_sign(x, 0);
        } else {
            assert(unsigned_part(flipped(x)) == unsigned_part(x)) by {
                let w: int = 0x8000_0000_0000_0000;
                if x < 0x8000_0000_0000_0000 {
                    vstd::arithmetic::div_mod::lemma_mod_add_multiples_vanish(x as int, w);
                } else {
                    vstd::arithmetic::div_mod::lemma_mod_sub_multiples_vanish(x as int, w);
                }
            }
        }
    }
    if let Some(NumView::Int(n)) = number(h, v) {
        law_integers_are_canonical(h, -n);
    }
}

/// A float's exact value is zero exactly if it is zero of either sign.
proof fn lemma_zero(n: NumView)
    ensures
        zero(n) <==> n.exact() == Exact::Finite(0),
{
    match n {
        NumView::Int(v) => {
            vstd::arithmetic::power2::lemma_pow2_pos(1074);
            assert(v * pow2(1074) == 0 <==> v == 0) by (nonlinear_arith)
                requires
                    pow2(1074) > 0,
            ;
        },
        NumView::Float(x) => {
            vstd::arithmetic::power2::lemma_pow2_pos(scale(x));
            let (a, b) = (significand(x), pow2(scale(x)) as int);
            assert(a * b == 0 <==> a == 0) by (nonlinear_arith)
                requires
                    b > 0,
            ;
            let w: int = SIGN_WEIGHT as int;
            let e: int = EXPONENT_WEIGHT as int;
            assert(w == e * 2048) by (nonlinear_arith)
                requires
                    w == 0x8000_0000_0000_0000int,
                    e == 0x10_0000_0000_0000int,
            ;
            vstd::arithmetic::div_mod::lemma_mod_mod(x as int, e, 2048);
            vstd::arithmetic::div_mod::lemma_fundamental_div_mod(unsigned_part(x), e);
            assert(unsigned_part(x) % e == fraction(x));
        },
    }
}

/// Dividing by zero, whatever its kind and sign, is refused, and by nothing else is.
pub proof fn law_division_by_zero(op: BinaryOp, a: NumView, b: NumView)
    ensures
        computed(op, a, b) is DivisionByZero <==> (op is Div || op is FloorDiv || op is Rem)
            && b.exact() == Exact::Finite(0),
{
    lemma_zero(b);
}

/// Two integers: a power multiplies the base so many times; a quotient is that of the nearest
/// floats, and so is a power with a negative exponent.
pub proof fn law_integer_powers_and_quotients(x: int, y: int)
    ensures
        computed(BinaryOp::Pow, NumView::Int(x), NumView::Int(0)) == Computed::Int(1),
        y >= 0 ==> {
            let p = computed(BinaryOp::Pow, NumView::Int(x), NumView::Int(y));
            let q = computed(BinaryOp::Pow, NumView::Int(x), NumView::Int(y + 1));
            p is Int && q is Int && q->Int_0 == x * p->Int_0
        },
        y != 0 && int_to_float(x) is Some && int_to_float(y) is Some && finite(int_to_float(x)->0)
            && finite(int_to_float(y)->0) ==> {
            let f = float_quotient(int_to_float(x)->0, int_to_float(y)->0);
            let q = computed(BinaryOp::Div, NumView::Int(x), NumView::Int(y));
            (finite(f) ==> q == Computed::Float(f)) && (!finite(f) ==> q is NonFinite)
        },
        y < 0 && int_to_float(x) is Some && int_to_float(y) is Some && finite(int_to_float(x)->0)
            && finite(int_to_float(y)->0) ==> {
            let f = float_power(int_to_float(x)->0, int_to_float(y)->0);
            let q = computed(BinaryOp::Pow, NumView::Int(x), NumView::Int(y));
            (finite(f) ==> q == Computed::Float(f)) && (!finite(f) ==> q is NonFinite)
        },
        y != 0 && (int_to_float(x) is None || !finite(int_to_float(x)->0)) ==> computed(
            BinaryOp::Div,
            NumView::Int(x),
            NumView::Int(y),
        ) is NonFinite,
{
    reveal(vstd::arithmetic::power::pow);
    vstd::arithmetic::power::lemma_pow0(x);
    if y >= 0 {
        assert(pow(x, (y + 1) as nat) == x * pow(x, y as nat));
    }
}

/// Two floats, neither of which is a divisor of zero: the operator's own float, or a refusal
/// where that is not finite. A floored quotient is the quotient rounded down; a remainder that
/// has not the divisor's sign has the divisor added.
pub proof fn law_float_operators(x: u64, y: u64, op: BinaryOp)
    requires
        (op is Div || op is FloorDiv || op is Rem) ==> exact_float(y) != Exact::Finite(0),
        op is Add || op is Sub || op is Mul || op is Div || op is FloorDiv || op is Rem || op is Pow,
    ensures
        ({
            let r = computed(op, NumView::Float(x), NumView::Float(y));
            let is = |f: u64| (finite(f) ==> r == Computed::Float(f)) && (!finite(f) ==> r
                is NonFinite);
            let m = float_remainder(x, y);
            let q = float_quotient(x, y);
            &&& op is Add ==> is(float_sum(x, y))
            &&& op is Sub ==> is(float_difference(x, y))
            &&& op is Mul ==> is(float_product(x, y))
            &&& op is Div ==> is(q)
            &&& op is Pow ==> is(float_power(x, y))
            &&& op is FloorDiv && !nan(q) ==> is(float_floor(q))
            &&& op is FloorDiv && nan(q) ==> r is NonFinite
            &&& op is Rem && (exact_float(m) == Exact::Finite(0) || nan(m) || (m
                >= 0x8000_0000_0000_0000) == (y >= 0x8000_0000_0000_0000)) ==> is(m)
            &&& op is Rem && exact_float(m) != Exact::Finite(0) && !nan(m) && (m
                >= 0x8000_0000_0000_0000) != (y >= 0x8000_0000_0000_0000) ==> is(float_sum(m, y))
        }),
{
    lemma_zero(NumView::Float(y));
    lemma_zero(NumView::Float(float_remainder(x, y)));
    assert(SIGN_WEIGHT == 0x8000_0000_0000_0000u64);
}

/// An integer beside a float is taken for the nearest float, on either side; one without a
/// finite float is refused.
pub proof fn law_mixed_operands(op: BinaryOp, n: int, x: u64)
    requires
        op is Add || op is Sub || op is Mul || op is Div || op is FloorDiv || op is Rem || op is Pow,
    ensures
        int_to_float(n) is Some && finite(int_to_float(n)->0) ==> {
            let f = int_to_float(n)->0;
            &&& (op is Div || op is FloorDiv || op is Rem ==> exact_float(x) != Exact::Finite(0))
                ==> computed(op, NumView::Int(n), NumView::Float(x)) == (
            if zero(NumView::Float(x)) && (op is Div || op is FloorDiv || op is Rem) {
                Computed::DivisionByZero
            } else {
                computed(op, NumView::Float(f), NumView::Float(x))
            })
            &&& n != 0 && exact_float(f) != Exact::Finite(0) ==> computed(
                op,
                NumView::Float(x),
                NumView::Int(n),
            ) == computed(op, NumView::Float(x), NumView::Float(f))
        },
        int_to_float(n) is None || !finite(int_to_float(n)->0) ==> {
            &&& (op is Div || op is FloorDiv || op is Rem ==> exact_float(x) != Exact::Finite(0))
                ==> computed(op, NumView::Int(n), NumView::Float(x)) is NonFinite
            &&& n != 0 ==> computed(op, NumView::Float(x), NumView::Int(n)) is NonFinite
        },
{
    lemma_zero(NumView::Float(x));
    lemma_zero(NumView::Int(n));
    if int_to_float(n) is Some {
        lemma_zero(NumView::Float(int_to_float(n)->0));
    }
}

/// What an arithmetic operator comes to on two values, as long as the result may be computed:
/// the number that it comes to on their numbers, or the exception for it; anything but two
/// numbers is refused.
pub proof fn law_arithmetic_on_values(
    resolved: ResolvedModule,
    modules: Seq<LoadedModule>,
    h: HeapView,
    m: MachineView,
    op: BinaryOp,
    lhs: Value,
    rhs: Value,
    span: Span,
)
    requires
        h.bigs.len() < usize::MAX,
        m.reg == Some(rhs),
        op is Add || op is Sub || op is Mul || op is Div || op is FloorDiv || op is Rem || op is Pow,
    ensures
        ({
            let z = dispatched(resolved, modules, h, m, Work::BinApply { op, lhs, span });
            &&& z.machine.frames == m.frames
            &&& number(h, lhs) is None || number(h, rhs) is None ==> z.raise is Some
                && z.raise->0.kind == ExceptionKind::TypeMismatch && z.heap == h
            &&& (number(h, lhs), number(h, rhs)) matches (Some(a), Some(b)) ==> (
            z.machine.meter.pending_fault == m.meter.pending_fault ==> match computed(op, a, b) {
                Computed::Int(n) => {
                    ||| z.raise is None && z.machine.reg is Some && number(
                        z.heap,
                        z.machine.reg->0,
                    ) == Some(NumView::Int(n))
                    ||| z.machine.reg == Some(Value::Nil) && m.meter.pending_fault is Some
                },
                Computed::Float(x) => {
                    ||| z.raise is None && z.machine.reg == Some(Value::Float(x))
                    ||| z.machine.reg == Some(Value::Nil) && m.meter.pending_fault is Some
                },
                Computed::DivisionByZero => z.raise is Some && z.raise->0.kind
                    == ExceptionKind::DivisionByZero,
                Computed::NonFinite => {
                    ||| z.raise is Some && z.raise->0.kind == ExceptionKind::NonFiniteFloat
                    ||| z.machine.reg == Some(Value::Nil) && m.meter.pending_fault is Some
                },
            })
        }),
{
    reveal(dispatched);
    if let (Some(a), Some(b)) = (number(h, lhs), number(h, rhs)) {
        if let Computed::Int(n) = computed(op, a, b) {
            law_integers_are_canonical(h, n);
        }
    }
}

} // verus!
