//! The numeric tower: integers of any magnitude and floats, as operands. An integer that
//! `i64` holds is always the machine-word value, and any other a heap one.
use crate::bignum::BigNum;
use crate::float::exact_float;
use crate::float::exact_int;
use crate::float::Exact;
use crate::heap::Heap;
use crate::heap::HeapView;
use crate::value::BigIdx;
use crate::value::Value;
use vstd::prelude::*;

verus! {

/// A numeric operand.
pub enum Num {
    /// An exact integer.
    Int(BigNum),
    /// A float, by its bit pattern.
    Float(u64),
}

/// A numeric operand as mathematics sees it.
pub enum NumView {
    /// An exact integer.
    Int(int),
    /// A float, by its bit pattern.
    Float(u64),
}

impl View for Num {
    type V = NumView;

    open spec fn view(&self) -> NumView {
        match self {
            Num::Int(n) => NumView::Int(n@),
            Num::Float(x) => NumView::Float(*x),
        }
    }
}

impl Num {
    /// The integer's representation is canonical.
    pub open spec fn wf(&self) -> bool {
        match self {
            Num::Int(n) => n.wf(),
            Num::Float(_) => true,
        }
    }
}

impl NumView {
    /// The exact value.
    pub open spec fn exact(self) -> Exact {
        match self {
            NumView::Int(n) => exact_int(n),
            NumView::Float(x) => exact_float(x),
        }
    }
}

/// The number a value is.
pub open spec fn number(h: HeapView, v: Value) -> Option<NumView> {
    match v {
        Value::Int(n) => Some(NumView::Int(n as int)),
        Value::BigInt(i) => Some(NumView::Int(h.big(i))),
        Value::Float(x) => Some(NumView::Float(x)),
        _ => None,
    }
}

/// Whether `i64` holds an integer.
pub open spec fn fits_word(n: int) -> bool {
    i64::MIN <= n <= i64::MAX
}

/// The value of an integer, were it made on a heap.
pub open spec fn int_value_of(h: HeapView, n: int) -> Value {
    if fits_word(n) {
        Value::Int(n as i64)
    } else {
        Value::BigInt(BigIdx(h.bigs.len() as usize))
    }
}

/// The heap after making the value of an integer.
pub open spec fn int_value_heap(h: HeapView, n: int) -> HeapView {
    if fits_word(n) {
        h
    } else {
        h.new_big(n)
    }
}

/// The value of an integer: the machine-word one where `i64` holds it, else a new heap one.
pub fn int_value(n: BigNum, heap: &mut Heap) -> (r: Value)
    requires
        n.wf(),
    ensures
        r == int_value_of(old(heap)@, n@),
        final(heap)@ == int_value_heap(old(heap)@, n@),
{
    match n.to_i64() {
        Some(i) => Value::Int(i),
        None => Value::BigInt(heap.alloc_bigint(n)),
    }
}

/// The number a value is.
pub fn as_num(v: Value, heap: &Heap) -> (r: Option<Num>)
    ensures
        r is Some <==> number(heap@, v) is Some,
        r is Some ==> number(heap@, v) == Some(r->0@) && r->0.wf(),
{
    match v {
        Value::Int(n) => Some(Num::Int(BigNum::from_i64(n))),
        Value::BigInt(i) => Some(Num::Int(heap.bigint(i))),
        Value::Float(x) => Some(Num::Float(x)),
        _ => None,
    }
}

/// Making an integer's value and reading it back gives the integer, in the machine-word
/// form exactly where `i64` holds it.
pub proof fn law_integers_are_canonical(h: HeapView, n: int)
    requires
        h.bigs.len() <= usize::MAX,
    ensures
        number(int_value_heap(h, n), int_value_of(h, n)) == Some(NumView::Int(n)),
        int_value_of(h, n) is Int <==> fits_word(n),
{
}

} // verus!
