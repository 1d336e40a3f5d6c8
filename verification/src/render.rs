//! Values as text, the same on every machine.
use crate::bignum::decimal_text;
use crate::float::exact_integer;
use crate::float::finite;
use crate::float::fixed_text;
use crate::float::float_text_fixed;
use crate::float::float_text_shortest;
use crate::float::integral;
use crate::float::is_finite;
use crate::float::shortest_text;
use crate::heap::Heap;
use crate::heap::HeapView;
use crate::text::decimal_i64;
use crate::value::Value;
use vstd::prelude::*;

verus! {

/// A float's text: an integral one shows its point.
pub open spec fn float_text(x: u64) -> Seq<char> {
    if finite(x) && integral(x) {
        float_text_fixed(x)
    } else {
        float_text_shortest(x)
    }
}

/// A value's text.
pub open spec fn value_text(h: HeapView, v: Value) -> Seq<char> {
    match v {
        Value::Nil => "nil"@,
        Value::Bool(b) => if b {
            "true"@
        } else {
            "false"@
        },
        Value::Int(n) => decimal_text(n as int),
        Value::BigInt(i) => decimal_text(h.big(i)),
        Value::Float(x) => float_text(x),
        Value::Str(s) => h.text(s),
        Value::Bytes(_) => "<bytes>"@,
        Value::List(_) => "<list>"@,
        Value::Dict(_) => "<dict>"@,
        Value::Record(_) => "<record>"@,
        Value::Callable(_) => "<callable>"@,
        Value::Module(_) => "<module>"@,
        Value::Type(_) => "<type>"@,
        Value::Foreign(_) => "<foreign>"@,
    }
}

fn render_float(x: u64) -> (r: String)
    ensures
        r@ == float_text(x),
{
    if is_finite(x) {
        if exact_integer(x).is_some() {
            return fixed_text(x);
        }
    }
    shortest_text(x)
}

/// A value's text.
pub fn render(heap: &Heap, value: Value) -> (r: String)
    ensures
        r@ == value_text(heap@, value),
{
    match value {
        Value::Nil => "nil".to_owned(),
        Value::Bool(b) => if b {
            "true".to_owned()
        } else {
            "false".to_owned()
        },
        Value::Int(n) => decimal_i64(n),
        Value::BigInt(i) => heap.bigint(i).decimal(),
        Value::Float(x) => render_float(x),
        Value::Str(s) => heap.string(s).to_owned(),
        Value::Bytes(_) => "<bytes>".to_owned(),
        Value::List(_) => "<list>".to_owned(),
        Value::Dict(_) => "<dict>".to_owned(),
        Value::Record(_) => "<record>".to_owned(),
        Value::Callable(_) => "<callable>".to_owned(),
        Value::Module(_) => "<module>".to_owned(),
        Value::Type(_) => "<type>".to_owned(),
        Value::Foreign(_) => "<foreign>".to_owned(),
    }
}

} // verus!
