//! The two protocols the engine itself dispatches: how a value becomes text, and how a key
//! is hashed.
use crate::heap::BuiltinType;
use crate::heap::Heap;
use crate::heap::HeapView;
use crate::value::CalIdx;
use crate::value::TypeIdx;
use crate::value::Value;
use vstd::prelude::*;

verus! {

/// A protocol the engine dispatches.
#[derive(Clone, Copy, PartialEq, Eq, Debug, Structural)]
pub enum WellKnown {
    /// `Stringable`.
    Stringable,
    /// `Hashable`.
    Hashable,
}

/// The type a value dispatches on.
#[derive(Clone, Copy, PartialEq, Eq, Debug, Structural)]
pub enum DispatchType {
    /// A built-in type.
    Builtin(BuiltinType),
    /// A record type.
    Record(TypeIdx),
}

/// An implementation of a protocol for a type.
#[derive(Clone, Copy, PartialEq, Eq, Debug, Structural)]
pub struct Implementation {
    /// The protocol.
    pub protocol: WellKnown,
    /// The type.
    pub on: DispatchType,
    /// What to call.
    pub cal: CalIdx,
}

/// The type a value dispatches on.
pub open spec fn dispatch_type(h: HeapView, v: Value) -> DispatchType {
    match v {
        Value::Nil => DispatchType::Builtin(BuiltinType::Nil),
        Value::Bool(_) => DispatchType::Builtin(BuiltinType::Bool),
        Value::Int(_) => DispatchType::Builtin(BuiltinType::Int),
        Value::BigInt(_) => DispatchType::Builtin(BuiltinType::Int),
        Value::Float(_) => DispatchType::Builtin(BuiltinType::Float),
        Value::Str(_) => DispatchType::Builtin(BuiltinType::String),
        Value::Bytes(_) => DispatchType::Builtin(BuiltinType::Bytes),
        Value::List(_) => DispatchType::Builtin(BuiltinType::List),
        Value::Dict(_) => DispatchType::Builtin(BuiltinType::Dict),
        Value::Record(r) => match h.record(r) {
            Some(rec) => DispatchType::Record(rec.type_idx),
            None => DispatchType::Builtin(BuiltinType::Nil),
        },
        Value::Callable(_) => DispatchType::Builtin(BuiltinType::Callable),
        Value::Module(_) => DispatchType::Builtin(BuiltinType::Module),
        Value::Type(_) => DispatchType::Builtin(BuiltinType::Type),
        Value::Foreign(_) => DispatchType::Builtin(BuiltinType::Foreign),
    }
}

/// The type a value dispatches on.
pub fn dispatch_type_of(v: Value, heap: &Heap) -> (r: DispatchType)
    ensures
        r == dispatch_type(heap@, v),
{
    match v {
        Value::Nil => DispatchType::Builtin(BuiltinType::Nil),
        Value::Bool(_) => DispatchType::Builtin(BuiltinType::Bool),
        Value::Int(_) => DispatchType::Builtin(BuiltinType::Int),
        Value::BigInt(_) => DispatchType::Builtin(BuiltinType::Int),
        Value::Float(_) => DispatchType::Builtin(BuiltinType::Float),
        Value::Str(_) => DispatchType::Builtin(BuiltinType::String),
        Value::Bytes(_) => DispatchType::Builtin(BuiltinType::Bytes),
        Value::List(_) => DispatchType::Builtin(BuiltinType::List),
        Value::Dict(_) => DispatchType::Builtin(BuiltinType::Dict),
        Value::Record(r) => match heap.record(r) {
            Some(rec) => DispatchType::Record(rec.type_idx),
            None => DispatchType::Builtin(BuiltinType::Nil),
        },
        Value::Callable(_) => DispatchType::Builtin(BuiltinType::Callable),
        Value::Module(_) => DispatchType::Builtin(BuiltinType::Module),
        Value::Type(_) => DispatchType::Builtin(BuiltinType::Type),
        Value::Foreign(_) => DispatchType::Builtin(BuiltinType::Foreign),
    }
}

/// The first implementation of a protocol for a type, from a position on.
pub open spec fn implementation_from(
    all: Seq<Implementation>,
    protocol: WellKnown,
    on: DispatchType,
    from: nat,
) -> Option<CalIdx>
    decreases all.len() - from,
{
    if from >= all.len() {
        None
    } else if all[from as int].protocol == protocol && all[from as int].on == on {
        Some(all[from as int].cal)
    } else {
        implementation_from(all, protocol, on, from + 1)
    }
}

/// The implementation of a protocol that a value dispatches to.
pub open spec fn implementation(
    all: Seq<Implementation>,
    protocol: WellKnown,
    h: HeapView,
    v: Value,
) -> Option<CalIdx> {
    implementation_from(all, protocol, dispatch_type(h, v), 0)
}

/// The implementation of a protocol that a value dispatches to.
pub fn resolve(all: &Vec<Implementation>, protocol: WellKnown, heap: &Heap, v: Value) -> (r: Option<
    CalIdx,
>)
    ensures
        r == implementation(all@, protocol, heap@, v),
{
    let on = dispatch_type_of(v, heap);
    let mut i: usize = 0;
    while i < all.len()
        invariant
            i <= all@.len(),
            on == dispatch_type(heap@, v),
            implementation(all@, protocol, heap@, v) == implementation_from(
                all@,
                protocol,
                on,
                i as nat,
            ),
        decreases all@.len() - i,
    {
        if all[i].protocol == protocol && all[i].on == on {
            return Some(all[i].cal);
        }
        i = i + 1;
    }
    None
}

} // verus!
