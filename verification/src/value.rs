//! The machine's value representation: scalars inline, everything else an index into the
//! heap. Identity of indices is not equality of values; that is `crate::compare`'s.
use crate::span::ModuleId;
use vstd::prelude::*;

verus! {

/// The index of a big integer in the heap.
#[derive(Clone, Copy, PartialEq, Eq, Debug, Structural)]
pub struct BigIdx(pub usize);

/// The index of a string in the heap.
#[derive(Clone, Copy, PartialEq, Eq, Debug, Structural)]
pub struct StrIdx(pub usize);

/// The index of a byte string in the heap.
#[derive(Clone, Copy, PartialEq, Eq, Debug, Structural)]
pub struct BytesIdx(pub usize);

/// The index of a list in the heap.
#[derive(Clone, Copy, PartialEq, Eq, Debug, Structural)]
pub struct ListIdx(pub usize);

/// The index of a dict in the heap.
#[derive(Clone, Copy, PartialEq, Eq, Debug, Structural)]
pub struct DictIdx(pub usize);

/// The index of a record in the heap.
#[derive(Clone, Copy, PartialEq, Eq, Debug, Structural)]
pub struct RecIdx(pub usize);

/// The index of a callable in the heap.
#[derive(Clone, Copy, PartialEq, Eq, Debug, Structural)]
pub struct CalIdx(pub usize);

/// The index of a type in the heap.
#[derive(Clone, Copy, PartialEq, Eq, Debug, Structural)]
pub struct TypeIdx(pub usize);

/// The index of a foreign value in the heap.
#[derive(Clone, Copy, PartialEq, Eq, Debug, Structural)]
pub struct ForeignIdx(pub usize);

/// The index of a binding cell in the heap.
#[derive(Clone, Copy, PartialEq, Eq, Debug, Structural)]
pub struct CellIdx(pub usize);

/// A Doodle value as the machine holds it.
#[derive(Clone, Copy, PartialEq, Eq, Debug, Structural)]
pub enum Value {
    /// `nil`.
    Nil,
    /// A boolean.
    Bool(bool),
    /// An integer that `i64` holds.
    Int(i64),
    /// An integer beyond `i64`.
    BigInt(BigIdx),
    /// A binary64 float, by its bit pattern.
    Float(u64),
    /// A string.
    Str(StrIdx),
    /// A byte string.
    Bytes(BytesIdx),
    /// A list.
    List(ListIdx),
    /// A dict.
    Dict(DictIdx),
    /// A record.
    Record(RecIdx),
    /// A procedure or function.
    Callable(CalIdx),
    /// A module.
    Module(ModuleId),
    /// A type.
    Type(TypeIdx),
    /// An opaque host object.
    Foreign(ForeignIdx),
}

impl Value {
    /// The integer of a machine-word integer value.
    pub fn as_int(self) -> (r: Option<i64>)
        ensures
            r == (match self {
                Value::Int(n) => Some(n),
                _ => None,
            }),
    {
        match self {
            Value::Int(n) => Some(n),
            _ => None,
        }
    }
}

/// The language-level kind of a value: an integer is one kind, whatever its magnitude.
#[derive(Clone, Copy, PartialEq, Eq, Debug, Hash, Structural)]
pub enum Kind {
    /// `nil`.
    Nil,
    /// A boolean.
    Bool,
    /// An integer of any magnitude.
    Int,
    /// A float.
    Float,
    /// A string.
    String,
    /// A byte string.
    Bytes,
    /// A list.
    List,
    /// A dict.
    Dict,
    /// A record.
    Record,
    /// A callable.
    Callable,
    /// A module value.
    Module,
    /// A type value.
    Type,
    /// A foreign value.
    Foreign,
}

/// The kind of a value.
pub open spec fn kind_of(v: Value) -> Kind {
    match v {
        Value::Nil => Kind::Nil,
        Value::Bool(_) => Kind::Bool,
        Value::Int(_) => Kind::Int,
        Value::BigInt(_) => Kind::Int,
        Value::Float(_) => Kind::Float,
        Value::Str(_) => Kind::String,
        Value::Bytes(_) => Kind::Bytes,
        Value::List(_) => Kind::List,
        Value::Dict(_) => Kind::Dict,
        Value::Record(_) => Kind::Record,
        Value::Callable(_) => Kind::Callable,
        Value::Module(_) => Kind::Module,
        Value::Type(_) => Kind::Type,
        Value::Foreign(_) => Kind::Foreign,
    }
}

/// The kind of a value.
pub fn value_kind(v: Value) -> (r: Kind)
    ensures
        r == kind_of(v),
{
    match v {
        Value::Nil => Kind::Nil,
        Value::Bool(_) => Kind::Bool,
        Value::Int(_) => Kind::Int,
        Value::BigInt(_) => Kind::Int,
        Value::Float(_) => Kind::Float,
        Value::Str(_) => Kind::String,
        Value::Bytes(_) => Kind::Bytes,
        Value::List(_) => Kind::List,
        Value::Dict(_) => Kind::Dict,
        Value::Record(_) => Kind::Record,
        Value::Callable(_) => Kind::Callable,
        Value::Module(_) => Kind::Module,
        Value::Type(_) => Kind::Type,
        Value::Foreign(_) => Kind::Foreign,
    }
}

} // verus!
