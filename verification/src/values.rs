//! Values as the host sees them: made and read through handles, each reader checking the
//! handle and the kind.
use crate::bignum::decimal_text;
use crate::bignum::int_literal;
use crate::bignum::BigNum;
use crate::float::is_nan;
use crate::float::nan;
use crate::float::CANONICAL_NAN_BITS;
use crate::handle::Handle;
use crate::handle::HandleError;
use crate::handle::HandleTable;
use crate::handle::TableView;
use crate::heap::at;
use crate::heap::replaced;
use crate::heap::ForeignObj;
use crate::heap::Heap;
use crate::heap::HeapView;
use crate::number::int_value;
use crate::number::int_value_heap;
use crate::number::int_value_of;
use crate::text::decimal_i64;
use crate::unicode::from_utf8;
use crate::unicode::nfc;
use crate::unicode::nfc_text;
use crate::value::kind_of as kind_of_value;
use crate::value::value_kind;
use crate::value::BytesIdx;
use crate::value::ForeignIdx;
use crate::value::Kind;
use crate::value::ListIdx;
use crate::value::StrIdx;
use crate::value::Value;
use vstd::prelude::*;
use vstd::utf8::decode_utf8;
use vstd::utf8::encode_utf8;
use vstd::utf8::valid_utf8;

verus! {

/// Why an operation on a handle's value failed.
#[derive(Clone, Copy, PartialEq, Eq, Debug, Structural)]
pub enum ValueError {
    /// The handle was released, or never handed out.
    Stale,
    /// The value is of another kind than the operation needs.
    WrongKind {
        /// The kind the operation needs.
        expected: Kind,
        /// The kind of the value.
        got: Kind,
    },
    /// The integer is beyond `i64`.
    IntOutOfRange,
    /// There is no element at the index.
    IndexOutOfBounds,
    /// The bytes are not well-formed UTF-8.
    InvalidUtf8 {
        /// The offset of the first ill-formed sequence.
        position: usize,
    },
    /// The text is no decimal integer.
    MalformedInt,
}

impl From<HandleError> for ValueError {
    fn from(e: HandleError) -> (r: ValueError) {
        ValueError::Stale
    }
}

impl vstd::std_specs::convert::FromSpecImpl<HandleError> for ValueError {
    open spec fn obeys_from_spec() -> bool {
        true
    }

    open spec fn from_spec(e: HandleError) -> ValueError {
        ValueError::Stale
    }
}

/// The value a handle names.
pub open spec fn read(t: TableView, h: Handle) -> Result<Value, ValueError> {
    match t.resolve(h) {
        Some(v) => Ok(v),
        None => Err(ValueError::Stale),
    }
}

/// The error for a value of another kind.
pub open spec fn unlike(v: Value, expected: Kind) -> ValueError {
    ValueError::WrongKind { expected, got: kind_of_value(v) }
}

/// A result whose value is taken by its view.
pub open spec fn seen<T: View, E>(r: Result<T, E>) -> Result<T::V, E> {
    match r {
        Ok(v) => Ok(v@),
        Err(e) => Err(e),
    }
}

/// The kind a handle's value has.
pub open spec fn kind_read(t: TableView, h: Handle) -> Result<Kind, ValueError> {
    match read(t, h) {
        Ok(v) => Ok(kind_of_value(v)),
        Err(e) => Err(e),
    }
}

/// A handle's integer.
pub open spec fn int_read(t: TableView, h: Handle) -> Result<i64, ValueError> {
    match read(t, h) {
        Ok(Value::Int(n)) => Ok(n),
        Ok(Value::BigInt(_)) => Err(ValueError::IntOutOfRange),
        Ok(v) => Err(unlike(v, Kind::Int)),
        Err(e) => Err(e),
    }
}

/// A handle's integer in decimal.
pub open spec fn decimal_read(t: TableView, heap: HeapView, h: Handle) -> Result<
    Seq<char>,
    ValueError,
> {
    match read(t, h) {
        Ok(Value::Int(n)) => Ok(decimal_text(n as int)),
        Ok(Value::BigInt(i)) => Ok(decimal_text(heap.big(i))),
        Ok(v) => Err(unlike(v, Kind::Int)),
        Err(e) => Err(e),
    }
}

/// A handle's boolean.
pub open spec fn bool_read(t: TableView, h: Handle) -> Result<bool, ValueError> {
    match read(t, h) {
        Ok(Value::Bool(b)) => Ok(b),
        Ok(v) => Err(unlike(v, Kind::Bool)),
        Err(e) => Err(e),
    }
}

/// A handle's float, by its bit pattern.
pub open spec fn float_read(t: TableView, h: Handle) -> Result<u64, ValueError> {
    match read(t, h) {
        Ok(Value::Float(x)) => Ok(x),
        Ok(v) => Err(unlike(v, Kind::Float)),
        Err(e) => Err(e),
    }
}

/// Whether a handle's value is `nil`.
pub open spec fn nil_read(t: TableView, h: Handle) -> Result<bool, ValueError> {
    match read(t, h) {
        Ok(v) => Ok(v is Nil),
        Err(e) => Err(e),
    }
}

/// The UTF-8 bytes of a handle's string.
pub open spec fn string_read(t: TableView, heap: HeapView, h: Handle) -> Result<Seq<u8>, ValueError> {
    match read(t, h) {
        Ok(Value::Str(i)) => Ok(encode_utf8(heap.text(i))),
        Ok(v) => Err(unlike(v, Kind::String)),
        Err(e) => Err(e),
    }
}

/// The bytes of a handle's byte string.
pub open spec fn bytes_read(t: TableView, heap: HeapView, h: Handle) -> Result<Seq<u8>, ValueError> {
    match read(t, h) {
        Ok(Value::Bytes(i)) => Ok(heap.bytes_of(i)),
        Ok(v) => Err(unlike(v, Kind::Bytes)),
        Err(e) => Err(e),
    }
}

/// The items of a handle's list.
pub open spec fn list_read(t: TableView, heap: HeapView, h: Handle) -> Result<
    Seq<Value>,
    ValueError,
> {
    match read(t, h) {
        Ok(Value::List(i)) => Ok(heap.items(i)),
        Ok(v) => Err(unlike(v, Kind::List)),
        Err(e) => Err(e),
    }
}

/// The object of a handle's foreign value.
pub open spec fn foreign_read(t: TableView, heap: HeapView, h: Handle) -> Result<
    ForeignObj,
    ValueError,
> {
    match read(t, h) {
        Ok(Value::Foreign(i)) => match heap.foreign(i) {
            Some(f) => Ok(f),
            None => Err(ValueError::Stale),
        },
        Ok(v) => Err(unlike(v, Kind::Foreign)),
        Err(e) => Err(e),
    }
}

/// An item of a sequence.
pub open spec fn nth<T>(items: Seq<T>, index: int) -> Result<T, ValueError> {
    if index < items.len() {
        Ok(items[index])
    } else {
        Err(ValueError::IndexOutOfBounds)
    }
}

/// A float with any NaN made the one NaN.
pub open spec fn canonical(bits: u64) -> u64 {
    if nan(bits) {
        CANONICAL_NAN_BITS
    } else {
        bits
    }
}

/// Gives a value a handle.
pub fn intern(handles: &mut HandleTable, value: Value) -> (r: Handle)
    requires
        old(handles)@.wf(),
        old(handles)@.room(1),
    ensures
        r == old(handles)@.next_handle(),
        final(handles)@ == old(handles)@.interned(value),
        final(handles)@.wf(),
{
    handles.intern(value)
}

/// The value a handle names.
pub fn value_of(handles: &HandleTable, handle: Handle) -> (r: Result<Value, ValueError>)
    ensures
        r == read(handles@, handle),
{
    match handles.resolve(handle) {
        Ok(v) => Ok(v),
        Err(e) => Err(ValueError::from(e)),
    }
}

/// The error for a value of another kind.
pub fn wrong_kind(value: Value, expected: Kind) -> (r: ValueError)
    ensures
        r == unlike(value, expected),
{
    ValueError::WrongKind { expected, got: value_kind(value) }
}

/// Makes an integer.
pub fn make_int(handles: &mut HandleTable, value: i64) -> (r: Handle)
    requires
        old(handles)@.wf(),
        old(handles)@.room(1),
    ensures
        r == old(handles)@.next_handle(),
        final(handles)@ == old(handles)@.interned(Value::Int(value)),
        final(handles)@.wf(),
{
    handles.intern(Value::Int(value))
}

/// Makes an integer of any magnitude from its decimal text.
pub fn make_int_decimal(handles: &mut HandleTable, heap: &mut Heap, decimal: &str) -> (r: Result<
    Handle,
    ValueError,
>)
    requires
        old(handles)@.wf(),
        old(handles)@.room(1),
    ensures
        final(handles)@.wf(),
        (match int_literal(decimal@, 10) {
            Some(n) => {
                &&& r == Ok::<Handle, ValueError>(old(handles)@.next_handle())
                &&& final(handles)@ == old(handles)@.interned(int_value_of(old(heap)@, n))
                &&& final(heap)@ == int_value_heap(old(heap)@, n)
            },
            None => {
                &&& r == Err::<Handle, ValueError>(ValueError::MalformedInt)
                &&& final(handles)@ == old(handles)@
                &&& final(heap)@ == old(heap)@
            },
        }),
{
    match BigNum::parse(decimal) {
        Some(n) => {
            let value = int_value(n, heap);
            Ok(handles.intern(value))
        },
        None => Err(ValueError::MalformedInt),
    }
}

/// Makes a boolean.
pub fn make_bool(handles: &mut HandleTable, value: bool) -> (r: Handle)
    requires
        old(handles)@.wf(),
        old(handles)@.room(1),
    ensures
        r == old(handles)@.next_handle(),
        final(handles)@ == old(handles)@.interned(Value::Bool(value)),
        final(handles)@.wf(),
{
    handles.intern(Value::Bool(value))
}

/// Makes `nil`.
pub fn make_nil(handles: &mut HandleTable) -> (r: Handle)
    requires
        old(handles)@.wf(),
        old(handles)@.room(1),
    ensures
        r == old(handles)@.next_handle(),
        final(handles)@ == old(handles)@.interned(Value::Nil),
        final(handles)@.wf(),
{
    handles.intern(Value::Nil)
}

/// Makes a float from its bit pattern: any NaN becomes the one NaN, everything else stays.
pub fn make_float(handles: &mut HandleTable, bits: u64) -> (r: Handle)
    requires
        old(handles)@.wf(),
        old(handles)@.room(1),
    ensures
        r == old(handles)@.next_handle(),
        final(handles)@ == old(handles)@.interned(Value::Float(canonical(bits))),
        final(handles)@.wf(),
{
    let kept: u64 = if is_nan(bits) {
        CANONICAL_NAN_BITS
    } else {
        bits
    };
    handles.intern(Value::Float(kept))
}

fn copy_bytes(bytes: &[u8]) -> (r: Vec<u8>)
    ensures
        r@ == bytes@,
{
    let mut r: Vec<u8> = Vec::new();
    let mut i: usize = 0;
    while i < bytes.len()
        invariant
            i <= bytes@.len(),
            r@ =~= bytes@.take(i as int),
        decreases bytes@.len() - i,
    {
        r.push(bytes[i]);
        i = i + 1;
    }
    assert(r@ =~= bytes@);
    r
}

/// Whether a position is where bytes stop being well-formed UTF-8.
pub open spec fn first_bad(bytes: Seq<u8>, position: int) -> bool {
    &&& 0 <= position < bytes.len()
    &&& valid_utf8(bytes.take(position))
    &&& forall|j: int| position < j <= bytes.len() ==> !valid_utf8(#[trigger] bytes.take(j))
}

/// Decodes UTF-8 and composes the text, or says where the bytes stop being well-formed.
pub fn decode_text(bytes: &Vec<u8>) -> (r: Result<String, usize>)
    ensures
        r is Ok <==> valid_utf8(bytes@),
        r is Ok ==> r->Ok_0@ == nfc_text(decode_utf8(bytes@)),
        r is Err ==> first_bad(bytes@, r->Err_0 as int),
{
    match from_utf8(bytes) {
        Ok(text) => {
            proof {
                vstd::utf8::encode_utf8_decode_utf8(text@);
            }
            Ok(nfc(text.as_str()))
        },
        Err(position) => Err(position),
    }
}

/// Makes a string from UTF-8 bytes, in canonical composition.
pub fn make_string(handles: &mut HandleTable, heap: &mut Heap, bytes: &[u8]) -> (r: Result<
    Handle,
    ValueError,
>)
    requires
        old(handles)@.wf(),
        old(handles)@.room(1),
    ensures
        final(handles)@.wf(),
        r is Ok <==> valid_utf8(bytes@),
        r is Ok ==> {
            &&& r->Ok_0 == old(handles)@.next_handle()
            &&& final(handles)@ == old(handles)@.interned(
                Value::Str(StrIdx(old(heap)@.strings.len() as usize)),
            )
            &&& final(heap)@ == old(heap)@.new_string(nfc_text(decode_utf8(bytes@)))
        },
        r is Err ==> {
            &&& r->Err_0 is InvalidUtf8
            &&& first_bad(bytes@, r->Err_0->InvalidUtf8_position as int)
            &&& final(handles)@ == old(handles)@
            &&& final(heap)@ == old(heap)@
        },
{
    let copy = copy_bytes(bytes);
    match decode_text(&copy) {
        Ok(text) => {
            let i = heap.alloc_string(text);
            Ok(handles.intern(Value::Str(i)))
        },
        Err(position) => Err(ValueError::InvalidUtf8 { position }),
    }
}

/// Makes a byte string.
pub fn make_bytes(handles: &mut HandleTable, heap: &mut Heap, bytes: &[u8]) -> (r: Handle)
    requires
        old(handles)@.wf(),
        old(handles)@.room(1),
    ensures
        r == old(handles)@.next_handle(),
        final(handles)@ == old(handles)@.interned(
            Value::Bytes(BytesIdx(old(heap)@.bytes.len() as usize)),
        ),
        final(handles)@.wf(),
        final(heap)@ == old(heap)@.new_bytes(bytes@),
{
    let i = heap.alloc_bytes(copy_bytes(bytes));
    handles.intern(Value::Bytes(i))
}

/// Makes an empty list.
pub fn make_list(handles: &mut HandleTable, heap: &mut Heap) -> (r: Handle)
    requires
        old(handles)@.wf(),
        old(handles)@.room(1),
    ensures
        r == old(handles)@.next_handle(),
        final(handles)@ == old(handles)@.interned(
            Value::List(ListIdx(old(heap)@.lists.len() as usize)),
        ),
        final(handles)@.wf(),
        final(heap)@ == old(heap)@.new_list(Seq::empty()),
{
    let items: Vec<Value> = Vec::new();
    assert(items@ =~= Seq::empty());
    let i = heap.alloc_list(items);
    handles.intern(Value::List(i))
}

/// The heap with a value appended to a list, or why not.
pub open spec fn list_grown(t: TableView, heap: HeapView, list: Handle, value: Handle) -> Result<
    HeapView,
    ValueError,
> {
    match read(t, list) {
        Ok(Value::List(i)) => match read(t, value) {
            Ok(v) => Ok(
                HeapView {
                    lists: replaced(heap.lists, i.0 as int, heap.items(i).push(v)),
                    ..heap
                },
            ),
            Err(e) => Err(e),
        },
        Ok(v) => Err(unlike(v, Kind::List)),
        Err(e) => Err(e),
    }
}

/// Appends a value to a list.
pub fn list_append(handles: &HandleTable, heap: &mut Heap, list: Handle, value: Handle) -> (r:
    Result<(), ValueError>)
    ensures
        (match list_grown(handles@, old(heap)@, list, value) {
            Ok(after) => r is Ok && final(heap)@ == after,
            Err(e) => r == Err::<(), ValueError>(e) && final(heap)@ == old(heap)@,
        }),
{
    match value_of(handles, list) {
        Ok(Value::List(i)) => match value_of(handles, value) {
            Ok(v) => {
                heap.list_push(i, v);
                Ok(())
            },
            Err(e) => Err(e),
        },
        Ok(v) => Err(wrong_kind(v, Kind::List)),
        Err(e) => Err(e),
    }
}

/// Makes a foreign value.
pub fn make_foreign(
    handles: &mut HandleTable,
    heap: &mut Heap,
    tag: u64,
    ptr: u64,
    finalizer: Option<u64>,
) -> (r: Handle)
    requires
        old(handles)@.wf(),
        old(handles)@.room(1),
    ensures
        r == old(handles)@.next_handle(),
        final(handles)@ == old(handles)@.interned(
            Value::Foreign(ForeignIdx(old(heap)@.foreigns.len() as usize)),
        ),
        final(handles)@.wf(),
        final(heap)@ == old(heap)@.new_foreign(ForeignObj { tag, ptr, finalizer }),
{
    let i = heap.alloc_foreign(tag, ptr, finalizer);
    handles.intern(Value::Foreign(i))
}

/// The kind of a handle's value.
pub fn kind_of(handles: &HandleTable, handle: Handle) -> (r: Result<Kind, ValueError>)
    ensures
        r == kind_read(handles@, handle),
{
    match value_of(handles, handle) {
        Ok(v) => Ok(value_kind(v)),
        Err(e) => Err(e),
    }
}

/// Reads an integer.
pub fn as_int(handles: &HandleTable, handle: Handle) -> (r: Result<i64, ValueError>)
    ensures
        r == int_read(handles@, handle),
{
    match value_of(handles, handle) {
        Ok(Value::Int(n)) => Ok(n),
        Ok(Value::BigInt(_)) => Err(ValueError::IntOutOfRange),
        Ok(v) => Err(wrong_kind(v, Kind::Int)),
        Err(e) => Err(e),
    }
}

/// Reads an integer of any magnitude in decimal.
pub fn as_int_decimal(handles: &HandleTable, heap: &Heap, handle: Handle) -> (r: Result<
    String,
    ValueError,
>)
    ensures
        seen(r) == decimal_read(handles@, heap@, handle),
{
    match value_of(handles, handle) {
        Ok(Value::Int(n)) => Ok(decimal_i64(n)),
        Ok(Value::BigInt(i)) => Ok(heap.bigint(i).decimal()),
        Ok(v) => Err(wrong_kind(v, Kind::Int)),
        Err(e) => Err(e),
    }
}

/// Reads a boolean.
pub fn as_bool(handles: &HandleTable, handle: Handle) -> (r: Result<bool, ValueError>)
    ensures
        r == bool_read(handles@, handle),
{
    match value_of(handles, handle) {
        Ok(Value::Bool(b)) => Ok(b),
        Ok(v) => Err(wrong_kind(v, Kind::Bool)),
        Err(e) => Err(e),
    }
}

/// Reads a float, by its bit pattern.
pub fn as_float(handles: &HandleTable, handle: Handle) -> (r: Result<u64, ValueError>)
    ensures
        r == float_read(handles@, handle),
{
    match value_of(handles, handle) {
        Ok(Value::Float(x)) => Ok(x),
        Ok(v) => Err(wrong_kind(v, Kind::Float)),
        Err(e) => Err(e),
    }
}

/// Whether a handle's value is `nil`.
pub fn is_nil(handles: &HandleTable, handle: Handle) -> (r: Result<bool, ValueError>)
    ensures
        r == nil_read(handles@, handle),
{
    match value_of(handles, handle) {
        Ok(Value::Nil) => Ok(true),
        Ok(_) => Ok(false),
        Err(e) => Err(e),
    }
}

/// The UTF-8 bytes of a string.
pub fn string_bytes<'a>(handles: &HandleTable, heap: &'a Heap, handle: Handle) -> (r: Result<
    &'a [u8],
    ValueError,
>)
    ensures
        seen(r) == string_read(handles@, heap@, handle),
{
    match value_of(handles, handle) {
        Ok(Value::Str(i)) => Ok(heap.string(i).as_bytes()),
        Ok(v) => Err(wrong_kind(v, Kind::String)),
        Err(e) => Err(e),
    }
}

/// The bytes of a byte string.
pub fn as_bytes<'a>(handles: &HandleTable, heap: &'a Heap, handle: Handle) -> (r: Result<
    &'a [u8],
    ValueError,
>)
    ensures
        seen(r) == bytes_read(handles@, heap@, handle),
{
    match value_of(handles, handle) {
        Ok(Value::Bytes(i)) => match heap.byte_string(i) {
            Some(b) => Ok(b.as_slice()),
            None => {
                proof {
                    reveal_strlit("");
                    assert(""@ =~= Seq::<char>::empty());
                    assert(encode_utf8(""@) =~= Seq::<u8>::empty());
                }
                Ok("".as_bytes())
            },
        },
        Ok(v) => Err(wrong_kind(v, Kind::Bytes)),
        Err(e) => Err(e),
    }
}

/// The length of a list.
pub fn list_length(handles: &HandleTable, heap: &Heap, handle: Handle) -> (r: Result<
    usize,
    ValueError,
>)
    ensures
        (match list_read(handles@, heap@, handle) {
            Ok(items) => r is Ok && r->Ok_0 == items.len(),
            Err(e) => r == Err::<usize, ValueError>(e),
        }),
{
    match value_of(handles, handle) {
        Ok(Value::List(i)) => match heap.list(i) {
            Some(items) => Ok(items.len()),
            None => Ok(0),
        },
        Ok(v) => Err(wrong_kind(v, Kind::List)),
        Err(e) => Err(e),
    }
}

/// What an item of a handle's list is.
pub open spec fn item_read(t: TableView, heap: HeapView, h: Handle, index: int) -> Result<
    Value,
    ValueError,
> {
    match list_read(t, heap, h) {
        Ok(items) => nth(items, index),
        Err(e) => Err(e),
    }
}

/// Gives an item of a list a handle.
pub fn list_get(handles: &mut HandleTable, heap: &Heap, handle: Handle, index: usize) -> (r: Result<
    Handle,
    ValueError,
>)
    requires
        old(handles)@.wf(),
        old(handles)@.room(1),
    ensures
        final(handles)@.wf(),
        handed(
            old(handles)@,
            final(handles)@,
            item_read(old(handles)@, heap@, handle, index as int),
            r,
        ),
{
    let item = match value_of(handles, handle) {
        Ok(Value::List(i)) => match heap.list(i) {
            Some(items) => {
                if index < items.len() {
                    items[index]
                } else {
                    return Err(ValueError::IndexOutOfBounds);
                }
            },
            None => {
                return Err(ValueError::IndexOutOfBounds);
            },
        },
        Ok(v) => {
            return Err(wrong_kind(v, Kind::List));
        },
        Err(e) => {
            return Err(e);
        },
    };
    Ok(handles.intern(item))
}

/// Whether a read value was given a fresh handle, or a failed read left the table alone.
pub open spec fn handed(
    before: TableView,
    after: TableView,
    read: Result<Value, ValueError>,
    r: Result<Handle, ValueError>,
) -> bool {
    match read {
        Ok(v) => r == Ok::<Handle, ValueError>(before.next_handle()) && after == before.interned(v),
        Err(e) => r == Err::<Handle, ValueError>(e) && after == before,
    }
}

/// The type tag of a foreign value.
pub fn foreign_tag(handles: &HandleTable, heap: &Heap, handle: Handle) -> (r: Result<
    u64,
    ValueError,
>)
    ensures
        r == (match foreign_read(handles@, heap@, handle) {
            Ok(f) => Ok(f.tag),
            Err(e) => Err(e),
        }),
{
    match value_of(handles, handle) {
        Ok(Value::Foreign(i)) => match heap.foreign(i) {
            Some(f) => Ok(f.tag),
            None => Err(ValueError::Stale),
        },
        Ok(v) => Err(wrong_kind(v, Kind::Foreign)),
        Err(e) => Err(e),
    }
}

/// The host token of a foreign value.
pub fn foreign_ptr(handles: &HandleTable, heap: &Heap, handle: Handle) -> (r: Result<
    u64,
    ValueError,
>)
    ensures
        r == (match foreign_read(handles@, heap@, handle) {
            Ok(f) => Ok(f.ptr),
            Err(e) => Err(e),
        }),
{
    match value_of(handles, handle) {
        Ok(Value::Foreign(i)) => match heap.foreign(i) {
            Some(f) => Ok(f.ptr),
            None => Err(ValueError::Stale),
        },
        Ok(v) => Err(wrong_kind(v, Kind::Foreign)),
        Err(e) => Err(e),
    }
}

/// Releases a handle.
pub fn release(handles: &mut HandleTable, handle: Handle) -> (r: Result<(), HandleError>)
    requires
        old(handles)@.wf(),
    ensures
        final(handles)@.wf(),
        old(handles)@.live(handle) ==> r is Ok && final(handles)@ == old(handles)@.released(handle),
        !old(handles)@.live(handle) ==> r == Err::<(), HandleError>(HandleError::Stale)
            && final(handles)@ == old(handles)@,
{
    handles.release(handle)
}

/// What the host makes, it reads back: scalars, and floats up to the one NaN.
pub proof fn law_scalars_read_back(t: TableView, n: i64, b: bool, bits: u64)
    requires
        t.wf(),
        t.room(1),
    ensures
        int_read(t.interned(Value::Int(n)), t.next_handle()) == Ok::<i64, ValueError>(n),
        bool_read(t.interned(Value::Bool(b)), t.next_handle()) == Ok::<bool, ValueError>(b),
        nil_read(t.interned(Value::Nil), t.next_handle()) == Ok::<bool, ValueError>(true),
        float_read(t.interned(Value::Float(canonical(bits))), t.next_handle()) == Ok::<
            u64,
            ValueError,
        >(canonical(bits)),
{
    crate::handle::law_a_new_handle_names_its_value(t, Value::Int(n));
    crate::handle::law_a_new_handle_names_its_value(t, Value::Bool(b));
    crate::handle::law_a_new_handle_names_its_value(t, Value::Nil);
    crate::handle::law_a_new_handle_names_its_value(t, Value::Float(canonical(bits)));
}

/// A decimal integer reads back as the same integer, whatever its magnitude.
pub proof fn law_decimals_read_back(t: TableView, heap: HeapView, text: Seq<char>)
    requires
        t.wf(),
        t.room(1),
        heap.bigs.len() < usize::MAX,
        int_literal(text, 10) is Some,
    ensures
        ({
            let n = int_literal(text, 10)->0;
            decimal_read(
                t.interned(int_value_of(heap, n)),
                int_value_heap(heap, n),
                t.next_handle(),
            ) == Ok::<Seq<char>, ValueError>(decimal_text(n))
        }),
{
    let n = int_literal(text, 10)->0;
    crate::handle::law_a_new_handle_names_its_value(t, int_value_of(heap, n));
}

/// A byte string reads back as the bytes it was made from, and a string as the canonical
/// composition of its text.
pub proof fn law_texts_read_back(t: TableView, heap: HeapView, bytes: Seq<u8>)
    requires
        t.wf(),
        t.room(1),
        heap.bytes.len() < usize::MAX,
        heap.strings.len() < usize::MAX,
    ensures
        bytes_read(
            t.interned(Value::Bytes(BytesIdx(heap.bytes.len() as usize))),
            heap.new_bytes(bytes),
            t.next_handle(),
        ) == Ok::<Seq<u8>, ValueError>(bytes),
        string_read(
            t.interned(Value::Str(StrIdx(heap.strings.len() as usize))),
            heap.new_string(nfc_text(decode_utf8(bytes))),
            t.next_handle(),
        ) == Ok::<Seq<u8>, ValueError>(encode_utf8(nfc_text(decode_utf8(bytes)))),
{
    crate::handle::law_a_new_handle_names_its_value(
        t,
        Value::Bytes(BytesIdx(heap.bytes.len() as usize)),
    );
    crate::handle::law_a_new_handle_names_its_value(
        t,
        Value::Str(StrIdx(heap.strings.len() as usize)),
    );
}

/// What is appended to a list is read back at its end, and the items before it stay.
pub proof fn law_lists_grow_at_the_end(t: TableView, heap: HeapView, list: Handle, value: Handle, i: int)
    requires
        list_grown(t, heap, list, value) is Ok,
        read(t, list) matches Ok(Value::List(l)) && at(heap.lists, l.0 as int) is Some,
    ensures
        ({
            let before = list_read(t, heap, list)->Ok_0;
            let after = list_grown(t, heap, list, value)->Ok_0;
            &&& item_read(t, after, list, before.len() as int) == read(t, value)
            &&& 0 <= i < before.len() ==> item_read(t, after, list, i) == item_read(
                t,
                heap,
                list,
                i,
            )
        }),
{
}

} // verus!
