//! Making and reading values while the host runs one of its functions.
use crate::bignum::int_literal;
use crate::handle::Handle;
use crate::handle::HandleError;
use crate::heap::ForeignObj;
use crate::instance::Instance;
use crate::number::int_value_heap;
use crate::number::int_value_of;
use crate::unicode::nfc_text;
use crate::value::BytesIdx;
use crate::value::ForeignIdx;
use crate::value::Kind;
use crate::value::ListIdx;
use crate::value::StrIdx;
use crate::value::Value;
use crate::values;
use crate::values::bool_read;
use crate::values::bytes_read;
use crate::values::canonical;
use crate::values::decimal_read;
use crate::values::first_bad;
use crate::values::float_read;
use crate::values::foreign_read;
use crate::values::handed;
use crate::values::int_read;
use crate::values::item_read;
use crate::values::kind_read;
use crate::values::list_grown;
use crate::values::list_read;
use crate::values::nil_read;
use crate::values::seen;
use crate::values::string_read;
use crate::values::ValueError;
use vstd::prelude::*;
use vstd::utf8::decode_utf8;
use vstd::utf8::valid_utf8;

verus! {

/// The instance while the host runs one of its functions.
pub struct IntrinsicCtx<'a> {
    /// The instance.
    pub instance: &'a mut Instance,
}

impl<'a> IntrinsicCtx<'a> {
    /// Makes an integer.
    pub fn make_int(&mut self, value: i64) -> (r: Handle)
        requires
            old(self).instance.ready(),
        ensures
            r == old(self).instance.handles@.next_handle(),
            final(self).instance.handles@ == old(self).instance.handles@.interned(Value::Int(value)),
            final(self).instance.handles@.wf(),
            *final(self).instance == (Instance { handles: final(self).instance.handles, ..*old(self).instance }),
    {
        values::make_int(&mut self.instance.handles, value)
    }

    /// Makes an integer of any magnitude from its decimal text.
    pub fn make_int_decimal(&mut self, decimal: &str) -> (r: Result<Handle, ValueError>)
        requires
            old(self).instance.ready(),
        ensures
            final(self).instance.handles@.wf(),
            (match int_literal(decimal@, 10) {
                Some(n) => {
                    &&& r == Ok::<Handle, ValueError>(old(self).instance.handles@.next_handle())
                    &&& final(self).instance.handles@ == old(self).instance.handles@.interned(int_value_of(old(self).instance.heap@, n))
                    &&& final(self).instance.heap@ == int_value_heap(old(self).instance.heap@, n)
                },
                None => {
                    &&& r == Err::<Handle, ValueError>(ValueError::MalformedInt)
                    &&& final(self).instance.handles@ == old(self).instance.handles@
                    &&& final(self).instance.heap@ == old(self).instance.heap@
                },
            }),
            *final(self).instance == (Instance { handles: final(self).instance.handles, heap: final(self).instance.heap, ..*old(self).instance }),
    {
        values::make_int_decimal(&mut self.instance.handles, &mut self.instance.heap, decimal)
    }

    /// Makes a boolean.
    pub fn make_bool(&mut self, value: bool) -> (r: Handle)
        requires
            old(self).instance.ready(),
        ensures
            r == old(self).instance.handles@.next_handle(),
            final(self).instance.handles@ == old(self).instance.handles@.interned(Value::Bool(value)),
            final(self).instance.handles@.wf(),
            *final(self).instance == (Instance { handles: final(self).instance.handles, ..*old(self).instance }),
    {
        values::make_bool(&mut self.instance.handles, value)
    }

    /// Makes `nil`.
    pub fn make_nil(&mut self) -> (r: Handle)
        requires
            old(self).instance.ready(),
        ensures
            r == old(self).instance.handles@.next_handle(),
            final(self).instance.handles@ == old(self).instance.handles@.interned(Value::Nil),
            final(self).instance.handles@.wf(),
            *final(self).instance == (Instance { handles: final(self).instance.handles, ..*old(self).instance }),
    {
        values::make_nil(&mut self.instance.handles)
    }

    /// Makes a float from its bit pattern; any NaN becomes the one NaN.
    pub fn make_float(&mut self, bits: u64) -> (r: Handle)
        requires
            old(self).instance.ready(),
        ensures
            r == old(self).instance.handles@.next_handle(),
            final(self).instance.handles@ == old(self).instance.handles@.interned(Value::Float(canonical(bits))),
            final(self).instance.handles@.wf(),
            *final(self).instance == (Instance { handles: final(self).instance.handles, ..*old(self).instance }),
    {
        values::make_float(&mut self.instance.handles, bits)
    }

    /// Makes a string from UTF-8 bytes, in canonical composition.
    pub fn make_string(&mut self, bytes: &[u8]) -> (r: Result<Handle, ValueError>)
        requires
            old(self).instance.ready(),
        ensures
            final(self).instance.handles@.wf(),
            r is Ok <==> valid_utf8(bytes@),
            r is Ok ==> {
                &&& r->Ok_0 == old(self).instance.handles@.next_handle()
                &&& final(self).instance.handles@ == old(self).instance.handles@.interned(
                    Value::Str(StrIdx(old(self).instance.heap@.strings.len() as usize)),
                )
                &&& final(self).instance.heap@ == old(self).instance.heap@.new_string(nfc_text(decode_utf8(bytes@)))
            },
            r is Err ==> {
                &&& r->Err_0 is InvalidUtf8
                &&& first_bad(bytes@, r->Err_0->InvalidUtf8_position as int)
                &&& final(self).instance.handles@ == old(self).instance.handles@
                &&& final(self).instance.heap@ == old(self).instance.heap@
            },
            *final(self).instance == (Instance { handles: final(self).instance.handles, heap: final(self).instance.heap, ..*old(self).instance }),
    {
        values::make_string(&mut self.instance.handles, &mut self.instance.heap, bytes)
    }

    /// Makes a byte string.
    pub fn make_bytes(&mut self, bytes: &[u8]) -> (r: Handle)
        requires
            old(self).instance.ready(),
        ensures
            r == old(self).instance.handles@.next_handle(),
            final(self).instance.handles@ == old(self).instance.handles@.interned(
                Value::Bytes(BytesIdx(old(self).instance.heap@.bytes.len() as usize)),
            ),
            final(self).instance.handles@.wf(),
            final(self).instance.heap@ == old(self).instance.heap@.new_bytes(bytes@),
            *final(self).instance == (Instance { handles: final(self).instance.handles, heap: final(self).instance.heap, ..*old(self).instance }),
    {
        values::make_bytes(&mut self.instance.handles, &mut self.instance.heap, bytes)
    }

    /// Makes an empty list.
    pub fn make_list(&mut self) -> (r: Handle)
        requires
            old(self).instance.ready(),
        ensures
            r == old(self).instance.handles@.next_handle(),
            final(self).instance.handles@ == old(self).instance.handles@.interned(
                Value::List(ListIdx(old(self).instance.heap@.lists.len() as usize)),
            ),
            final(self).instance.handles@.wf(),
            final(self).instance.heap@ == old(self).instance.heap@.new_list(Seq::empty()),
            *final(self).instance == (Instance { handles: final(self).instance.handles, heap: final(self).instance.heap, ..*old(self).instance }),
    {
        values::make_list(&mut self.instance.handles, &mut self.instance.heap)
    }

    /// Appends a value to a list.
    pub fn list_append(&mut self, list: Handle, value: Handle) -> (r: Result<(), ValueError>)
        ensures
            (match list_grown(old(self).instance.handles@, old(self).instance.heap@, list, value) {
                Ok(after) => r is Ok && final(self).instance.heap@ == after,
                Err(e) => r == Err::<(), ValueError>(e) && final(self).instance.heap@ == old(self).instance.heap@,
            }),
            *final(self).instance == (Instance { heap: final(self).instance.heap, ..*old(self).instance }),
    {
        values::list_append(&self.instance.handles, &mut self.instance.heap, list, value)
    }

    /// Makes a foreign value: an opaque host object.
    pub fn make_foreign(&mut self, tag: u64, ptr: u64, finalizer: Option<u64>) -> (r: Handle)
        requires
            old(self).instance.ready(),
        ensures
            r == old(self).instance.handles@.next_handle(),
            final(self).instance.handles@ == old(self).instance.handles@.interned(
                Value::Foreign(ForeignIdx(old(self).instance.heap@.foreigns.len() as usize)),
            ),
            final(self).instance.handles@.wf(),
            final(self).instance.heap@ == old(self).instance.heap@.new_foreign(ForeignObj { tag, ptr, finalizer }),
            *final(self).instance == (Instance { handles: final(self).instance.handles, heap: final(self).instance.heap, ..*old(self).instance }),
    {
        values::make_foreign(&mut self.instance.handles, &mut self.instance.heap, tag, ptr, finalizer)
    }

    /// The kind of a handle's value.
    pub fn kind_of(&self, handle: Handle) -> (r: Result<Kind, ValueError>)
        ensures
            r == kind_read(old(self.instance).handles@, handle),
    {
        values::kind_of(&self.instance.handles, handle)
    }

    /// Reads an integer.
    pub fn as_int(&self, handle: Handle) -> (r: Result<i64, ValueError>)
        ensures
            r == int_read(old(self.instance).handles@, handle),
    {
        values::as_int(&self.instance.handles, handle)
    }

    /// Reads an integer of any magnitude in decimal.
    pub fn as_int_decimal(&self, handle: Handle) -> (r: Result<String, ValueError>)
        ensures
            seen(r) == decimal_read(old(self.instance).handles@, old(self.instance).heap@, handle),
    {
        values::as_int_decimal(&self.instance.handles, &self.instance.heap, handle)
    }

    /// Reads a boolean.
    pub fn as_bool(&self, handle: Handle) -> (r: Result<bool, ValueError>)
        ensures
            r == bool_read(old(self.instance).handles@, handle),
    {
        values::as_bool(&self.instance.handles, handle)
    }

    /// Reads a float, by its bit pattern.
    pub fn as_float(&self, handle: Handle) -> (r: Result<u64, ValueError>)
        ensures
            r == float_read(old(self.instance).handles@, handle),
    {
        values::as_float(&self.instance.handles, handle)
    }

    /// Whether a handle's value is `nil`.
    pub fn is_nil(&self, handle: Handle) -> (r: Result<bool, ValueError>)
        ensures
            r == nil_read(old(self.instance).handles@, handle),
    {
        values::is_nil(&self.instance.handles, handle)
    }

    /// The UTF-8 bytes of a string.
    pub fn string_bytes(&self, handle: Handle) -> (r: Result<&[u8], ValueError>)
        ensures
            seen(r) == string_read(old(self.instance).handles@, old(self.instance).heap@, handle),
    {
        values::string_bytes(&self.instance.handles, &self.instance.heap, handle)
    }

    /// The bytes of a byte string.
    pub fn as_bytes(&self, handle: Handle) -> (r: Result<&[u8], ValueError>)
        ensures
            seen(r) == bytes_read(old(self.instance).handles@, old(self.instance).heap@, handle),
    {
        values::as_bytes(&self.instance.handles, &self.instance.heap, handle)
    }

    /// The length of a list.
    pub fn list_length(&self, handle: Handle) -> (r: Result<usize, ValueError>)
        ensures
            (match list_read(old(self.instance).handles@, old(self.instance).heap@, handle) {
                Ok(items) => r is Ok && r->Ok_0 == items.len(),
                Err(e) => r == Err::<usize, ValueError>(e),
            }),
    {
        values::list_length(&self.instance.handles, &self.instance.heap, handle)
    }

    /// Gives an item of a list a handle.
    pub fn list_get(&mut self, handle: Handle, index: usize) -> (r: Result<Handle, ValueError>)
        requires
            old(self).instance.ready(),
        ensures
            final(self).instance.handles@.wf(),
            handed(
                old(self).instance.handles@,
                final(self).instance.handles@,
                item_read(old(self).instance.handles@, old(self).instance.heap@, handle, index as int),
                r,
            ),
            *final(self).instance == (Instance { handles: final(self).instance.handles, ..*old(self).instance }),
    {
        values::list_get(&mut self.instance.handles, &self.instance.heap, handle, index)
    }

    /// The type tag of a foreign value.
    pub fn foreign_tag(&self, handle: Handle) -> (r: Result<u64, ValueError>)
        ensures
            r == (match foreign_read(old(self.instance).handles@, old(self.instance).heap@, handle) {
                Ok(f) => Ok(f.tag),
                Err(e) => Err(e),
            }),
    {
        values::foreign_tag(&self.instance.handles, &self.instance.heap, handle)
    }

    /// The host token of a foreign value.
    pub fn foreign_ptr(&self, handle: Handle) -> (r: Result<u64, ValueError>)
        ensures
            r == (match foreign_read(old(self.instance).handles@, old(self.instance).heap@, handle) {
                Ok(f) => Ok(f.ptr),
                Err(e) => Err(e),
            }),
    {
        values::foreign_ptr(&self.instance.handles, &self.instance.heap, handle)
    }

    /// Drops a reference of a handle.
    pub fn release(&mut self, handle: Handle) -> (r: Result<(), HandleError>)
        requires
            old(self).instance.handles@.wf(),
        ensures
            final(self).instance.handles@.wf(),
            old(self).instance.handles@.live(handle) ==> r is Ok && final(self).instance.handles@
                == old(self).instance.handles@.released(handle),
            !old(self).instance.handles@.live(handle) ==> r == Err::<(), HandleError>(HandleError::Stale)
                && final(self).instance.handles@ == old(self).instance.handles@,
            *final(self).instance == (Instance { handles: final(self).instance.handles, ..*old(self).instance }),
    {
        values::release(&mut self.instance.handles, handle)
    }
}

} // verus!
