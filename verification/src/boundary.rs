//! Making and reading values on an instance between drives.
use crate::bignum::int_literal;
use crate::handle::Handle;
use crate::heap::ForeignObj;
use crate::instance::Instance;
use crate::number::int_value_heap;
use crate::number::int_value_of;
use crate::unicode::nfc_text;
use crate::value::BytesIdx;
use crate::value::ForeignIdx;
use crate::value::Kind;
use crate::value::ListIdx;
use crate::value::StrIdx;
use crate::value::Value;
use crate::values;
use crate::values::bool_read;
use crate::values::bytes_read;
use crate::values::canonical;
use crate::values::decimal_read;
use crate::values::first_bad;
use crate::values::float_read;
use crate::values::foreign_read;
use crate::values::handed;
use crate::values::int_read;
use crate::values::item_read;
use crate::values::kind_read;
use crate::values::list_grown;
use crate::values::list_read;
use crate::values::nil_read;
use crate::values::seen;
use crate::values::string_read;
use crate::values::ValueError;
use vstd::prelude::*;
use vstd::utf8::decode_utf8;
use vstd::utf8::valid_utf8;

verus! {

impl Instance {
    /// Makes an integer.
    pub fn make_int(&mut self, value: i64) -> (r: Handle)
        requires
            old(self).ready(),
        ensures
            r == old(self).handles@.next_handle(),
            final(self).handles@ == old(self).handles@.interned(Value::Int(value)),
            final(self).handles@.wf(),
            *final(self) == (Instance { handles: final(self).handles, ..*old(self) }),
    {
        values::make_int(&mut self.handles, value)
    }

    /// Makes an integer of any magnitude from its decimal text.
    pub fn make_int_decimal(&mut self, decimal: &str) -> (r: Result<Handle, ValueError>)
        requires
            old(self).ready(),
        ensures
            final(self).handles@.wf(),
            (match int_literal(decimal@, 10) {
                Some(n) => {
                    &&& r == Ok::<Handle, ValueError>(old(self).handles@.next_handle())
                    &&& final(self).handles@ == old(self).handles@.interned(int_value_of(old(self).heap@, n))
                    &&& final(self).heap@ == int_value_heap(old(self).heap@, n)
                },
                None => {
                    &&& r == Err::<Handle, ValueError>(ValueError::MalformedInt)
                    &&& final(self).handles@ == old(self).handles@
                    &&& final(self).heap@ == old(self).heap@
                },
            }),
            *final(self) == (Instance { handles: final(self).handles, heap: final(self).heap, ..*old(self) }),
    {
        values::make_int_decimal(&mut self.handles, &mut self.heap, decimal)
    }

    /// Makes a boolean.
    pub fn make_bool(&mut self, value: bool) -> (r: Handle)
        requires
            old(self).ready(),
        ensures
            r == old(self).handles@.next_handle(),
            final(self).handles@ == old(self).handles@.interned(Value::Bool(value)),
            final(self).handles@.wf(),
            *final(self) == (Instance { handles: final(self).handles, ..*old(self) }),
    {
        values::make_bool(&mut self.handles, value)
    }

    /// Makes `nil`.
    pub fn make_nil(&mut self) -> (r: Handle)
        requires
            old(self).ready(),
        ensures
            r == old(self).handles@.next_handle(),
            final(self).handles@ == old(self).handles@.interned(Value::Nil),
            final(self).handles@.wf(),
            *final(self) == (Instance { handles: final(self).handles, ..*old(self) }),
    {
        values::make_nil(&mut self.handles)
    }

    /// Makes a float from its bit pattern; any NaN becomes the one NaN.
    pub fn make_float(&mut self, bits: u64) -> (r: Handle)
        requires
            old(self).ready(),
        ensures
            r == old(self).handles@.next_handle(),
            final(self).handles@ == old(self).handles@.interned(Value::Float(canonical(bits))),
            final(self).handles@.wf(),
            *final(self) == (Instance { handles: final(self).handles, ..*old(self) }),
    {
        values::make_float(&mut self.handles, bits)
    }

    /// Makes a string from UTF-8 bytes, in canonical composition.
    pub fn make_string(&mut self, bytes: &[u8]) -> (r: Result<Handle, ValueError>)
        requires
            old(self).ready(),
        ensures
            final(self).handles@.wf(),
            r is Ok <==> valid_utf8(bytes@),
            r is Ok ==> {
                &&& r->Ok_0 == old(self).handles@.next_handle()
                &&& final(self).handles@ == old(self).handles@.interned(
                    Value::Str(StrIdx(old(self).heap@.strings.len() as usize)),
                )
                &&& final(self).heap@ == old(self).heap@.new_string(nfc_text(decode_utf8(bytes@)))
            },
            r is Err ==> {
                &&& r->Err_0 is InvalidUtf8
                &&& first_bad(bytes@, r->Err_0->InvalidUtf8_position as int)
                &&& final(self).handles@ == old(self).handles@
                &&& final(self).heap@ == old(self).heap@
            },
            *final(self) == (Instance { handles: final(self).handles, heap: final(self).heap, ..*old(self) }),
    {
        values::make_string(&mut self.handles, &mut self.heap, bytes)
    }

    /// Makes a byte string.
    pub fn make_bytes(&mut self, bytes: &[u8]) -> (r: Handle)
        requires
            old(self).ready(),
        ensures
            r == old(self).handles@.next_handle(),
            final(self).handles@ == old(self).handles@.interned(
                Value::Bytes(BytesIdx(old(self).heap@.bytes.len() as usize)),
            ),
            final(self).handles@.wf(),
            final(self).heap@ == old(self).heap@.new_bytes(bytes@),
            *final(self) == (Instance { handles: final(self).handles, heap: final(self).heap, ..*old(self) }),
    {
        values::make_bytes(&mut self.handles, &mut self.heap, bytes)
    }

    /// Makes an empty list.
    pub fn make_list(&mut self) -> (r: Handle)
        requires
            old(self).ready(),
        ensures
            r == old(self).handles@.next_handle(),
            final(self).handles@ == old(self).handles@.interned(
                Value::List(ListIdx(old(self).heap@.lists.len() as usize)),
            ),
            final(self).handles@.wf(),
            final(self).heap@ == old(self).heap@.new_list(Seq::empty()),
            *final(self) == (Instance { handles: final(self).handles, heap: final(self).heap, ..*old(self) }),
    {
        values::make_list(&mut self.handles, &mut self.heap)
    }

    /// Appends a value to a list.
    pub fn list_append(&mut self, list: Handle, value: Handle) -> (r: Result<(), ValueError>)
        ensures
            (match list_grown(old(self).handles@, old(self).heap@, list, value) {
                Ok(after) => r is Ok && final(self).heap@ == after,
                Err(e) => r == Err::<(), ValueError>(e) && final(self).heap@ == old(self).heap@,
            }),
            *final(self) == (Instance { heap: final(self).heap, ..*old(self) }),
    {
        values::list_append(&self.handles, &mut self.heap, list, value)
    }

    /// Makes a foreign value: an opaque host object.
    pub fn make_foreign(&mut self, tag: u64, ptr: u64, finalizer: Option<u64>) -> (r: Handle)
        requires
            old(self).ready(),
        ensures
            r == old(self).handles@.next_handle(),
            final(self).handles@ == old(self).handles@.interned(
                Value::Foreign(ForeignIdx(old(self).heap@.foreigns.len() as usize)),
            ),
            final(self).handles@.wf(),
            final(self).heap@ == old(self).heap@.new_foreign(ForeignObj { tag, ptr, finalizer }),
            *final(self) == (Instance { handles: final(self).handles, heap: final(self).heap, ..*old(self) }),
    {
        values::make_foreign(&mut self.handles, &mut self.heap, tag, ptr, finalizer)
    }

    /// The kind of a handle's value.
    pub fn kind_of(&self, handle: Handle) -> (r: Result<Kind, ValueError>)
        ensures
            r == kind_read(self.handles@, handle),
    {
        values::kind_of(&self.handles, handle)
    }

    /// Reads an integer.
    pub fn as_int(&self, handle: Handle) -> (r: Result<i64, ValueError>)
        ensures
            r == int_read(self.handles@, handle),
    {
        values::as_int(&self.handles, handle)
    }

    /// Reads an integer of any magnitude in decimal.
    pub fn as_int_decimal(&self, handle: Handle) -> (r: Result<String, ValueError>)
        ensures
            seen(r) == decimal_read(self.handles@, self.heap@, handle),
    {
        values::as_int_decimal(&self.handles, &self.heap, handle)
    }

    /// Reads a boolean.
    pub fn as_bool(&self, handle: Handle) -> (r: Result<bool, ValueError>)
        ensures
            r == bool_read(self.handles@, handle),
    {
        values::as_bool(&self.handles, handle)
    }

    /// Reads a float, by its bit pattern.
    pub fn as_float(&self, handle: Handle) -> (r: Result<u64, ValueError>)
        ensures
            r == float_read(self.handles@, handle),
    {
        values::as_float(&self.handles, handle)
    }

    /// Whether a handle's value is `nil`.
    pub fn is_nil(&self, handle: Handle) -> (r: Result<bool, ValueError>)
        ensures
            r == nil_read(self.handles@, handle),
    {
        values::is_nil(&self.handles, handle)
    }

    /// The UTF-8 bytes of a string.
    pub fn string_bytes(&self, handle: Handle) -> (r: Result<&[u8], ValueError>)
        ensures
            seen(r) == string_read(self.handles@, self.heap@, handle),
    {
        values::string_bytes(&self.handles, &self.heap, handle)
    }

    /// The bytes of a byte string.
    pub fn as_bytes(&self, handle: Handle) -> (r: Result<&[u8], ValueError>)
        ensures
            seen(r) == bytes_read(self.handles@, self.heap@, handle),
    {
        values::as_bytes(&self.handles, &self.heap, handle)
    }

    /// The length of a list.
    pub fn list_length(&self, handle: Handle) -> (r: Result<usize, ValueError>)
        ensures
            (match list_read(self.handles@, self.heap@, handle) {
                Ok(items) => r is Ok && r->Ok_0 == items.len(),
                Err(e) => r == Err::<usize, ValueError>(e),
            }),
    {
        values::list_length(&self.handles, &self.heap, handle)
    }

    /// Gives an item of a list a handle.
    pub fn list_get(&mut self, handle: Handle, index: usize) -> (r: Result<Handle, ValueError>)
        requires
            old(self).ready(),
        ensures
            final(self).handles@.wf(),
            handed(
                old(self).handles@,
                final(self).handles@,
                item_read(old(self).handles@, old(self).heap@, handle, index as int),
                r,
            ),
            *final(self) == (Instance { handles: final(self).handles, ..*old(self) }),
    {
        values::list_get(&mut self.handles, &self.heap, handle, index)
    }

    /// The type tag of a foreign value.
    pub fn foreign_tag(&self, handle: Handle) -> (r: Result<u64, ValueError>)
        ensures
            r == (match foreign_read(self.handles@, self.heap@, handle) {
                Ok(f) => Ok(f.tag),
                Err(e) => Err(e),
            }),
    {
        values::foreign_tag(&self.handles, &self.heap, handle)
    }

    /// The host token of a foreign value.
    pub fn foreign_ptr(&self, handle: Handle) -> (r: Result<u64, ValueError>)
        ensures
            r == (match foreign_read(self.handles@, self.heap@, handle) {
                Ok(f) => Ok(f.ptr),
                Err(e) => Err(e),
            }),
    {
        values::foreign_ptr(&self.handles, &self.heap, handle)
    }
}

} // verus!
