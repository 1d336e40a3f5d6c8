//! Hashing of dict keys. A key's hash is that of a message its content spells, so equal
//! keys hash alike: a number is spelled by its exact value, whatever its kind.
use crate::bignum::int_bytes;
use crate::bignum::lemma_int_bytes;
use crate::bignum::BigNum;
use crate::error::ExceptionKind;
use crate::error::Raise;
use crate::error::RaiseView;
use crate::float::exact_float;
use crate::float::exact_integer;
use crate::float::integral;
use crate::float::integral_value;
use crate::float::lemma_exact_int_unique;
use crate::float::lemma_exact_float_unique;
use crate::float::lemma_int_float_equal;
use crate::float::nan;
use crate::float::CANONICAL_NAN_BITS;
use crate::heap::Heap;
use crate::heap::HeapView;
use crate::heap::TypeKind;
use crate::number::number;
use crate::number::NumView;
use crate::siphash::sip_hash;
use crate::siphash::word_bytes;
use crate::siphash::SipHasher13;
use crate::span::Span;
use crate::text::join2;
use crate::text::join5;
use crate::value::Value;
use vstd::prelude::*;
use vstd::utf8::encode_utf8;

verus! {

/// The tag of `nil` in a message.
pub const TAG_NIL: u8 = 0;

/// The tag of a boolean.
pub const TAG_BOOL: u8 = 1;

/// The tag of an integer, or of a float that is one.
pub const TAG_INT: u8 = 2;

/// The tag of any other float.
pub const TAG_FLOAT: u8 = 3;

/// The tag of a string.
pub const TAG_STR: u8 = 4;

/// The tag of a byte string.
pub const TAG_BYTES: u8 = 5;

/// The tag of a record.
pub const TAG_RECORD: u8 = 6;

/// How a value is called in a message to the program's author.
pub open spec fn kind_text(v: Value) -> Seq<char> {
    match v {
        Value::Nil => "nil"@,
        Value::Bool(_) => "a boolean"@,
        Value::Int(_) => "an integer"@,
        Value::BigInt(_) => "an integer"@,
        Value::Float(_) => "a float"@,
        Value::Str(_) => "a string"@,
        Value::Bytes(_) => "a byte string"@,
        Value::List(_) => "a list"@,
        Value::Dict(_) => "a dict"@,
        Value::Record(_) => "a record"@,
        Value::Callable(_) => "a procedure or function"@,
        Value::Module(_) => "a module"@,
        Value::Type(_) => "a type"@,
        Value::Foreign(_) => "a foreign value"@,
    }
}

/// How a value is called in a message to the program's author.
pub fn kind_name(v: Value) -> (r: &'static str)
    ensures
        r@ == kind_text(v),
{
    match v {
        Value::Nil => "nil",
        Value::Bool(_) => "a boolean",
        Value::Int(_) => "an integer",
        Value::BigInt(_) => "an integer",
        Value::Float(_) => "a float",
        Value::Str(_) => "a string",
        Value::Bytes(_) => "a byte string",
        Value::List(_) => "a list",
        Value::Dict(_) => "a dict",
        Value::Record(_) => "a record",
        Value::Callable(_) => "a procedure or function",
        Value::Module(_) => "a module",
        Value::Type(_) => "a type",
        Value::Foreign(_) => "a foreign value",
    }
}

/// Whether a value's kind alone makes it a dict key.
pub open spec fn scalar(v: Value) -> bool {
    v is Nil || v is Bool || v is Int || v is BigInt || v is Float || v is Str || v is Bytes
}

/// Whether a value may be a dict key: a scalar, or a value record (nested at most `depth`
/// deep) all of whose fields may be.
pub open spec fn hashable_within(h: HeapView, v: Value, depth: nat) -> bool
    decreases depth,
{
    if scalar(v) {
        true
    } else if v is Record && depth > 0 {
        match h.record(v->Record_0) {
            Some(rec) => match h.schema(rec.type_idx) {
                Some(rt) => !rt.is_ref && forall|i: int|
                    0 <= i < rec.fields.len() ==> hashable_within(
                        h,
                        #[trigger] rec.fields[i],
                        (depth - 1) as nat,
                    ),
                None => false,
            },
            None => false,
        }
    } else {
        false
    }
}

/// Whether a value may be a dict key. No value record nests deeper than there are records.
pub open spec fn hashable(h: HeapView, v: Value) -> bool {
    hashable_within(h, v, h.records.len())
}

/// What makes a value no dict key, as a message names it.
pub open spec fn culprit_text(h: HeapView, v: Value) -> Seq<char> {
    match v {
        Value::Record(r) => match h.record(r) {
            Some(rec) => match h.schema(rec.type_idx) {
                Some(rt) => if rt.is_ref {
                    "`"@ + rt.name + "`, a reference record"@
                } else {
                    kind_text(v)
                },
                None => kind_text(v),
            },
            None => kind_text(v),
        },
        _ => kind_text(v),
    }
}

/// Why a value that may not be a dict key may not: it, or the innermost field at fault.
pub open spec fn unhashable_text(
    h: HeapView,
    v: Value,
    field: Option<Seq<char>>,
    depth: nat,
) -> Seq<char>
    decreases depth, 1nat, 0nat,
{
    match v {
        Value::Record(r) if depth > 0 => match h.record(r) {
            Some(rec) => match h.schema(rec.type_idx) {
                Some(rt) if !rt.is_ref => unhashable_field_text(
                    h,
                    rec.fields,
                    rt.fields,
                    0,
                    (depth - 1) as nat,
                ),
                _ => refused_text(culprit_text(h, v), field),
            },
            None => refused_text(culprit_text(h, v), field),
        },
        _ => refused_text(culprit_text(h, v), field),
    }
}

/// The message for the first field at fault.
pub open spec fn unhashable_field_text(
    h: HeapView,
    fields: Seq<Value>,
    names: Seq<Seq<char>>,
    from: nat,
    depth: nat,
) -> Seq<char>
    decreases depth, 2nat, fields.len() - from,
{
    if from >= fields.len() {
        Seq::empty()
    } else if hashable_within(h, fields[from as int], depth) {
        unhashable_field_text(h, fields, names, from + 1, depth)
    } else {
        let name = if from < names.len() {
            names[from as int]
        } else {
            Seq::empty()
        };
        unhashable_text(h, fields[from as int], Some(name), depth)
    }
}

/// A refusal, of a key itself or of what a field holds.
pub open spec fn refused_text(culprit: Seq<char>, field: Option<Seq<char>>) -> Seq<char> {
    match field {
        None => culprit + " can't be a dict key"@,
        Some(f) => "the field `"@ + f + "` holds "@ + culprit + ", which can't be a dict key"@,
    }
}

/// The message an integer spells.
pub open spec fn int_message(n: int) -> Seq<u8> {
    seq![TAG_INT] + word_bytes(int_bytes(n).len() as u64) + int_bytes(n)
}

/// The message a run of bytes spells under a tag.
pub open spec fn bytes_message(tag: u8, bytes: Seq<u8>) -> Seq<u8> {
    seq![tag] + word_bytes(bytes.len() as u64) + bytes
}

/// The message a number spells.
pub open spec fn number_message(n: NumView) -> Seq<u8> {
    match n {
        NumView::Int(v) => int_message(v),
        NumView::Float(x) => if integral(x) {
            int_message(integral_value(x))
        } else {
            seq![TAG_FLOAT] + word_bytes(x)
        },
    }
}

/// The message a key spells, records nested at most `depth` deep.
pub open spec fn key_message(h: HeapView, v: Value, depth: nat) -> Seq<u8>
    decreases depth, 1nat, 0nat,
{
    match v {
        Value::Nil => seq![TAG_NIL],
        Value::Bool(b) => seq![
            TAG_BOOL,
            if b {
                1u8
            } else {
                0u8
            },
        ],
        Value::Int(n) => int_message(n as int),
        Value::BigInt(i) => int_message(h.big(i)),
        Value::Float(x) => number_message(NumView::Float(x)),
        Value::Str(i) => bytes_message(TAG_STR, encode_utf8(h.text(i))),
        Value::Bytes(i) => bytes_message(TAG_BYTES, h.bytes_of(i)),
        Value::Record(r) if depth > 0 => match h.record(r) {
            Some(rec) => seq![TAG_RECORD] + word_bytes(rec.type_idx.0 as u64) + word_bytes(
                rec.fields.len() as u64,
            ) + fields_message(h, rec.fields, rec.fields.len(), (depth - 1) as nat),
            None => Seq::empty(),
        },
        _ => Seq::empty(),
    }
}

/// The messages of the first `n` fields, one after the other.
pub open spec fn fields_message(h: HeapView, fields: Seq<Value>, n: nat, depth: nat) -> Seq<u8>
    decreases depth, 2nat, n,
{
    if n == 0 || n > fields.len() {
        Seq::empty()
    } else {
        fields_message(h, fields, (n - 1) as nat, depth) + key_message(
            h,
            fields[n - 1],
            depth,
        )
    }
}

/// The hash of a key.
pub open spec fn key_hash(h: HeapView, v: Value) -> u64 {
    sip_hash(key_message(h, v, h.records.len()))
}

fn refuse(culprit: &str, field: Option<&str>) -> (r: String)
    ensures
        r@ == refused_text(
            culprit@,
            match field {
                Some(f) => Some(f@),
                None => None,
            },
        ),
{
    match field {
        None => join2(culprit, " can't be a dict key"),
        Some(f) => join5("the field `", f, "` holds ", culprit, ", which can't be a dict key"),
    }
}

fn culprit(v: Value, heap: &Heap) -> (r: String)
    ensures
        r@ == culprit_text(heap@, v),
{
    if let Value::Record(i) = v {
        if let Some(rec) = heap.record(i) {
            if let Some(TypeKind::Record(rt)) = heap.type_value(rec.type_idx) {
                if rt.is_ref {
                    return crate::text::join3("`", rt.name.as_str(), "`, a reference record");
                }
            }
        }
    }
    kind_name(v).to_owned()
}

/// Whether a value may be a dict key; the refusal names the innermost field at fault.
fn check_within(v: Value, heap: &Heap, field: Option<&str>, depth: usize) -> (r: Result<
    (),
    String,
>)
    ensures
        r is Ok <==> hashable_within(heap@, v, depth as nat),
        r is Err ==> r->Err_0@ == unhashable_text(
            heap@,
            v,
            match field {
                Some(f) => Some(f@),
                None => None,
            },
            depth as nat,
        ),
    decreases depth,
{
    match v {
        Value::Nil
        | Value::Bool(_)
        | Value::Int(_)
        | Value::BigInt(_)
        | Value::Float(_)
        | Value::Str(_)
        | Value::Bytes(_) => {
            return Ok(());
        },
        Value::Record(i) => {
            if depth > 0 {
                if let Some(rec) = heap.record(i) {
                    if let Some(TypeKind::Record(rt)) = heap.type_value(rec.type_idx) {
                        if !rt.is_ref {
                            let mut k: usize = 0;
                            while k < rec.fields.len()
                                invariant
                                    k <= rec.fields@.len(),
                                    depth > 0,
                                    heap@.record(i) == Some(rec@),
                                    heap@.schema(rec.type_idx) == Some(rt@),
                                    !rt.is_ref,
                                    v == Value::Record(i),
                                    forall|j: int|
                                        0 <= j < k ==> hashable_within(
                                            heap@,
                                            #[trigger] rec.fields@[j],
                                            (depth - 1) as nat,
                                        ),
                                    unhashable_field_text(
                                        heap@,
                                        rec.fields@,
                                        crate::text::texts(rt.fields@),
                                        0,
                                        (depth - 1) as nat,
                                    ) == unhashable_field_text(
                                        heap@,
                                        rec.fields@,
                                        crate::text::texts(rt.fields@),
                                        k as nat,
                                        (depth - 1) as nat,
                                    ),
                                decreases rec.fields@.len() - k,
                            {
                                let name: &str = if k < rt.fields.len() {
                                    rt.fields[k].as_str()
                                } else {
                                    ""
                                };
                                proof {
                                    reveal_strlit("");
                                    assert(""@ =~= Seq::<char>::empty());
                                }
                                let inner = check_within(
                                    rec.fields[k],
                                    heap,
                                    Some(name),
                                    depth - 1,
                                );
                                if let Err(text) = inner {
                                    assert(!hashable_within(
                                        heap@,
                                        rec@.fields[k as int],
                                        (depth - 1) as nat,
                                    ));
                                    return Err(text);
                                }
                                k = k + 1;
                            }
                            return Ok(());
                        }
                    }
                }
            }
        },
        _ => {},
    }
    let what = culprit(v, heap);
    Err(refuse(what.as_str(), field))
}

/// Whether a value may be a dict key; the refusal names the innermost field at fault.
pub fn check_hashable(v: Value, heap: &Heap) -> (r: Result<(), String>)
    ensures
        r is Ok <==> hashable(heap@, v),
        r is Err ==> r->Err_0@ == unhashable_text(heap@, v, None, heap@.records.len()),
{
    check_within(v, heap, None, heap.record_count())
}

fn hash_int(n: &BigNum, h: &mut SipHasher13)
    requires
        n.wf(),
        old(h).wf(),
    ensures
        final(h).wf(),
        final(h)@ == old(h)@ + int_message(n@),
{
    proof {
        lemma_int_bytes(*n);
    }
    hash_bytes(TAG_INT, n.bytes.as_slice(), h);
}

fn hash_bytes(tag: u8, bytes: &[u8], h: &mut SipHasher13)
    requires
        old(h).wf(),
    ensures
        final(h).wf(),
        final(h)@ == old(h)@ + bytes_message(tag, bytes@),
{
    h.write_u8(tag);
    h.write_u64(bytes.len() as u64);
    h.write(bytes);
    assert(h@ =~= old(h)@ + bytes_message(tag, bytes@));
}

fn hash_float(x: u64, h: &mut SipHasher13)
    requires
        old(h).wf(),
    ensures
        final(h).wf(),
        final(h)@ == old(h)@ + number_message(NumView::Float(x)),
{
    match exact_integer(x) {
        Some(n) => hash_int(&n, h),
        None => {
            h.write_u8(TAG_FLOAT);
            h.write_u64(x);
            assert(h@ =~= old(h)@ + number_message(NumView::Float(x)));
        },
    }
}

fn hash_into(v: Value, heap: &Heap, h: &mut SipHasher13, depth: usize)
    requires
        old(h).wf(),
    ensures
        final(h).wf(),
        final(h)@ == old(h)@ + key_message(heap@, v, depth as nat),
    decreases depth,
{
    match v {
        Value::Nil => {
            h.write_u8(TAG_NIL);
            assert(h@ =~= old(h)@ + seq![TAG_NIL]);
        },
        Value::Bool(b) => {
            h.write_u8(TAG_BOOL);
            h.write_u8(
                if b {
                    1
                } else {
                    0
                },
            );
            assert(h@ =~= old(h)@ + key_message(heap@, v, depth as nat));
        },
        Value::Int(n) => hash_int(&BigNum::from_i64(n), h),
        Value::BigInt(i) => hash_int(&heap.bigint(i), h),
        Value::Float(x) => hash_float(x, h),
        Value::Str(i) => hash_bytes(TAG_STR, heap.string(i).as_bytes(), h),
        Value::Bytes(i) => {
            match heap.byte_string(i) {
                Some(b) => hash_bytes(TAG_BYTES, b.as_slice(), h),
                None => {
                    let none: Vec<u8> = Vec::new();
                    hash_bytes(TAG_BYTES, none.as_slice(), h);
                },
            }
        },
        Value::Record(i) => {
            if depth > 0 {
                if let Some(rec) = heap.record(i) {
                    h.write_u8(TAG_RECORD);
                    h.write_u64(rec.type_idx.0 as u64);
                    h.write_u64(rec.fields.len() as u64);
                    let ghost head = h@;
                    let ghost inner = (depth - 1) as nat;
                    assert(head =~= old(h)@ + (seq![TAG_RECORD] + word_bytes(
                        rec.type_idx.0 as u64,
                    ) + word_bytes(rec.fields@.len() as u64)));
                    let mut k: usize = 0;
                    assert(h@ =~= head + fields_message(heap@, rec.fields@, 0, inner));
                    while k < rec.fields.len()
                        invariant
                            k <= rec.fields@.len(),
                            depth > 0,
                            inner == (depth - 1) as nat,
                            h.wf(),
                            h@ == head + fields_message(heap@, rec.fields@, k as nat, inner),
                        decreases rec.fields@.len() - k,
                    {
                        hash_into(rec.fields[k], heap, h, depth - 1);
                        k = k + 1;
                        assert(h@ =~= head + fields_message(heap@, rec.fields@, k as nat, inner));
                    }
                    assert(h@ =~= old(h)@ + key_message(heap@, v, depth as nat));
                } else {
                    assert(h@ =~= old(h)@ + Seq::<u8>::empty());
                }
            } else {
                assert(h@ =~= old(h)@ + Seq::<u8>::empty());
            }
        },
        _ => {
            assert(h@ =~= old(h)@ + Seq::<u8>::empty());
        },
    }
}

/// The hash of a key, a function of its content alone.
pub fn hash_value(v: Value, heap: &Heap) -> (r: u64)
    ensures
        r == key_hash(heap@, v),
{
    let mut h = SipHasher13::new();
    hash_into(v, heap, &mut h, heap.record_count());
    assert(Seq::<u8>::empty() + key_message(heap@, v, heap@.records.len()) =~= key_message(
        heap@,
        v,
        heap@.records.len(),
    ));
    h.finish()
}

/// The hash of a dict key, or the raise for a value that may not be one.
pub fn native_key_hash(key: Value, heap: &Heap, span: Span) -> (r: Result<u64, Raise>)
    ensures
        r is Ok <==> hashable(heap@, key),
        r is Ok ==> r->Ok_0 == key_hash(heap@, key),
        r is Err ==> r->Err_0@ == unhashable_raise(heap@, key, span),
{
    match check_hashable(key, heap) {
        Ok(()) => Ok(hash_value(key, heap)),
        Err(text) => Err(Raise::new(ExceptionKind::UnhashableKey, text, span)),
    }
}

/// The raise for a value that may not be a dict key.
pub open spec fn unhashable_raise(h: HeapView, key: Value, span: Span) -> RaiseView {
    RaiseView::new(
        ExceptionKind::UnhashableKey,
        unhashable_text(h, key, None, h.records.len()),
        span,
    )
}

/// Whether two keys are the same key: equal numbers of any kind, equal contents, equal
/// fields of one record type.
pub open spec fn same_key(h: HeapView, a: Value, b: Value, depth: nat) -> bool
    decreases depth,
{
    if number(h, a) is Some && number(h, b) is Some {
        number(h, a)->0.exact() == number(h, b)->0.exact()
    } else {
        match (a, b) {
            (Value::Nil, Value::Nil) => true,
            (Value::Bool(x), Value::Bool(y)) => x == y,
            (Value::Str(x), Value::Str(y)) => h.text(x) == h.text(y),
            (Value::Bytes(x), Value::Bytes(y)) => h.bytes_of(x) == h.bytes_of(y),
            (Value::Record(x), Value::Record(y)) => x == y || depth > 0 && match (
                h.record(x),
                h.record(y),
            ) {
                (Some(r), Some(s)) => {
                    &&& r.type_idx == s.type_idx
                    &&& r.fields.len() == s.fields.len()
                    &&& forall|i: int|
                        0 <= i < r.fields.len() ==> same_key(
                            h,
                            #[trigger] r.fields[i],
                            s.fields[i],
                            (depth - 1) as nat,
                        )
                },
                _ => false,
            },
            _ => a == b,
        }
    }
}

/// Whether every NaN in a key is the canonical one.
pub open spec fn canonical_key(h: HeapView, v: Value, depth: nat) -> bool
    decreases depth,
{
    match v {
        Value::Float(x) => nan(x) ==> x == CANONICAL_NAN_BITS,
        Value::Record(r) => depth == 0 || match h.record(r) {
            Some(rec) => forall|i: int|
                0 <= i < rec.fields.len() ==> canonical_key(
                    h,
                    #[trigger] rec.fields[i],
                    (depth - 1) as nat,
                ),
            None => true,
        },
        _ => true,
    }
}

/// Floats of one exact value spell one message.
proof fn lemma_float_message(x: u64, y: u64)
    requires
        exact_float(x) == exact_float(y),
        nan(x) ==> x == CANONICAL_NAN_BITS,
        nan(y) ==> y == CANONICAL_NAN_BITS,
    ensures
        number_message(NumView::Float(x)) == number_message(NumView::Float(y)),
{
    lemma_exact_float_unique(x, y);
    if x != y && !nan(x) {
        assert(integral(x) && integral(y) && integral_value(x) == integral_value(y));
    }
}

/// Equal numbers spell one message, across integers and floats.
proof fn lemma_number_message(a: NumView, b: NumView)
    requires
        a.exact() == b.exact(),
        a is Float && nan(a->Float_0) ==> a->Float_0 == CANONICAL_NAN_BITS,
        b is Float && nan(b->Float_0) ==> b->Float_0 == CANONICAL_NAN_BITS,
    ensures
        number_message(a) == number_message(b),
{
    match (a, b) {
        (NumView::Int(m), NumView::Int(n)) => lemma_exact_int_unique(m, n),
        (NumView::Int(m), NumView::Float(y)) => lemma_int_float_equal(m, y),
        (NumView::Float(x), NumView::Int(n)) => lemma_int_float_equal(n, x),
        (NumView::Float(x), NumView::Float(y)) => lemma_float_message(x, y),
    }
}

/// Coherence within a nesting depth: same keys spell one message.
proof fn lemma_same_key_message(h: HeapView, a: Value, b: Value, depth: nat)
    requires
        hashable_within(h, a, depth),
        same_key(h, a, b, depth),
        canonical_key(h, a, depth),
        canonical_key(h, b, depth),
    ensures
        key_message(h, a, depth) == key_message(h, b, depth),
    decreases depth, 1nat, 0nat,
{
    if number(h, a) is Some && number(h, b) is Some {
        lemma_number_message(number(h, a)->0, number(h, b)->0);
    } else if a is Record && b is Record {
        let (x, y) = (a->Record_0, b->Record_0);
        if x != y {
            let (r, s) = (h.record(x)->0, h.record(y)->0);
            lemma_same_fields_message(h, r.fields, s.fields, r.fields.len(), (depth - 1) as nat);
        }
    }
}

proof fn lemma_same_fields_message(h: HeapView, f: Seq<Value>, g: Seq<Value>, n: nat, depth: nat)
    requires
        n <= f.len(),
        f.len() == g.len(),
        forall|i: int| 0 <= i < f.len() ==> hashable_within(h, #[trigger] f[i], depth),
        forall|i: int| 0 <= i < f.len() ==> same_key(h, #[trigger] f[i], g[i], depth),
        forall|i: int| 0 <= i < f.len() ==> canonical_key(h, #[trigger] f[i], depth),
        forall|i: int| 0 <= i < g.len() ==> canonical_key(h, #[trigger] g[i], depth),
    ensures
        fields_message(h, f, n, depth) == fields_message(h, g, n, depth),
    decreases depth, 2nat, n,
{
    if n > 0 {
        lemma_same_fields_message(h, f, g, (n - 1) as nat, depth);
        assert(hashable_within(h, f[n - 1], depth));
        lemma_same_key_message(h, f[n - 1], g[n - 1], depth);
    }
}

/// Coherence: keys that are the same key have the same hash.
pub proof fn law_same_keys_hash_alike(h: HeapView, a: Value, b: Value)
    requires
        hashable(h, a),
        same_key(h, a, b, h.records.len()),
        canonical_key(h, a, h.records.len()),
        canonical_key(h, b, h.records.len()),
    ensures
        key_hash(h, a) == key_hash(h, b),
{
    lemma_same_key_message(h, a, b, h.records.len());
}

} // verus!
