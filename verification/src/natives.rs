//! Calls of host-registered functions: binding their arguments, and the engine's own
//! functions.
use crate::arith::nonfinite_raise;
use crate::arith::num_to_float;
use crate::arith::widened;
use crate::ast::Arg;
use crate::bignum::decimal_text;
use crate::binding::arguments_bound;
use crate::binding::bind_arguments;
use crate::binding::missing_argument;
use crate::binding::missing_raise;
use crate::binding::params_view;
use crate::binding::ParamView;
use crate::error::ExceptionKind;
use crate::error::Raise;
use crate::error::RaiseView;
use crate::float::cosine_float;
use crate::float::finite;
use crate::float::float_cosine;
use crate::float::float_sine;
use crate::float::is_finite;
use crate::float::sine_float;
use crate::heap::Heap;
use crate::heap::HeapView;
use crate::intrinsic::foreign_params;
use crate::intrinsic::ForeignParam;
use crate::intrinsic::ForeignParamView;
use crate::intrinsic::Native;
use crate::native::const_made;
use crate::native::materialize_const;
use crate::number::as_num;
use crate::number::number;
use crate::render::render;
use crate::render::value_text;
use crate::resolve::ParamInfo;
use crate::span::Span;
use crate::text::decimal_usize;
use crate::text::join3;
use crate::unicode::grapheme_clusters;
use crate::unicode::graphemes;
use crate::unicode::nfc_text;
use crate::value::BytesIdx;
use crate::value::StrIdx;
use crate::value::Value;
use crate::values::decode_text;
use crate::values::first_bad;
use vstd::prelude::*;
use vstd::utf8::decode_utf8;
use vstd::utf8::encode_utf8;
use vstd::utf8::valid_utf8;

verus! {

/// The parameters as binding sees them: each in the slot of its place.
pub open spec fn infos_of(params: Seq<ForeignParamView>) -> Seq<ParamView> {
    Seq::new(
        params.len(),
        |i: int|
            ParamView {
                name: params[i].name,
                slot: i as u16,
                is_block: params[i].is_block,
                has_default: params[i].default is Some,
            },
    )
}

/// The parameters as binding sees them.
pub fn param_infos(params: &Vec<ForeignParam>) -> (r: Vec<ParamInfo>)
    requires
        params@.len() <= u16::MAX,
    ensures
        params_view(r@) == infos_of(foreign_params(params@)),
{
    let mut r: Vec<ParamInfo> = Vec::new();
    let mut i: usize = 0;
    while i < params.len()
        invariant
            i <= params@.len(),
            params@.len() <= u16::MAX,
            r@.len() == i,
            forall|k: int|
                0 <= k < i ==> (#[trigger] r@[k])@ == infos_of(foreign_params(params@))[k],
        decreases params@.len() - i,
    {
        let p = &params[i];
        assert(foreign_params(params@)[i as int] == p@);
        r.push(
            ParamInfo {
                name: p.name.as_str().to_owned(),
                slot: i as u16,
                is_block: p.is_block,
                has_default: p.default.is_some(),
            },
        );
        i = i + 1;
    }
    assert(params_view(r@) =~= infos_of(foreign_params(params@)));
    r
}

/// The arguments of the first `n` parameters: what was given, or else the default.
pub open spec fn filled_in(
    h: HeapView,
    params: Seq<ForeignParamView>,
    slots: Seq<Option<Value>>,
    span: Span,
    n: nat,
) -> (HeapView, Result<Seq<Value>, RaiseView>)
    decreases n,
{
    if n == 0 || n > params.len() {
        (h, Ok(Seq::empty()))
    } else {
        let (h1, before) = filled_in(h, params, slots, span, (n - 1) as nat);
        match before {
            Err(e) => (h1, Err(e)),
            Ok(args) => if params[n - 1].is_block {
                (h1, Ok(args))
            } else {
                match (slots[n - 1], params[n - 1].default) {
                    (Some(v), _) => (h1, Ok(args.push(v))),
                    (None, Some(c)) => {
                        let (h2, v) = const_made(h1, c);
                        (h2, Ok(args.push(v)))
                    },
                    (None, None) => (h1, Err(missing_raise(None, params[n - 1].name, span))),
                }
            },
        }
    }
}

/// What binding a call's arguments to the parameters of a host-registered function comes to.
pub open spec fn foreign_bound(
    h: HeapView,
    params: Seq<ForeignParamView>,
    args: Seq<Arg>,
    values: Seq<Value>,
    span: Span,
) -> (HeapView, Result<Seq<Value>, RaiseView>) {
    let b = arguments_bound(h, infos_of(params), params.len(), args, values, None, span);
    match b.raise {
        Some(e) => (b.heap, Err(e)),
        None => filled_in(b.heap, params, b.slots, span, params.len()),
    }
}

/// A result whose value is a sequence and whose exception is taken by its view.
pub open spec fn outcome_of(r: Result<Vec<Value>, Raise>) -> Result<Seq<Value>, RaiseView> {
    match r {
        Ok(v) => Ok(v@),
        Err(e) => Err(e@),
    }
}

/// Binds a call's arguments to the parameters of a host-registered function, in parameter
/// order; the block parameter is not among them.
pub fn bind_foreign_arguments(
    heap: &mut Heap,
    params: &Vec<ForeignParam>,
    args: &Vec<Arg>,
    arg_values: &Vec<Value>,
    span: Span,
) -> (r: Result<Vec<Value>, Raise>)
    requires
        params@.len() <= u16::MAX,
    ensures
        (final(heap)@, outcome_of(r)) == foreign_bound(
            old(heap)@,
            foreign_params(params@),
            args@,
            arg_values@,
            span,
        ),
{
    let infos = param_infos(params);
    let ghost views = foreign_params(params@);
    proof {
        crate::binding::lemma_arguments_bound_lengths(
            heap@,
            infos_of(views),
            views.len(),
            args@,
            arg_values@,
            None,
            span,
        );
    }
    let bound = bind_arguments(
        heap,
        args,
        &infos,
        params.len() as u16,
        arg_values,
        None,
        span,
    );
    let (slots, filled) = match bound {
        Ok(b) => b,
        Err(e) => {
            return Err(e);
        },
    };
    let ghost h1 = heap@;
    let mut out: Vec<Value> = Vec::new();
    let mut i: usize = 0;
    assert(out@ =~= Seq::empty());
    while i < params.len()
        invariant
            i <= params@.len(),
            views == foreign_params(params@),
            slots@.len() == params@.len(),
            (heap@, Ok::<Seq<Value>, RaiseView>(out@)) == filled_in(
                h1,
                views,
                slots@,
                span,
                i as nat,
            ),
            foreign_bound(old(heap)@, views, args@, arg_values@, span) == filled_in(
                h1,
                views,
                slots@,
                span,
                views.len(),
            ),
        decreases params@.len() - i,
    {
        let p = &params[i];
        assert(views[i as int] == p@);
        if !p.is_block {
            match slots[i] {
                Some(v) => {
                    out.push(v);
                },
                None => match &p.default {
                    Some(c) => {
                        let v = materialize_const(c, heap);
                        out.push(v);
                    },
                    None => {
                        let e = missing_argument(None, p.name.as_str(), span);
                        proof {
                            lemma_stays_refused(h1, views, slots@, span, i as nat + 1, views.len());
                        }
                        return Err(e);
                    },
                },
            }
        }
        i = i + 1;
    }
    Ok(out)
}

proof fn lemma_stays_refused(
    h: HeapView,
    params: Seq<ForeignParamView>,
    slots: Seq<Option<Value>>,
    span: Span,
    n: nat,
    m: nat,
)
    requires
        n <= m <= params.len(),
        filled_in(h, params, slots, span, n).1 is Err,
    ensures
        filled_in(h, params, slots, span, m) == filled_in(h, params, slots, span, n),
    decreases m - n,
{
    if n < m {
        lemma_stays_refused(h, params, slots, span, n, (m - 1) as nat);
    }
}

/// What one of the engine's functions comes to: the heap, the bytes it writes, and its
/// result.
pub struct NativeResult {
    /// The heap.
    pub heap: HeapView,
    /// The bytes it writes.
    pub written: Seq<u8>,
    /// The result.
    pub result: Result<Option<Value>, RaiseView>,
}

/// The raise for an argument of the wrong type.
pub open spec fn needs_raise(message: Seq<char>, span: Span) -> RaiseView {
    RaiseView::new(ExceptionKind::TypeMismatch, message, span)
}

/// How many elements a container has: a string's are its clusters.
pub open spec fn container_length(h: HeapView, v: Value) -> Option<nat> {
    match v {
        Value::Str(s) => Some(grapheme_clusters(h.text(s)).len()),
        Value::List(l) => Some(h.items(l).len()),
        Value::Dict(d) => Some(h.dict(d).entries.len()),
        Value::Bytes(b) => Some(h.bytes_of(b).len()),
        _ => None,
    }
}

/// Where bytes stop being well-formed UTF-8.
pub open spec fn bad_position(bytes: Seq<u8>) -> int {
    choose|p: int| first_bad(bytes, p)
}

proof fn lemma_bad_position(bytes: Seq<u8>, p: int)
    requires
        first_bad(bytes, p),
    ensures
        bad_position(bytes) == p,
{
    let q = bad_position(bytes);
    assert(first_bad(bytes, q));
    if p < q {
        assert(!valid_utf8(bytes.take(q)));
    }
    if q < p {
        assert(!valid_utf8(bytes.take(p)));
    }
}

/// What decoding bytes comes to.
pub open spec fn decoding(h: HeapView, v: Value, span: Span) -> (HeapView, Result<
    Option<Value>,
    RaiseView,
>) {
    match v {
        Value::Bytes(b) => {
            let bytes = h.bytes_of(b);
            if valid_utf8(bytes) {
                (
                    h.new_string(nfc_text(decode_utf8(bytes))),
                    Ok(Some(Value::Str(StrIdx(h.strings.len() as usize)))),
                )
            } else {
                (
                    h,
                    Err(
                        RaiseView::new(
                            ExceptionKind::InvalidUtf8,
                            "these bytes aren't valid UTF-8 text (problem at byte "@
                                + decimal_text(bad_position(bytes)) + ")"@,
                            span,
                        ),
                    ),
                )
            }
        },
        _ => (h, Err(needs_raise("`decode` needs bytes"@, span))),
    }
}

/// What encoding a string comes to.
pub open spec fn encoding(h: HeapView, v: Value, span: Span) -> (HeapView, Result<
    Option<Value>,
    RaiseView,
>) {
    match v {
        Value::Str(s) => (
            h.new_bytes(encode_utf8(h.text(s))),
            Ok(Some(Value::Bytes(BytesIdx(h.bytes.len() as usize)))),
        ),
        _ => (h, Err(needs_raise("`encode` needs a string"@, span))),
    }
}

/// What a trigonometric function comes to, given its value at the angle.
pub open spec fn trigonometry(h: HeapView, v: Value, span: Span, cosine: bool) -> Result<
    Option<Value>,
    RaiseView,
> {
    match number(h, v) {
        None => Err(needs_raise("this needs a number (an angle in radians)"@, span)),
        Some(n) => match widened(n) {
            None => Err(nonfinite_raise(span)),
            Some(x) => {
                let y = if cosine {
                    float_cosine(x)
                } else {
                    float_sine(x)
                };
                if finite(y) {
                    Ok(Some(Value::Float(y)))
                } else {
                    Err(nonfinite_raise(span))
                }
            },
        },
    }
}

/// What one of the engine's functions comes to on its argument; `each` is not done at once,
/// so it is none of these.
pub open spec fn native_result(native: Native, h: HeapView, v: Value, span: Span) -> NativeResult {
    match native {
        Native::Print => NativeResult {
            heap: h,
            written: encode_utf8(value_text(h, v)).push(10u8),
            result: Ok(None),
        },
        Native::Length => NativeResult {
            heap: h,
            written: Seq::empty(),
            result: match container_length(h, v) {
                Some(n) => Ok(Some(Value::Int(n as usize as i64))),
                None => Err(
                    needs_raise("`length` needs a string, list, dict, or bytes"@, span),
                ),
            },
        },
        Native::Encode => {
            let (heap, result) = encoding(h, v, span);
            NativeResult { heap, written: Seq::empty(), result }
        },
        Native::Decode => {
            let (heap, result) = decoding(h, v, span);
            NativeResult { heap, written: Seq::empty(), result }
        },
        Native::Sin => NativeResult {
            heap: h,
            written: Seq::empty(),
            result: trigonometry(h, v, span, false),
        },
        Native::Cos => NativeResult {
            heap: h,
            written: Seq::empty(),
            result: trigonometry(h, v, span, true),
        },
        Native::Each => NativeResult { heap: h, written: Seq::empty(), result: Ok(None) },
    }
}

/// A result taken by its view.
pub open spec fn result_of(r: Result<Option<Value>, Raise>) -> Result<Option<Value>, RaiseView> {
    match r {
        Ok(v) => Ok(v),
        Err(e) => Err(e@),
    }
}

/// Appends bytes.
pub fn append_bytes(out: &mut Vec<u8>, bytes: &[u8])
    ensures
        final(out)@ == old(out)@ + bytes@,
{
    let mut i: usize = 0;
    while i < bytes.len()
        invariant
            i <= bytes@.len(),
            out@ =~= old(out)@ + bytes@.take(i as int),
        decreases bytes@.len() - i,
    {
        out.push(bytes[i]);
        i = i + 1;
    }
    assert(bytes@.take(i as int) =~= bytes@);
}

fn length_of(heap: &Heap, v: Value) -> (r: Option<usize>)
    ensures
        (match container_length(heap@, v) {
            Some(n) => r is Some && r->0 == n,
            None => r is None,
        }),
{
    match v {
        Value::Str(s) => {
            let clusters = graphemes(heap.string(s));
            assert(crate::text::texts(clusters@).len() == clusters@.len());
            Some(clusters.len())
        },
        Value::List(l) => match heap.list(l) {
            Some(items) => Some(items.len()),
            None => Some(0),
        },
        Value::Dict(d) => match heap.dict(d) {
            Some(dict) => Some(dict.entries.len()),
            None => Some(0),
        },
        Value::Bytes(b) => match heap.byte_string(b) {
            Some(bytes) => Some(bytes.len()),
            None => Some(0),
        },
        _ => None,
    }
}

fn decode_value(heap: &mut Heap, v: Value, span: Span) -> (r: Result<Option<Value>, Raise>)
    ensures
        (final(heap)@, result_of(r)) == decoding(old(heap)@, v, span),
{
    let decoded = match v {
        Value::Bytes(b) => {
            let empty: Vec<u8> = Vec::new();
            assert(empty@ =~= Seq::empty());
            match heap.byte_string(b) {
                Some(bytes) => decode_text(bytes),
                None => decode_text(&empty),
            }
        },
        _ => {
            return Err(
                Raise::new(
                    ExceptionKind::TypeMismatch,
                    "`decode` needs bytes".to_owned(),
                    span,
                ),
            );
        },
    };
    match decoded {
        Ok(text) => Ok(Some(Value::Str(heap.alloc_string(text)))),
        Err(position) => {
            proof {
                lemma_bad_position(heap@.bytes_of(v->Bytes_0), position as int);
            }
            let place = decimal_usize(position);
            Err(
                Raise::new(
                    ExceptionKind::InvalidUtf8,
                    join3(
                        "these bytes aren't valid UTF-8 text (problem at byte ",
                        place.as_str(),
                        ")",
                    ),
                    span,
                ),
            )
        },
    }
}

fn encode_value(heap: &mut Heap, v: Value, span: Span) -> (r: Result<Option<Value>, Raise>)
    ensures
        (final(heap)@, result_of(r)) == encoding(old(heap)@, v, span),
{
    match v {
        Value::Str(s) => {
            let mut bytes: Vec<u8> = Vec::new();
            append_bytes(&mut bytes, heap.string(s).as_bytes());
            assert(bytes@ =~= encode_utf8(heap@.text(s)));
            Ok(Some(Value::Bytes(heap.alloc_bytes(bytes))))
        },
        _ => Err(
            Raise::new(ExceptionKind::TypeMismatch, "`encode` needs a string".to_owned(), span),
        ),
    }
}

fn trig_value(heap: &Heap, v: Value, span: Span, cosine: bool) -> (r: Result<Option<Value>, Raise>)
    ensures
        result_of(r) == trigonometry(heap@, v, span, cosine),
{
    let n = match as_num(v, heap) {
        Some(n) => n,
        None => {
            return Err(
                Raise::new(
                    ExceptionKind::TypeMismatch,
                    "this needs a number (an angle in radians)".to_owned(),
                    span,
                ),
            );
        },
    };
    let x: u64 = match num_to_float(&n, span) {
        Ok(x) => x,
        Err(e) => {
            return Err(e);
        },
    };
    let y: u64 = if cosine {
        cosine_float(x)
    } else {
        sine_float(x)
    };
    if is_finite(y) {
        Ok(Some(Value::Float(y)))
    } else {
        Err(
            Raise::new(
                ExceptionKind::NonFiniteFloat,
                "that number got too big to be a real number".to_owned(),
                span,
            ),
        )
    }
}

/// Runs one of the engine's functions that are done at once.
pub fn run_native(native: Native, heap: &mut Heap, output: &mut Vec<u8>, v: Value, span: Span) -> (r:
    Result<Option<Value>, Raise>)
    requires
        !(native is Each),
    ensures
        ({
            let done = native_result(native, old(heap)@, v, span);
            &&& final(heap)@ == done.heap
            &&& final(output)@ == old(output)@ + done.written
            &&& result_of(r) == done.result
        }),
{
    match native {
        Native::Print => {
            let text = render(heap, v);
            append_bytes(output, text.as_str().as_bytes());
            output.push(10u8);
            assert(output@ =~= old(output)@ + encode_utf8(value_text(heap@, v)).push(10u8));
            Ok(None)
        },
        Native::Length => {
            assert(output@ =~= old(output)@ + Seq::empty());
            match length_of(heap, v) {
                Some(n) => Ok(Some(Value::Int(n as i64))),
                None => Err(
                    Raise::new(
                        ExceptionKind::TypeMismatch,
                        "`length` needs a string, list, dict, or bytes".to_owned(),
                        span,
                    ),
                ),
            }
        },
        Native::Encode => {
            assert(output@ =~= old(output)@ + Seq::empty());
            encode_value(heap, v, span)
        },
        Native::Decode => {
            assert(output@ =~= old(output)@ + Seq::empty());
            decode_value(heap, v, span)
        },
        Native::Sin => {
            assert(output@ =~= old(output)@ + Seq::empty());
            trig_value(heap, v, span, false)
        },
        Native::Cos => {
            assert(output@ =~= old(output)@ + Seq::empty());
            trig_value(heap, v, span, true)
        },
        Native::Each => Ok(None),
    }
}

/// Decoding the encoding of a string in canonical composition gives the string back.
pub proof fn law_decode_undoes_encode(h: HeapView, s: StrIdx, span: Span)
    requires
        h.bytes.len() < usize::MAX,
        h.strings.len() < usize::MAX,
        nfc_text(h.text(s)) == h.text(s),
    ensures
        ({
            let (h1, encoded) = encoding(h, Value::Str(s), span);
            let (h2, decoded) = decoding(h1, encoded->Ok_0->0, span);
            &&& encoded is Ok
            &&& decoded matches Ok(Some(Value::Str(t)))
            &&& h2.text(t) == h.text(s)
        }),
{
    let bytes = encode_utf8(h.text(s));
    vstd::utf8::encode_utf8_valid_utf8(h.text(s));
    vstd::utf8::encode_utf8_decode_utf8(h.text(s));
    let (h1, encoded) = encoding(h, Value::Str(s), span);
    assert(h1.bytes_of(encoded->Ok_0->0->Bytes_0) == bytes);
}

} // verus!
