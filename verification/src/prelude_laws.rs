//! What a program starts with: the names of the prelude and of the modules that are known.

use crate::error::ExceptionKind;
use crate::error::RaiseView;
use crate::float::finite;
use crate::float::float_cosine;
use crate::float::float_sine;
use crate::heap::CallableTarget;
use crate::heap::CalView;
use crate::heap::CellKind;
use crate::heap::CellObj;
use crate::heap::HeapView;
use crate::heap::TypeView;
use crate::inspect::builtin_name;
use crate::intrinsic::builtin_types;
use crate::intrinsic::IntrinsicView;
use crate::intrinsic::Native;
use crate::load::functions_bound;
use crate::load::types_bound;
use crate::modload::dotted;
use crate::modload::LoadState;
use crate::modload::LoadView;
use crate::named::named_from;
use crate::natives::native_result;
use crate::number::number;
use crate::span::ModuleId;
use crate::span::Span;
use crate::unicode::nfc_text;
use crate::value::BytesIdx;
use crate::value::CalIdx;
use crate::value::CellIdx;
use crate::value::StrIdx;
use crate::value::TypeIdx;
use crate::value::Value;
use vstd::prelude::*;
use vstd::utf8::decode_utf8;
use vstd::utf8::valid_utf8;

verus! {

/// A built-in type is bound under the name that its values' type is told by.
pub proof fn law_builtin_types_are_bound_by_their_name(i: int)
    requires
        0 <= i < builtin_types().len(),
    ensures
        builtin_types().len() == 13,
        builtin_types()[i].0 == builtin_name(builtin_types()[i].1),
        forall|j: int|
            0 <= j < builtin_types().len() && j != i ==> builtin_types()[i].1 != (
            #[trigger] builtin_types()[j]).1,
{
}

/// The built-in types are constants of the prelude, each a type of its own.
pub proof fn law_builtin_types_are_constants(h: HeapView, n: nat)
    requires
        n <= builtin_types().len(),
        h.cells.len() + n <= usize::MAX,
        h.types.len() + n <= u32::MAX,
    ensures
        ({
            let (g, names) = types_bound(h, n);
            &&& names.len() == n
            &&& g.cells.len() == h.cells.len() + n
            &&& g.types.len() == h.types.len() + n
            &&& forall|i: int|
                0 <= i < n ==> (#[trigger] names[i]).0 == builtin_types()[i].0 && names[i].1.0
                    == h.cells.len() + i
            &&& forall|i: int|
                0 <= i < n ==> #[trigger] g.types[h.types.len() + i] == Some(
                    TypeView::Builtin(builtin_types()[i].1),
                )
            &&& forall|i: int|
                0 <= i < n ==> #[trigger] g.cells[h.cells.len() + i] == Some(
                    CellObj {
                        kind: CellKind::Const,
                        value: Some(Value::Type(TypeIdx((h.types.len() + i) as usize))),
                    },
                )
        }),
    decreases n,
{
    if n > 0 {
        law_builtin_types_are_constants(h, (n - 1) as nat);
    }
}

/// The functions that are registered are constants of the prelude under their names, in order,
/// each the callable of its own number.
pub proof fn law_registered_functions_are_constants(
    b: (HeapView, Seq<(Seq<char>, CellIdx)>),
    id: ModuleId,
    all: Seq<IntrinsicView>,
    n: nat,
)
    requires
        n <= all.len(),
        all.len() <= u32::MAX,
        b.0.cells.len() + n <= usize::MAX,
        b.0.callables.len() + n <= usize::MAX,
    ensures
        ({
            let (g, names) = functions_bound(b, id, all, n);
            &&& names.len() == b.1.len() + n
            &&& names.take(b.1.len() as int) == b.1
            &&& g.cells.len() == b.0.cells.len() + n
            &&& g.callables.len() == b.0.callables.len() + n
            &&& forall|i: int|
                0 <= i < n ==> (#[trigger] names[b.1.len() + i]).0 == all[i].name && names[b.1.len()
                    + i].1.0 == b.0.cells.len() + i
            &&& forall|i: int|
                0 <= i < n ==> #[trigger] g.callables[b.0.callables.len() + i] == Some(
                    CalView {
                        module: id,
                        target: CallableTarget::Intrinsic(i as u32),
                        captures: Seq::empty(),
                    },
                )
            &&& forall|i: int|
                0 <= i < n ==> #[trigger] g.cells[b.0.cells.len() + i] == Some(
                    CellObj {
                        kind: CellKind::Const,
                        value: Some(Value::Callable(CalIdx((b.0.callables.len() + i) as usize))),
                    },
                )
        }),
    decreases n,
{
    if n == 0 {
        assert(b.1.take(b.1.len() as int) =~= b.1);
    } else {
        law_registered_functions_are_constants(b, id, all, (n - 1) as nat);
        let before = functions_bound(b, id, all, (n - 1) as nat).1;
        let after = functions_bound(b, id, all, n).1;
        assert(after.take(b.1.len() as int) =~= before.take(b.1.len() as int));
    }
}

proof fn lemma_named_last<T>(list: Seq<(Seq<char>, T)>, name: Seq<char>, v: T, from: nat)
    requires
        from <= list.len(),
        named_from(list, name, from) is None,
    ensures
        named_from(list.push((name, v)), name, from) == Some(v),
    decreases list.len() - from,
{
    let all = list.push((name, v));
    if from < list.len() {
        assert(all[from as int] == list[from as int]);
        lemma_named_last(list, name, v, from + 1);
    } else {
        assert(all[from as int] == (name, v));
    }
}

/// A module that begins to load is found by its path and by its canonical id, and so is a
/// module by a further path of it.
pub proof fn law_modules_are_found_by_their_paths(
    load: LoadView,
    path: Seq<Seq<char>>,
    canonical: Seq<char>,
    id: ModuleId,
)
    requires
        load.module_at(path) is None,
        load.module_of(canonical) is None,
        load.states.len() == id.0,
    ensures
        load.begun(path, canonical, id).module_at(path) == Some(id),
        load.begun(path, canonical, id).module_of(canonical) == Some(id),
        load.begun(path, canonical, id).state(id) == Some(LoadState::Loading),
        load.aliased(path, id).module_at(path) == Some(id),
        load.aliased(path, id).states == load.states,
{
    lemma_named_last(load.paths, dotted(path), id, 0);
    lemma_named_last(load.canonicals, canonical, id, 0);
}

/// Bytes that are a text decode to it, in canonical composition, and others are refused; the
/// angle functions take any number that a float can hold.
pub proof fn law_bytes_decode_to_their_text(h: HeapView, b: BytesIdx, v: Value, span: Span)
    requires
        h.strings.len() < usize::MAX,
    ensures
        ({
            let decode = native_result(Native::Decode, h, Value::Bytes(b), span);
            let other = native_result(Native::Decode, h, v, span);
            let s = StrIdx(h.strings.len() as usize);
            &&& valid_utf8(h.bytes_of(b)) ==> decode.result == Ok::<Option<Value>, RaiseView>(
                Some(Value::Str(s)),
            ) && decode.heap.text(s) == nfc_text(decode_utf8(h.bytes_of(b)))
            &&& !valid_utf8(h.bytes_of(b)) ==> decode.heap == h && decode.result is Err
                && decode.result->Err_0.kind == ExceptionKind::InvalidUtf8
            &&& !(v is Bytes) ==> other.heap == h && other.result is Err
                && other.result->Err_0.kind == ExceptionKind::TypeMismatch
        }),
        ({
            let sin = native_result(Native::Sin, h, v, span);
            let cos = native_result(Native::Cos, h, v, span);
            &&& sin.heap == h && cos.heap == h
            &&& number(h, v) is None ==> sin.result is Err && cos.result is Err
            &&& (v matches Value::Float(x) ==> finite(x) ==> {
                &&& finite(float_sine(x)) ==> sin.result == Ok::<Option<Value>, RaiseView>(
                    Some(Value::Float(float_sine(x))),
                )
                &&& finite(float_cosine(x)) ==> cos.result == Ok::<Option<Value>, RaiseView>(
                    Some(Value::Float(float_cosine(x))),
                )
            })
        }),
{
}

} // verus!
