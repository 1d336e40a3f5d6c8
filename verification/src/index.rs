//! Dict literals and elements: `{k: v}`, `object[key]` and `object[key] = v`. A key whose
//! type implements `Hashable` is hashed by that implementation, any other natively.
use crate::ast::DictKey;
use crate::ast::Node;
use crate::ast::NodeId;
use crate::bignum::decimal_text;
use crate::call::enter_unary;
use crate::call::entering_unary;
use crate::cont::Work;
use crate::dict::get;
use crate::dict::get_with_hash;
use crate::dict::insert;
use crate::dict::insert_with_hash;
use crate::dict::inserted;
use crate::dict::stored;
use crate::error::details_view;
use crate::error::result_view;
use crate::error::DetailVal;
use crate::error::DetailView;
use crate::error::ExceptionKind;
use crate::error::Raise;
use crate::error::RaiseView;
use crate::exception::alloc_str;
use crate::exception::text_heap;
use crate::exception::text_value;
use crate::exception::type_mismatch_detail;
use crate::exception::type_mismatch_details;
use crate::exception::type_text;
use crate::hash::hash_value;
use crate::hash::hashable;
use crate::hash::key_hash;
use crate::hash::kind_name;
use crate::hash::kind_text;
use crate::hash::unhashable_raise;
use crate::heap::Heap;
use crate::heap::HeapView;
use crate::machine::raise_of;
use crate::machine::stepped;
use crate::machine::take_value;
use crate::machine::void_raise;
use crate::machine::Machine;
use crate::machine::MachineView;
use crate::machine::Step;
use crate::modload::LoadedModule;
use crate::protocol::implementation;
use crate::protocol::resolve;
use crate::protocol::WellKnown;
use crate::resolve::ResolvedModule;
use crate::span::Span;
use crate::text::decimal_i64;
use crate::text::decimal_usize;
use crate::text::join3;
use crate::text::join5;
use crate::unicode::grapheme_clusters;
use crate::unicode::graphemes;
use crate::value::DictIdx;
use crate::value::StrIdx;
use crate::value::Value;
use vstd::prelude::*;

verus! {

/// What going on with a dict literal from an entry leads to.
pub open spec fn literal_advanced(
    resolved: ResolvedModule,
    modules: Seq<LoadedModule>,
    h: HeapView,
    m: MachineView,
    node: NodeId,
    entries: Seq<(Value, Value)>,
    index: int,
) -> Step {
    match resolved.node_at(node) {
        Some(Node::Dict(literal)) => if index >= literal@.len() {
            built(
                resolved,
                modules,
                h.new_dict(),
                m,
                node,
                DictIdx(h.dicts.len() as usize),
                entries,
                0,
            )
        } else {
            let entry = literal@[index];
            match entry.key {
                DictKey::Bare(name) => Step::done(
                    text_heap(h, name@),
                    m.doing(
                        Work::DictGotValue {
                            dict: node,
                            entries,
                            index: index as usize,
                            key: text_value(h),
                        },
                    ).doing(Work::Eval { node: entry.value }),
                ),
                DictKey::Expr(key) => Step::done(
                    h,
                    m.doing(
                        Work::DictGotKey { dict: node, entries, index: index as usize },
                    ).doing(Work::Eval { node: key }),
                ),
            }
        },
        _ => Step::done(h, m.broken()),
    }
}

/// What storing the entries of a dict literal from one on leads to.
pub open spec fn built(
    resolved: ResolvedModule,
    modules: Seq<LoadedModule>,
    h: HeapView,
    m: MachineView,
    node: NodeId,
    dict: DictIdx,
    entries: Seq<(Value, Value)>,
    index: nat,
) -> Step
    decreases entries.len() - index,
{
    let span = resolved.ast.range(node);
    if index >= entries.len() {
        Step::done(h, m.valued(Value::Dict(dict)))
    } else {
        let (key, value) = entries[index as int];
        match implementation(m.protocols, WellKnown::Hashable, h, key) {
            Some(cal) => entering_unary(
                modules,
                h,
                m.doing(Work::DictBuildHashed { node, dict, entries, index: index as usize }),
                cal,
                key,
                node,
                span,
            ),
            None => if hashable(h, key) {
                built(
                    resolved,
                    modules,
                    inserted(h, dict, key, value, key_hash(h, key)),
                    m,
                    node,
                    dict,
                    entries,
                    index + 1,
                )
            } else {
                Step::raised(h, m, unhashable_raise(h, key, span))
            },
        }
    }
}

/// Goes on with a dict literal from an entry: a bare key is its own text, any other is
/// evaluated; after the last entry the dict is made and filled.
pub fn dict_advance(
    resolved: &ResolvedModule,
    modules: &Vec<LoadedModule>,
    heap: &mut Heap,
    machine: &mut Machine,
    node: NodeId,
    entries: Vec<(Value, Value)>,
    index: usize,
) -> (r: Result<(), Raise>)
    ensures
        stepped(r, final(heap)@, final(machine)@) == literal_advanced(
            *resolved,
            modules@,
            old(heap)@,
            old(machine)@,
            node,
            entries@,
            index as int,
        ),
{
    match resolved.ast.node(node) {
        Some(Node::Dict(literal)) => {
            if index >= literal.len() {
                let dict = heap.alloc_dict();
                return dict_build(resolved, modules, heap, machine, node, dict, entries, 0);
            }
            let value = literal[index].value;
            match &literal[index].key {
                DictKey::Bare(name) => {
                    let key = Value::Str(alloc_str(heap, name.as_str()));
                    machine.push_cont(Work::DictGotValue { dict: node, entries, index, key });
                    machine.push_cont(Work::Eval { node: value });
                    Ok(())
                },
                DictKey::Expr(key) => {
                    machine.push_cont(Work::DictGotKey { dict: node, entries, index });
                    machine.push_cont(Work::Eval { node: *key });
                    Ok(())
                },
            }
        },
        _ => {
            machine.fail();
            Ok(())
        },
    }
}

/// Stores the entries of a dict literal from one on.
pub fn dict_build(
    resolved: &ResolvedModule,
    modules: &Vec<LoadedModule>,
    heap: &mut Heap,
    machine: &mut Machine,
    node: NodeId,
    dict: DictIdx,
    entries: Vec<(Value, Value)>,
    index: usize,
) -> (r: Result<(), Raise>)
    ensures
        stepped(r, final(heap)@, final(machine)@) == built(
            *resolved,
            modules@,
            old(heap)@,
            old(machine)@,
            node,
            dict,
            entries@,
            index as nat,
        ),
{
    let span = resolved.ast.span(node);
    let mut i: usize = index;
    while i < entries.len()
        invariant
            machine@ == old(machine)@,
            span == resolved.ast.range(node),
            i <= entries@.len() || i == index,
            built(*resolved, modules@, heap@, machine@, node, dict, entries@, i as nat) == built(
                *resolved,
                modules@,
                old(heap)@,
                old(machine)@,
                node,
                dict,
                entries@,
                index as nat,
            ),
        decreases entries@.len() - i,
    {
        let (key, value) = entries[i];
        match resolve(&machine.protocols, WellKnown::Hashable, heap, key) {
            None => match insert(heap, dict, key, value, span) {
                Ok(()) => {
                    i = i + 1;
                },
                Err(e) => {
                    return Err(e);
                },
            },
            Some(cal) => {
                machine.push_cont(Work::DictBuildHashed { node, dict, entries, index: i });
                return enter_unary(modules, heap, machine, cal, key, node, span);
            },
        }
    }
    machine.reg = Some(Value::Dict(dict));
    Ok(())
}

/// What having a computed key of a dict literal leads to: its value.
pub open spec fn literal_key_known(
    resolved: ResolvedModule,
    m: MachineView,
    node: NodeId,
    entries: Seq<(Value, Value)>,
    index: int,
) -> (MachineView, Option<RaiseView>) {
    match m.reg {
        None => (m, Some(void_raise(resolved.ast.range(node)))),
        Some(key) => match resolved.node_at(node) {
            Some(Node::Dict(literal)) => if index < literal@.len() {
                (
                    m.voided().doing(
                        Work::DictGotValue { dict: node, entries, index: index as usize, key },
                    ).doing(Work::Eval { node: literal@[index].value }),
                    None,
                )
            } else {
                (m.voided().broken(), None)
            },
            _ => (m.voided().broken(), None),
        },
    }
}

/// A computed key of a dict literal is in the register.
pub fn dict_got_key(
    resolved: &ResolvedModule,
    machine: &mut Machine,
    node: NodeId,
    entries: Vec<(Value, Value)>,
    index: usize,
) -> (r: Result<(), Raise>)
    ensures
        (final(machine)@, raise_of(r)) == literal_key_known(
            *resolved,
            old(machine)@,
            node,
            entries@,
            index as int,
        ),
{
    let key = match take_value(machine, resolved.ast.span(node)) {
        Ok(v) => v,
        Err(e) => {
            return Err(e);
        },
    };
    match resolved.ast.node(node) {
        Some(Node::Dict(literal)) => {
            if index < literal.len() {
                let value = literal[index].value;
                machine.push_cont(Work::DictGotValue { dict: node, entries, index, key });
                machine.push_cont(Work::Eval { node: value });
            } else {
                machine.fail();
            }
        },
        _ => machine.fail(),
    }
    Ok(())
}

/// What having a value of a dict literal leads to: the next entry.
pub open spec fn literal_value_known(
    resolved: ResolvedModule,
    modules: Seq<LoadedModule>,
    h: HeapView,
    m: MachineView,
    node: NodeId,
    entries: Seq<(Value, Value)>,
    index: int,
    key: Value,
) -> Step {
    match m.reg {
        None => Step::raised(h, m, void_raise(resolved.ast.range(node))),
        Some(v) => if index < usize::MAX {
            literal_advanced(
                resolved,
                modules,
                h,
                m.voided(),
                node,
                entries.push((key, v)),
                index + 1,
            )
        } else {
            Step::done(h, m.voided().broken())
        },
    }
}

/// A value of a dict literal is in the register.
pub fn dict_got_value(
    resolved: &ResolvedModule,
    modules: &Vec<LoadedModule>,
    heap: &mut Heap,
    machine: &mut Machine,
    node: NodeId,
    entries: Vec<(Value, Value)>,
    index: usize,
    key: Value,
) -> (r: Result<(), Raise>)
    ensures
        stepped(r, final(heap)@, final(machine)@) == literal_value_known(
            *resolved,
            modules@,
            old(heap)@,
            old(machine)@,
            node,
            entries@,
            index as int,
            key,
        ),
{
    let value = match take_value(machine, resolved.ast.span(node)) {
        Ok(v) => v,
        Err(e) => {
            return Err(e);
        },
    };
    if index == usize::MAX {
        machine.fail();
        return Ok(());
    }
    let mut entries = entries;
    entries.push((key, value));
    dict_advance(resolved, modules, heap, machine, node, entries, index + 1)
}

/// The hash a `Hashable` implementation's result stands for: an integer's own hash.
pub open spec fn bucket_reading(h: HeapView, v: Value, span: Span) -> Result<u64, RaiseView> {
    match v {
        Value::Int(_) => Ok(key_hash(h, v)),
        Value::BigInt(_) => Ok(key_hash(h, v)),
        _ => Err(
            RaiseView::new(
                ExceptionKind::TypeMismatch,
                "a `hash` implementation must return an Int"@,
                span,
            ).with(type_mismatch_detail("hash"@, "Int"@, type_text(h, v))),
        ),
    }
}

/// The hash a `Hashable` implementation's result stands for; anything but an integer
/// raises.
pub fn user_hash_to_bucket(v: Value, heap: &Heap, span: Span) -> (r: Result<u64, Raise>)
    ensures
        result_view(r) == bucket_reading(heap@, v, span),
{
    match v {
        Value::Int(_) | Value::BigInt(_) => Ok(hash_value(v, heap)),
        _ => Err(
            Raise::new(
                ExceptionKind::TypeMismatch,
                "a `hash` implementation must return an Int".to_owned(),
                span,
            ).with_details(type_mismatch_details("hash", "Int", v, heap)),
        ),
    }
}

/// What having the hash of a dict literal's key leads to.
pub open spec fn literal_hash_known(
    resolved: ResolvedModule,
    modules: Seq<LoadedModule>,
    h: HeapView,
    m: MachineView,
    node: NodeId,
    dict: DictIdx,
    entries: Seq<(Value, Value)>,
    index: nat,
) -> Step {
    let span = resolved.ast.range(node);
    match m.reg {
        None => Step::raised(h, m, void_raise(span)),
        Some(v) => match bucket_reading(h, v, span) {
            Err(e) => Step::raised(h, m.voided(), e),
            Ok(bucket) => if index < entries.len() {
                let (key, value) = entries[index as int];
                built(
                    resolved,
                    modules,
                    inserted(h, dict, key, value, bucket),
                    m.voided(),
                    node,
                    dict,
                    entries,
                    index + 1,
                )
            } else {
                Step::done(h, m.voided().broken())
            },
        },
    }
}

/// The hash of a dict literal's key is in the register: stores that entry and goes on.
pub fn dict_build_hashed(
    resolved: &ResolvedModule,
    modules: &Vec<LoadedModule>,
    heap: &mut Heap,
    machine: &mut Machine,
    node: NodeId,
    dict: DictIdx,
    entries: Vec<(Value, Value)>,
    index: usize,
) -> (r: Result<(), Raise>)
    ensures
        stepped(r, final(heap)@, final(machine)@) == literal_hash_known(
            *resolved,
            modules@,
            old(heap)@,
            old(machine)@,
            node,
            dict,
            entries@,
            index as nat,
        ),
{
    let span = resolved.ast.span(node);
    let v = match take_value(machine, span) {
        Ok(v) => v,
        Err(e) => {
            return Err(e);
        },
    };
    let bucket: u64 = match user_hash_to_bucket(v, heap, span) {
        Ok(b) => b,
        Err(e) => {
            return Err(e);
        },
    };
    if index >= entries.len() {
        machine.fail();
        return Ok(());
    }
    let (key, value) = entries[index];
    insert_with_hash(heap, dict, key, value, bucket);
    dict_build(resolved, modules, heap, machine, node, dict, entries, index + 1)
}

/// What having the object of an element read leads to: its key.
pub open spec fn index_object_known(m: MachineView, index: NodeId, span: Span) -> (
    MachineView,
    Option<RaiseView>,
) {
    match m.reg {
        None => (m, Some(void_raise(span))),
        Some(object) => (
            m.voided().doing(Work::IndexApply { object, span, key_node: index }).doing(
                Work::Eval { node: index },
            ),
            None,
        ),
    }
}

/// The object of an element read is in the register.
pub fn index_got_object(machine: &mut Machine, index: NodeId, span: Span) -> (r: Result<(), Raise>)
    ensures
        (final(machine)@, raise_of(r)) == index_object_known(old(machine)@, index, span),
{
    let object = match take_value(machine, span) {
        Ok(v) => v,
        Err(e) => {
            return Err(e);
        },
    };
    machine.push_cont(Work::IndexApply { object, span, key_node: index });
    machine.push_cont(Work::Eval { node: index });
    Ok(())
}

/// The raise for a position outside a sequence.
pub open spec fn position_raise(position: int, length: int, span: Span) -> RaiseView {
    RaiseView::new(
        ExceptionKind::IndexOutOfRange,
        if position < 0 {
            "there's no position "@ + decimal_text(position)
                + " — Doodle has no negative positions; to reach the last item, use `length - 1`"@
        } else {
            "there's no position "@ + decimal_text(position) + " — the length is "@
                + decimal_text(length) + ""@
        },
        span,
    )
}

fn out_of_range(position: &str, is_negative: bool, length: usize, span: Span) -> (r: Raise)
    ensures
        forall|p: int|
            #![trigger decimal_text(p)]
            position@ == decimal_text(p) && is_negative == (p < 0) ==> r@ == position_raise(
                p,
                length as int,
                span,
            ),
{
    let message = if is_negative {
        join3(
            "there's no position ",
            position,
            " — Doodle has no negative positions; to reach the last item, use `length - 1`",
        )
    } else {
        let n = decimal_usize(length);
        join5("there's no position ", position, " — the length is ", n.as_str(), "")
    };
    Raise::new(ExceptionKind::IndexOutOfRange, message, span)
}

/// The position that a key names in a sequence of a length.
pub open spec fn position_reading(h: HeapView, key: Value, length: nat, span: Span) -> Result<
    nat,
    RaiseView,
> {
    match key {
        Value::Int(n) => if 0 <= n < length {
            Ok(n as nat)
        } else {
            Err(position_raise(n as int, length as int, span))
        },
        Value::BigInt(i) => Err(position_raise(h.big(i), length as int, span)),
        _ => Err(
            RaiseView::new(
                ExceptionKind::TypeMismatch,
                "an index must be a whole number (an Int), not "@ + kind_text(key) + ""@,
                span,
            ),
        ),
    }
}

/// The position that a key names in a sequence of a length: an integer from zero on and
/// below it.
pub fn sequence_index(heap: &Heap, key: Value, length: usize, span: Span) -> (r: Result<
    usize,
    Raise,
>)
    ensures
        (match position_reading(heap@, key, length as nat, span) {
            Ok(p) => r is Ok && r->Ok_0 == p && p < length,
            Err(e) => r is Err && r->Err_0@ == e,
        }),
{
    match key {
        Value::Int(n) => {
            if n >= 0 && (n as u64) < length as u64 {
                return Ok(n as usize);
            }
            let text = decimal_i64(n);
            Err(out_of_range(text.as_str(), n < 0, length, span))
        },
        Value::BigInt(i) => {
            let n = heap.bigint(i);
            let text = n.decimal();
            Err(out_of_range(text.as_str(), n.is_negative(), length, span))
        },
        _ => Err(
            Raise::new(
                ExceptionKind::TypeMismatch,
                join3("an index must be a whole number (an Int), not ", kind_name(key), ""),
                span,
            ),
        ),
    }
}

/// The raise for an element of what has none.
pub open spec fn unindexable_raise(object: Value, span: Span) -> RaiseView {
    RaiseView::new(
        ExceptionKind::TypeMismatch,
        "you can't index "@ + kind_text(object) + " with `[…]`"@,
        span,
    )
}

fn unindexable(object: Value, span: Span) -> (r: Raise)
    ensures
        r@ == unindexable_raise(object, span),
{
    Raise::new(
        ExceptionKind::TypeMismatch,
        join3("you can't index ", kind_name(object), " with `[…]`"),
        span,
    )
}

/// The raise for a key that the dict does not hold.
pub open spec fn keyless_raise(key: Value, span: Span) -> RaiseView {
    RaiseView::new(ExceptionKind::KeyNotFound, "that key isn't in the dict"@, span).with(
        seq![("key"@, DetailView::Value(key))],
    )
}

/// What a dict lookup leaves.
pub open spec fn lookup_placed(m: MachineView, key: Value, found: Option<Value>, span: Span) -> (
    MachineView,
    Option<RaiseView>,
) {
    match found {
        Some(v) => (m.valued(v), None),
        None => (m, Some(keyless_raise(key, span))),
    }
}

fn index_read_result(machine: &mut Machine, key: Value, found: Option<Value>, span: Span) -> (r:
    Result<(), Raise>)
    ensures
        (final(machine)@, raise_of(r)) == lookup_placed(old(machine)@, key, found, span),
{
    match found {
        Some(v) => {
            machine.reg = Some(v);
            Ok(())
        },
        None => {
            let mut details: Vec<(&'static str, DetailVal)> = Vec::new();
            details.push(("key", DetailVal::Value(key)));
            assert(details_view(details@) =~= seq![("key"@, DetailView::Value(key))]);
            Err(
                Raise::new(
                    ExceptionKind::KeyNotFound,
                    "that key isn't in the dict".to_owned(),
                    span,
                ).with_details(details),
            )
        },
    }
}

/// What reading an element leaves: of a dict by key, of a list, string or byte string by
/// position. An element of a string is an extended grapheme cluster.
pub open spec fn element_read(
    modules: Seq<LoadedModule>,
    h: HeapView,
    m: MachineView,
    object: Value,
    key: Value,
    key_node: NodeId,
    span: Span,
) -> Step {
    match object {
        Value::Dict(d) => match implementation(m.protocols, WellKnown::Hashable, h, key) {
            Some(cal) => entering_unary(
                modules,
                h,
                m.doing(Work::IndexReadHashed { dict: d, key, span }),
                cal,
                key,
                key_node,
                span,
            ),
            None => if hashable(h, key) {
                let (m2, e) = lookup_placed(m, key, stored(h, d, key, key_hash(h, key)), span);
                Step { heap: h, machine: m2, raise: e }
            } else {
                Step::raised(h, m, unhashable_raise(h, key, span))
            },
        },
        Value::List(l) => match position_reading(h, key, h.items(l).len(), span) {
            Ok(p) => Step::done(h, m.valued(h.items(l)[p as int])),
            Err(e) => Step::raised(h, m, e),
        },
        Value::Bytes(b) => match position_reading(h, key, h.bytes_of(b).len(), span) {
            Ok(p) => Step::done(h, m.valued(Value::Int(h.bytes_of(b)[p as int] as i64))),
            Err(e) => Step::raised(h, m, e),
        },
        Value::Str(s) => {
            let clusters = grapheme_clusters(h.text(s));
            match position_reading(h, key, clusters.len(), span) {
                Ok(p) => Step::done(
                    h.new_string(clusters[p as int]),
                    m.valued(Value::Str(StrIdx(h.strings.len() as usize))),
                ),
                Err(e) => Step::raised(h, m, e),
            }
        },
        _ => Step::raised(h, m, unindexable_raise(object, span)),
    }
}

/// The key of an element read is in the register: reads the element.
pub fn index_apply(
    modules: &Vec<LoadedModule>,
    heap: &mut Heap,
    machine: &mut Machine,
    object: Value,
    key_node: NodeId,
    span: Span,
) -> (r: Result<(), Raise>)
    ensures
        stepped(r, final(heap)@, final(machine)@) == (match old(machine)@.reg {
            Some(key) => element_read(
                modules@,
                old(heap)@,
                old(machine)@.voided(),
                object,
                key,
                key_node,
                span,
            ),
            None => Step::raised(old(heap)@, old(machine)@, void_raise(span)),
        }),
{
    let key = match take_value(machine, span) {
        Ok(v) => v,
        Err(e) => {
            return Err(e);
        },
    };
    match object {
        Value::Dict(d) => match resolve(&machine.protocols, WellKnown::Hashable, heap, key) {
            Some(cal) => {
                machine.push_cont(Work::IndexReadHashed { dict: d, key, span });
                enter_unary(modules, heap, machine, cal, key, key_node, span)
            },
            None => match get(heap, d, key, span) {
                Ok(found) => index_read_result(machine, key, found, span),
                Err(e) => Err(e),
            },
        },
        Value::List(l) => {
            let none: Vec<Value> = Vec::new();
            let items: &Vec<Value> = match heap.list(l) {
                Some(items) => items,
                None => &none,
            };
            assert(items@ =~= heap@.items(l));
            match sequence_index(heap, key, items.len(), span) {
                Ok(i) => {
                    machine.reg = Some(items[i]);
                    Ok(())
                },
                Err(e) => Err(e),
            }
        },
        Value::Bytes(b) => {
            let none: Vec<u8> = Vec::new();
            let bytes: &Vec<u8> = match heap.byte_string(b) {
                Some(bytes) => bytes,
                None => &none,
            };
            assert(bytes@ =~= heap@.bytes_of(b));
            match sequence_index(heap, key, bytes.len(), span) {
                Ok(i) => {
                    machine.reg = Some(Value::Int(bytes[i] as i64));
                    Ok(())
                },
                Err(e) => Err(e),
            }
        },
        Value::Str(s) => {
            let clusters = graphemes(heap.string(s));
            assert(clusters@.len() == grapheme_clusters(heap@.text(s)).len());
            match sequence_index(heap, key, clusters.len(), span) {
                Ok(i) => {
                    let text = clusters[i].as_str().to_owned();
                    machine.reg = Some(Value::Str(heap.alloc_string(text)));
                    Ok(())
                },
                Err(e) => Err(e),
            }
        },
        _ => Err(unindexable(object, span)),
    }
}

/// What having the hash of a read key leads to.
pub open spec fn read_hash_known(
    h: HeapView,
    m: MachineView,
    dict: DictIdx,
    key: Value,
    span: Span,
) -> (MachineView, Option<RaiseView>) {
    match m.reg {
        None => (m, Some(void_raise(span))),
        Some(v) => match bucket_reading(h, v, span) {
            Err(e) => (m.voided(), Some(e)),
            Ok(bucket) => lookup_placed(m.voided(), key, stored(h, dict, key, bucket), span),
        },
    }
}

/// The hash of the key of an element read is in the register.
pub fn index_read_hashed(
    heap: &Heap,
    machine: &mut Machine,
    dict: DictIdx,
    key: Value,
    span: Span,
) -> (r: Result<(), Raise>)
    ensures
        (final(machine)@, raise_of(r)) == read_hash_known(
            heap@,
            old(machine)@,
            dict,
            key,
            span,
        ),
{
    let v = match take_value(machine, span) {
        Ok(v) => v,
        Err(e) => {
            return Err(e);
        },
    };
    match user_hash_to_bucket(v, heap, span) {
        Ok(bucket) => {
            let found = get_with_hash(heap, dict, key, bucket);
            index_read_result(machine, key, found, span)
        },
        Err(e) => Err(e),
    }
}

/// What storing an element leaves. Only a dict's elements can be assigned.
pub open spec fn element_set(
    resolved: ResolvedModule,
    modules: Seq<LoadedModule>,
    h: HeapView,
    m: MachineView,
    assign: NodeId,
    object: Value,
    key: Value,
) -> Step {
    match resolved.node_at(assign) {
        Some(Node::Assign { target, value }) => {
            let span = resolved.ast.range(target);
            match m.reg {
                None => Step::raised(h, m, void_raise(resolved.ast.range(value))),
                Some(v) => match object {
                    Value::Dict(d) => match implementation(
                        m.protocols,
                        WellKnown::Hashable,
                        h,
                        key,
                    ) {
                        Some(cal) => entering_unary(
                            modules,
                            h,
                            m.voided().doing(
                                Work::IndexAssignHashed { dict: d, key, value: v, span },
                            ),
                            cal,
                            key,
                            target,
                            span,
                        ),
                        None => if hashable(h, key) {
                            Step::done(inserted(h, d, key, v, key_hash(h, key)), m.voided())
                        } else {
                            Step::raised(h, m.voided(), unhashable_raise(h, key, span))
                        },
                    },
                    _ => Step::raised(h, m.voided(), unindexable_raise(object, span)),
                },
            }
        },
        _ => Step::done(h, m.broken()),
    }
}

/// The value for an element is in the register: stores it.
pub fn index_set(
    resolved: &ResolvedModule,
    modules: &Vec<LoadedModule>,
    heap: &mut Heap,
    machine: &mut Machine,
    assign: NodeId,
    object: Value,
    key: Value,
) -> (r: Result<(), Raise>)
    ensures
        stepped(r, final(heap)@, final(machine)@) == element_set(
            *resolved,
            modules@,
            old(heap)@,
            old(machine)@,
            assign,
            object,
            key,
        ),
{
    let (target, value) = match resolved.ast.node(assign) {
        Some(Node::Assign { target, value }) => (*target, *value),
        _ => {
            machine.fail();
            return Ok(());
        },
    };
    let span = resolved.ast.span(target);
    let rhs = match take_value(machine, resolved.ast.span(value)) {
        Ok(v) => v,
        Err(e) => {
            return Err(e);
        },
    };
    match object {
        Value::Dict(d) => match resolve(&machine.protocols, WellKnown::Hashable, heap, key) {
            Some(cal) => {
                machine.push_cont(Work::IndexAssignHashed { dict: d, key, value: rhs, span });
                enter_unary(modules, heap, machine, cal, key, target, span)
            },
            None => insert(heap, d, key, rhs, span),
        },
        _ => Err(unindexable(object, span)),
    }
}

/// What having the hash of an assigned key leads to.
pub open spec fn assign_hash_known(
    h: HeapView,
    m: MachineView,
    dict: DictIdx,
    key: Value,
    value: Value,
    span: Span,
) -> Step {
    match m.reg {
        None => Step::raised(h, m, void_raise(span)),
        Some(v) => match bucket_reading(h, v, span) {
            Err(e) => Step::raised(h, m.voided(), e),
            Ok(bucket) => Step::done(inserted(h, dict, key, value, bucket), m.voided()),
        },
    }
}

/// The hash of the key of an assigned element is in the register.
pub fn index_assign_hashed(
    heap: &mut Heap,
    machine: &mut Machine,
    dict: DictIdx,
    key: Value,
    value: Value,
    span: Span,
) -> (r: Result<(), Raise>)
    ensures
        stepped(r, final(heap)@, final(machine)@) == assign_hash_known(
            old(heap)@,
            old(machine)@,
            dict,
            key,
            value,
            span,
        ),
{
    let v = match take_value(machine, span) {
        Ok(v) => v,
        Err(e) => {
            return Err(e);
        },
    };
    match user_hash_to_bucket(v, heap, span) {
        Ok(bucket) => {
            insert_with_hash(heap, dict, key, value, bucket);
            Ok(())
        },
        Err(e) => Err(e),
    }
}

} // verus!
