//! What assigned places, dict literals and elements of dicts come to, and what is kept account
//! of on the way.

use crate::assign::placed;
use crate::ast::DictEntry;
use crate::ast::DictKey;
use crate::ast::Node;
use crate::ast::NodeId;
use crate::compare::agree;
use crate::compare::key_lookup;
use crate::compare::same;
use crate::cont::ContView;
use crate::control_laws::goes_on_with;
use crate::control_laws::pending;
use crate::control_laws::running;
use crate::dict::inserted;
use crate::dict::stored;
use crate::error::DetailView;
use crate::error::EngineFault;
use crate::error::ExceptionKind;
use crate::error::LimitKind;
use crate::exception::description;
use crate::exception::detail_entries;
use crate::exception::detail_items;
use crate::exception::detail_value;
use crate::exception::error_made;
use crate::exception::text_heap;
use crate::exception::text_value;
use crate::hash::hashable;
use crate::hash::key_hash;
use crate::heap::CellKind;
use crate::heap::CellObj;
use crate::heap::HeapView;
use crate::heap::RecordView;
use crate::index::built;
use crate::index::element_read;
use crate::index::element_set;
use crate::index::literal_advanced;
use crate::index::literal_key_known;
use crate::index::literal_value_known;
use crate::limits::Meter;
use crate::limits::op_metered;
use crate::load::seeded;
use crate::machine::Exit;
use crate::machine::MachineView;
use crate::machine::Unwind;
use crate::modload::LoadedModule;
use crate::protocol::implementation;
use crate::protocol::WellKnown;
use crate::record::copied;
use crate::resolve::BodyKind;
use crate::resolve::GlobalDecl;
use crate::resolve::GlobalKind;
use crate::resolve::ResolvedModule;
use crate::span::Span;
use crate::unicode::nfc_text;
use crate::unwind::boundary_resumed;
use crate::value::DictIdx;
use crate::value::RecIdx;
use crate::value::StrIdx;
use crate::value::TypeIdx;
use crate::value::Value;
use crate::value_laws::lemma_other_tables;
use vstd::prelude::*;

verus! {

proof fn lemma_next_operand(m: MachineView, a: ContView, b: ContView)
    requires
        running(m),
    ensures
        goes_on_with(m, m.doing(a).doing(b), pending(m).push(a).push(b)),
        goes_on_with(m, m.voided().doing(a).doing(b), pending(m).push(a).push(b)),
        m.voided().doing(a).doing(b).reg is None,
{
    assert(m.doing(a).doing(b).frames.drop_last() =~= m.frames.drop_last());
    assert(m.voided().doing(a).doing(b).frames.drop_last() =~= m.frames.drop_last());
}

/// The object of an assigned place is kept while the value, or the key and then the value, is
/// evaluated.
pub proof fn law_places_are_known_before_their_value(
    resolved: ResolvedModule,
    m: MachineView,
    assign: NodeId,
    target: NodeId,
    value: NodeId,
    object: Value,
    v: Value,
)
    requires
        running(m),
        resolved.node_at(assign) == Some(Node::Assign { target, value }),
        m.reg == Some(v),
    ensures
        ({
            let (y, d) = placed(resolved, m, assign);
            let (z, e) = crate::assign::keyed(resolved, m, assign, object);
            &&& (resolved.node_at(target) matches Some(Node::Field { .. }) ==> d is None
                && y.reg is None && goes_on_with(
                m,
                y,
                pending(m).push(ContView::AssignFieldVal { assign, object: v }).push(
                    ContView::Eval { node: value },
                ),
            ))
            &&& (resolved.node_at(target) matches Some(Node::Index { index, .. }) ==> d is None
                && y.reg is None && goes_on_with(
                m,
                y,
                pending(m).push(ContView::AssignIndexKey { assign, object: v }).push(
                    ContView::Eval { node: index },
                ),
            ))
            &&& e is None && z.reg is None && goes_on_with(
                m,
                z,
                pending(m).push(ContView::AssignIndexVal { assign, object, key: v }).push(
                    ContView::Eval { node: value },
                ),
            )
        }),
{
    match resolved.node_at(target) {
        Some(Node::Index { index, .. }) => {
            lemma_next_operand(
                m,
                ContView::AssignIndexKey { assign, object: v },
                ContView::Eval { node: index },
            );
        },
        _ => {
            lemma_next_operand(
                m,
                ContView::AssignFieldVal { assign, object: v },
                ContView::Eval { node: value },
            );
        },
    }
    lemma_next_operand(
        m,
        ContView::AssignIndexVal { assign, object, key: v },
        ContView::Eval { node: value },
    );
}

/// The entries of a dict literal are evaluated in order, the key of each before its value. A
/// bare key is a string of its name.
pub proof fn law_dict_literals_are_evaluated_in_order(
    resolved: ResolvedModule,
    modules: Seq<LoadedModule>,
    h: HeapView,
    m: MachineView,
    node: NodeId,
    literal: Vec<DictEntry>,
    entries: Seq<(Value, Value)>,
    index: int,
)
    requires
        running(m),
        resolved.node_at(node) == Some(Node::Dict(literal)),
        0 <= index < literal@.len(),
        h.strings.len() < usize::MAX,
    ensures
        ({
            let z = literal_advanced(resolved, modules, h, m, node, entries, index);
            let s = StrIdx(h.strings.len() as usize);
            &&& z.raise is None
            &&& match literal@[index].key {
                DictKey::Bare(name) => {
                    &&& z.heap.text(s) == nfc_text(name@)
                    &&& goes_on_with(
                        m,
                        z.machine,
                        pending(m).push(
                            ContView::DictGotValue {
                                dict: node,
                                entries,
                                index: index as usize,
                                key: Value::Str(s),
                            },
                        ).push(ContView::Eval { node: literal@[index].value }),
                    )
                },
                DictKey::Expr(key) => {
                    &&& z.heap == h
                    &&& goes_on_with(
                        m,
                        z.machine,
                        pending(m).push(
                            ContView::DictGotKey { dict: node, entries, index: index as usize },
                        ).push(ContView::Eval { node: key }),
                    )
                },
            }
            &&& (m.reg matches Some(k) ==> {
                let (y, e) = literal_key_known(resolved, m, node, entries, index);
                &&& e is None && y.reg is None
                &&& goes_on_with(
                    m,
                    y,
                    pending(m).push(
                        ContView::DictGotValue {
                            dict: node,
                            entries,
                            index: index as usize,
                            key: k,
                        },
                    ).push(ContView::Eval { node: literal@[index].value }),
                )
            })
        }),
{
    match literal@[index].key {
        DictKey::Bare(name) => {
            lemma_next_operand(
                m,
                ContView::DictGotValue {
                    dict: node,
                    entries,
                    index: index as usize,
                    key: Value::Str(StrIdx(h.strings.len() as usize)),
                },
                ContView::Eval { node: literal@[index].value },
            );
        },
        DictKey::Expr(key) => {
            lemma_next_operand(
                m,
                ContView::DictGotKey { dict: node, entries, index: index as usize },
                ContView::Eval { node: key },
            );
        },
    }
    if m.reg is Some {
        lemma_next_operand(
            m,
            ContView::DictGotValue { dict: node, entries, index: index as usize, key: m.reg->0 },
            ContView::Eval { node: literal@[index].value },
        );
    }
}

/// With its value an entry of a dict literal is complete, behind those before it; and the next
/// one follows.
pub proof fn law_dict_literals_collect_their_entries(
    resolved: ResolvedModule,
    modules: Seq<LoadedModule>,
    h: HeapView,
    m: MachineView,
    node: NodeId,
    literal: Vec<DictEntry>,
    entries: Seq<(Value, Value)>,
    index: int,
    key: Value,
    v: Value,
    next: NodeId,
)
    requires
        running(m),
        resolved.node_at(node) == Some(Node::Dict(literal)),
        0 <= index,
        index + 1 < literal@.len(),
        literal@.len() <= usize::MAX,
        literal@[index + 1].key == DictKey::Expr(next),
        m.reg == Some(v),
    ensures
        ({
            let z = literal_value_known(resolved, modules, h, m, node, entries, index, key);
            &&& z.raise is None && z.heap == h && z.machine.reg is None
            &&& goes_on_with(
                m,
                z.machine,
                pending(m).push(
                    ContView::DictGotKey {
                        dict: node,
                        entries: entries.push((key, v)),
                        index: (index + 1) as usize,
                    },
                ).push(ContView::Eval { node: next }),
            )
        }),
{
    lemma_next_operand(
        m,
        ContView::DictGotKey {
            dict: node,
            entries: entries.push((key, v)),
            index: (index + 1) as usize,
        },
        ContView::Eval { node: next },
    );
}

/// A dict literal is a new dict, and its entries are stored in it one after the other.
pub proof fn law_dict_literals_store_their_entries(
    resolved: ResolvedModule,
    modules: Seq<LoadedModule>,
    h: HeapView,
    m: MachineView,
    node: NodeId,
    dict: DictIdx,
    entries: Seq<(Value, Value)>,
    index: nat,
)
    ensures
        ({
            let z = built(resolved, modules, h, m, node, dict, entries, index);
            &&& index >= entries.len() ==> z.raise is None && z.heap == h && z.machine == (
            MachineView { reg: Some(Value::Dict(dict)), ..m })
            &&& index < entries.len() && implementation(
                m.protocols,
                WellKnown::Hashable,
                h,
                entries[index as int].0,
            ) is None ==> if hashable(h, entries[index as int].0) {
                z == built(
                    resolved,
                    modules,
                    inserted(
                        h,
                        dict,
                        entries[index as int].0,
                        entries[index as int].1,
                        key_hash(h, entries[index as int].0),
                    ),
                    m,
                    node,
                    dict,
                    entries,
                    index + 1,
                )
            } else {
                z.raise is Some && z.heap == h && z.machine == m
            }
        }),
{
}

/// An element of a dict is read and stored under its key. A key that is not there is refused
/// when it is read; one that cannot be a key, in either case. What is no dict has no elements
/// to store.
pub proof fn law_dict_elements_are_found_by_their_key(
    resolved: ResolvedModule,
    modules: Seq<LoadedModule>,
    h: HeapView,
    m: MachineView,
    d: DictIdx,
    key: Value,
    key_node: NodeId,
    assign: NodeId,
    target: NodeId,
    value: NodeId,
    v: Value,
    span: Span,
)
    requires
        running(m),
        resolved.node_at(assign) == Some(Node::Assign { target, value }),
        m.reg == Some(v),
        implementation(m.protocols, WellKnown::Hashable, h, key) is None,
    ensures
        ({
            let y = element_read(modules, h, m, Value::Dict(d), key, key_node, span);
            let z = element_set(resolved, modules, h, m, assign, Value::Dict(d), key);
            let hash = key_hash(h, key);
            &&& y.heap == h
            &&& hashable(h, key) ==> match stored(h, d, key, hash) {
                Some(w) => y.raise is None && y.machine.reg == Some(w) && goes_on_with(
                    m,
                    y.machine,
                    pending(m),
                ),
                None => y.raise is Some && y.raise->0.kind == ExceptionKind::KeyNotFound
                    && y.machine == m,
            }
            &&& hashable(h, key) ==> z.raise is None && z.heap == inserted(h, d, key, v, hash)
                && z.machine.reg is None && goes_on_with(m, z.machine, pending(m))
            &&& !hashable(h, key) ==> y.raise is Some && z.raise is Some && z.heap == h
        }),
        forall|object: Value|
            !(object is Dict) ==> ({
                let z = #[trigger] element_set(resolved, modules, h, m, assign, object, key);
                z.heap == h && z.raise is Some && z.raise->0.kind == ExceptionKind::TypeMismatch
            }),
{
}

/// A declaration of a module has an empty cell of its own, in order; only a variable's can be
/// assigned, and only a parameter's rebound.
pub proof fn law_declarations_have_cells_of_their_own(
    h: HeapView,
    globals: Seq<GlobalDecl>,
    n: nat,
)
    requires
        n <= globals.len(),
        h.cells.len() + n <= usize::MAX,
    ensures
        ({
            let (g, names) = seeded(h, globals, n);
            &&& names.len() == n
            &&& g.cells.len() == h.cells.len() + n
            &&& forall|c: int| 0 <= c < h.cells.len() ==> #[trigger] g.cells[c] == h.cells[c]
            &&& forall|i: int|
                0 <= i < n ==> (#[trigger] names[i]).0 == globals[i].name@ && names[i].1.0
                    == h.cells.len() + i && g.cells[h.cells.len() + i] == Some(
                    CellObj {
                        kind: match globals[i].kind {
                            GlobalKind::Let => CellKind::Let,
                            GlobalKind::Parameter => CellKind::Parameter,
                            _ => CellKind::Const,
                        },
                        value: None,
                    },
                )
        }),
    decreases n,
{
    if n > 0 {
        law_declarations_have_cells_of_their_own(h, globals, (n - 1) as nat);
    }
}

/// A `break` out of a block that a host's function runs ends at that very call, with its value;
/// a procedure's call has no place for one. Any other transfer goes on.
pub proof fn law_breaks_end_at_the_call_they_leave(m: MachineView, boundary: usize, kind: BodyKind)
    ensures
        ({
            let (z, e) = boundary_resumed(m, boundary as int, kind);
            match m.unwind {
                Some(Unwind::Leave { exit: Exit::PastNative { boundary: b }, value }) => {
                    &&& b != boundary ==> z == m && e is None
                    &&& b == boundary ==> z.unwind is None && z.frames == m.frames
                    &&& b == boundary && kind == BodyKind::Proc && value is Some ==> e is Some
                        && e->0.kind == ExceptionKind::NoValueDestination
                    &&& b == boundary && !(kind == BodyKind::Proc && value is Some) ==> e is None
                        && z.reg == value
                },
                _ => z == m && e is None,
            }
        }),
{
}

/// An operation is paid for by the size of its result, and refused where a limit would be
/// passed: the heap's, an operation's, or what is left of the steps.
pub proof fn law_operations_are_paid_for(m: Meter, n: int)
    requires
        n >= 0,
    ensures
        ({
            let z = op_metered(m, n);
            let fits = n <= m.limits.heap_bytes && n <= m.limits.max_op_result_bytes && n
                <= m.fuel.budget;
            &&& z.limits == m.limits
            &&& fits ==> z.fuel.budget == m.fuel.budget - n && z.pending_fault == m.pending_fault
                && z.fuel.slice == m.fuel.slice
            &&& !fits ==> z.fuel == m.fuel && z.pending_fault is Some
            &&& n > m.limits.heap_bytes ==> z.pending_fault == Some(
                EngineFault::LimitExceeded(LimitKind::Heap),
            )
            &&& n <= m.limits.heap_bytes && n > m.limits.max_op_result_bytes ==> z.pending_fault
                == Some(EngineFault::LimitExceeded(LimitKind::OpResult))
            &&& n <= m.limits.heap_bytes && n <= m.limits.max_op_result_bytes && n > m.fuel.budget
                ==> z.pending_fault == Some(EngineFault::LimitExceeded(LimitKind::StepBudget))
        }),
{
}

/// Whether the strings of a heap are still there in another.
pub open spec fn texts_stay(h: HeapView, g: HeapView) -> bool {
    &&& h.strings.len() <= g.strings.len()
    &&& forall|i: int| 0 <= i < h.strings.len() ==> #[trigger] g.strings[i] == h.strings[i]
}

proof fn lemma_detail_texts(h: HeapView, d: DetailView)
    ensures
        texts_stay(h, detail_value(h, d).0),
    decreases d, 0nat,
{
    match d {
        DetailView::List(items) => lemma_item_texts(h, items, items.len()),
        DetailView::Dict(items) => {
            let idx = DictIdx(h.dicts.len() as usize);
            lemma_entry_texts(h.new_dict(), idx, items, items.len());
        },
        _ => {},
    }
}

proof fn lemma_item_texts(h: HeapView, items: Seq<DetailView>, n: nat)
    ensures
        texts_stay(h, detail_items(h, items, n).0),
    decreases items, n,
{
    if n > 0 && n <= items.len() {
        lemma_item_texts(h, items, (n - 1) as nat);
        lemma_detail_texts(detail_items(h, items, (n - 1) as nat).0, items[n - 1]);
    }
}

proof fn lemma_entry_texts(
    h: HeapView,
    idx: DictIdx,
    items: Seq<(Seq<char>, DetailView)>,
    n: nat,
)
    ensures
        texts_stay(h, detail_entries(h, idx, items, n)),
    decreases items, n,
{
    if n > 0 && n <= items.len() {
        lemma_entry_texts(h, idx, items, (n - 1) as nat);
        let before = detail_entries(h, idx, items, (n - 1) as nat);
        let keyed = text_heap(before, items[n - 1].0);
        let key = text_value(before);
        lemma_detail_texts(keyed, items[n - 1].1);
        let (valued, value) = detail_value(keyed, items[n - 1].1);
        lemma_other_tables(valued, value, valued.records.len());
        let with_value = copied(valued, value).0;
        lemma_other_tables(with_value, key, with_value.records.len());
    }
}

/// An error that is made is a record of the type of errors: its kind, its message, and a dict
/// of what else there is to tell.
pub proof fn law_errors_tell_their_kind_and_message(
    h: HeapView,
    error_type: TypeIdx,
    slug: Seq<char>,
    message: Seq<char>,
    details: Seq<(Seq<char>, DetailView)>,
)
    requires
        h.strings.len() + 2 <= usize::MAX,
        error_made(h, error_type, slug, message, details).0.records.len() <= usize::MAX,
    ensures
        ({
            let (g, v) = error_made(h, error_type, slug, message, details);
            &&& v matches Value::Record(r)
            &&& g.record(r) matches Some(rec)
            &&& rec.type_idx == error_type
            &&& rec.fields.len() == 3
            &&& rec.fields[0] matches Value::Str(k)
            &&& rec.fields[1] matches Value::Str(m)
            &&& g.text(k) == nfc_text(slug)
            &&& g.text(m) == nfc_text(message)
            &&& rec.fields[2] is Dict
            &&& description(g, error_type, v) == (nfc_text(slug), nfc_text(message))
        }),
{
    let kinded = text_heap(h, slug);
    let told = text_heap(kinded, message);
    lemma_entry_texts(
        told.new_dict(),
        DictIdx(told.dicts.len() as usize),
        details,
        details.len(),
    );
    let g = error_made(h, error_type, slug, message, details).0;
    let n = h.strings.len() as int;
    assert(told.strings[n] == Some(nfc_text(slug)));
    assert(told.strings[n + 1] == Some(nfc_text(message)));
    assert(g.strings[n] == told.new_dict().strings[n]);
    assert(g.strings[n + 1] == told.new_dict().strings[n + 1]);
}

/// A host is told the kind and the message of an error, and the text of a string.
pub proof fn law_raised_values_are_described(
    h: HeapView,
    error_type: TypeIdx,
    r: RecIdx,
    rec: RecordView,
    kind: StrIdx,
    message: StrIdx,
)
    requires
        h.record(r) == Some(rec),
        rec.type_idx == error_type,
        rec.fields.len() >= 2,
        rec.fields[0] == Value::Str(kind),
        rec.fields[1] == Value::Str(message),
    ensures
        description(h, error_type, Value::Record(r)) == (h.text(kind), h.text(message)),
        description(h, error_type, Value::Str(message)).1 == h.text(message),
{
}

/// Two dicts are equal if they are one dict, or if they have as many entries and each key of
/// the one is in the other, with an equal value.
pub proof fn law_dicts_are_equal_by_their_entries(h: HeapView, x: DictIdx, y: DictIdx)
    ensures
        same(h, Value::Dict(x), Value::Dict(y)) <==> x == y || {
            &&& h.dict(x).entries.len() == h.dict(y).entries.len()
            &&& forall|i: int|
                0 <= i < h.dict(x).entries.len() ==> (match key_lookup(
                    h,
                    h.dict(y),
                    (#[trigger] h.dict(x).entries[i]).0,
                ) {
                    Some(j) => same(h, h.dict(x).entries[i].1, h.dict(y).entries[j as int].1),
                    None => false,
                })
        },
{
    let (a, b) = (Value::Dict(x), Value::Dict(y));
    let (d, e) = (h.dict(x), h.dict(y));
    if same(h, a, b) && x != y {
        assert(agree(h, 1, a, b));
        assert forall|i: int| 0 <= i < d.entries.len() implies (match key_lookup(
            h,
            e,
            (#[trigger] d.entries[i]).0,
        ) {
            Some(j) => same(h, d.entries[i].1, e.entries[j as int].1),
            None => false,
        }) by {
            let j = key_lookup(h, e, d.entries[i].0);
            assert(j is Some);
            assert forall|k: nat| #[trigger]
                agree(h, k, d.entries[i].1, e.entries[j->0 as int].1) by {
                assert(agree(h, k + 1, a, b));
            }
        }
    }
    if x != y && d.entries.len() == e.entries.len() && forall|i: int|
        0 <= i < d.entries.len() ==> (match key_lookup(h, e, (#[trigger] d.entries[i]).0) {
            Some(j) => same(h, d.entries[i].1, e.entries[j as int].1),
            None => false,
        }) {
        assert forall|k: nat| #[trigger] agree(h, k, a, b) by {
            if k > 0 {
                assert forall|i: int| 0 <= i < d.entries.len() implies (match key_lookup(
                    h,
                    e,
                    (#[trigger] d.entries[i]).0,
                ) {
                    Some(j) => agree(
                        h,
                        (k - 1) as nat,
                        d.entries[i].1,
                        e.entries[j as int].1,
                    ),
                    None => false,
                }) by {
                    let j = key_lookup(h, e, d.entries[i].0);
                    assert(j is Some);
                    assert(same(h, d.entries[i].1, e.entries[j->0 as int].1));
                }
            }
        }
    }
    if x == y {
        assert forall|k: nat| #[trigger] agree(h, k, a, b) by {}
    }
}

} // verus!
