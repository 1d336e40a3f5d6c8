//! Comparison, equality and boolean operators. Equality is structural, total and safe on
//! cyclic structures: two structures are equal when no finite unrolling tells them apart.
//! Numbers compare by exact value, whatever their kind. Ordering is defined for numbers
//! and strings only.
use crate::ast::BinaryOp;
use crate::error::result_view;
use crate::error::ExceptionKind;
use crate::error::Raise;
use crate::error::RaiseView;
use crate::exception::ordering_detail;
use crate::exception::ordering_details;
use crate::exception::type_text;
use crate::float::compare_floats;
use crate::float::compare_int_float;
use crate::float::exact_order;
use crate::float::int_order;
use crate::float::is_nan;
use crate::float::order_ints;
use crate::float::Order;
use crate::hash::hash_value;
use crate::hash::hashable;
use crate::hash::hashable_within;
use crate::hash::key_hash;
use crate::hash::kind_name;
use crate::hash::kind_text;
use crate::hash::same_key;
use crate::heap::DictView;
use crate::heap::Heap;
use crate::heap::HeapView;
use crate::number::as_num;
use crate::number::number;
use crate::number::Num;
use crate::span::Span;
use crate::text::join5;
use crate::value::DictIdx;
use crate::value::ListIdx;
use crate::value::RecIdx;
use crate::value::Value;
use vstd::prelude::*;
use vstd::set_lib::set_int_range;
use vstd::utf8::encode_utf8;

verus! {

/// Two containers of one kind under comparison.
#[derive(Clone, Copy, PartialEq, Eq, Debug, Structural)]
pub enum Pair {
    /// Two lists.
    Lists(ListIdx, ListIdx),
    /// Two dicts.
    Dicts(DictIdx, DictIdx),
    /// Two records.
    Records(RecIdx, RecIdx),
}

/// The containers two values are, if they are of one kind.
pub open spec fn pair_of(a: Value, b: Value) -> Option<Pair> {
    match (a, b) {
        (Value::List(x), Value::List(y)) => Some(Pair::Lists(x, y)),
        (Value::Dict(x), Value::Dict(y)) => Some(Pair::Dicts(x, y)),
        (Value::Record(x), Value::Record(y)) => Some(Pair::Records(x, y)),
        _ => None,
    }
}

/// The first entry of a dict, from a position on, that holds a natively hashed key.
pub open spec fn key_position(h: HeapView, d: DictView, key: Value, from: nat) -> Option<nat>
    decreases d.entries.len() - from,
{
    if from >= d.entries.len() || from >= d.hashes.len() {
        None
    } else if d.hashes[from as int] == key_hash(h, key) && same_key(
        h,
        d.entries[from as int].0,
        key,
        h.records.len(),
    ) {
        Some(from)
    } else {
        key_position(h, d, key, from + 1)
    }
}

/// The entry of a dict that holds a key, where the key may be one.
pub open spec fn key_lookup(h: HeapView, d: DictView, key: Value) -> Option<nat> {
    if hashable(h, key) {
        key_position(h, d, key, 0)
    } else {
        None
    }
}

/// Whether unrolling two values `k` times does not tell them apart.
pub open spec fn agree(h: HeapView, k: nat, a: Value, b: Value) -> bool
    decreases k,
{
    if number(h, a) is Some && number(h, b) is Some {
        number(h, a)->0.exact() == number(h, b)->0.exact()
    } else {
        match (a, b) {
            (Value::Nil, Value::Nil) => true,
            (Value::Bool(x), Value::Bool(y)) => x == y,
            (Value::Bytes(x), Value::Bytes(y)) => h.bytes_of(x) == h.bytes_of(y),
            (Value::Str(x), Value::Str(y)) => h.text(x) == h.text(y),
            (Value::Callable(x), Value::Callable(y)) => x == y,
            (Value::Module(x), Value::Module(y)) => x == y,
            (Value::Type(x), Value::Type(y)) => x == y,
            (Value::Foreign(x), Value::Foreign(y)) => x == y,
            (Value::List(x), Value::List(y)) => x == y || k == 0 || {
                &&& h.items(x).len() == h.items(y).len()
                &&& forall|i: int|
                    0 <= i < h.items(x).len() ==> agree(
                        h,
                        (k - 1) as nat,
                        #[trigger] h.items(x)[i],
                        h.items(y)[i],
                    )
            },
            (Value::Record(x), Value::Record(y)) => x == y || k == 0 || match (
                h.record(x),
                h.record(y),
            ) {
                (Some(r), Some(s)) => {
                    &&& r.type_idx == s.type_idx
                    &&& r.fields.len() == s.fields.len()
                    &&& forall|i: int|
                        0 <= i < r.fields.len() ==> agree(
                            h,
                            (k - 1) as nat,
                            #[trigger] r.fields[i],
                            s.fields[i],
                        )
                },
                _ => false,
            },
            (Value::Dict(x), Value::Dict(y)) => x == y || k == 0 || {
                &&& h.dict(x).entries.len() == h.dict(y).entries.len()
                &&& forall|i: int|
                    0 <= i < h.dict(x).entries.len() ==> match key_lookup(
                        h,
                        h.dict(y),
                        (#[trigger] h.dict(x).entries[i]).0,
                    ) {
                        Some(j) => agree(
                            h,
                            (k - 1) as nat,
                            h.dict(x).entries[i].1,
                            h.dict(y).entries[j as int].1,
                        ),
                        None => false,
                    }
            },
            _ => false,
        }
    }
}

/// Structural equality: no unrolling tells the two values apart.
pub open spec fn same(h: HeapView, a: Value, b: Value) -> bool {
    forall|k: nat| #[trigger] agree(h, k, a, b)
}

/// Whether two values may be taken for equal, given pairs of containers that may.
spec fn justified(h: HeapView, s: Set<Pair>, a: Value, b: Value) -> bool {
    &&& agree(h, 0, a, b)
    &&& pair_of(a, b) is Some ==> a == b || s.contains(pair_of(a, b)->0)
}

/// Whether two containers are alike on the outside, and their contents may be taken for
/// equal.
spec fn step_ok(h: HeapView, s: Set<Pair>, p: Pair) -> bool {
    match p {
        Pair::Lists(x, y) => {
            &&& h.items(x).len() == h.items(y).len()
            &&& forall|i: int|
                0 <= i < h.items(x).len() ==> justified(
                    h,
                    s,
                    #[trigger] h.items(x)[i],
                    h.items(y)[i],
                )
        },
        Pair::Records(x, y) => match (h.record(x), h.record(y)) {
            (Some(r), Some(t)) => {
                &&& r.type_idx == t.type_idx
                &&& r.fields.len() == t.fields.len()
                &&& forall|i: int|
                    0 <= i < r.fields.len() ==> justified(
                        h,
                        s,
                        #[trigger] r.fields[i],
                        t.fields[i],
                    )
            },
            _ => false,
        },
        Pair::Dicts(x, y) => {
            &&& h.dict(x).entries.len() == h.dict(y).entries.len()
            &&& forall|i: int|
                0 <= i < h.dict(x).entries.len() ==> match key_lookup(
                    h,
                    h.dict(y),
                    (#[trigger] h.dict(x).entries[i]).0,
                ) {
                    Some(j) => justified(
                        h,
                        s,
                        h.dict(x).entries[i].1,
                        h.dict(y).entries[j as int].1,
                    ),
                    None => false,
                }
        },
    }
}

/// Every pair of `v` steps within `v` and `p`.
spec fn closed_over(h: HeapView, v: Set<Pair>, p: Set<Pair>) -> bool {
    forall|q: Pair| v.contains(q) ==> #[trigger] step_ok(h, v.union(p), q)
}

/// What a comparison that found no difference has shown.
spec fn shown(h: HeapView, p: Set<Pair>, a: Value, b: Value) -> bool {
    exists|v: Set<Pair>| #[trigger] closed_over(h, v, p) && justified(h, v.union(p), a, b)
}

/// What a comparison that found a difference has shown.
spec fn refuted(h: HeapView, a: Value, b: Value) -> bool {
    exists|k: nat| !#[trigger] agree(h, k, a, b)
}

proof fn lemma_justified_monotone(h: HeapView, s: Set<Pair>, t: Set<Pair>, a: Value, b: Value)
    requires
        justified(h, s, a, b),
        s.subset_of(t),
    ensures
        justified(h, t, a, b),
{
}

proof fn lemma_step_monotone(h: HeapView, s: Set<Pair>, t: Set<Pair>, p: Pair)
    requires
        step_ok(h, s, p),
        s.subset_of(t),
    ensures
        step_ok(h, t, p),
{
}

proof fn lemma_closed_union(h: HeapView, v: Set<Pair>, w: Set<Pair>, p: Set<Pair>)
    requires
        closed_over(h, v, p),
        closed_over(h, w, p),
    ensures
        closed_over(h, v.union(w), p),
{
    assert forall|q: Pair| v.union(w).contains(q) implies #[trigger] step_ok(
        h,
        v.union(w).union(p),
        q,
    ) by {
        if v.contains(q) {
            lemma_step_monotone(h, v.union(p), v.union(w).union(p), q);
        } else {
            lemma_step_monotone(h, w.union(p), v.union(w).union(p), q);
        }
    }
}

/// Within a set of pairs that step within it, no unrolling finds a difference.
proof fn lemma_closed_agree(h: HeapView, s: Set<Pair>, k: nat, a: Value, b: Value)
    requires
        closed_over(h, s, Set::empty()),
        justified(h, s, a, b),
    ensures
        agree(h, k, a, b),
    decreases k,
{
    assert(s.union(Set::empty()) =~= s);
    if k > 0 && a != b && pair_of(a, b) is Some {
        let p = pair_of(a, b)->0;
        assert(step_ok(h, s, p));
        match p {
            Pair::Lists(x, y) => {
                assert forall|i: int| 0 <= i < h.items(x).len() implies agree(
                    h,
                    (k - 1) as nat,
                    #[trigger] h.items(x)[i],
                    h.items(y)[i],
                ) by {
                    lemma_closed_agree(h, s, (k - 1) as nat, h.items(x)[i], h.items(y)[i]);
                }
            },
            Pair::Records(x, y) => {
                let (r, t) = (h.record(x)->0, h.record(y)->0);
                assert forall|i: int| 0 <= i < r.fields.len() implies agree(
                    h,
                    (k - 1) as nat,
                    #[trigger] r.fields[i],
                    t.fields[i],
                ) by {
                    lemma_closed_agree(h, s, (k - 1) as nat, r.fields[i], t.fields[i]);
                }
            },
            Pair::Dicts(x, y) => {
                assert forall|i: int| 0 <= i < h.dict(x).entries.len() implies match key_lookup(
                    h,
                    h.dict(y),
                    (#[trigger] h.dict(x).entries[i]).0,
                ) {
                    Some(j) => agree(
                        h,
                        (k - 1) as nat,
                        h.dict(x).entries[i].1,
                        h.dict(y).entries[j as int].1,
                    ),
                    None => false,
                } by {
                    let j = key_lookup(h, h.dict(y), h.dict(x).entries[i].0)->0;
                    lemma_closed_agree(
                        h,
                        s,
                        (k - 1) as nat,
                        h.dict(x).entries[i].1,
                        h.dict(y).entries[j as int].1,
                    );
                }
            },
        }
    }
}

/// The number of pairs of containers a heap has.
spec fn pair_count(h: HeapView) -> int {
    (h.lists.len() * h.lists.len() + h.dicts.len() * h.dicts.len() + h.records.len()
        * h.records.len()) as int
}

/// A pair's number among all pairs.
spec fn pair_number(h: HeapView, p: Pair) -> int {
    match p {
        Pair::Lists(x, y) => x.0 * h.lists.len() + y.0,
        Pair::Dicts(x, y) => h.lists.len() * h.lists.len() + (x.0 * h.dicts.len() + y.0),
        Pair::Records(x, y) => h.lists.len() * h.lists.len() + h.dicts.len() * h.dicts.len() + (x.0
            * h.records.len() + y.0),
    }
}

/// Both containers of a pair exist.
spec fn pair_in_range(h: HeapView, p: Pair) -> bool {
    match p {
        Pair::Lists(x, y) => x.0 < h.lists.len() && y.0 < h.lists.len(),
        Pair::Dicts(x, y) => x.0 < h.dicts.len() && y.0 < h.dicts.len(),
        Pair::Records(x, y) => x.0 < h.records.len() && y.0 < h.records.len(),
    }
}

proof fn lemma_square(x: int, y: int, n: int)
    requires
        0 <= x < n,
        0 <= y < n,
    ensures
        0 <= x * n + y < n * n,
{
    assert(x * n + y < n * n) by (nonlinear_arith)
        requires
            0 <= x < n,
            0 <= y < n,
    ;
    assert(0 <= x * n) by (nonlinear_arith)
        requires
            0 <= x,
            0 < n,
    ;
}

proof fn lemma_square_injective(x: int, y: int, u: int, v: int, n: int)
    requires
        0 <= x,
        0 <= u,
        0 <= y < n,
        0 <= v < n,
        x * n + y == u * n + v,
    ensures
        x == u,
        y == v,
{
    assert(x == u && y == v) by (nonlinear_arith)
        requires
            0 <= x,
            0 <= u,
            0 <= y < n,
            0 <= v < n,
            x * n + y == u * n + v,
    ;
}

proof fn lemma_pair_number_range(h: HeapView, p: Pair)
    requires
        pair_in_range(h, p),
    ensures
        0 <= pair_number(h, p) < pair_count(h),
{
    let (l, d, r) = (h.lists.len() as int, h.dicts.len() as int, h.records.len() as int);
    assert(0 <= l * l) by (nonlinear_arith);
    assert(0 <= d * d) by (nonlinear_arith);
    assert(0 <= r * r) by (nonlinear_arith);
    match p {
        Pair::Lists(x, y) => lemma_square(x.0 as int, y.0 as int, l),
        Pair::Dicts(x, y) => lemma_square(x.0 as int, y.0 as int, d),
        Pair::Records(x, y) => lemma_square(x.0 as int, y.0 as int, r),
    }
}

proof fn lemma_pair_number_injective(h: HeapView, p: Pair, q: Pair)
    requires
        pair_in_range(h, p),
        pair_in_range(h, q),
        pair_number(h, p) == pair_number(h, q),
    ensures
        p == q,
{
    let (l, d, r) = (h.lists.len() as int, h.dicts.len() as int, h.records.len() as int);
    match (p, q) {
        (Pair::Lists(x, y), Pair::Lists(u, v)) => {
            lemma_square_injective(x.0 as int, y.0 as int, u.0 as int, v.0 as int, l);
        },
        (Pair::Dicts(x, y), Pair::Dicts(u, v)) => {
            lemma_square_injective(x.0 as int, y.0 as int, u.0 as int, v.0 as int, d);
        },
        (Pair::Records(x, y), Pair::Records(u, v)) => {
            lemma_square_injective(x.0 as int, y.0 as int, u.0 as int, v.0 as int, r);
        },
        (Pair::Lists(x, y), _) => {
            lemma_square(x.0 as int, y.0 as int, l);
            lemma_other_number(h, q);
        },
        (_, Pair::Lists(x, y)) => {
            lemma_square(x.0 as int, y.0 as int, l);
            lemma_other_number(h, p);
        },
        (Pair::Dicts(x, y), Pair::Records(u, v)) => {
            lemma_square(x.0 as int, y.0 as int, d);
            lemma_square(u.0 as int, v.0 as int, r);
        },
        (Pair::Records(u, v), Pair::Dicts(x, y)) => {
            lemma_square(x.0 as int, y.0 as int, d);
            lemma_square(u.0 as int, v.0 as int, r);
        },
    }
}

proof fn lemma_other_number(h: HeapView, p: Pair)
    requires
        pair_in_range(h, p),
        !(p is Lists),
    ensures
        pair_number(h, p) >= h.lists.len() * h.lists.len(),
{
    let (d, r) = (h.dicts.len() as int, h.records.len() as int);
    assert(0 <= d * d) by (nonlinear_arith);
    match p {
        Pair::Dicts(x, y) => lemma_square(x.0 as int, y.0 as int, d),
        Pair::Records(x, y) => lemma_square(x.0 as int, y.0 as int, r),
        Pair::Lists(x, y) => {},
    }
}

/// Distinct pairs of existing containers are no more than there are such pairs.
proof fn lemma_progress_bound(h: HeapView, ps: Seq<Pair>)
    requires
        ps.no_duplicates(),
        forall|i: int| 0 <= i < ps.len() ==> pair_in_range(h, #[trigger] ps[i]),
    ensures
        ps.len() <= pair_count(h),
{
    let numbers = ps.map_values(|p: Pair| pair_number(h, p));
    assert forall|i: int, j: int| 0 <= i < numbers.len() && 0 <= j < numbers.len() && i
        != j implies numbers[i] != numbers[j] by {
        if numbers[i] == numbers[j] {
            lemma_pair_number_injective(h, ps[i], ps[j]);
        }
    }
    numbers.unique_seq_to_set();
    let (l, d, r) = (h.lists.len() as int, h.dicts.len() as int, h.records.len() as int);
    assert(0 <= l * l) by (nonlinear_arith);
    assert(0 <= d * d) by (nonlinear_arith);
    assert(0 <= r * r) by (nonlinear_arith);
    vstd::set_lib::lemma_int_range(0, pair_count(h));
    assert forall|n: int| numbers.to_set().contains(n) implies set_int_range(
        0,
        pair_count(h),
    ).contains(n) by {
        let i = choose|i: int| 0 <= i < numbers.len() && numbers[i] == n;
        lemma_pair_number_range(h, ps[i]);
    }
    vstd::set_lib::lemma_len_subset(numbers.to_set(), set_int_range(0, pair_count(h)));
}

/// The pairs being compared further up are distinct and exist.
spec fn progress_ok(h: HeapView, ps: Seq<Pair>) -> bool {
    &&& ps.no_duplicates()
    &&& forall|i: int| 0 <= i < ps.len() ==> pair_in_range(h, #[trigger] ps[i])
}

fn under_way(in_progress: &Vec<Pair>, p: Pair) -> (r: bool)
    ensures
        r == in_progress@.contains(p),
{
    let mut i: usize = 0;
    while i < in_progress.len()
        invariant
            i <= in_progress@.len(),
            forall|k: int| 0 <= k < i ==> in_progress@[k] != p,
        decreases in_progress@.len() - i,
    {
        if in_progress[i] == p {
            return true;
        }
        i = i + 1;
    }
    false
}

/// Whether two keys are the same key.
pub fn keys_equal(a: Value, b: Value, heap: &Heap, depth: usize) -> (r: bool)
    ensures
        r == same_key(heap@, a, b, depth as nat),
    decreases depth,
{
    if let Some(x) = as_num(a, heap) {
        if let Some(y) = as_num(b, heap) {
            return numeric_equal(&x, &y);
        }
    }
    match (a, b) {
        (Value::Nil, Value::Nil) => true,
        (Value::Bool(x), Value::Bool(y)) => x == y,
        (Value::Str(x), Value::Str(y)) => crate::text::same_text(heap.string(x), heap.string(y)),
        (Value::Bytes(x), Value::Bytes(y)) => same_bytes(heap, x, y),
        (Value::Record(x), Value::Record(y)) => {
            if x == y {
                return true;
            }
            if depth == 0 {
                return false;
            }
            match (heap.record(x), heap.record(y)) {
                (Some(r), Some(s)) => {
                    if r.type_idx != s.type_idx || r.fields.len() != s.fields.len() {
                        return false;
                    }
                    let mut i: usize = 0;
                    while i < r.fields.len()
                        invariant
                            i <= r.fields@.len(),
                            r.fields@.len() == s.fields@.len(),
                            depth > 0,
                            forall|j: int|
                                0 <= j < i ==> same_key(
                                    heap@,
                                    #[trigger] r.fields@[j],
                                    s.fields@[j],
                                    (depth - 1) as nat,
                                ),
                            heap@.record(x) == Some(r@),
                            heap@.record(y) == Some(s@),
                            x != y,
                            a == Value::Record(x),
                            b == Value::Record(y),
                        decreases r.fields@.len() - i,
                    {
                        if !keys_equal(r.fields[i], s.fields[i], heap, depth - 1) {
                            assert(!same_key(
                                heap@,
                                r@.fields[i as int],
                                s@.fields[i as int],
                                (depth - 1) as nat,
                            ));
                            return false;
                        }
                        i = i + 1;
                    }
                    true
                },
                _ => false,
            }
        },
        _ => a == b,
    }
}

fn same_bytes(heap: &Heap, x: crate::value::BytesIdx, y: crate::value::BytesIdx) -> (r: bool)
    ensures
        r == (heap@.bytes_of(x) == heap@.bytes_of(y)),
{
    let none: Vec<u8> = Vec::new();
    let a: &Vec<u8> = match heap.byte_string(x) {
        Some(b) => b,
        None => &none,
    };
    let b: &Vec<u8> = match heap.byte_string(y) {
        Some(b) => b,
        None => &none,
    };
    assert(a@ =~= heap@.bytes_of(x) && b@ =~= heap@.bytes_of(y));
    if a.len() != b.len() {
        return false;
    }
    let mut i: usize = 0;
    while i < a.len()
        invariant
            i <= a@.len(),
            a@.len() == b@.len(),
            a@ == heap@.bytes_of(x),
            b@ == heap@.bytes_of(y),
            forall|k: int| 0 <= k < i ==> a@[k] == b@[k],
        decreases a@.len() - i,
    {
        if a[i] != b[i] {
            assert(a@[i as int] != b@[i as int]);
            return false;
        }
        i = i + 1;
    }
    assert(a@ =~= b@);
    true
}

/// The entry of a dict that holds a key, where the key may be one.
fn entry_of(heap: &Heap, idx: DictIdx, key: Value) -> (r: Option<usize>)
    ensures
        (match r {
            Some(j) => key_lookup(heap@, heap@.dict(idx), key) == Some(j as nat) && j < heap@.dict(
                idx,
            ).entries.len(),
            None => key_lookup(heap@, heap@.dict(idx), key) is None,
        }),
{
    if crate::hash::check_hashable(key, heap).is_err() {
        return None;
    }
    let hash: u64 = hash_value(key, heap);
    match heap.dict(idx) {
        None => None,
        Some(d) => {
            let mut j: usize = 0;
            while j < d.entries.len() && j < d.hashes.len()
                invariant
                    j <= d.entries@.len(),
                    j <= d.hashes@.len(),
                    d@ == heap@.dict(idx),
                    hash == key_hash(heap@, key),
                    hashable(heap@, key),
                    key_position(heap@, d@, key, 0) == key_position(heap@, d@, key, j as nat),
                decreases d.entries@.len() - j,
            {
                if d.hashes[j] == hash && keys_equal(
                    d.entries[j].0,
                    key,
                    heap,
                    heap.record_count(),
                ) {
                    return Some(j);
                }
                j = j + 1;
            }
            None
        },
    }
}

/// Structural equality of two values: total, reflexive, and safe on cycles.
pub fn equal(a: Value, b: Value, heap: &Heap) -> (r: bool)
    ensures
        r == same(heap@, a, b),
{
    let mut in_progress: Vec<Pair> = Vec::new();
    let r = equal_rec(a, b, heap, &mut in_progress);
    proof {
        let none = Set::<Pair>::empty();
        assert(Seq::<Pair>::empty().to_set() =~= none);
        if r {
            let v = choose|v: Set<Pair>| #[trigger]
                closed_over(heap@, v, none) && justified(heap@, v.union(none), a, b);
            assert(v.union(none) =~= v);
            assert forall|k: nat| #[trigger] agree(heap@, k, a, b) by {
                lemma_closed_agree(heap@, v, k, a, b);
            }
        }
    }
    r
}

/// The structural walk. Meeting a pair again that is being compared further up means a
/// cycle, which unrolls to no difference.
fn equal_rec(a: Value, b: Value, heap: &Heap, in_progress: &mut Vec<Pair>) -> (r: bool)
    requires
        progress_ok(heap@, old(in_progress)@),
    ensures
        final(in_progress)@ == old(in_progress)@,
        r ==> shown(heap@, old(in_progress)@.to_set(), a, b),
        !r ==> refuted(heap@, a, b),
    decreases pair_count(heap@) - old(in_progress)@.len(), 1nat,
{
    proof {
        lemma_progress_bound(heap@, in_progress@);
        let none = Set::<Pair>::empty();
        assert(closed_over(heap@, none, in_progress@.to_set()));
        if agree(heap@, 0, a, b) && pair_of(a, b) is None {
            assert(justified(heap@, none.union(in_progress@.to_set()), a, b));
        }
    }
    if let Some(x) = as_num(a, heap) {
        if let Some(y) = as_num(b, heap) {
            let r: bool = numeric_equal(&x, &y);
            assert(agree(heap@, 0, a, b) == r);
            return r;
        }
    }
    let scalar_result: bool = match (a, b) {
        (Value::Nil, Value::Nil) => true,
        (Value::Bool(x), Value::Bool(y)) => x == y,
        (Value::Bytes(x), Value::Bytes(y)) => same_bytes(heap, x, y),
        (Value::Str(x), Value::Str(y)) => crate::text::same_text(heap.string(x), heap.string(y)),
        (Value::Callable(x), Value::Callable(y)) => x == y,
        (Value::Module(x), Value::Module(y)) => x == y,
        (Value::Type(x), Value::Type(y)) => x == y,
        (Value::Foreign(x), Value::Foreign(y)) => x == y,
        (Value::List(x), Value::List(y)) => {
            return list_equal(x, y, heap, in_progress);
        },
        (Value::Record(x), Value::Record(y)) => {
            return record_equal(x, y, heap, in_progress);
        },
        (Value::Dict(x), Value::Dict(y)) => {
            return dict_equal(x, y, heap, in_progress);
        },
        _ => false,
    };
    assert(agree(heap@, 0, a, b) == scalar_result);
    scalar_result
}

/// The pair itself, and what was shown of its contents, is shown of the pair.
proof fn lemma_pair_shown(h: HeapView, v: Set<Pair>, p: Set<Pair>, q: Pair, a: Value, b: Value)
    requires
        pair_of(a, b) == Some(q),
        closed_over(h, v, p.insert(q)),
        step_ok(h, v.union(p.insert(q)), q),
    ensures
        shown(h, p, a, b),
{
    let w = v.insert(q);
    assert(w.union(p) =~= v.union(p.insert(q)));
    assert(closed_over(h, w, p));
    assert(justified(h, w.union(p), a, b));
}

/// A pair under way, or of one container with itself, is shown.
proof fn lemma_pair_known(h: HeapView, p: Set<Pair>, a: Value, b: Value)
    requires
        pair_of(a, b) is Some,
        a == b || p.contains(pair_of(a, b)->0),
    ensures
        shown(h, p, a, b),
{
    let none = Set::<Pair>::empty();
    assert(closed_over(h, none, p));
    assert(justified(h, none.union(p), a, b));
}

proof fn lemma_push_progress(h: HeapView, ps: Seq<Pair>, q: Pair)
    requires
        progress_ok(h, ps),
        pair_in_range(h, q),
        !ps.contains(q),
    ensures
        progress_ok(h, ps.push(q)),
        ps.push(q).to_set() == ps.to_set().insert(q),
        ps.len() < pair_count(h),
        ps.push(q).drop_last() == ps,
{
    let t = ps.push(q);
    assert forall|i: int, j: int| 0 <= i < t.len() && 0 <= j < t.len() && i != j implies t[i]
        != t[j] by {
        if i == ps.len() {
            assert(ps[j] != q);
        } else if j == ps.len() {
            assert(ps[i] != q);
        }
    }
    assert forall|i: int| 0 <= i < t.len() implies pair_in_range(h, #[trigger] t[i]) by {
        if i < ps.len() {
            assert(t[i] == ps[i]);
        }
    }
    lemma_progress_bound(h, t);
    assert forall|x: Pair| ps.push(q).to_set().contains(x) <==> ps.to_set().insert(
        q,
    ).contains(x) by {
        if ps.to_set().contains(x) {
            let i = choose|i: int| 0 <= i < ps.len() && ps[i] == x;
            assert(t[i] == x);
        }
        if x == q {
            assert(t[ps.len() as int] == q);
        }
        if ps.push(q).to_set().contains(x) {
            let i = choose|i: int| 0 <= i < t.len() && t[i] == x;
            if i < ps.len() {
                assert(ps[i] == x);
            }
        }
    }
    assert(ps.push(q).to_set() =~= ps.to_set().insert(q));
    assert(ps.push(q).drop_last() =~= ps);
}

fn list_equal(x: ListIdx, y: ListIdx, heap: &Heap, in_progress: &mut Vec<Pair>) -> (r: bool)
    requires
        progress_ok(heap@, old(in_progress)@),
        old(in_progress)@.len() <= pair_count(heap@),
    ensures
        final(in_progress)@ == old(in_progress)@,
        r ==> shown(heap@, old(in_progress)@.to_set(), Value::List(x), Value::List(y)),
        !r ==> refuted(heap@, Value::List(x), Value::List(y)),
    decreases pair_count(heap@) - old(in_progress)@.len(), 0nat,
{
    let ghost h = heap@;
    let ghost p = in_progress@.to_set();
    let ghost (a, b) = (Value::List(x), Value::List(y));
    let pair = Pair::Lists(x, y);
    if x == y || under_way(in_progress, pair) {
        proof {
            lemma_pair_known(h, p, a, b);
        }
        return true;
    }
    let none: Vec<Value> = Vec::new();
    let xs: &Vec<Value> = match heap.list(x) {
        Some(v) => v,
        None => &none,
    };
    let ys: &Vec<Value> = match heap.list(y) {
        Some(v) => v,
        None => &none,
    };
    assert(xs@ =~= h.items(x) && ys@ =~= h.items(y));
    if xs.len() != ys.len() {
        assert(!agree(h, 1, a, b));
        return false;
    }
    if xs.len() == 0 {
        proof {
            let v = Set::<Pair>::empty();
            assert(closed_over(h, v, p.insert(pair)));
            assert(step_ok(h, v.union(p.insert(pair)), pair));
            lemma_pair_shown(h, v, p, pair, a, b);
        }
        return true;
    }
    proof {
        lemma_push_progress(h, in_progress@, pair);
    }
    in_progress.push(pair);
    let ghost below = in_progress@;
    let ghost mut v = Set::<Pair>::empty();
    let mut i: usize = 0;
    let mut equal_so_far: bool = true;
    while i < xs.len() && equal_so_far
        invariant
            i <= xs@.len(),
            xs@.len() == ys@.len(),
            h == heap@,
            xs@ == h.items(x),
            ys@ == h.items(y),
            x != y,
            a == Value::List(x),
            b == Value::List(y),
            in_progress@ == below,
            below == old(in_progress)@.push(pair),
            below.to_set() == p.insert(pair),
            progress_ok(h, below),
            old(in_progress)@.len() < pair_count(h),
            closed_over(h, v, p.insert(pair)),
            equal_so_far ==> forall|k: int|
                0 <= k < i ==> justified(
                    h,
                    v.union(p.insert(pair)),
                    #[trigger] h.items(x)[k],
                    h.items(y)[k],
                ),
            !equal_so_far ==> refuted(h, a, b),
        decreases xs@.len() - i, (if equal_so_far { 1nat } else { 0nat }),
    {
        let (e, f) = (xs[i], ys[i]);
        if equal_rec(e, f, heap, in_progress) {
            proof {
                let q = p.insert(pair);
                let w = choose|w: Set<Pair>| #[trigger]
                    closed_over(h, w, q) && justified(h, w.union(q), e, f);
                let t = v.union(w);
                lemma_closed_union(h, v, w, q);
                lemma_justified_monotone(h, w.union(q), t.union(q), e, f);
                assert forall|k: int| 0 <= k < i + 1 implies justified(
                    h,
                    t.union(q),
                    #[trigger] h.items(x)[k],
                    h.items(y)[k],
                ) by {
                    if k < i {
                        lemma_justified_monotone(
                            h,
                            v.union(q),
                            t.union(q),
                            h.items(x)[k],
                            h.items(y)[k],
                        );
                    }
                }
                v = t;
            }
            i = i + 1;
        } else {
            equal_so_far = false;
            proof {
                let k = choose|k: nat| !#[trigger] agree(h, k, e, f);
                assert(h.items(x)[i as int] == e && h.items(y)[i as int] == f);
                assert(!agree(h, k + 1, a, b));
            }
        }
    }
    let popped = in_progress.pop();
    proof {
        assert(in_progress@ =~= old(in_progress)@);
        if equal_so_far {
            assert(step_ok(h, v.union(p.insert(pair)), pair));
            lemma_pair_shown(h, v, p, pair, a, b);
        }
    }
    equal_so_far
}

fn record_equal(x: RecIdx, y: RecIdx, heap: &Heap, in_progress: &mut Vec<Pair>) -> (r: bool)
    requires
        progress_ok(heap@, old(in_progress)@),
        old(in_progress)@.len() <= pair_count(heap@),
    ensures
        final(in_progress)@ == old(in_progress)@,
        r ==> shown(heap@, old(in_progress)@.to_set(), Value::Record(x), Value::Record(y)),
        !r ==> refuted(heap@, Value::Record(x), Value::Record(y)),
    decreases pair_count(heap@) - old(in_progress)@.len(), 0nat,
{
    let ghost h = heap@;
    let ghost p = in_progress@.to_set();
    let ghost (a, b) = (Value::Record(x), Value::Record(y));
    let pair = Pair::Records(x, y);
    if x == y || under_way(in_progress, pair) {
        proof {
            lemma_pair_known(h, p, a, b);
        }
        return true;
    }
    let (rx, ry) = match (heap.record(x), heap.record(y)) {
        (Some(rx), Some(ry)) => (rx, ry),
        _ => {
            assert(!agree(h, 1, a, b));
            return false;
        },
    };
    if rx.type_idx != ry.type_idx || rx.fields.len() != ry.fields.len() {
        assert(!agree(h, 1, a, b));
        return false;
    }
    proof {
        lemma_push_progress(h, in_progress@, pair);
    }
    in_progress.push(pair);
    let ghost below = in_progress@;
    let ghost mut v = Set::<Pair>::empty();
    let mut i: usize = 0;
    let mut equal_so_far: bool = true;
    while i < rx.fields.len() && equal_so_far
        invariant
            i <= rx.fields@.len(),
            rx.fields@.len() == ry.fields@.len(),
            h == heap@,
            h.record(x) == Some(rx@),
            h.record(y) == Some(ry@),
            x != y,
            a == Value::Record(x),
            b == Value::Record(y),
            in_progress@ == below,
            below == old(in_progress)@.push(pair),
            below.to_set() == p.insert(pair),
            progress_ok(h, below),
            old(in_progress)@.len() < pair_count(h),
            closed_over(h, v, p.insert(pair)),
            equal_so_far ==> forall|k: int|
                0 <= k < i ==> justified(
                    h,
                    v.union(p.insert(pair)),
                    #[trigger] rx@.fields[k],
                    ry@.fields[k],
                ),
            !equal_so_far ==> refuted(h, a, b),
        decreases rx.fields@.len() - i, (if equal_so_far { 1nat } else { 0nat }),
    {
        let (e, f) = (rx.fields[i], ry.fields[i]);
        if equal_rec(e, f, heap, in_progress) {
            proof {
                let q = p.insert(pair);
                let w = choose|w: Set<Pair>| #[trigger]
                    closed_over(h, w, q) && justified(h, w.union(q), e, f);
                let t = v.union(w);
                lemma_closed_union(h, v, w, q);
                lemma_justified_monotone(h, w.union(q), t.union(q), e, f);
                assert forall|k: int| 0 <= k < i + 1 implies justified(
                    h,
                    t.union(q),
                    #[trigger] rx@.fields[k],
                    ry@.fields[k],
                ) by {
                    if k < i {
                        lemma_justified_monotone(
                            h,
                            v.union(q),
                            t.union(q),
                            rx@.fields[k],
                            ry@.fields[k],
                        );
                    }
                }
                v = t;
            }
            i = i + 1;
        } else {
            equal_so_far = false;
            proof {
                let k = choose|k: nat| !#[trigger] agree(h, k, e, f);
                assert(rx@.fields[i as int] == e && ry@.fields[i as int] == f);
                assert(!agree(h, k + 1, a, b));
            }
        }
    }
    let popped = in_progress.pop();
    proof {
        assert(in_progress@ =~= old(in_progress)@);
        if equal_so_far {
            assert(step_ok(h, v.union(p.insert(pair)), pair));
            lemma_pair_shown(h, v, p, pair, a, b);
        }
    }
    equal_so_far
}

/// The first `n` entries of one dict each have a key of the other, and values that may be
/// taken for equal.
spec fn entries_shown(h: HeapView, s: Set<Pair>, x: DictIdx, y: DictIdx, n: int) -> bool {
    forall|k: int|
        0 <= k < n ==> match key_lookup(h, h.dict(y), (#[trigger] h.dict(x).entries[k]).0) {
            Some(j) => justified(
                h,
                s,
                h.dict(x).entries[k].1,
                h.dict(y).entries[j as int].1,
            ),
            None => false,
        }
}

proof fn lemma_entries_extend(
    h: HeapView,
    s: Set<Pair>,
    t: Set<Pair>,
    x: DictIdx,
    y: DictIdx,
    n: int,
)
    requires
        entries_shown(h, s, x, y, n),
        s.subset_of(t),
        key_lookup(h, h.dict(y), h.dict(x).entries[n].0) is Some,
        justified(
            h,
            t,
            h.dict(x).entries[n].1,
            h.dict(y).entries[key_lookup(h, h.dict(y), h.dict(x).entries[n].0)->0 as int].1,
        ),
    ensures
        entries_shown(h, t, x, y, n + 1),
{
    assert forall|k: int| 0 <= k < n + 1 implies match key_lookup(
        h,
        h.dict(y),
        (#[trigger] h.dict(x).entries[k]).0,
    ) {
        Some(j) => justified(h, t, h.dict(x).entries[k].1, h.dict(y).entries[j as int].1),
        None => false,
    } by {
        if k < n {
            let m = key_lookup(h, h.dict(y), h.dict(x).entries[k].0)->0;
            lemma_justified_monotone(
                h,
                s,
                t,
                h.dict(x).entries[k].1,
                h.dict(y).entries[m as int].1,
            );
        }
    }
}

#[verifier::rlimit(30)]
fn dict_equal(x: DictIdx, y: DictIdx, heap: &Heap, in_progress: &mut Vec<Pair>) -> (r: bool)
    requires
        progress_ok(heap@, old(in_progress)@),
        old(in_progress)@.len() <= pair_count(heap@),
    ensures
        final(in_progress)@ == old(in_progress)@,
        r ==> shown(heap@, old(in_progress)@.to_set(), Value::Dict(x), Value::Dict(y)),
        !r ==> refuted(heap@, Value::Dict(x), Value::Dict(y)),
    decreases pair_count(heap@) - old(in_progress)@.len(), 0nat,
{
    let ghost h = heap@;
    let ghost p = in_progress@.to_set();
    let ghost (a, b) = (Value::Dict(x), Value::Dict(y));
    let pair = Pair::Dicts(x, y);
    if x == y || under_way(in_progress, pair) {
        proof {
            lemma_pair_known(h, p, a, b);
        }
        return true;
    }
    let none: Vec<(Value, Value)> = Vec::new();
    let xs: &Vec<(Value, Value)> = match heap.dict(x) {
        Some(d) => &d.entries,
        None => &none,
    };
    let ys: &Vec<(Value, Value)> = match heap.dict(y) {
        Some(d) => &d.entries,
        None => &none,
    };
    assert(xs@ =~= h.dict(x).entries && ys@ =~= h.dict(y).entries);
    if xs.len() != ys.len() {
        assert(!agree(h, 1, a, b));
        return false;
    }
    if xs.len() == 0 {
        proof {
            let v = Set::<Pair>::empty();
            assert(closed_over(h, v, p.insert(pair)));
            assert(step_ok(h, v.union(p.insert(pair)), pair));
            lemma_pair_shown(h, v, p, pair, a, b);
        }
        return true;
    }
    proof {
        lemma_push_progress(h, in_progress@, pair);
    }
    in_progress.push(pair);
    let ghost below = in_progress@;
    let ghost mut v = Set::<Pair>::empty();
    let mut i: usize = 0;
    let mut equal_so_far: bool = true;
    while i < xs.len() && equal_so_far
        invariant
            i <= xs@.len(),
            xs@.len() == ys@.len(),
            h == heap@,
            xs@ == h.dict(x).entries,
            ys@ == h.dict(y).entries,
            x != y,
            a == Value::Dict(x),
            b == Value::Dict(y),
            in_progress@ == below,
            below == old(in_progress)@.push(pair),
            below.to_set() == p.insert(pair),
            progress_ok(h, below),
            old(in_progress)@.len() < pair_count(h),
            closed_over(h, v, p.insert(pair)),
            equal_so_far ==> entries_shown(h, v.union(p.insert(pair)), x, y, i as int),
            !equal_so_far ==> refuted(h, a, b),
        decreases xs@.len() - i, (if equal_so_far { 1nat } else { 0nat }),
    {
        let (key, e) = xs[i];
        assert(h.dict(x).entries[i as int] == (key, e));
        match entry_of(heap, y, key) {
            None => {
                equal_so_far = false;
                assert(!agree(h, 1, a, b));
            },
            Some(j) => {
                let f = ys[j].1;
                if equal_rec(e, f, heap, in_progress) {
                    proof {
                        let q = p.insert(pair);
                        let w = choose|w: Set<Pair>| #[trigger]
                            closed_over(h, w, q) && justified(h, w.union(q), e, f);
                        let t = v.union(w);
                        lemma_closed_union(h, v, w, q);
                        lemma_justified_monotone(h, w.union(q), t.union(q), e, f);
                        lemma_entries_extend(h, v.union(q), t.union(q), x, y, i as int);
                        v = t;
                    }
                    i = i + 1;
                } else {
                    equal_so_far = false;
                    proof {
                        let k = choose|k: nat| !#[trigger] agree(h, k, e, f);
                        assert(!agree(h, k + 1, a, b));
                    }
                }
            },
        }
    }
    let popped = in_progress.pop();
    proof {
        assert(in_progress@ =~= old(in_progress)@);
        if equal_so_far {
            assert(step_ok(h, v.union(p.insert(pair)), pair));
            lemma_pair_shown(h, v, p, pair, a, b);
        }
    }
    equal_so_far
}

/// The exact order of two numbers; a NaN has none.
pub fn numeric_order(a: &Num, b: &Num) -> (r: Option<Order>)
    ensures
        r == exact_order(a@.exact(), b@.exact()),
{
    match (a, b) {
        (Num::Int(x), Num::Int(y)) => {
            proof {
                vstd::arithmetic::power2::lemma_pow2_pos(1074);
                crate::float::lemma_scaling(
                    x@,
                    y@,
                    vstd::arithmetic::power2::pow2(1074) as int,
                );
            }
            Some(order_ints(x, y))
        },
        (Num::Float(x), Num::Float(y)) => compare_floats(*x, *y),
        (Num::Int(n), Num::Float(x)) => compare_int_float(n, *x),
        (Num::Float(x), Num::Int(n)) => match compare_int_float(n, *x) {
            Some(o) => Some(o.reverse()),
            None => None,
        },
    }
}

/// Whether two numbers are equal; a NaN equals itself.
pub fn numeric_equal(a: &Num, b: &Num) -> (r: bool)
    ensures
        r == (a@.exact() == b@.exact()),
{
    if let (Num::Float(x), Num::Float(y)) = (a, b) {
        if is_nan(*x) || is_nan(*y) {
            return is_nan(*x) && is_nan(*y);
        }
    }
    match numeric_order(a, b) {
        Some(o) => o == Order::Equal,
        None => false,
    }
}

/// The order of two byte strings: that of the first bytes that differ, else of the
/// lengths.
pub open spec fn bytes_order(a: Seq<u8>, b: Seq<u8>) -> Order
    decreases a.len(),
{
    if a.len() == 0 || b.len() == 0 {
        int_order(a.len() as int, b.len() as int)
    } else if a[0] != b[0] {
        int_order(a[0] as int, b[0] as int)
    } else {
        bytes_order(a.skip(1), b.skip(1))
    }
}

fn order_bytes(a: &[u8], b: &[u8]) -> (r: Order)
    ensures
        r == bytes_order(a@, b@),
{
    let mut i: usize = 0;
    assert(a@.skip(0) =~= a@ && b@.skip(0) =~= b@);
    while i < a.len() && i < b.len()
        invariant
            i <= a@.len(),
            i <= b@.len(),
            bytes_order(a@, b@) == bytes_order(a@.skip(i as int), b@.skip(i as int)),
        decreases a@.len() - i,
    {
        assert(a@.skip(i as int).skip(1) =~= a@.skip(i + 1));
        assert(b@.skip(i as int).skip(1) =~= b@.skip(i + 1));
        if a[i] < b[i] {
            return Order::Less;
        }
        if a[i] > b[i] {
            return Order::Greater;
        }
        i = i + 1;
    }
    if a.len() < b.len() {
        Order::Less
    } else if a.len() > b.len() {
        Order::Greater
    } else {
        Order::Equal
    }
}

/// The order of two values, where one is defined.
pub open spec fn value_order(h: HeapView, a: Value, b: Value) -> Option<Order> {
    if number(h, a) is Some && number(h, b) is Some {
        exact_order(number(h, a)->0.exact(), number(h, b)->0.exact())
    } else {
        match (a, b) {
            (Value::Str(x), Value::Str(y)) => Some(
                bytes_order(encode_utf8(h.text(x)), encode_utf8(h.text(y))),
            ),
            _ => None,
        }
    }
}

/// The raise for two values without an order.
pub open spec fn unordered_raise(h: HeapView, a: Value, b: Value, span: Span) -> RaiseView {
    RaiseView::new(
        ExceptionKind::UndefinedOrdering,
        if number(h, a) is Some && number(h, b) is Some {
            "you can't compare with a NaN (it isn't a real number)"@
        } else {
            "you can't compare "@ + kind_text(a) + " with "@ + kind_text(b) + " using < or >"@
        },
        span,
    )
}

/// The order of two numbers or two strings; anything else raises.
pub fn order(a: Value, b: Value, heap: &Heap, span: Span) -> (r: Result<Order, Raise>)
    ensures
        (match value_order(heap@, a, b) {
            Some(o) => r is Ok && r->Ok_0 == o,
            None => r is Err && r->Err_0@ == unordered_raise(heap@, a, b, span),
        }),
{
    if let Some(x) = as_num(a, heap) {
        if let Some(y) = as_num(b, heap) {
            return match numeric_order(&x, &y) {
                Some(o) => Ok(o),
                None => Err(
                    Raise::new(
                        ExceptionKind::UndefinedOrdering,
                        "you can't compare with a NaN (it isn't a real number)".to_owned(),
                        span,
                    ),
                ),
            };
        }
    }
    if let (Value::Str(x), Value::Str(y)) = (a, b) {
        return Ok(order_bytes(heap.string(x).as_bytes(), heap.string(y).as_bytes()));
    }
    Err(
        Raise::new(
            ExceptionKind::UndefinedOrdering,
            join5("you can't compare ", kind_name(a), " with ", kind_name(b), " using < or >"),
            span,
        ),
    )
}

/// Whether an operator compares.
pub open spec fn comparison(op: BinaryOp) -> bool {
    op is Eq || op is Ne || op is Lt || op is Gt || op is Le || op is Ge
}

/// The symbol of an ordering operator.
pub open spec fn ordering_text(op: BinaryOp) -> Seq<char> {
    match op {
        BinaryOp::Lt => "<"@,
        BinaryOp::Gt => ">"@,
        BinaryOp::Le => "<="@,
        _ => ">="@,
    }
}

fn ordering_symbol(op: BinaryOp) -> (r: &'static str)
    ensures
        r@ == ordering_text(op),
{
    match op {
        BinaryOp::Lt => "<",
        BinaryOp::Gt => ">",
        BinaryOp::Le => "<=",
        _ => ">=",
    }
}

/// What an ordering operator says of an order.
pub open spec fn order_holds(op: BinaryOp, o: Order) -> bool {
    match op {
        BinaryOp::Lt => o == Order::Less,
        BinaryOp::Gt => o == Order::Greater,
        BinaryOp::Le => o != Order::Greater,
        _ => o != Order::Less,
    }
}

/// What a comparison or equality operator comes to.
pub open spec fn comparing(op: BinaryOp, lhs: Value, rhs: Value, h: HeapView, span: Span) -> Result<
    Value,
    RaiseView,
> {
    match op {
        BinaryOp::Eq => Ok(Value::Bool(same(h, lhs, rhs))),
        BinaryOp::Ne => Ok(Value::Bool(!same(h, lhs, rhs))),
        _ => match value_order(h, lhs, rhs) {
            Some(o) => Ok(Value::Bool(order_holds(op, o))),
            None => Err(
                unordered_raise(h, lhs, rhs, span).with(
                    ordering_detail(
                        ordering_text(op),
                        type_text(h, lhs),
                        type_text(h, rhs),
                        number(h, lhs) is Some && number(h, rhs) is Some,
                    ),
                ),
            ),
        },
    }
}

/// Applies a comparison or equality operator.
pub fn binary(op: BinaryOp, lhs: Value, rhs: Value, heap: &Heap, span: Span) -> (r: Result<
    Value,
    Raise,
>)
    requires
        comparison(op),
    ensures
        result_view(r) == comparing(op, lhs, rhs, heap@, span),
{
    match op {
        BinaryOp::Eq => Ok(Value::Bool(equal(lhs, rhs, heap))),
        BinaryOp::Ne => Ok(Value::Bool(!equal(lhs, rhs, heap))),
        _ => match order(lhs, rhs, heap, span) {
            Ok(o) => Ok(
                Value::Bool(
                    match op {
                        BinaryOp::Lt => o == Order::Less,
                        BinaryOp::Gt => o == Order::Greater,
                        BinaryOp::Le => o != Order::Greater,
                        _ => o != Order::Less,
                    },
                ),
            ),
            Err(e) => {
                let nan = as_num(lhs, heap).is_some() && as_num(rhs, heap).is_some();
                Err(
                    e.with_details(ordering_details(ordering_symbol(op), lhs, rhs, nan, heap)),
                )
            },
        },
    }
}

/// The raise for a value that had to be a boolean.
pub open spec fn not_bool_raise(v: Value, op: Seq<char>, span: Span) -> RaiseView {
    RaiseView::new(
        ExceptionKind::TypeMismatch,
        "`"@ + op + "` needs true or false, not "@ + kind_text(v) + ""@,
        span,
    )
}

/// Reads a boolean; anything else raises, since no other value stands for one.
pub fn as_bool(v: Value, op: &str, span: Span) -> (r: Result<bool, Raise>)
    ensures
        (match v {
            Value::Bool(b) => r is Ok && r->Ok_0 == b,
            _ => r is Err && r->Err_0@ == not_bool_raise(v, op@, span),
        }),
{
    match v {
        Value::Bool(b) => Ok(b),
        _ => Err(
            Raise::new(
                ExceptionKind::TypeMismatch,
                join5("`", op, "` needs true or false, not ", kind_name(v), ""),
                span,
            ),
        ),
    }
}

/// Boolean `not`.
pub fn not(v: Value, span: Span) -> (r: Result<Value, Raise>)
    ensures
        (match v {
            Value::Bool(b) => r is Ok && r->Ok_0 == Value::Bool(!b),
            _ => r is Err && r->Err_0@ == not_bool_raise(v, "not"@, span),
        }),
{
    match as_bool(v, "not", span) {
        Ok(b) => Ok(Value::Bool(!b)),
        Err(e) => Err(e),
    }
}

/// Equality is reflexive, cyclic structures and NaN included.
pub proof fn law_equality_is_reflexive(h: HeapView, v: Value)
    ensures
        same(h, v, v),
{
}

proof fn lemma_same_key_is_equality(h: HeapView, a: Value, b: Value, depth: nat)
    requires
        hashable_within(h, a, depth),
    ensures
        same_key(h, a, b, depth) ==> forall|k: nat| #[trigger] agree(h, k, a, b),
        !same_key(h, a, b, depth) ==> !agree(h, depth, a, b),
    decreases depth,
{
    match (a, b) {
        (Value::Record(x), Value::Record(y)) => {
            if x != y {
                match (h.record(x), h.record(y)) {
                    (Some(r), Some(s)) => {
                        let d = (depth - 1) as nat;
                        if same_key(h, a, b, depth) {
                            assert forall|k: nat| #[trigger] agree(h, k, a, b) by {
                                if k > 0 {
                                    assert forall|i: int| 0 <= i < r.fields.len() implies agree(
                                        h,
                                        (k - 1) as nat,
                                        #[trigger] r.fields[i],
                                        s.fields[i],
                                    ) by {
                                        lemma_same_key_is_equality(
                                            h,
                                            r.fields[i],
                                            s.fields[i],
                                            d,
                                        );
                                        assert(same_key(h, r.fields[i], s.fields[i], d));
                                    }
                                }
                            }
                        } else if r.type_idx == s.type_idx && r.fields.len() == s.fields.len() {
                            let i = choose|i: int|
                                0 <= i < r.fields.len() && !same_key(
                                    h,
                                    #[trigger] r.fields[i],
                                    s.fields[i],
                                    d,
                                );
                            lemma_same_key_is_equality(h, r.fields[i], s.fields[i], d);
                        }
                    },
                    _ => {},
                }
            }
        },
        _ => {},
    }
}

/// A value that may be a dict key is the same key as another exactly where the two are
/// equal.
pub proof fn law_same_key_is_equality(h: HeapView, a: Value, b: Value)
    requires
        hashable(h, a),
    ensures
        same_key(h, a, b, h.records.len()) <==> same(h, a, b),
{
    lemma_same_key_is_equality(h, a, b, h.records.len());
}

} // verus!
