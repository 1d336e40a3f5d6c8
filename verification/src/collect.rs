//! Collection: objects that no root leads to are emptied, everything else stays as it is
//! and where it is.
use crate::bignum::int_bytes;
use crate::bignum::lemma_int_bytes;
use crate::bignum::BigNum;
use crate::heap::at;
use crate::heap::charged;
use crate::heap::lemma_table_length;
use crate::heap::lemma_tables;
use crate::heap::Arena;
use crate::heap::CalObj;
use crate::heap::CalView;
use crate::heap::CellObj;
use crate::heap::DictObj;
use crate::heap::DictView;
use crate::heap::ForeignObj;
use crate::heap::Heap;
use crate::heap::HeapView;
use crate::heap::RecordObj;
use crate::heap::RecordView;
use crate::heap::TypeKind;
use crate::heap::TypeView;
use crate::heap::OBJECT_BYTES;
use crate::heap::VALUE_BYTES;
use crate::value::CalIdx;
use crate::value::CellIdx;
use crate::value::DictIdx;
use crate::value::ListIdx;
use crate::value::RecIdx;
use crate::value::Value;
use vstd::prelude::*;

verus! {

/// The tables of the heap.
#[derive(Clone, Copy, PartialEq, Eq, Debug, Structural)]
pub enum Place {
    /// The strings.
    Strings,
    /// The byte strings.
    Bytes,
    /// The big integers.
    Bigs,
    /// The lists.
    Lists,
    /// The dicts.
    Dicts,
    /// The records.
    Records,
    /// The types.
    Types,
    /// The binding cells.
    Cells,
    /// The callables.
    Callables,
    /// The foreign values.
    Foreigns,
}

/// A reference to an object of the heap.
#[derive(Clone, Copy, PartialEq, Eq, Debug, Structural)]
pub struct Ref {
    /// The table.
    pub place: Place,
    /// The index.
    pub index: usize,
}

/// The number of a table.
pub open spec fn number(place: Place) -> int {
    match place {
        Place::Strings => 0,
        Place::Bytes => 1,
        Place::Bigs => 2,
        Place::Lists => 3,
        Place::Dicts => 4,
        Place::Records => 5,
        Place::Types => 6,
        Place::Cells => 7,
        Place::Callables => 8,
        Place::Foreigns => 9,
    }
}

fn place_number(place: Place) -> (r: usize)
    ensures
        r == number(place),
        r < 10,
{
    match place {
        Place::Strings => 0,
        Place::Bytes => 1,
        Place::Bigs => 2,
        Place::Lists => 3,
        Place::Dicts => 4,
        Place::Records => 5,
        Place::Types => 6,
        Place::Cells => 7,
        Place::Callables => 8,
        Place::Foreigns => 9,
    }
}

/// The number of slots of a table.
pub open spec fn table_size(h: HeapView, k: int) -> nat {
    if k == 0 {
        h.strings.len()
    } else if k == 1 {
        h.bytes.len()
    } else if k == 2 {
        h.bigs.len()
    } else if k == 3 {
        h.lists.len()
    } else if k == 4 {
        h.dicts.len()
    } else if k == 5 {
        h.records.len()
    } else if k == 6 {
        h.types.len()
    } else if k == 7 {
        h.cells.len()
    } else if k == 8 {
        h.callables.len()
    } else {
        h.foreigns.len()
    }
}

/// Whether a reference leads to a slot.
pub open spec fn in_heap(h: HeapView, r: Ref) -> bool {
    (r.index as nat) < table_size(h, number(r.place))
}

/// The object a value stands for, if it stands for one.
pub open spec fn value_ref(v: Value) -> Option<Ref> {
    match v {
        Value::BigInt(i) => Some(Ref { place: Place::Bigs, index: i.0 }),
        Value::Str(i) => Some(Ref { place: Place::Strings, index: i.0 }),
        Value::Bytes(i) => Some(Ref { place: Place::Bytes, index: i.0 }),
        Value::List(i) => Some(Ref { place: Place::Lists, index: i.0 }),
        Value::Dict(i) => Some(Ref { place: Place::Dicts, index: i.0 }),
        Value::Record(i) => Some(Ref { place: Place::Records, index: i.0 }),
        Value::Callable(i) => Some(Ref { place: Place::Callables, index: i.0 }),
        Value::Type(i) => Some(Ref { place: Place::Types, index: i.0 }),
        Value::Foreign(i) => Some(Ref { place: Place::Foreigns, index: i.0 }),
        Value::Nil => None,
        Value::Bool(_) => None,
        Value::Int(_) => None,
        Value::Float(_) => None,
        Value::Module(_) => None,
    }
}

fn ref_of(v: Value) -> (r: Option<Ref>)
    ensures
        r == value_ref(v),
{
    match v {
        Value::BigInt(i) => Some(Ref { place: Place::Bigs, index: i.0 }),
        Value::Str(i) => Some(Ref { place: Place::Strings, index: i.0 }),
        Value::Bytes(i) => Some(Ref { place: Place::Bytes, index: i.0 }),
        Value::List(i) => Some(Ref { place: Place::Lists, index: i.0 }),
        Value::Dict(i) => Some(Ref { place: Place::Dicts, index: i.0 }),
        Value::Record(i) => Some(Ref { place: Place::Records, index: i.0 }),
        Value::Callable(i) => Some(Ref { place: Place::Callables, index: i.0 }),
        Value::Type(i) => Some(Ref { place: Place::Types, index: i.0 }),
        Value::Foreign(i) => Some(Ref { place: Place::Foreigns, index: i.0 }),
        Value::Nil => None,
        Value::Bool(_) => None,
        Value::Int(_) => None,
        Value::Float(_) => None,
        Value::Module(_) => None,
    }
}

/// The reference of a cell.
pub open spec fn cell_ref(c: CellIdx) -> Ref {
    Ref { place: Place::Cells, index: c.0 }
}

/// References with that of a value, if it has one.
pub open spec fn with_value(refs: Seq<Ref>, v: Value) -> Seq<Ref> {
    match value_ref(v) {
        Some(r) => refs.push(r),
        None => refs,
    }
}

/// The references of some values.
pub open spec fn value_refs(values: Seq<Value>) -> Seq<Ref>
    decreases values.len(),
{
    if values.len() == 0 {
        Seq::empty()
    } else {
        with_value(value_refs(values.drop_last()), values.last())
    }
}

/// The references of some cells.
pub open spec fn cell_refs(cells: Seq<CellIdx>) -> Seq<Ref> {
    cells.map_values(|c: CellIdx| cell_ref(c))
}

/// The references of a dict's entries.
pub open spec fn entry_refs(entries: Seq<(Value, Value)>) -> Seq<Ref>
    decreases entries.len(),
{
    if entries.len() == 0 {
        Seq::empty()
    } else {
        with_value(
            with_value(entry_refs(entries.drop_last()), entries.last().0),
            entries.last().1,
        )
    }
}

/// What an object refers to.
pub open spec fn children(h: HeapView, r: Ref) -> Seq<Ref> {
    match r.place {
        Place::Lists => match at(h.lists, r.index as int) {
            Some(items) => value_refs(items),
            None => Seq::empty(),
        },
        Place::Dicts => match at(h.dicts, r.index as int) {
            Some(d) => entry_refs(d.entries),
            None => Seq::empty(),
        },
        Place::Records => match at(h.records, r.index as int) {
            Some(rec) => value_refs(rec.fields).push(
                Ref { place: Place::Types, index: rec.type_idx.0 },
            ),
            None => Seq::empty(),
        },
        Place::Cells => match at(h.cells, r.index as int) {
            Some(c) => match c.value {
                Some(v) => with_value(Seq::empty(), v),
                None => Seq::empty(),
            },
            None => Seq::empty(),
        },
        Place::Callables => match at(h.callables, r.index as int) {
            Some(c) => cell_refs(c.captures),
            None => Seq::empty(),
        },
        _ => Seq::empty(),
    }
}

/// Whether some steps lead from the roots to an object.
pub open spec fn reached(h: HeapView, roots: Seq<Ref>, r: Ref, steps: nat) -> bool
    decreases steps,
{
    if steps == 0 {
        roots.contains(r)
    } else {
        exists|p: Ref|
            reached(h, roots, p, (steps - 1) as nat) && #[trigger] children(h, p).contains(r)
    }
}

/// Whether the roots lead to an object.
pub open spec fn reachable(h: HeapView, roots: Seq<Ref>, r: Ref) -> bool {
    exists|steps: nat| reached(h, roots, r, steps)
}

proof fn lemma_step(h: HeapView, roots: Seq<Ref>, p: Ref, c: Ref, steps: nat)
    requires
        reached(h, roots, p, steps),
        children(h, p).contains(c),
    ensures
        reached(h, roots, c, steps + 1),
{
}

proof fn lemma_parent(h: HeapView, roots: Seq<Ref>, c: Ref, steps: nat) -> (p: Ref)
    requires
        steps > 0,
        reached(h, roots, c, steps),
    ensures
        reached(h, roots, p, (steps - 1) as nat),
        children(h, p).contains(c),
        in_heap(h, p),
{
    let p = choose|p: Ref|
        reached(h, roots, p, (steps - 1) as nat) && #[trigger] children(h, p).contains(c);
    if !in_heap(h, p) {
        assert(children(h, p) =~= Seq::empty());
    }
    p
}

/// A table with the slots emptied that the roots do not lead to.
pub open spec fn surviving<V>(slots: Seq<Option<V>>, h: HeapView, roots: Seq<Ref>, place: Place) -> Seq<
    Option<V>,
> {
    Seq::new(
        slots.len(),
        |i: int|
            if reachable(h, roots, Ref { place, index: i as usize }) {
                slots[i]
            } else {
                None
            },
    )
}

/// A sum that stays at the largest number once it would pass it.
pub open spec fn saturating(a: u64, b: u64) -> u64 {
    if a + b > u64::MAX {
        u64::MAX
    } else {
        (a + b) as u64
    }
}

/// Objects whose accounted bytes are known.
pub trait Weighed: View {
    /// The accounted bytes.
    spec fn weight(v: Self::V) -> u64;

    /// The accounted bytes.
    fn weigh(&self) -> (r: u64)
        ensures
            r == Self::weight(self@),
    ;
}

fn object_bytes(n: usize, each: u64) -> (r: u64)
    ensures
        r == charged(0, n as int, each as int),
{
    let size: u64 = match (n as u64).checked_mul(each) {
        Some(size) => size,
        None => u64::MAX,
    };
    proof {
        assert(0 <= n * each) by (nonlinear_arith)
            requires
                0 <= n,
                0 <= each,
        ;
    }
    OBJECT_BYTES.saturating_add(size)
}

impl Weighed for String {
    open spec fn weight(v: Seq<char>) -> u64 {
        charged(0, vstd::utf8::encode_utf8(v).len() as int, 1)
    }

    fn weigh(&self) -> (r: u64) {
        object_bytes(self.as_str().as_bytes().len(), 1)
    }
}

impl Weighed for Vec<u8> {
    open spec fn weight(v: Seq<u8>) -> u64 {
        charged(0, v.len() as int, 1)
    }

    fn weigh(&self) -> (r: u64) {
        object_bytes(self.len(), 1)
    }
}

impl Weighed for Vec<Value> {
    open spec fn weight(v: Seq<Value>) -> u64 {
        charged(0, v.len() as int, VALUE_BYTES as int)
    }

    fn weigh(&self) -> (r: u64) {
        object_bytes(self.len(), VALUE_BYTES)
    }
}

impl Weighed for DictObj {
    open spec fn weight(v: DictView) -> u64 {
        charged(0, 0, 0)
    }

    fn weigh(&self) -> (r: u64) {
        object_bytes(0, 0)
    }
}

impl Weighed for RecordObj {
    open spec fn weight(v: RecordView) -> u64 {
        charged(0, v.fields.len() as int, VALUE_BYTES as int)
    }

    fn weigh(&self) -> (r: u64) {
        object_bytes(self.fields.len(), VALUE_BYTES)
    }
}

impl Weighed for TypeKind {
    open spec fn weight(v: TypeView) -> u64 {
        charged(0, 0, 0)
    }

    fn weigh(&self) -> (r: u64) {
        object_bytes(0, 0)
    }
}

impl Weighed for CellObj {
    open spec fn weight(v: CellObj) -> u64 {
        charged(0, 1, VALUE_BYTES as int)
    }

    fn weigh(&self) -> (r: u64) {
        object_bytes(1, VALUE_BYTES)
    }
}

impl Weighed for CalObj {
    open spec fn weight(v: CalView) -> u64 {
        charged(0, v.captures.len() as int, VALUE_BYTES as int)
    }

    fn weigh(&self) -> (r: u64) {
        object_bytes(self.captures.len(), VALUE_BYTES)
    }
}

impl Weighed for ForeignObj {
    open spec fn weight(v: ForeignObj) -> u64 {
        charged(0, 1, VALUE_BYTES as int)
    }

    fn weigh(&self) -> (r: u64) {
        object_bytes(1, VALUE_BYTES)
    }
}

/// The accounted bytes of a table of big integers.
pub open spec fn big_bytes(slots: Seq<Option<int>>) -> u64
    decreases slots.len(),
{
    if slots.len() == 0 {
        0
    } else {
        let before = big_bytes(slots.drop_last());
        match slots.last() {
            Some(n) => saturating(before, charged(0, int_bytes(n).len() as int, 1)),
            None => before,
        }
    }
}

/// The accounted bytes of a table.
pub open spec fn table_bytes<T: Weighed>(slots: Seq<Option<T::V>>) -> u64
    decreases slots.len(),
{
    if slots.len() == 0 {
        0
    } else {
        let before = table_bytes::<T>(slots.drop_last());
        match slots.last() {
            Some(v) => saturating(before, T::weight(v)),
            None => before,
        }
    }
}

/// The number of objects of a table.
pub open spec fn occupied<V>(slots: Seq<Option<V>>) -> nat
    decreases slots.len(),
{
    if slots.len() == 0 {
        0
    } else if slots.last() is Some {
        occupied(slots.drop_last()) + 1
    } else {
        occupied(slots.drop_last())
    }
}

proof fn lemma_occupied_bound<V>(slots: Seq<Option<V>>)
    ensures
        occupied(slots) <= slots.len(),
    decreases slots.len(),
{
    if slots.len() > 0 {
        lemma_occupied_bound(slots.drop_last());
    }
}

/// The accounted bytes of all objects.
pub open spec fn heap_bytes(h: HeapView) -> u64 {
    let a = saturating(table_bytes::<String>(h.strings), table_bytes::<Vec<u8>>(h.bytes));
    let b = saturating(a, big_bytes(h.bigs));
    let c = saturating(b, table_bytes::<Vec<Value>>(h.lists));
    let d = saturating(c, table_bytes::<DictObj>(h.dicts));
    let e = saturating(d, table_bytes::<RecordObj>(h.records));
    let f = saturating(e, table_bytes::<TypeKind>(h.types));
    let g = saturating(f, table_bytes::<CellObj>(h.cells));
    let i = saturating(g, table_bytes::<CalObj>(h.callables));
    saturating(i, table_bytes::<ForeignObj>(h.foreigns))
}

/// The heap with the objects emptied that the roots do not lead to.
pub open spec fn swept(h: HeapView, roots: Seq<Ref>) -> HeapView {
    HeapView {
        strings: surviving(h.strings, h, roots, Place::Strings),
        bytes: surviving(h.bytes, h, roots, Place::Bytes),
        bigs: surviving(h.bigs, h, roots, Place::Bigs),
        lists: surviving(h.lists, h, roots, Place::Lists),
        dicts: surviving(h.dicts, h, roots, Place::Dicts),
        records: surviving(h.records, h, roots, Place::Records),
        types: surviving(h.types, h, roots, Place::Types),
        cells: surviving(h.cells, h, roots, Place::Cells),
        callables: surviving(h.callables, h, roots, Place::Callables),
        foreigns: surviving(h.foreigns, h, roots, Place::Foreigns),
        allocated: h.allocated,
    }
}

/// The heap after a collection from some roots: what is left is accounted anew.
#[verifier::opaque]
pub open spec fn collected(h: HeapView, roots: Seq<Ref>) -> HeapView {
    let left = swept(h, roots);
    HeapView { allocated: heap_bytes(left), ..left }
}

/// A finalizer to run, and the host token to run it on.
#[derive(Clone, Copy, PartialEq, Eq, Debug, Structural)]
pub struct Finalization {
    /// The finalizer.
    pub finalizer: u64,
    /// The host's token.
    pub ptr: u64,
}

/// The finalizers of the objects of a table that are gone from another, in order.
pub open spec fn finalizations(before: Seq<Option<ForeignObj>>, after: Seq<Option<ForeignObj>>, n: nat) -> Seq<
    Finalization,
>
    decreases n,
{
    if n == 0 {
        Seq::empty()
    } else {
        let rest = finalizations(before, after, (n - 1) as nat);
        match (at(before, n - 1), at(after, n - 1)) {
            (Some(f), None) => match f.finalizer {
                Some(finalizer) => rest.push(Finalization { finalizer, ptr: f.ptr }),
                None => rest,
            },
            _ => rest,
        }
    }
}

/// The finalizers of the foreign objects that a collection from some roots reclaims.
#[verifier::opaque]
pub open spec fn orphaned(h: HeapView, roots: Seq<Ref>) -> Seq<Finalization> {
    finalizations(
        h.foreigns,
        surviving(h.foreigns, h, roots, Place::Foreigns),
        h.foreigns.len(),
    )
}

/// The finalizers of all foreign objects.
pub open spec fn all_finalizations(h: HeapView) -> Seq<Finalization> {
    finalizations(h.foreigns, Seq::empty(), h.foreigns.len())
}

// ---- marking ----

/// Whether a reference is marked.
pub open spec fn marked(marks: Seq<Vec<bool>>, r: Ref) -> bool {
    marks[number(r.place)]@[r.index as int]
}

/// Whether there is a mark for every slot.
pub open spec fn marks_fit(h: HeapView, marks: Seq<Vec<bool>>) -> bool {
    &&& marks.len() == 10
    &&& forall|k: int| 0 <= k < 10 ==> (#[trigger] marks[k])@.len() == table_size(h, k)
}

/// The references not marked yet.
pub open spec fn unmarked(h: HeapView, marks: Seq<Vec<bool>>) -> Set<(int, int)> {
    Set::new(
        |p: (int, int)|
            0 <= p.0 < 10 && 0 <= p.1 < table_size(h, p.0) && !marks[p.0]@[p.1],
    )
}

proof fn lemma_universe(h: HeapView, n: int)
    requires
        0 <= n <= 10,
    ensures
        Set::new(|p: (int, int)| 0 <= p.0 < n && 0 <= p.1 < table_size(h, p.0)).finite(),
    decreases n,
{
    let all = Set::new(|p: (int, int)| 0 <= p.0 < n && 0 <= p.1 < table_size(h, p.0));
    if n == 0 {
        assert(all =~= Set::empty());
    } else {
        lemma_universe(h, n - 1);
        let rest = Set::new(
            |p: (int, int)| 0 <= p.0 < n - 1 && 0 <= p.1 < table_size(h, p.0),
        );
        let size = table_size(h, n - 1) as int;
        vstd::set_lib::lemma_int_range(0, size);
        let column = vstd::set_lib::set_int_range(0, size);
        let row = column.map(|i: int| (n - 1, i));
        column.lemma_map_finite(|i: int| (n - 1, i));
        assert forall|p: (int, int)| all.contains(p) implies rest.union(row).contains(p) by {
            if p.0 == n - 1 {
                assert(column.contains(p.1));
                assert(p == (n - 1, p.1));
            }
        }
        assert(all.subset_of(rest.union(row)));
        vstd::set_lib::lemma_set_subset_finite(rest.union(row), all);
    }
}

proof fn lemma_unmarked_finite(h: HeapView, marks: Seq<Vec<bool>>)
    ensures
        unmarked(h, marks).finite(),
{
    lemma_universe(h, 10);
    let all = Set::new(|p: (int, int)| 0 <= p.0 < 10 && 0 <= p.1 < table_size(h, p.0));
    assert(unmarked(h, marks).subset_of(all));
    vstd::set_lib::lemma_set_subset_finite(all, unmarked(h, marks));
}

fn push_value(refs: &mut Vec<Ref>, v: Value)
    ensures
        final(refs)@ == with_value(old(refs)@, v),
{
    if let Some(r) = ref_of(v) {
        refs.push(r);
    }
}

/// The references of some values.
pub fn refs_of_values(values: &Vec<Value>) -> (r: Vec<Ref>)
    ensures
        r@ == value_refs(values@),
{
    let mut r: Vec<Ref> = Vec::new();
    let mut i: usize = 0;
    assert(values@.take(0) =~= Seq::empty());
    while i < values.len()
        invariant
            i <= values@.len(),
            r@ == value_refs(values@.take(i as int)),
        decreases values@.len() - i,
    {
        assert(values@.take(i + 1).drop_last() =~= values@.take(i as int));
        push_value(&mut r, values[i]);
        i = i + 1;
    }
    assert(values@.take(i as int) =~= values@);
    r
}

fn refs_of_entries(entries: &Vec<(Value, Value)>) -> (r: Vec<Ref>)
    ensures
        r@ == entry_refs(entries@),
{
    let mut r: Vec<Ref> = Vec::new();
    let mut i: usize = 0;
    assert(entries@.take(0) =~= Seq::empty());
    while i < entries.len()
        invariant
            i <= entries@.len(),
            r@ == entry_refs(entries@.take(i as int)),
        decreases entries@.len() - i,
    {
        assert(entries@.take(i + 1).drop_last() =~= entries@.take(i as int));
        push_value(&mut r, entries[i].0);
        push_value(&mut r, entries[i].1);
        i = i + 1;
    }
    assert(entries@.take(i as int) =~= entries@);
    r
}

/// The references of some cells.
pub fn refs_of_cells(cells: &Vec<CellIdx>) -> (r: Vec<Ref>)
    ensures
        r@ == cell_refs(cells@),
{
    let mut r: Vec<Ref> = Vec::new();
    let mut i: usize = 0;
    while i < cells.len()
        invariant
            i <= cells@.len(),
            r@ =~= cell_refs(cells@).take(i as int),
        decreases cells@.len() - i,
    {
        r.push(Ref { place: Place::Cells, index: cells[i].0 });
        i = i + 1;
    }
    assert(r@ =~= cell_refs(cells@));
    r
}

fn child_refs(heap: &Heap, r: Ref) -> (out: Vec<Ref>)
    ensures
        out@ == children(heap@, r),
{
    match r.place {
        Place::Lists => match heap.list(ListIdx(r.index)) {
            Some(items) => refs_of_values(items),
            None => Vec::new(),
        },
        Place::Dicts => match heap.dict(DictIdx(r.index)) {
            Some(d) => refs_of_entries(&d.entries),
            None => Vec::new(),
        },
        Place::Records => match heap.record(RecIdx(r.index)) {
            Some(rec) => {
                let mut out = refs_of_values(&rec.fields);
                out.push(Ref { place: Place::Types, index: rec.type_idx.0 });
                out
            },
            None => Vec::new(),
        },
        Place::Cells => match heap.cell(CellIdx(r.index)) {
            Some(c) => {
                let mut out: Vec<Ref> = Vec::new();
                if let Some(v) = c.value {
                    push_value(&mut out, v);
                }
                out
            },
            None => Vec::new(),
        },
        Place::Callables => match heap.callable(CalIdx(r.index)) {
            Some(c) => refs_of_cells(&c.captures),
            None => Vec::new(),
        },
        _ => Vec::new(),
    }
}

/// Marks from which every child is marked or still to be visited.
pub open spec fn pending_closed(h: HeapView, marks: Seq<Vec<bool>>, work: Seq<Ref>) -> bool {
    forall|p: Ref, c: Ref|
        in_heap(h, p) && marked(marks, p) && #[trigger] children(h, p).contains(c) && in_heap(h, c)
            ==> marked(marks, c) || work.contains(c)
}

proof fn lemma_closed_covers(h: HeapView, roots: Seq<Ref>, marks: Seq<Vec<bool>>, r: Ref, steps: nat)
    requires
        pending_closed(h, marks, Seq::empty()),
        forall|c: Ref| roots.contains(c) && in_heap(h, c) ==> #[trigger] marked(marks, c),
        reached(h, roots, r, steps),
        in_heap(h, r),
    ensures
        marked(marks, r),
    decreases steps,
{
    if steps > 0 {
        let p = lemma_parent(h, roots, r, steps);
        lemma_closed_covers(h, roots, marks, p, (steps - 1) as nat);
    }
}

fn no_marks(n: usize) -> (r: Vec<bool>)
    ensures
        r@.len() == n,
        forall|i: int| 0 <= i < n ==> !(#[trigger] r@[i]),
{
    let mut r: Vec<bool> = Vec::new();
    let mut i: usize = 0;
    while i < n
        invariant
            i <= n,
            r@.len() == i,
            forall|k: int| 0 <= k < i ==> !(#[trigger] r@[k]),
        decreases n - i,
    {
        r.push(false);
        i = i + 1;
    }
    r
}

/// Marks what the roots lead to.
fn mark(heap: &Heap, roots: Vec<Ref>) -> (marks: Vec<Vec<bool>>)
    ensures
        marks_fit(heap@, marks@),
        forall|r: Ref|
            in_heap(heap@, r) ==> (#[trigger] marked(marks@, r) <==> reachable(
                heap@,
                roots@,
                r,
            )),
{
    let ghost h = heap@;
    let ghost start = roots@;
    proof {
        lemma_tables(heap);
    }
    let mut marks: Vec<Vec<bool>> = Vec::new();
    marks.push(no_marks(heap.strings.len()));
    marks.push(no_marks(heap.bytes.len()));
    marks.push(no_marks(heap.bigs.len()));
    marks.push(no_marks(heap.lists.len()));
    marks.push(no_marks(heap.dicts.len()));
    marks.push(no_marks(heap.records.len()));
    marks.push(no_marks(heap.types.len()));
    marks.push(no_marks(heap.cells.len()));
    marks.push(no_marks(heap.callables.len()));
    marks.push(no_marks(heap.foreigns.len()));
    let mut work: Vec<Ref> = roots;
    proof {
        lemma_unmarked_finite(h, marks@);
        assert forall|r: Ref| start.contains(r) implies #[trigger] reachable(h, start, r) by {
            assert(reached(h, start, r, 0));
        }
        assert forall|p: Ref| in_heap(h, p) implies !(#[trigger] marked(marks@, p)) by {
            assert(!marks@[number(p.place)]@[p.index as int]);
        }
    }
    while work.len() > 0
        invariant
            h == heap@,
            marks_fit(h, marks@),
            unmarked(h, marks@).finite(),
            forall|r: Ref|
                in_heap(h, r) && #[trigger] marked(marks@, r) ==> reachable(h, start, r),
            forall|i: int| 0 <= i < work@.len() ==> reachable(h, start, #[trigger] work@[i]),
            forall|r: Ref|
                start.contains(r) && in_heap(h, r) ==> #[trigger] marked(marks@, r)
                    || work@.contains(r),
            pending_closed(h, marks@, work@),
        decreases unmarked(h, marks@).len(), work@.len(),
    {
        let ghost work_before = work@;
        let ghost marks_before = marks@;
        let r = match work.pop() {
            Some(r) => r,
            None => {
                return marks;
            },
        };
        let ghost popped = work@;
        assert(work_before =~= popped.push(r));
        assert(reachable(h, start, r)) by {
            assert(work_before[work_before.len() - 1] == r);
        }
        proof {
            assert forall|c: Ref| work_before.contains(c) && c != r implies popped.contains(c) by {
                let i = choose|i: int| 0 <= i < work_before.len() && work_before[i] == c;
                assert(popped[i] == c);
            }
            assert forall|i: int| 0 <= i < popped.len() implies reachable(
                h,
                start,
                #[trigger] popped[i],
            ) by {
                assert(popped[i] == work_before[i]);
            }
        }
        let k: usize = place_number(r.place);
        if r.index < marks[k].len() && !marks[k][r.index] {
            marks[k].set(r.index, true);
            let kids = child_refs(heap, r);
            let mut i: usize = 0;
            while i < kids.len()
                invariant
                    i <= kids@.len(),
                    kids@ == children(h, r),
                    h == heap@,
                    work@ =~= popped + kids@.take(i as int),
                decreases kids@.len() - i,
            {
                work.push(kids[i]);
                i = i + 1;
            }
            assert(work@ =~= popped + kids@);
            proof {
                let here = (k as int, r.index as int);
                assert(marks_fit(h, marks@)) by {
                    assert forall|j: int| 0 <= j < 10 implies (#[trigger] marks@[j])@.len()
                        == table_size(h, j) by {
                        assert(marks_before[j]@.len() == table_size(h, j));
                    }
                }
                assert forall|q: Ref| in_heap(h, q) implies (#[trigger] marked(marks@, q) <==> (q
                    == r || marked(marks_before, q))) by {
                    lemma_number_injective(q.place, r.place);
                    assert(marks_before[number(q.place)]@.len() == table_size(
                        h,
                        number(q.place),
                    ));
                }
                assert(unmarked(h, marks@) =~= unmarked(h, marks_before).remove(here)) by {
                    assert forall|p: (int, int)|
                        unmarked(h, marks@).contains(p) <==> unmarked(h, marks_before).remove(
                            here,
                        ).contains(p) by {
                        if 0 <= p.0 < 10 {
                            assert(marks_before[p.0]@.len() == table_size(h, p.0));
                        }
                    }
                }
                assert(unmarked(h, marks_before).contains(here));
                assert forall|j: int| 0 <= j < work@.len() implies reachable(
                    h,
                    start,
                    #[trigger] work@[j],
                ) by {
                    if j < popped.len() {
                        assert(work@[j] == popped[j]);
                    } else {
                        let c = kids@[j - popped.len()];
                        assert(work@[j] == c);
                        assert(children(h, r).contains(c));
                        let n = choose|n: nat| reached(h, start, r, n);
                        lemma_step(h, start, r, c, n);
                    }
                }
                assert forall|c: Ref| popped.contains(c) || kids@.contains(c) implies #[trigger] work@.contains(
                    c,
                ) by {
                    if popped.contains(c) {
                        let j = choose|j: int| 0 <= j < popped.len() && popped[j] == c;
                        assert(work@[j] == c);
                    } else {
                        let j = choose|j: int| 0 <= j < kids@.len() && kids@[j] == c;
                        assert(work@[popped.len() + j] == c);
                    }
                }
                assert(pending_closed(h, marks@, work@)) by {
                    assert forall|p: Ref, c: Ref|
                        in_heap(h, p) && marked(marks@, p) && #[trigger] children(h, p).contains(c)
                            && in_heap(h, c) implies marked(marks@, c) || work@.contains(c) by {
                        if p == r {
                            assert(kids@.contains(c));
                        } else {
                            assert(marked(marks_before, p));
                            assert(marked(marks_before, c) || work_before.contains(c));
                        }
                    }
                }
                assert forall|q: Ref| start.contains(q) && in_heap(h, q) implies #[trigger] marked(
                    marks@,
                    q,
                ) || work@.contains(q) by {
                    assert(marked(marks_before, q) || work_before.contains(q));
                }
            }
        } else {
            proof {
                assert(marks_before[k as int]@.len() == table_size(h, k as int));
                assert(in_heap(h, r) ==> marked(marks@, r));
                assert(pending_closed(h, marks@, work@)) by {
                    assert forall|p: Ref, c: Ref|
                        in_heap(h, p) && marked(marks@, p) && #[trigger] children(h, p).contains(c)
                            && in_heap(h, c) implies marked(marks@, c) || work@.contains(c) by {
                        assert(marked(marks_before, c) || work_before.contains(c));
                    }
                }
                assert forall|q: Ref| start.contains(q) && in_heap(h, q) implies #[trigger] marked(
                    marks@,
                    q,
                ) || work@.contains(q) by {
                    assert(marked(marks_before, q) || work_before.contains(q));
                }
            }
        }
    }
    proof {
        assert(work@ =~= Seq::<Ref>::empty());
        assert forall|c: Ref| start.contains(c) && in_heap(h, c) implies #[trigger] marked(
            marks@,
            c,
        ) by {
            assert(marked(marks@, c) || work@.contains(c));
        }
        assert forall|r: Ref| in_heap(h, r) implies (#[trigger] marked(marks@, r) <==> reachable(
            h,
            start,
            r,
        )) by {
            if reachable(h, start, r) {
                let n = choose|n: nat| reached(h, start, r, n);
                lemma_closed_covers(h, start, marks@, r, n);
            }
        }
    }
    marks
}

proof fn lemma_number_injective(a: Place, b: Place)
    ensures
        number(a) == number(b) ==> a == b,
{
}

// ---- sweeping ----

/// A table with the unmarked slots emptied.
pub open spec fn kept<V>(slots: Seq<Option<V>>, row: Seq<bool>) -> Seq<Option<V>> {
    Seq::new(
        slots.len(),
        |i: int|
            if row[i] {
                slots[i]
            } else {
                None
            },
    )
}

impl<T: View> Arena<T> {
    fn sweep(&mut self, row: &Vec<bool>)
        requires
            row@.len() == old(self)@.len(),
        ensures
            final(self)@ == kept(old(self)@, row@),
    {
        let n: usize = self.len();
        let mut i: usize = 0;
        while i < n
            invariant
                i <= n,
                n == row@.len(),
                n == self@.len(),
                n == old(self)@.len(),
                forall|k: int| 0 <= k < i ==> #[trigger] self@[k] == kept(old(self)@, row@)[k],
                forall|k: int| i <= k < n ==> #[trigger] self@[k] == old(self)@[k],
            decreases n - i,
        {
            if !row[i] {
                let dead = self.take(i);
            }
            i = i + 1;
        }
        assert(self@ =~= kept(old(self)@, row@));
    }

    fn count(&self) -> (r: usize)
        ensures
            r == occupied(self@),
    {
        let mut n: usize = 0;
        let mut i: usize = 0;
        assert(self@.take(0) =~= Seq::<Option<T::V>>::empty());
        while i < self.len()
            invariant
                i <= self@.len(),
                n == occupied(self@.take(i as int)),
                n <= i,
            decreases self@.len() - i,
        {
            assert(self@.take(i + 1).drop_last() =~= self@.take(i as int));
            if self.get(i).is_some() {
                n = n + 1;
            }
            i = i + 1;
        }
        assert(self@.take(i as int) =~= self@);
        n
    }
}

impl<T: Weighed> Arena<T> {
    fn total_bytes(&self) -> (r: u64)
        ensures
            r == table_bytes::<T>(self@),
    {
        let mut n: u64 = 0;
        let mut i: usize = 0;
        assert(self@.take(0) =~= Seq::<Option<T::V>>::empty());
        while i < self.len()
            invariant
                i <= self@.len(),
                n == table_bytes::<T>(self@.take(i as int)),
            decreases self@.len() - i,
        {
            assert(self@.take(i + 1).drop_last() =~= self@.take(i as int));
            if let Some(t) = self.get(i) {
                n = n.saturating_add(t.weigh());
            }
            i = i + 1;
        }
        assert(self@.take(i as int) =~= self@);
        n
    }
}

fn total_big_bytes(bigs: &Arena<BigNum>) -> (r: u64)
    ensures
        r == big_bytes(bigs@),
{
    let mut n: u64 = 0;
    let mut i: usize = 0;
    assert(bigs@.take(0) =~= Seq::<Option<int>>::empty());
    while i < bigs.len()
        invariant
            i <= bigs@.len(),
            n == big_bytes(bigs@.take(i as int)),
        decreases bigs@.len() - i,
    {
        assert(bigs@.take(i + 1).drop_last() =~= bigs@.take(i as int));
        if let Some(t) = bigs.get(i) {
            let c = t.copy();
            proof {
                lemma_int_bytes(c);
            }
            n = n.saturating_add(object_bytes(c.bytes.len(), 1));
        }
        i = i + 1;
    }
    assert(bigs@.take(i as int) =~= bigs@);
    n
}

fn gone(before: &Vec<Option<ForeignObj>>, after: &Arena<ForeignObj>) -> (r: Vec<Finalization>)
    ensures
        r@ == finalizations(before@, after@, before@.len()),
{
    let mut r: Vec<Finalization> = Vec::new();
    let mut i: usize = 0;
    while i < before.len()
        invariant
            i <= before@.len(),
            r@ == finalizations(before@, after@, i as nat),
        decreases before@.len() - i,
    {
        if let Some(f) = before[i] {
            if after.get(i).is_none() {
                if let Some(finalizer) = f.finalizer {
                    r.push(Finalization { finalizer, ptr: f.ptr });
                }
            }
        }
        i = i + 1;
    }
    r
}

fn foreign_slots(foreigns: &Arena<ForeignObj>) -> (r: Vec<Option<ForeignObj>>)
    ensures
        r@ == foreigns@,
{
    let mut r: Vec<Option<ForeignObj>> = Vec::new();
    let mut i: usize = 0;
    while i < foreigns.len()
        invariant
            i <= foreigns@.len(),
            r@ =~= foreigns@.take(i as int),
        decreases foreigns@.len() - i,
    {
        match foreigns.get(i) {
            Some(f) => r.push(Some(*f)),
            None => r.push(None),
        }
        i = i + 1;
    }
    assert(foreigns@.take(i as int) =~= foreigns@);
    r
}

proof fn lemma_kept_is_surviving<V>(
    slots: Seq<Option<V>>,
    h: HeapView,
    roots: Seq<Ref>,
    marks: Seq<Vec<bool>>,
    place: Place,
)
    requires
        marks_fit(h, marks),
        slots.len() == table_size(h, number(place)),
        slots.len() <= usize::MAX,
        forall|r: Ref|
            in_heap(h, r) ==> (#[trigger] marked(marks, r) <==> reachable(h, roots, r)),
    ensures
        kept(slots, marks[number(place)]@) == surviving(slots, h, roots, place),
{
    assert forall|i: int| 0 <= i < slots.len() implies kept(slots, marks[number(place)]@)[i]
        == surviving(slots, h, roots, place)[i] by {
        let r = Ref { place, index: i as usize };
        assert(in_heap(h, r));
        assert(marked(marks, r) == marks[number(place)]@[i]);
    }
    assert(kept(slots, marks[number(place)]@) =~= surviving(slots, h, roots, place));
}

impl Heap {
    /// Empties the objects that the roots do not lead to; returns the finalizers of the
    /// foreign objects among them, each to be run once.
    pub fn collect(&mut self, roots: Vec<Ref>) -> (r: Vec<Finalization>)
        ensures
            final(self)@ == collected(old(self)@, roots@),
            r@ == orphaned(old(self)@, roots@),
    {
        proof {
            reveal(orphaned);
        }
        proof {
            reveal(collected);
        }
        let ghost h = self@;
        let ghost start = roots@;
        let marks = mark(self, roots);
        let before = foreign_slots(&self.foreigns);
        proof {
            lemma_lengths(self);
            lemma_tables(self);
            lemma_kept_is_surviving(h.strings, h, start, marks@, Place::Strings);
            lemma_kept_is_surviving(h.bytes, h, start, marks@, Place::Bytes);
            lemma_kept_is_surviving(h.bigs, h, start, marks@, Place::Bigs);
            lemma_kept_is_surviving(h.lists, h, start, marks@, Place::Lists);
            lemma_kept_is_surviving(h.dicts, h, start, marks@, Place::Dicts);
            lemma_kept_is_surviving(h.records, h, start, marks@, Place::Records);
            lemma_kept_is_surviving(h.types, h, start, marks@, Place::Types);
            lemma_kept_is_surviving(h.cells, h, start, marks@, Place::Cells);
            lemma_kept_is_surviving(h.callables, h, start, marks@, Place::Callables);
            lemma_kept_is_surviving(h.foreigns, h, start, marks@, Place::Foreigns);
        }
        self.strings.sweep(&marks[0]);
        self.bytes.sweep(&marks[1]);
        self.bigs.sweep(&marks[2]);
        self.lists.sweep(&marks[3]);
        self.dicts.sweep(&marks[4]);
        self.records.sweep(&marks[5]);
        self.types.sweep(&marks[6]);
        self.cells.sweep(&marks[7]);
        self.callables.sweep(&marks[8]);
        self.foreigns.sweep(&marks[9]);
        proof {
            lemma_tables(self);
        }
        self.allocated = self.counted_bytes();
        proof {
            lemma_tables(self);
        }
        gone(&before, &self.foreigns)
    }

    fn counted_bytes(&self) -> (r: u64)
        ensures
            r == heap_bytes(self@),
    {
        proof {
            lemma_tables(self);
        }
        let a = self.strings.total_bytes().saturating_add(self.bytes.total_bytes());
        let b = a.saturating_add(total_big_bytes(&self.bigs));
        let c = b.saturating_add(self.lists.total_bytes());
        let d = c.saturating_add(self.dicts.total_bytes());
        let e = d.saturating_add(self.records.total_bytes());
        let f = e.saturating_add(self.types.total_bytes());
        let g = f.saturating_add(self.cells.total_bytes());
        let i = g.saturating_add(self.callables.total_bytes());
        i.saturating_add(self.foreigns.total_bytes())
    }

    /// The number of objects.
    pub fn live_objects(&self) -> (r: u128)
        ensures
            r == live_count(self@),
    {
        proof {
            lemma_lengths(self);
            lemma_tables(self);
        }
        self.strings.count() as u128 + self.bytes.count() as u128 + self.bigs.count() as u128
            + self.lists.count() as u128 + self.dicts.count() as u128 + self.records.count() as u128
            + self.types.count() as u128 + self.cells.count() as u128
            + self.callables.count() as u128 + self.foreigns.count() as u128
    }

    /// Empties every foreign object; returns their finalizers, each to be run once.
    pub fn finalize_all(&mut self) -> (r: Vec<Finalization>)
        ensures
            r@ == all_finalizations(old(self)@),
            final(self)@ == (HeapView {
                foreigns: Seq::new(old(self)@.foreigns.len(), |i: int| None),
                ..old(self)@
            }),
    {
        proof {
            lemma_tables(self);
        }
        let before = foreign_slots(&self.foreigns);
        let empty: Arena<ForeignObj> = Arena::new();
        let r = gone(&before, &empty);
        let n: usize = self.foreigns.len();
        let row = no_marks(n);
        self.foreigns.sweep(&row);
        proof {
            lemma_tables(self);
            assert(self.foreigns@ =~= Seq::new(old(self)@.foreigns.len(), |i: int| None));
        }
        r
    }
}

/// The number of objects.
pub open spec fn live_count(h: HeapView) -> nat {
    occupied(h.strings) + occupied(h.bytes) + occupied(h.bigs) + occupied(h.lists) + occupied(
        h.dicts,
    ) + occupied(h.records) + occupied(h.types) + occupied(h.cells) + occupied(h.callables)
        + occupied(h.foreigns)
}

pub proof fn lemma_lengths(heap: &Heap)
    ensures
        heap@.strings.len() <= usize::MAX,
        heap@.bytes.len() <= usize::MAX,
        heap@.bigs.len() <= usize::MAX,
        heap@.lists.len() <= usize::MAX,
        heap@.dicts.len() <= usize::MAX,
        heap@.records.len() <= usize::MAX,
        heap@.types.len() <= usize::MAX,
        heap@.cells.len() <= usize::MAX,
        heap@.callables.len() <= usize::MAX,
        heap@.foreigns.len() <= usize::MAX,
{
    lemma_tables(heap);
    lemma_table_length(&heap.strings);
    lemma_table_length(&heap.bytes);
    lemma_table_length(&heap.bigs);
    lemma_table_length(&heap.lists);
    lemma_table_length(&heap.dicts);
    lemma_table_length(&heap.records);
    lemma_table_length(&heap.types);
    lemma_table_length(&heap.cells);
    lemma_table_length(&heap.callables);
    lemma_table_length(&heap.foreigns);
}

/// What a root leads to is untouched by a collection: a list keeps its items, and each item
/// that stands for an object is itself something the roots lead to.
pub proof fn law_reachable_objects_survive(h: HeapView, roots: Seq<Ref>, r: Ref, child: Ref)
    requires
        reachable(h, roots, r),
        in_heap(h, r),
        children(h, r).contains(child),
    ensures
        reachable(h, roots, child),
        children(collected(h, roots), r) == children(h, r),
{
    reveal(collected);
    let n = choose|n: nat| reached(h, roots, r, n);
    lemma_step(h, roots, r, child, n);
    let after = collected(h, roots);
    assert(r == (Ref { place: r.place, index: r.index as int as usize }));
}

/// A finalizer runs at most once: the object whose finalizer a collection hands out is gone
/// from the heap, so neither a later collection nor the end of the instance hands it out
/// again.
pub proof fn law_finalizers_run_once(h: HeapView, roots: Seq<Ref>, i: int)
    requires
        0 <= i < h.foreigns.len(),
        i <= usize::MAX,
        !reachable(h, roots, Ref { place: Place::Foreigns, index: i as usize }),
    ensures
        at(collected(h, roots).foreigns, i) is None,
{
    reveal(collected);
}

/// A second collection from the same roots reclaims nothing more, and hands out no finalizer.
pub proof fn law_collection_is_idempotent(h: HeapView, roots: Seq<Ref>)
    ensures
        collected(collected(h, roots), roots) == collected(h, roots),
        orphaned(collected(h, roots), roots) == Seq::<Finalization>::empty(),
{
    reveal(orphaned);
    let after = collected(h, roots);
    assert(swept(after, roots) == after) by {
        reveal(collected);
        lemma_table_settled(h.strings, h, roots, Place::Strings);
        lemma_table_settled(h.bytes, h, roots, Place::Bytes);
        lemma_table_settled(h.bigs, h, roots, Place::Bigs);
        lemma_table_settled(h.lists, h, roots, Place::Lists);
        lemma_table_settled(h.dicts, h, roots, Place::Dicts);
        lemma_table_settled(h.records, h, roots, Place::Records);
        lemma_table_settled(h.types, h, roots, Place::Types);
        lemma_table_settled(h.cells, h, roots, Place::Cells);
        lemma_table_settled(h.callables, h, roots, Place::Callables);
        lemma_table_settled(h.foreigns, h, roots, Place::Foreigns);
    }
    assert(collected(after, roots) == after) by {
        reveal(collected);
        let left = swept(h, roots);
        assert(heap_bytes(left) == heap_bytes(after));
    }
    lemma_nothing_gone(after.foreigns, after.foreigns, after.foreigns.len());
}

/// A table that a collection went over is left alone by the next one.
proof fn lemma_table_settled<V>(slots: Seq<Option<V>>, h: HeapView, roots: Seq<Ref>, place: Place)
    ensures
        surviving(surviving(slots, h, roots, place), collected(h, roots), roots, place)
            == surviving(slots, h, roots, place),
{
    let once = surviving(slots, h, roots, place);
    let twice = surviving(once, collected(h, roots), roots, place);
    assert forall|i: int| 0 <= i < slots.len() implies #[trigger] twice[i] == once[i] by {
        let r = Ref { place, index: i as usize };
        if reachable(h, roots, r) {
            let n = choose|n: nat| reached(h, roots, r, n);
            lemma_reached_after(h, roots, r, n);
        }
    }
    assert(twice =~= once);
}

proof fn lemma_rootless(h: HeapView, r: Ref, steps: nat)
    ensures
        !reached(h, Seq::empty(), r, steps),
    decreases steps,
{
    if steps > 0 && reached(h, Seq::empty(), r, steps) {
        let p = lemma_parent(h, Seq::empty(), r, steps);
        lemma_rootless(h, p, (steps - 1) as nat);
    }
}

/// Without roots nothing survives: every object goes, whatever cycles there are, and every
/// finalizer is handed out.
pub proof fn law_nothing_survives_without_roots(h: HeapView, i: int)
    ensures
        at(collected(h, Seq::empty()).lists, i) is None,
        at(collected(h, Seq::empty()).dicts, i) is None,
        at(collected(h, Seq::empty()).records, i) is None,
        at(collected(h, Seq::empty()).cells, i) is None,
        at(collected(h, Seq::empty()).callables, i) is None,
        at(collected(h, Seq::empty()).foreigns, i) is None,
        orphaned(h, Seq::empty()) == all_finalizations(h),
{
    reveal(collected);
    reveal(orphaned);
    let none = Seq::<Ref>::empty();
    assert forall|r: Ref| !reachable(h, none, r) by {
        assert forall|n: nat| !reached(h, none, r, n) by {
            lemma_rootless(h, r, n);
        }
    }
    lemma_all_gone(
        h.foreigns,
        surviving(h.foreigns, h, none, Place::Foreigns),
        Seq::empty(),
        h.foreigns.len(),
    );
}

/// What is handed out depends only on what is gone.
proof fn lemma_all_gone(
    before: Seq<Option<ForeignObj>>,
    after: Seq<Option<ForeignObj>>,
    other: Seq<Option<ForeignObj>>,
    n: nat,
)
    requires
        forall|i: int| #[trigger] at(after, i) is None,
        forall|i: int| #[trigger] at(other, i) is None,
    ensures
        finalizations(before, after, n) == finalizations(before, other, n),
    decreases n,
{
    if n > 0 {
        lemma_all_gone(before, after, other, (n - 1) as nat);
    }
}

proof fn lemma_nothing_gone(
    before: Seq<Option<ForeignObj>>,
    after: Seq<Option<ForeignObj>>,
    n: nat,
)
    requires
        n <= before.len(),
        forall|i: int|
            0 <= i < before.len() && at(before, i) is Some ==> #[trigger] at(after, i) == at(
                before,
                i,
            ),
    ensures
        finalizations(before, after, n) == Seq::<Finalization>::empty(),
    decreases n,
{
    if n > 0 {
        lemma_nothing_gone(before, after, (n - 1) as nat);
    }
}

proof fn lemma_reached_after(h: HeapView, roots: Seq<Ref>, r: Ref, n: nat)
    requires
        reached(h, roots, r, n),
    ensures
        reached(collected(h, roots), roots, r, n),
    decreases n,
{
    reveal(collected);
    if n > 0 {
        let p = lemma_parent(h, roots, r, n);
        lemma_reached_after(h, roots, p, (n - 1) as nat);
        law_reachable_objects_survive(h, roots, p, r);
        lemma_step(collected(h, roots), roots, p, r, (n - 1) as nat);
    }
}

proof fn lemma_finalizations_split(
    before: Seq<Option<ForeignObj>>,
    after: Seq<Option<ForeignObj>>,
    n: nat,
)
    requires
        forall|i: int|
            #[trigger] at(after, i) is Some ==> at(after, i) == at(before, i),
    ensures
        finalizations(before, Seq::empty(), n).to_multiset() == finalizations(
            before,
            after,
            n,
        ).to_multiset().add(finalizations(after, Seq::empty(), n).to_multiset()),
    decreases n,
{
    broadcast use vstd::seq_lib::group_to_multiset_ensures;

    if n > 0 {
        lemma_finalizations_split(before, after, (n - 1) as nat);
        let m = (n - 1) as nat;
        let none = Seq::<Option<ForeignObj>>::empty();
        let (x, y, z) = (
            finalizations(before, none, m),
            finalizations(before, after, m),
            finalizations(after, none, m),
        );
        let (x2, y2, z2) = (
            finalizations(before, none, n),
            finalizations(before, after, n),
            finalizations(after, none, n),
        );
        assert(at(none, n - 1) is None);
        match at(before, n - 1) {
            Some(f) => match f.finalizer {
                Some(finalizer) => {
                    let e = Finalization { finalizer, ptr: f.ptr };
                    assert(x2 == x.push(e));
                    if at(after, n - 1) is Some {
                        assert(y2 == y && z2 == z.push(e));
                    } else {
                        assert(y2 == y.push(e) && z2 == z);
                    }
                },
                None => {},
            },
            None => {
                assert(at(after, n - 1) is None);
            },
        }
        assert(x2.to_multiset() =~= y2.to_multiset().add(z2.to_multiset()));
    } else {
        assert(Seq::<Finalization>::empty().to_multiset() =~= Seq::<
            Finalization,
        >::empty().to_multiset().add(Seq::<Finalization>::empty().to_multiset()));
    }
}

/// Every finalizer runs exactly once: those that a collection hands out and those of what it
/// leaves are together the finalizers there were.
pub proof fn law_every_finalizer_runs_exactly_once(h: HeapView, roots: Seq<Ref>)
    ensures
        all_finalizations(h).to_multiset() == orphaned(h, roots).to_multiset().add(
            all_finalizations(collected(h, roots)).to_multiset(),
        ),
{
    reveal(orphaned);
    reveal(collected);
    let after = surviving(h.foreigns, h, roots, Place::Foreigns);
    lemma_finalizations_split(h.foreigns, after, h.foreigns.len());
}

} // verus!
