//! The heap: one arena per kind of object. An object's index never changes; a collected
//! object leaves an empty slot, which reads like an index that was never handed out.
use crate::bignum::int_bytes;
use crate::bignum::lemma_int_bytes;
use crate::bignum::BigNum;
use crate::protocol::WellKnown;
use crate::span::ModuleId;
use crate::text::texts;
use crate::value::BigIdx;
use crate::value::BytesIdx;
use crate::value::CalIdx;
use crate::value::CellIdx;
use crate::value::DictIdx;
use crate::value::ForeignIdx;
use crate::value::ListIdx;
use crate::value::RecIdx;
use crate::value::StrIdx;
use crate::value::TypeIdx;
use crate::value::Value;
use vstd::prelude::*;

verus! {

/// A growing table of objects, some of whose slots may have been emptied.
pub struct Arena<T> {
    pub(crate) slots: Vec<Option<T>>,
}

/// The view of an optional object.
pub open spec fn slot_view<T: View>(slot: Option<T>) -> Option<T::V> {
    match slot {
        Some(t) => Some(t@),
        None => None,
    }
}

/// The object at an index, if the index was handed out and its slot is not empty.
pub open spec fn at<V>(slots: Seq<Option<V>>, i: int) -> Option<V> {
    if 0 <= i < slots.len() {
        slots[i]
    } else {
        None
    }
}

/// The table with the object at an index replaced, if there is one.
pub open spec fn replaced<V>(slots: Seq<Option<V>>, i: int, v: V) -> Seq<Option<V>> {
    if at(slots, i) is Some {
        slots.update(i, Some(v))
    } else {
        slots
    }
}

impl<T: View> View for Arena<T> {
    type V = Seq<Option<T::V>>;

    closed spec fn view(&self) -> Seq<Option<T::V>> {
        self.slots@.map_values(|slot: Option<T>| slot_view(slot))
    }
}

impl<T: View> Arena<T> {
    /// An empty table.
    pub fn new() -> (r: Self)
        ensures
            r@ == Seq::<Option<T::V>>::empty(),
    {
        let r = Arena { slots: Vec::new() };
        assert(r@ =~= Seq::<Option<T::V>>::empty());
        r
    }

    /// Appends an object; its index is the number of objects before it.
    pub fn push(&mut self, t: T) -> (i: usize)
        ensures
            i == old(self)@.len(),
            final(self)@ == old(self)@.push(Some(t@)),
    {
        let i: usize = self.slots.len();
        self.slots.push(Some(t));
        assert(self@ =~= old(self)@.push(Some(t@)));
        i
    }

    /// The object at an index.
    pub fn get(&self, i: usize) -> (r: Option<&T>)
        ensures
            (match r {
                Some(t) => at(self@, i as int) == Some(t@),
                None => at(self@, i as int) is None,
            }),
    {
        if i < self.slots.len() {
            self.slots[i].as_ref()
        } else {
            None
        }
    }

    /// Takes the object at an index out of the table, leaving its slot empty.
    pub fn take(&mut self, i: usize) -> (r: Option<T>)
        ensures
            slot_view(r) == at(old(self)@, i as int),
            final(self)@ == (if i < old(self)@.len() {
                old(self)@.update(i as int, None)
            } else {
                old(self)@
            }),
    {
        if i < self.slots.len() {
            self.slots.push(None);
            let r = self.slots.swap_remove(i);
            assert(self@ =~= old(self)@.update(i as int, None));
            r
        } else {
            None
        }
    }

    /// Fills a slot.
    pub fn put(&mut self, i: usize, t: T)
        requires
            i < old(self)@.len(),
        ensures
            final(self)@ == old(self)@.update(i as int, Some(t@)),
    {
        self.slots.set(i, Some(t));
        assert(self@ =~= old(self)@.update(i as int, Some(t@)));
    }

    /// The number of slots.
    pub fn len(&self) -> (r: usize)
        ensures
            r == self@.len(),
    {
        self.slots.len()
    }
}

/// How a binding cell may be assigned.
#[derive(Clone, Copy, PartialEq, Eq, Debug, Structural)]
pub enum CellKind {
    /// An assignable variable.
    Let,
    /// A constant.
    Const,
    /// A dynamic parameter, rebindable for an extent.
    Parameter,
    /// The dispatcher of a protocol member.
    Dispatcher(u32),
}

/// A binding cell.
#[derive(Clone, Copy, PartialEq, Eq, Debug, Structural)]
pub struct CellObj {
    /// How it may be assigned.
    pub kind: CellKind,
    /// Its value, once its declaration has run.
    pub value: Option<Value>,
}

impl View for CellObj {
    type V = CellObj;

    open spec fn view(&self) -> CellObj {
        *self
    }
}

/// The built-in types.
#[derive(Clone, Copy, PartialEq, Eq, Debug, Structural)]
pub enum BuiltinType {
    /// `Nil`.
    Nil,
    /// `Bool`.
    Bool,
    /// `Int`.
    Int,
    /// `Float`.
    Float,
    /// `Number`.
    Number,
    /// `String`.
    String,
    /// `Bytes`.
    Bytes,
    /// `List`.
    List,
    /// `Dict`.
    Dict,
    /// `Callable`.
    Callable,
    /// `Module`.
    Module,
    /// `Type`.
    Type,
    /// `Foreign`.
    Foreign,
}

/// A record type's schema.
#[derive(Debug)]
pub struct RecordType {
    /// The declared name.
    pub name: String,
    /// The field names, in declaration order.
    pub fields: Vec<String>,
    /// Whether instances are shared rather than copied on binding.
    pub is_ref: bool,
}

/// What a type value stands for.
#[derive(Debug)]
pub enum TypeKind {
    /// A built-in type.
    Builtin(BuiltinType),
    /// A record type.
    Record(RecordType),
    /// A protocol, by name.
    Protocol(String),
}

/// The contents of a record type's schema.
pub struct SchemaView {
    /// The declared name.
    pub name: Seq<char>,
    /// The field names, in declaration order.
    pub fields: Seq<Seq<char>>,
    /// Whether instances are shared rather than copied on binding.
    pub is_ref: bool,
}

/// What a type value stands for, as mathematics sees it.
pub enum TypeView {
    /// A built-in type.
    Builtin(BuiltinType),
    /// A record type.
    Record(SchemaView),
    /// A protocol, by name.
    Protocol(Seq<char>),
}

impl View for RecordType {
    type V = SchemaView;

    open spec fn view(&self) -> SchemaView {
        SchemaView { name: self.name@, fields: texts(self.fields@), is_ref: self.is_ref }
    }
}

impl View for TypeKind {
    type V = TypeView;

    open spec fn view(&self) -> TypeView {
        match self {
            TypeKind::Builtin(b) => TypeView::Builtin(*b),
            TypeKind::Record(rt) => TypeView::Record(rt@),
            TypeKind::Protocol(name) => TypeView::Protocol(name@),
        }
    }
}

/// What a callable runs.
#[derive(Clone, Copy, PartialEq, Eq, Debug, Structural)]
pub enum CallableTarget {
    /// A `to`/`fn` of its module, by index.
    Source(u32),
    /// A host-registered function, by index.
    Intrinsic(u32),
    /// A protocol's member, dispatched on its first argument.
    Dispatcher(WellKnown),
}

/// A callable value.
#[derive(Debug)]
pub struct CalObj {
    /// The module it was defined in.
    pub module: ModuleId,
    /// What it runs.
    pub target: CallableTarget,
    /// The cells it captured.
    pub captures: Vec<CellIdx>,
}

/// The contents of a callable.
pub struct CalView {
    /// The module it was defined in.
    pub module: ModuleId,
    /// What it runs.
    pub target: CallableTarget,
    /// The cells it captured.
    pub captures: Seq<CellIdx>,
}

impl View for CalObj {
    type V = CalView;

    open spec fn view(&self) -> CalView {
        CalView { module: self.module, target: self.target, captures: self.captures@ }
    }
}

/// An opaque host object: a type tag, a host token, and the id of what to run when the
/// object dies.
#[derive(Clone, Copy, PartialEq, Eq, Debug, Structural)]
pub struct ForeignObj {
    /// The host's type tag.
    pub tag: u64,
    /// The host's token.
    pub ptr: u64,
    /// The finalizer the host will be asked to run.
    pub finalizer: Option<u64>,
}

impl View for ForeignObj {
    type V = ForeignObj;

    open spec fn view(&self) -> ForeignObj {
        *self
    }
}

/// A dict: its entries in insertion order, each with the hash its key was stored under.
pub struct DictObj {
    /// The keys and values.
    pub entries: Vec<(Value, Value)>,
    /// The hash of each key.
    pub hashes: Vec<u64>,
}

/// The contents of a dict.
pub struct DictView {
    /// The keys and values, in insertion order.
    pub entries: Seq<(Value, Value)>,
    /// The hash of each key.
    pub hashes: Seq<u64>,
}

impl View for DictObj {
    type V = DictView;

    open spec fn view(&self) -> DictView {
        DictView { entries: self.entries@, hashes: self.hashes@ }
    }
}

/// A record: its type and its field values in declaration order.
pub struct RecordObj {
    /// The type.
    pub type_idx: TypeIdx,
    /// The field values.
    pub fields: Vec<Value>,
}

/// The contents of a record.
pub struct RecordView {
    /// The type.
    pub type_idx: TypeIdx,
    /// The field values.
    pub fields: Seq<Value>,
}

impl View for RecordObj {
    type V = RecordView;

    open spec fn view(&self) -> RecordView {
        RecordView { type_idx: self.type_idx, fields: self.fields@ }
    }
}

/// The accounted bytes of an object besides its elements.
pub const OBJECT_BYTES: u64 = 32;

/// The accounted bytes of one stored value.
pub const VALUE_BYTES: u64 = 16;

/// The accounted bytes after charging `n` elements of `each` bytes for a new object.
pub open spec fn charged(bytes: u64, n: int, each: int) -> u64 {
    if bytes + OBJECT_BYTES + n * each > u64::MAX {
        u64::MAX
    } else {
        (bytes + OBJECT_BYTES + n * each) as u64
    }
}

/// The contents of the heap.
pub struct HeapView {
    /// The strings.
    pub strings: Seq<Option<Seq<char>>>,
    /// The byte strings.
    pub bytes: Seq<Option<Seq<u8>>>,
    /// The big integers.
    pub bigs: Seq<Option<int>>,
    /// The lists.
    pub lists: Seq<Option<Seq<Value>>>,
    /// The dicts.
    pub dicts: Seq<Option<DictView>>,
    /// The records.
    pub records: Seq<Option<RecordView>>,
    /// The types.
    pub types: Seq<Option<TypeView>>,
    /// The binding cells.
    pub cells: Seq<Option<CellObj>>,
    /// The callables.
    pub callables: Seq<Option<CalView>>,
    /// The foreign values.
    pub foreigns: Seq<Option<ForeignObj>>,
    /// The accounted bytes.
    pub allocated: u64,
}

impl HeapView {
    /// A string's text.
    pub open spec fn text(self, i: StrIdx) -> Seq<char> {
        match at(self.strings, i.0 as int) {
            Some(s) => s,
            None => Seq::empty(),
        }
    }

    /// A byte string's bytes.
    pub open spec fn bytes_of(self, i: BytesIdx) -> Seq<u8> {
        match at(self.bytes, i.0 as int) {
            Some(s) => s,
            None => Seq::empty(),
        }
    }

    /// A big integer's value.
    pub open spec fn big(self, i: BigIdx) -> int {
        match at(self.bigs, i.0 as int) {
            Some(n) => n,
            None => 0,
        }
    }

    /// A list's items.
    pub open spec fn items(self, i: ListIdx) -> Seq<Value> {
        match at(self.lists, i.0 as int) {
            Some(s) => s,
            None => Seq::empty(),
        }
    }

    /// A dict's contents.
    pub open spec fn dict(self, i: DictIdx) -> DictView {
        match at(self.dicts, i.0 as int) {
            Some(d) => d,
            None => DictView { entries: Seq::empty(), hashes: Seq::empty() },
        }
    }

    /// A record's contents.
    pub open spec fn record(self, i: RecIdx) -> Option<RecordView> {
        at(self.records, i.0 as int)
    }

    /// What a type stands for.
    pub open spec fn type_kind(self, i: TypeIdx) -> Option<TypeView> {
        at(self.types, i.0 as int)
    }

    /// A record type's schema.
    pub open spec fn schema(self, i: TypeIdx) -> Option<SchemaView> {
        match at(self.types, i.0 as int) {
            Some(TypeView::Record(rt)) => Some(rt),
            _ => None,
        }
    }

    /// A cell's contents.
    pub open spec fn cell(self, i: CellIdx) -> Option<CellObj> {
        at(self.cells, i.0 as int)
    }

    /// The value bound in a cell.
    pub open spec fn cell_value(self, i: CellIdx) -> Option<Value> {
        match at(self.cells, i.0 as int) {
            Some(c) => c.value,
            None => None,
        }
    }

    /// A callable.
    pub open spec fn callable(self, i: CalIdx) -> Option<CalView> {
        at(self.callables, i.0 as int)
    }

    /// A foreign value.
    pub open spec fn foreign(self, i: ForeignIdx) -> Option<ForeignObj> {
        at(self.foreigns, i.0 as int)
    }

    /// The heap with a value bound in a cell.
    pub open spec fn with_cell(self, i: CellIdx, value: Option<Value>) -> HeapView {
        match at(self.cells, i.0 as int) {
            Some(c) => HeapView {
                cells: self.cells.update(i.0 as int, Some(CellObj { kind: c.kind, value })),
                ..self
            },
            None => self,
        }
    }

    /// The heap with a new cell.
    pub open spec fn new_cell(self, kind: CellKind, value: Option<Value>) -> HeapView {
        HeapView {
            cells: self.cells.push(Some(CellObj { kind, value })),
            allocated: charged(self.allocated, 1, VALUE_BYTES as int),
            ..self
        }
    }

    /// The heap with a new string.
    pub open spec fn new_string(self, text: Seq<char>) -> HeapView {
        HeapView {
            strings: self.strings.push(Some(text)),
            allocated: charged(
                self.allocated,
                vstd::utf8::encode_utf8(text).len() as int,
                1,
            ),
            ..self
        }
    }

    /// The heap with a new byte string.
    pub open spec fn new_bytes(self, bytes: Seq<u8>) -> HeapView {
        HeapView {
            bytes: self.bytes.push(Some(bytes)),
            allocated: charged(self.allocated, bytes.len() as int, 1),
            ..self
        }
    }

    /// The heap with a new big integer.
    pub open spec fn new_big(self, n: int) -> HeapView {
        HeapView {
            bigs: self.bigs.push(Some(n)),
            allocated: charged(self.allocated, int_bytes(n).len() as int, 1),
            ..self
        }
    }

    /// The heap with a new list.
    pub open spec fn new_list(self, items: Seq<Value>) -> HeapView {
        HeapView {
            lists: self.lists.push(Some(items)),
            allocated: charged(self.allocated, items.len() as int, VALUE_BYTES as int),
            ..self
        }
    }

    /// The heap with a new empty dict.
    pub open spec fn new_dict(self) -> HeapView {
        HeapView {
            dicts: self.dicts.push(
                Some(DictView { entries: Seq::empty(), hashes: Seq::empty() }),
            ),
            allocated: charged(self.allocated, 0, 0),
            ..self
        }
    }

    /// The heap with a new record.
    pub open spec fn new_record(self, type_idx: TypeIdx, fields: Seq<Value>) -> HeapView {
        HeapView {
            records: self.records.push(Some(RecordView { type_idx, fields })),
            allocated: charged(self.allocated, fields.len() as int, VALUE_BYTES as int),
            ..self
        }
    }

    /// The heap with a new type.
    pub open spec fn new_type(self, kind: TypeView) -> HeapView {
        HeapView {
            types: self.types.push(Some(kind)),
            allocated: charged(self.allocated, 0, 0),
            ..self
        }
    }

    /// The heap with a new callable.
    pub open spec fn new_callable(self, cal: CalView) -> HeapView {
        HeapView {
            callables: self.callables.push(Some(cal)),
            allocated: charged(self.allocated, cal.captures.len() as int, VALUE_BYTES as int),
            ..self
        }
    }

    /// The heap with a new foreign value.
    pub open spec fn new_foreign(self, obj: ForeignObj) -> HeapView {
        HeapView {
            foreigns: self.foreigns.push(Some(obj)),
            allocated: charged(self.allocated, 1, VALUE_BYTES as int),
            ..self
        }
    }
}

/// The heap.
pub struct Heap {
    pub(crate) strings: Arena<String>,
    pub(crate) bytes: Arena<Vec<u8>>,
    pub(crate) bigs: Arena<BigNum>,
    pub(crate) lists: Arena<Vec<Value>>,
    pub(crate) dicts: Arena<DictObj>,
    pub(crate) records: Arena<RecordObj>,
    pub(crate) types: Arena<TypeKind>,
    pub(crate) cells: Arena<CellObj>,
    pub(crate) callables: Arena<CalObj>,
    pub(crate) foreigns: Arena<ForeignObj>,
    pub(crate) allocated: u64,
}

impl View for Heap {
    type V = HeapView;

    closed spec fn view(&self) -> HeapView {
        HeapView {
            strings: self.strings@,
            bytes: self.bytes@,
            bigs: self.bigs@,
            lists: self.lists@,
            dicts: self.dicts@,
            records: self.records@,
            types: self.types@,
            cells: self.cells@,
            callables: self.callables@,
            foreigns: self.foreigns@,
            allocated: self.allocated,
        }
    }
}

/// The contents of the heap are those of its tables.
pub(crate) proof fn lemma_tables(heap: &Heap)
    ensures
        heap@ == (HeapView {
            strings: heap.strings@,
            bytes: heap.bytes@,
            bigs: heap.bigs@,
            lists: heap.lists@,
            dicts: heap.dicts@,
            records: heap.records@,
            types: heap.types@,
            cells: heap.cells@,
            callables: heap.callables@,
            foreigns: heap.foreigns@,
            allocated: heap.allocated,
        }),
{
}

/// A table has as many slots as an index can number.
pub(crate) proof fn lemma_table_length<T: View>(table: &Arena<T>)
    ensures
        table@.len() <= usize::MAX,
{
    assert(table.slots.len() <= usize::MAX);
}

impl Heap {
    /// An empty heap.
    pub fn new() -> (r: Heap)
        ensures
            r@ == (HeapView {
                strings: Seq::empty(),
                bytes: Seq::empty(),
                bigs: Seq::empty(),
                lists: Seq::empty(),
                dicts: Seq::empty(),
                records: Seq::empty(),
                types: Seq::empty(),
                cells: Seq::empty(),
                callables: Seq::empty(),
                foreigns: Seq::empty(),
                allocated: 0,
            }),
    {
        Heap {
            strings: Arena::new(),
            bytes: Arena::new(),
            bigs: Arena::new(),
            lists: Arena::new(),
            dicts: Arena::new(),
            records: Arena::new(),
            types: Arena::new(),
            cells: Arena::new(),
            callables: Arena::new(),
            foreigns: Arena::new(),
            allocated: 0,
        }
    }

    /// The accounted bytes.
    pub fn bytes_allocated(&self) -> (r: u64)
        ensures
            r == self@.allocated,
    {
        self.allocated
    }

    /// The number of records ever allocated.
    pub fn record_count(&self) -> (r: usize)
        ensures
            r == self@.records.len(),
    {
        self.records.len()
    }

    fn charge(&mut self, n: usize, each: u64)
        ensures
            final(self)@ == (HeapView {
                allocated: charged(old(self)@.allocated, n as int, each as int),
                ..old(self)@
            }),
    {
        let size: u64 = match (n as u64).checked_mul(each) {
            Some(size) => size,
            None => u64::MAX,
        };
        proof {
            assert(0 <= n * each) by (nonlinear_arith)
                requires
                    0 <= n,
                    0 <= each,
            ;
        }
        self.allocated = self.allocated.saturating_add(OBJECT_BYTES).saturating_add(size);
    }

    /// Allocates a string.
    pub fn alloc_string(&mut self, text: String) -> (r: StrIdx)
        ensures
            r.0 == old(self)@.strings.len(),
            final(self)@ == old(self)@.new_string(text@),
    {
        let n: usize = text.as_str().as_bytes().len();
        self.charge(n, 1);
        StrIdx(self.strings.push(text))
    }

    /// Allocates a byte string.
    pub fn alloc_bytes(&mut self, bytes: Vec<u8>) -> (r: BytesIdx)
        ensures
            r.0 == old(self)@.bytes.len(),
            final(self)@ == old(self)@.new_bytes(bytes@),
    {
        self.charge(bytes.len(), 1);
        BytesIdx(self.bytes.push(bytes))
    }

    /// Allocates a big integer.
    pub fn alloc_bigint(&mut self, n: BigNum) -> (r: BigIdx)
        requires
            n.wf(),
        ensures
            r.0 == old(self)@.bigs.len(),
            final(self)@ == old(self)@.new_big(n@),
    {
        proof {
            lemma_int_bytes(n);
        }
        self.charge(n.bytes.len(), 1);
        BigIdx(self.bigs.push(n))
    }

    /// Allocates a list.
    pub fn alloc_list(&mut self, items: Vec<Value>) -> (r: ListIdx)
        ensures
            r.0 == old(self)@.lists.len(),
            final(self)@ == old(self)@.new_list(items@),
    {
        self.charge(items.len(), VALUE_BYTES);
        ListIdx(self.lists.push(items))
    }

    /// Allocates an empty dict.
    pub fn alloc_dict(&mut self) -> (r: DictIdx)
        ensures
            r.0 == old(self)@.dicts.len(),
            final(self)@ == old(self)@.new_dict(),
    {
        self.charge(0, 0);
        let d = DictObj { entries: Vec::new(), hashes: Vec::new() };
        assert(d@.entries =~= Seq::empty() && d@.hashes =~= Seq::empty());
        DictIdx(self.dicts.push(d))
    }

    /// Allocates a record.
    pub fn alloc_record(&mut self, type_idx: TypeIdx, fields: Vec<Value>) -> (r: RecIdx)
        ensures
            r.0 == old(self)@.records.len(),
            final(self)@ == old(self)@.new_record(type_idx, fields@),
    {
        self.charge(fields.len(), VALUE_BYTES);
        RecIdx(self.records.push(RecordObj { type_idx, fields }))
    }

    /// Allocates a type.
    pub fn alloc_type(&mut self, kind: TypeKind) -> (r: TypeIdx)
        ensures
            r.0 == old(self)@.types.len(),
            final(self)@ == old(self)@.new_type(kind@),
    {
        self.charge(0, 0);
        TypeIdx(self.types.push(kind))
    }

    /// Allocates a binding cell.
    pub fn alloc_cell(&mut self, kind: CellKind, value: Option<Value>) -> (r: CellIdx)
        ensures
            r.0 == old(self)@.cells.len(),
            final(self)@ == old(self)@.new_cell(kind, value),
    {
        self.charge(1, VALUE_BYTES);
        CellIdx(self.cells.push(CellObj { kind, value }))
    }

    /// Allocates a callable.
    pub fn alloc_callable(&mut self, cal: CalObj) -> (r: CalIdx)
        ensures
            r.0 == old(self)@.callables.len(),
            final(self)@ == old(self)@.new_callable(cal@),
    {
        self.charge(cal.captures.len(), VALUE_BYTES);
        CalIdx(self.callables.push(cal))
    }

    /// Allocates a foreign value.
    pub fn alloc_foreign(&mut self, tag: u64, ptr: u64, finalizer: Option<u64>) -> (r: ForeignIdx)
        ensures
            r.0 == old(self)@.foreigns.len(),
            final(self)@ == old(self)@.new_foreign(ForeignObj { tag, ptr, finalizer }),
    {
        self.charge(1, VALUE_BYTES);
        ForeignIdx(self.foreigns.push(ForeignObj { tag, ptr, finalizer }))
    }

    /// A string's text.
    pub fn string(&self, i: StrIdx) -> (r: &str)
        ensures
            r@ == self@.text(i),
    {
        match self.strings.get(i.0) {
            Some(s) => s.as_str(),
            None => {
                proof {
                    reveal_strlit("");
                    assert(""@ =~= Seq::<char>::empty());
                }
                ""
            },
        }
    }

    /// A byte string.
    pub fn byte_string(&self, i: BytesIdx) -> (r: Option<&Vec<u8>>)
        ensures
            r is Some ==> r->0@ == self@.bytes_of(i),
            r is None ==> self@.bytes_of(i) == Seq::<u8>::empty(),
            r is Some <==> at(self@.bytes, i.0 as int) is Some,
    {
        self.bytes.get(i.0)
    }

    /// A big integer.
    pub fn bigint(&self, i: BigIdx) -> (r: BigNum)
        ensures
            r@ == self@.big(i),
            r.wf(),
    {
        match self.bigs.get(i.0) {
            Some(n) => n.copy(),
            None => BigNum::from_i64(0),
        }
    }

    /// A list.
    pub fn list(&self, i: ListIdx) -> (r: Option<&Vec<Value>>)
        ensures
            r is Some ==> r->0@ == self@.items(i),
            r is None ==> self@.items(i) == Seq::<Value>::empty(),
            r is Some <==> at(self@.lists, i.0 as int) is Some,
    {
        self.lists.get(i.0)
    }

    /// A dict.
    pub fn dict(&self, i: DictIdx) -> (r: Option<&DictObj>)
        ensures
            r is Some ==> r->0@ == self@.dict(i),
            r is None ==> self@.dict(i).entries == Seq::<(Value, Value)>::empty()
                && self@.dict(i).hashes == Seq::<u64>::empty(),
            r is Some <==> at(self@.dicts, i.0 as int) is Some,
    {
        self.dicts.get(i.0)
    }

    /// A record.
    pub fn record(&self, i: RecIdx) -> (r: Option<&RecordObj>)
        ensures
            (match r {
                Some(rec) => self@.record(i) == Some(rec@),
                None => self@.record(i) is None,
            }),
    {
        self.records.get(i.0)
    }

    /// What a type stands for.
    pub fn type_value(&self, i: TypeIdx) -> (r: Option<&TypeKind>)
        ensures
            (match r {
                Some(t) => self@.type_kind(i) == Some(t@),
                None => self@.type_kind(i) is None,
            }),
    {
        self.types.get(i.0)
    }

    /// A binding cell.
    pub fn cell(&self, i: CellIdx) -> (r: Option<CellObj>)
        ensures
            r == self@.cell(i),
    {
        match self.cells.get(i.0) {
            Some(c) => Some(*c),
            None => None,
        }
    }

    /// The value bound in a cell.
    pub fn cell_value(&self, i: CellIdx) -> (r: Option<Value>)
        ensures
            r == self@.cell_value(i),
    {
        match self.cells.get(i.0) {
            Some(c) => c.value,
            None => None,
        }
    }

    /// A callable.
    pub fn callable(&self, i: CalIdx) -> (r: Option<&CalObj>)
        ensures
            (match r {
                Some(c) => self@.callable(i) == Some(c@),
                None => self@.callable(i) is None,
            }),
    {
        self.callables.get(i.0)
    }

    /// A foreign value.
    pub fn foreign(&self, i: ForeignIdx) -> (r: Option<ForeignObj>)
        ensures
            r == self@.foreign(i),
    {
        match self.foreigns.get(i.0) {
            Some(f) => Some(*f),
            None => None,
        }
    }

    /// Appends to a list.
    pub fn list_push(&mut self, i: ListIdx, value: Value)
        ensures
            final(self)@ == (HeapView {
                lists: replaced(old(self)@.lists, i.0 as int, old(self)@.items(i).push(value)),
                ..old(self)@
            }),
    {
        match self.lists.take(i.0) {
            Some(items) => {
                let mut items = items;
                items.push(value);
                self.lists.put(i.0, items);
                assert(self.lists@ =~= replaced(
                    old(self)@.lists,
                    i.0 as int,
                    old(self)@.items(i).push(value),
                ));
            },
            None => {
                assert(self.lists@ =~= old(self)@.lists);
            },
        }
    }

    /// Sets a record's field; a position the record does not have is left alone.
    pub fn record_set_field(&mut self, i: RecIdx, pos: usize, value: Value)
        ensures
            final(self)@ == (match old(self)@.record(i) {
                Some(rec) if pos < rec.fields.len() => HeapView {
                    records: old(self)@.records.update(
                        i.0 as int,
                        Some(
                            RecordView {
                                type_idx: rec.type_idx,
                                fields: rec.fields.update(pos as int, value),
                            },
                        ),
                    ),
                    ..old(self)@
                },
                _ => old(self)@,
            }),
    {
        match self.records.take(i.0) {
            Some(rec) => {
                let mut rec = rec;
                if pos < rec.fields.len() {
                    rec.fields.set(pos, value);
                }
                self.records.put(i.0, rec);
                proof {
                    let before = old(self)@.record(i)->0;
                    if pos as int >= before.fields.len() {
                        assert(self.records@ =~= old(self)@.records);
                    } else {
                        let after = RecordView {
                            type_idx: before.type_idx,
                            fields: before.fields.update(pos as int, value),
                        };
                        assert(self.records@ =~= old(self)@.records.update(
                            i.0 as int,
                            Some(after),
                        ));
                    }
                }
            },
            None => {
                assert(self.records@ =~= old(self)@.records);
            },
        }
    }

    /// Overwrites the value of a dict's entry, keeping its key.
    pub fn dict_set_value(&mut self, i: DictIdx, pos: usize, value: Value)
        requires
            pos < old(self)@.dict(i).entries.len(),
        ensures
            final(self)@ == (HeapView {
                dicts: replaced(
                    old(self)@.dicts,
                    i.0 as int,
                    DictView {
                        entries: old(self)@.dict(i).entries.update(
                            pos as int,
                            (old(self)@.dict(i).entries[pos as int].0, value),
                        ),
                        hashes: old(self)@.dict(i).hashes,
                    },
                ),
                ..old(self)@
            }),
    {
        match self.dicts.take(i.0) {
            Some(d) => {
                let mut d = d;
                let key = d.entries[pos].0;
                d.entries.set(pos, (key, value));
                self.dicts.put(i.0, d);
                assert(self.dicts@ =~= replaced(
                    old(self)@.dicts,
                    i.0 as int,
                    DictView {
                        entries: old(self)@.dict(i).entries.update(
                            pos as int,
                            (old(self)@.dict(i).entries[pos as int].0, value),
                        ),
                        hashes: old(self)@.dict(i).hashes,
                    },
                ));
            },
            None => {},
        }
    }

    /// Appends an entry to a dict.
    pub fn dict_push_entry(&mut self, i: DictIdx, key: Value, value: Value, hash: u64)
        ensures
            final(self)@ == (HeapView {
                dicts: replaced(
                    old(self)@.dicts,
                    i.0 as int,
                    DictView {
                        entries: old(self)@.dict(i).entries.push((key, value)),
                        hashes: old(self)@.dict(i).hashes.push(hash),
                    },
                ),
                ..old(self)@
            }),
    {
        match self.dicts.take(i.0) {
            Some(d) => {
                let mut d = d;
                d.entries.push((key, value));
                d.hashes.push(hash);
                self.dicts.put(i.0, d);
                assert(self.dicts@ =~= replaced(
                    old(self)@.dicts,
                    i.0 as int,
                    DictView {
                        entries: old(self)@.dict(i).entries.push((key, value)),
                        hashes: old(self)@.dict(i).hashes.push(hash),
                    },
                ));
            },
            None => {
                assert(self.dicts@ =~= old(self)@.dicts);
            },
        }
    }

    /// Binds a value in a cell.
    pub fn set_cell(&mut self, i: CellIdx, value: Option<Value>)
        ensures
            final(self)@ == old(self)@.with_cell(i, value),
    {
        match self.cells.take(i.0) {
            Some(c) => {
                self.cells.put(i.0, CellObj { kind: c.kind, value });
                assert(self.cells@ =~= old(self)@.cells.update(
                    i.0 as int,
                    Some(CellObj { kind: c.kind, value }),
                ));
            },
            None => {
                assert(self.cells@ =~= old(self)@.cells);
            },
        }
    }
}

} // verus!
