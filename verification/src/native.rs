//! Native modules: what a host offers as an importable module, and how its members become
//! bindings.
use crate::ast::Ast;
use crate::ast::Node;
use crate::ast::NodeId;
use crate::heap::CalObj;
use crate::heap::CalView;
use crate::heap::CallableTarget;
use crate::heap::CellKind;
use crate::heap::ForeignObj;
use crate::heap::Heap;
use crate::heap::HeapView;
use crate::heap::RecordType;
use crate::heap::SchemaView;
use crate::heap::TypeKind;
use crate::heap::TypeView;
use crate::intrinsic::intrinsics_view;
use crate::intrinsic::Intrinsic;
use crate::intrinsic::IntrinsicView;
use crate::named::named_view;
use crate::resolve::GlobalDecl;
use crate::resolve::GlobalKind;
use crate::resolve::ResolvedModule;
use crate::span::ModuleId;
use crate::span::Span;
use crate::text::texts;
use crate::value::BytesIdx;
use crate::value::CalIdx;
use crate::value::CellIdx;
use crate::value::ForeignIdx;
use crate::value::StrIdx;
use crate::value::TypeIdx;
use crate::value::Value;
use vstd::prelude::*;

verus! {

/// A constant that a host declares before there is a heap: none of these can be changed
/// once made.
#[derive(Debug)]
pub enum ConstValue {
    /// An integer.
    Int(i64),
    /// A float, by its bit pattern.
    Float(u64),
    /// A boolean.
    Bool(bool),
    /// `nil`.
    Nil,
    /// A string in canonical composition.
    Str(String),
    /// A byte string.
    Bytes(Vec<u8>),
}

/// A constant, as mathematics sees it.
pub enum ConstView {
    /// An integer.
    Int(i64),
    /// A float, by its bit pattern.
    Float(u64),
    /// A boolean.
    Bool(bool),
    /// `nil`.
    Nil,
    /// A string.
    Str(Seq<char>),
    /// A byte string.
    Bytes(Seq<u8>),
}

/// A constant, as mathematics sees it.
pub open spec fn const_view(c: ConstValue) -> ConstView {
    match c {
        ConstValue::Int(n) => ConstView::Int(n),
        ConstValue::Float(x) => ConstView::Float(x),
        ConstValue::Bool(b) => ConstView::Bool(b),
        ConstValue::Nil => ConstView::Nil,
        ConstValue::Str(s) => ConstView::Str(s@),
        ConstValue::Bytes(b) => ConstView::Bytes(b@),
    }
}

/// The heap and the value of a constant made a value.
pub open spec fn const_made(h: HeapView, c: ConstView) -> (HeapView, Value) {
    match c {
        ConstView::Int(n) => (h, Value::Int(n)),
        ConstView::Float(x) => (h, Value::Float(x)),
        ConstView::Bool(b) => (h, Value::Bool(b)),
        ConstView::Nil => (h, Value::Nil),
        ConstView::Str(s) => (h.new_string(s), Value::Str(StrIdx(h.strings.len() as usize))),
        ConstView::Bytes(b) => (h.new_bytes(b), Value::Bytes(BytesIdx(h.bytes.len() as usize))),
    }
}

/// Makes a constant a value.
pub fn materialize_const(value: &ConstValue, heap: &mut Heap) -> (r: Value)
    ensures
        (final(heap)@, r) == const_made(old(heap)@, const_view(*value)),
{
    match value {
        ConstValue::Int(n) => Value::Int(*n),
        ConstValue::Float(x) => Value::Float(*x),
        ConstValue::Bool(b) => Value::Bool(*b),
        ConstValue::Nil => Value::Nil,
        ConstValue::Str(s) => Value::Str(heap.alloc_string(s.as_str().to_owned())),
        ConstValue::Bytes(b) => {
            let mut copy: Vec<u8> = Vec::new();
            let mut i: usize = 0;
            while i < b.len()
                invariant
                    i <= b@.len(),
                    copy@ =~= b@.take(i as int),
                decreases b@.len() - i,
            {
                copy.push(b[i]);
                i = i + 1;
            }
            assert(copy@ =~= b@);
            Value::Bytes(heap.alloc_bytes(copy))
        },
    }
}

/// A member of a native module.
pub enum NativeMember {
    /// A function.
    Function(Intrinsic),
    /// A constant.
    Const(ConstValue),
    /// An opaque host object.
    Foreign {
        /// The host's type tag.
        tag: u64,
        /// The host's token.
        ptr: u64,
        /// The finalizer the host will be asked to run.
        finalizer: Option<u64>,
    },
    /// A record type, named as the member is.
    Record {
        /// The field names, in declaration order.
        fields: Vec<String>,
        /// Whether instances are shared rather than copied on binding.
        is_ref: bool,
    },
}

/// A member of a native module, as mathematics sees it.
pub enum MemberView {
    /// A function.
    Function(IntrinsicView),
    /// A constant.
    Const(ConstView),
    /// An opaque host object.
    Foreign(ForeignObj),
    /// A record type.
    Record {
        /// The field names.
        fields: Seq<Seq<char>>,
        /// Whether instances are shared.
        is_ref: bool,
    },
}

impl View for NativeMember {
    type V = MemberView;

    open spec fn view(&self) -> MemberView {
        match self {
            NativeMember::Function(i) => MemberView::Function(i@),
            NativeMember::Const(c) => MemberView::Const(const_view(*c)),
            NativeMember::Foreign { tag, ptr, finalizer } => MemberView::Foreign(
                ForeignObj { tag: *tag, ptr: *ptr, finalizer: *finalizer },
            ),
            NativeMember::Record { fields, is_ref } => MemberView::Record {
                fields: texts(fields@),
                is_ref: *is_ref,
            },
        }
    }
}

/// A native module: its name and its members, in registration order.
pub struct NativeModule {
    /// The name it is imported under.
    pub name: String,
    /// The members.
    pub members: Vec<(String, NativeMember)>,
}

/// A native module, as mathematics sees it.
pub struct NativeModuleView {
    /// The name it is imported under.
    pub name: Seq<char>,
    /// The members.
    pub members: Seq<(Seq<char>, MemberView)>,
}

/// The contents of some members.
pub open spec fn members_view(members: Seq<(String, NativeMember)>) -> Seq<
    (Seq<char>, MemberView),
> {
    members.map_values(|e: (String, NativeMember)| (e.0@, e.1@))
}

impl View for NativeModule {
    type V = NativeModuleView;

    open spec fn view(&self) -> NativeModuleView {
        NativeModuleView { name: self.name@, members: members_view(self.members@) }
    }
}

impl NativeModuleView {
    /// The module with a further member.
    pub open spec fn with(self, name: Seq<char>, member: MemberView) -> NativeModuleView {
        NativeModuleView { members: self.members.push((name, member)), ..self }
    }
}

impl NativeModule {
    /// A module without members.
    pub fn new(name: &str) -> (r: NativeModule)
        ensures
            r@ == (NativeModuleView { name: name@, members: Seq::empty() }),
    {
        let r = NativeModule { name: name.to_owned(), members: Vec::new() };
        assert(r@.members =~= Seq::<(Seq<char>, MemberView)>::empty());
        r
    }

    fn with(self, name: &str, member: NativeMember) -> (r: NativeModule)
        ensures
            r@ == self@.with(name@, member@),
    {
        let mut members = self.members;
        members.push((name.to_owned(), member));
        let r = NativeModule { name: self.name, members };
        assert(r@.members =~= self@.members.push((name@, member@)));
        r
    }

    /// Adds a function.
    pub fn function(self, name: &str, function: Intrinsic) -> (r: NativeModule)
        ensures
            r@ == self@.with(name@, MemberView::Function(function@)),
    {
        self.with(name, NativeMember::Function(function))
    }

    /// Adds a constant.
    pub fn constant(self, name: &str, value: ConstValue) -> (r: NativeModule)
        ensures
            r@ == self@.with(name@, MemberView::Const(const_view(value))),
    {
        self.with(name, NativeMember::Const(value))
    }

    /// Adds an opaque host object.
    pub fn foreign(self, name: &str, tag: u64, ptr: u64, finalizer: Option<u64>) -> (r: NativeModule)
        ensures
            r@ == self@.with(name@, MemberView::Foreign(ForeignObj { tag, ptr, finalizer })),
    {
        self.with(name, NativeMember::Foreign { tag, ptr, finalizer })
    }

    /// Adds a record type.
    pub fn record(self, name: &str, fields: Vec<String>, is_ref: bool) -> (r: NativeModule)
        ensures
            r@ == self@.with(
                name@,
                (MemberView::Record { fields: texts(fields@), is_ref }),
            ),
    {
        self.with(name, NativeMember::Record { fields, is_ref })
    }
}

/// What binding the members of a native module leaves.
pub struct Built {
    /// The heap.
    pub heap: HeapView,
    /// The functions by number.
    pub intrinsics: Seq<IntrinsicView>,
    /// The cell of each name.
    pub names: Seq<(Seq<char>, CellIdx)>,
}

/// The value of a member, and the heap and functions with it.
pub open spec fn member_made(b: Built, id: ModuleId, name: Seq<char>, member: MemberView) -> (
    HeapView,
    Seq<IntrinsicView>,
    Value,
) {
    match member {
        MemberView::Function(i) => (
            b.heap.new_callable(
                CalView {
                    module: id,
                    target: CallableTarget::Intrinsic(b.intrinsics.len() as u32),
                    captures: Seq::empty(),
                },
            ),
            b.intrinsics.push(i),
            Value::Callable(CalIdx(b.heap.callables.len() as usize)),
        ),
        MemberView::Const(c) => {
            let (h, v) = const_made(b.heap, c);
            (h, b.intrinsics, v)
        },
        MemberView::Foreign(f) => (
            b.heap.new_foreign(f),
            b.intrinsics,
            Value::Foreign(ForeignIdx(b.heap.foreigns.len() as usize)),
        ),
        MemberView::Record { fields, is_ref } => (
            b.heap.new_type(TypeView::Record(SchemaView { name, fields, is_ref })),
            b.intrinsics,
            Value::Type(TypeIdx(b.heap.types.len() as usize)),
        ),
    }
}

/// What binding one more member leaves.
pub open spec fn member_built(b: Built, id: ModuleId, name: Seq<char>, member: MemberView) -> Built {
    let (h, intrinsics, value) = member_made(b, id, name, member);
    Built {
        heap: h.new_cell(CellKind::Const, Some(value)),
        intrinsics,
        names: b.names.push((name, CellIdx(h.cells.len() as usize))),
    }
}

/// What binding the first `n` members leaves.
pub open spec fn members_built(b: Built, id: ModuleId, members: Seq<(Seq<char>, MemberView)>, n: nat) -> Built
    decreases n,
{
    if n == 0 || n > members.len() {
        b
    } else {
        let before = members_built(b, id, members, (n - 1) as nat);
        let (name, member) = members[n - 1];
        member_built(before, id, name, member)
    }
}

/// A module without a body of its own, whose names are public constants.
pub open spec fn synthetic(resolved: ResolvedModule, id: ModuleId, names: Seq<Seq<char>>) -> bool {
    &&& resolved.canonical_id == id
    &&& resolved.exports is None
    &&& resolved.callables@.len() == 0
    &&& resolved.globals@.len() == names.len()
    &&& forall|i: int|
        0 <= i < names.len() ==> (#[trigger] resolved.globals@[i]).name@ == names[i]
            && resolved.globals@[i].kind == GlobalKind::Const
    &&& resolved.node_at(resolved.root) matches Some(Node::Module { stmts, .. })
        && stmts@.len() == 0
    &&& forall|n: NodeId| n != resolved.root ==> (#[trigger] resolved.node_at(n)) is None
}

/// The names of a namespace.
pub open spec fn name_list(names: Seq<(Seq<char>, CellIdx)>) -> Seq<Seq<char>> {
    names.map_values(|e: (Seq<char>, CellIdx)| e.0)
}

/// Makes a module without a body of its own, whose names are public constants.
pub fn synthetic_module(id: ModuleId, namespace: &Vec<(String, CellIdx)>) -> (r: ResolvedModule)
    ensures
        synthetic(r, id, name_list(named_view(namespace@))),
{
    let mut ast = Ast::new();
    let root = ast.push(Node::Module { stmts: Vec::new(), doc: None }, Span::dummy());
    let mut globals: Vec<GlobalDecl> = Vec::new();
    let mut i: usize = 0;
    while i < namespace.len()
        invariant
            i <= namespace@.len(),
            globals@.len() == i,
            forall|k: int|
                0 <= k < i ==> (#[trigger] globals@[k]).name@ == namespace@[k].0@ && globals@[k].kind
                    == GlobalKind::Const,
        decreases namespace@.len() - i,
    {
        globals.push(
            GlobalDecl {
                name: namespace[i].0.as_str().to_owned(),
                kind: GlobalKind::Const,
                decl: root,
            },
        );
        i = i + 1;
    }
    ResolvedModule {
        canonical_id: id,
        ast,
        root,
        stmt_spans: Vec::new(),
        callables: Vec::new(),
        globals,
        exports: None,
        name_refs: Vec::new(),
        resolutions: Vec::new(),
        exit_targets: Vec::new(),
        tail_calls: Vec::new(),
    }
}

fn add_member(
    id: ModuleId,
    heap: &mut Heap,
    intrinsics: &mut Vec<Intrinsic>,
    namespace: &mut Vec<(String, CellIdx)>,
    name: String,
    member: NativeMember,
)
    ensures
        (Built {
            heap: final(heap)@,
            intrinsics: intrinsics_view(final(intrinsics)@),
            names: named_view(final(namespace)@),
        }) == member_built(
            (Built {
                heap: old(heap)@,
                intrinsics: intrinsics_view(old(intrinsics)@),
                names: named_view(old(namespace)@),
            }),
            id,
            name@,
            member@,
        ),
{
    let value = match member {
        NativeMember::Function(function) => {
            let number: u32 = intrinsics.len() as u32;
            intrinsics.push(function);
            assert(intrinsics_view(intrinsics@) =~= intrinsics_view(old(intrinsics)@).push(
                function@,
            ));
            let captures: Vec<CellIdx> = Vec::new();
            assert(captures@ =~= Seq::empty());
            Value::Callable(
                heap.alloc_callable(
                    CalObj { module: id, target: CallableTarget::Intrinsic(number), captures },
                ),
            )
        },
        NativeMember::Const(value) => materialize_const(&value, heap),
        NativeMember::Foreign { tag, ptr, finalizer } => Value::Foreign(
            heap.alloc_foreign(tag, ptr, finalizer),
        ),
        NativeMember::Record { fields, is_ref } => Value::Type(
            heap.alloc_type(
                TypeKind::Record(RecordType { name: name.as_str().to_owned(), fields, is_ref }),
            ),
        ),
    };
    let cell = heap.alloc_cell(CellKind::Const, Some(value));
    namespace.push((name, cell));
    assert(named_view(namespace@) =~= named_view(old(namespace)@).push((name@, cell)));
}

/// Binds the members of a native module; its functions are numbered after those there are.
pub fn build_native_module(
    module: NativeModule,
    id: ModuleId,
    heap: &mut Heap,
    intrinsics: &mut Vec<Intrinsic>,
) -> (r: (ResolvedModule, Vec<(String, CellIdx)>))
    ensures
        synthetic(r.0, id, name_list(named_view(r.1@))),
        (Built {
            heap: final(heap)@,
            intrinsics: intrinsics_view(final(intrinsics)@),
            names: named_view(r.1@),
        }) == members_built(
            (Built {
                heap: old(heap)@,
                intrinsics: intrinsics_view(old(intrinsics)@),
                names: Seq::empty(),
            }),
            id,
            module@.members,
            module@.members.len(),
        ),
{
    let mut namespace: Vec<(String, CellIdx)> = Vec::new();
    let mut members = module.members;
    let ghost all = members@;
    let ghost start = Built {
        heap: heap@,
        intrinsics: intrinsics_view(intrinsics@),
        names: Seq::empty(),
    };
    assert(named_view(namespace@) =~= Seq::empty());
    let total: usize = members.len();
    let mut i: usize = 0;
    while i < total
        invariant
            i <= total,
            total == all.len(),
            members@ == all.skip(i as int),
            (Built {
                heap: heap@,
                intrinsics: intrinsics_view(intrinsics@),
                names: named_view(namespace@),
            }) == members_built(start, id, members_view(all), i as nat),
        decreases total - i,
    {
        let ghost before = members@;
        let (name, member) = members.remove(0);
        assert(before[0] == all[i as int]);
        assert(members@ =~= all.skip(i + 1));
        assert(members_view(all)[i as int] == (name@, member@));
        add_member(id, heap, intrinsics, &mut namespace, name, member);
        i = i + 1;
    }
    let resolved = synthetic_module(id, &namespace);
    (resolved, namespace)
}

/// A constant made twice gives two values that mean the same: no caller can change what a
/// default will be for the next.
pub proof fn law_defaults_are_made_afresh(h: HeapView, c: ConstView)
    requires
        h.strings.len() < usize::MAX,
        h.bytes.len() < usize::MAX,
    ensures
        ({
            let (h1, v1) = const_made(h, c);
            let (h2, v2) = const_made(h1, c);
            &&& v1 is Str ==> v2 is Str && h1.text(v1->Str_0) == h2.text(v2->Str_0)
            &&& v1 is Bytes ==> v2 is Bytes && h1.bytes_of(v1->Bytes_0) == h2.bytes_of(v2->Bytes_0)
            &&& !(v1 is Str) && !(v1 is Bytes) ==> v1 == v2
        }),
{
}

} // verus!
