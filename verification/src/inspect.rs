//! Looking into values: records, dicts, callables, types and modules, without running any of
//! the program's code.
use crate::ast::Node;
use crate::ast::NodeId;
use crate::handle::Handle;
use crate::handle::TableView;
use crate::heap::BuiltinType;
use crate::heap::CalView;
use crate::heap::CallableTarget;
use crate::heap::HeapView;
use crate::heap::RecordView;
use crate::heap::SchemaView;
use crate::heap::TypeKind;
use crate::heap::TypeView;
use crate::instance::Instance;
use crate::intrinsic::IntrinsicView;
use crate::modload::LoadedModule;
use crate::observe::Position;
use crate::resolve::BodyKind;
use crate::resolve::GlobalDecl;
use crate::span::ModuleId;
use crate::text::texts;
use crate::value::Kind;
use crate::value::Value;
use crate::values;
use crate::values::handed;
use crate::values::nth;
use crate::values::read;
use crate::values::seen;
use crate::values::unlike;
use crate::values::ValueError;
use vstd::prelude::*;

verus! {

/// A handle's record.
pub open spec fn record_read(t: TableView, heap: HeapView, h: Handle) -> Result<
    RecordView,
    ValueError,
> {
    match read(t, h) {
        Ok(Value::Record(i)) => match heap.record(i) {
            Some(r) => Ok(r),
            None => Err(ValueError::Stale),
        },
        Ok(v) => Err(unlike(v, Kind::Record)),
        Err(e) => Err(e),
    }
}

/// The type of a handle's record.
pub open spec fn schema_read(t: TableView, heap: HeapView, h: Handle) -> Result<
    SchemaView,
    ValueError,
> {
    match record_read(t, heap, h) {
        Ok(r) => match heap.schema(r.type_idx) {
            Some(s) => Ok(s),
            None => Err(ValueError::Stale),
        },
        Err(e) => Err(e),
    }
}

/// The entries of a handle's dict, in insertion order.
pub open spec fn entries_read(t: TableView, heap: HeapView, h: Handle) -> Result<
    Seq<(Value, Value)>,
    ValueError,
> {
    match read(t, h) {
        Ok(Value::Dict(i)) => Ok(heap.dict(i).entries),
        Ok(v) => Err(unlike(v, Kind::Dict)),
        Err(e) => Err(e),
    }
}

/// A handle's callable.
pub open spec fn callable_read(t: TableView, heap: HeapView, h: Handle) -> Result<
    CalView,
    ValueError,
> {
    match read(t, h) {
        Ok(Value::Callable(i)) => match heap.callable(i) {
            Some(c) => Ok(c),
            None => Err(ValueError::Stale),
        },
        Ok(v) => Err(unlike(v, Kind::Callable)),
        Err(e) => Err(e),
    }
}

/// A handle's type.
pub open spec fn type_read(t: TableView, heap: HeapView, h: Handle) -> Result<TypeView, ValueError> {
    match read(t, h) {
        Ok(Value::Type(i)) => match heap.type_kind(i) {
            Some(k) => Ok(k),
            None => Err(ValueError::Stale),
        },
        Ok(v) => Err(unlike(v, Kind::Type)),
        Err(e) => Err(e),
    }
}

/// A handle's module.
pub open spec fn module_read(t: TableView, h: Handle) -> Result<ModuleId, ValueError> {
    match read(t, h) {
        Ok(Value::Module(m)) => Ok(m),
        Ok(v) => Err(unlike(v, Kind::Module)),
        Err(e) => Err(e),
    }
}

/// A part of a read.
pub open spec fn part<T, U>(r: Result<T, ValueError>, f: spec_fn(T) -> U) -> Result<U, ValueError> {
    match r {
        Ok(v) => Ok(f(v)),
        Err(e) => Err(e),
    }
}

/// An item of a read.
pub open spec fn item<T>(r: Result<Seq<T>, ValueError>, index: int) -> Result<T, ValueError> {
    match r {
        Ok(items) => nth(items, index),
        Err(e) => Err(e),
    }
}

/// The declaration of a callable, with its module: only a `to` or `fn` of a module has one.
pub open spec fn declaration(modules: Seq<LoadedModule>, c: CalView) -> Option<(int, NodeId)> {
    match c.target {
        CallableTarget::Source(id) => {
            let m = c.module.0 as int;
            if m < modules.len() && id < modules[m].resolved.callables@.len() {
                Some((m, modules[m].resolved.callables@[id as int].decl))
            } else {
                None
            }
        },
        _ => None,
    }
}

/// The name that a callable was declared under.
pub open spec fn declared_name(modules: Seq<LoadedModule>, c: CalView) -> Option<Seq<char>> {
    match declaration(modules, c) {
        Some((m, decl)) => match modules[m].resolved.node_at(decl) {
            Some(Node::Callable { name, .. }) => match name {
                Some(n) => Some(n@),
                None => None,
            },
            _ => None,
        },
        None => None,
    }
}

/// Where a callable is declared.
pub open spec fn declared_at(modules: Seq<LoadedModule>, c: CalView) -> Option<Position> {
    match declaration(modules, c) {
        Some((m, decl)) => Some(
            Position {
                module: modules[m].resolved.canonical_id,
                span: modules[m].resolved.ast.range(decl),
            },
        ),
        None => None,
    }
}

/// Where a callable's docstring is.
pub open spec fn documented_at(modules: Seq<LoadedModule>, c: CalView) -> Option<Position> {
    match declaration(modules, c) {
        Some((m, decl)) => match modules[m].resolved.node_at(decl) {
            Some(Node::Callable { doc, .. }) => match doc {
                Some(span) => Some(
                    Position { module: modules[m].resolved.canonical_id, span },
                ),
                None => None,
            },
            _ => None,
        },
        None => None,
    }
}

/// Whether a callable yields a value: the two protocols' members do.
pub open spec fn is_function(modules: Seq<LoadedModule>, table: Seq<IntrinsicView>, c: CalView) -> Option<
    bool,
> {
    match c.target {
        CallableTarget::Source(id) => {
            let m = c.module.0 as int;
            if m < modules.len() && id < modules[m].resolved.callables@.len() {
                Some(modules[m].resolved.callables@[id as int].kind == BodyKind::Func)
            } else {
                None
            }
        },
        CallableTarget::Intrinsic(id) => if id < table.len() {
            Some(table[id as int].kind == BodyKind::Func)
        } else {
            None
        },
        CallableTarget::Dispatcher(_) => Some(true),
    }
}

/// The name of a built-in type.
pub open spec fn builtin_name(b: BuiltinType) -> Seq<char> {
    match b {
        BuiltinType::Nil => "Nil"@,
        BuiltinType::Bool => "Bool"@,
        BuiltinType::Int => "Int"@,
        BuiltinType::Float => "Float"@,
        BuiltinType::Number => "Number"@,
        BuiltinType::String => "String"@,
        BuiltinType::Bytes => "Bytes"@,
        BuiltinType::List => "List"@,
        BuiltinType::Dict => "Dict"@,
        BuiltinType::Callable => "Callable"@,
        BuiltinType::Module => "Module"@,
        BuiltinType::Type => "Type"@,
        BuiltinType::Foreign => "Foreign"@,
    }
}

fn builtin_text(b: BuiltinType) -> (r: &'static str)
    ensures
        r@ == builtin_name(b),
{
    match b {
        BuiltinType::Nil => "Nil",
        BuiltinType::Bool => "Bool",
        BuiltinType::Int => "Int",
        BuiltinType::Float => "Float",
        BuiltinType::Number => "Number",
        BuiltinType::String => "String",
        BuiltinType::Bytes => "Bytes",
        BuiltinType::List => "List",
        BuiltinType::Dict => "Dict",
        BuiltinType::Callable => "Callable",
        BuiltinType::Module => "Module",
        BuiltinType::Type => "Type",
        BuiltinType::Foreign => "Foreign",
    }
}

/// The name of a type.
pub open spec fn spelled(k: TypeView) -> Seq<char> {
    match k {
        TypeView::Builtin(b) => builtin_name(b),
        TypeView::Record(s) => s.name,
        TypeView::Protocol(name) => name,
    }
}

/// The names of some declarations.
pub open spec fn global_names(globals: Seq<GlobalDecl>) -> Seq<Seq<char>> {
    globals.map_values(|g: GlobalDecl| g.name@)
}

/// The names a module declares.
pub open spec fn member_names(modules: Seq<LoadedModule>, m: ModuleId) -> Seq<Seq<char>> {
    if (m.0 as int) < modules.len() {
        global_names(modules[m.0 as int].resolved.globals@)
    } else {
        Seq::empty()
    }
}

/// A read whose texts are taken by their views.
pub open spec fn texts_read(r: Result<Vec<String>, ValueError>) -> Result<
    Seq<Seq<char>>,
    ValueError,
> {
    match r {
        Ok(v) => Ok(texts(v@)),
        Err(e) => Err(e),
    }
}

/// A read of a text that may be missing.
pub open spec fn name_read(r: Result<Option<String>, ValueError>) -> Result<
    Option<Seq<char>>,
    ValueError,
> {
    match r {
        Ok(Some(s)) => Ok(Some(s@)),
        Ok(None) => Ok(None),
        Err(e) => Err(e),
    }
}

impl Instance {
    fn record_of(&self, handle: Handle) -> (r: Result<&crate::heap::RecordObj, ValueError>)
        ensures
            seen(r) == record_read(self.handles@, self.heap@, handle),
    {
        match values::value_of(&self.handles, handle) {
            Ok(Value::Record(i)) => match self.heap.record(i) {
                Some(rec) => Ok(rec),
                None => Err(ValueError::Stale),
            },
            Ok(v) => Err(values::wrong_kind(v, Kind::Record)),
            Err(e) => Err(e),
        }
    }

    fn schema_of(&self, handle: Handle) -> (r: Result<&crate::heap::RecordType, ValueError>)
        ensures
            seen(r) == schema_read(self.handles@, self.heap@, handle),
    {
        match self.record_of(handle) {
            Ok(rec) => match self.heap.type_value(rec.type_idx) {
                Some(TypeKind::Record(rt)) => Ok(rt),
                _ => Err(ValueError::Stale),
            },
            Err(e) => Err(e),
        }
    }

    /// The name of a record's type.
    pub fn record_type_name(&self, handle: Handle) -> (r: Result<String, ValueError>)
        ensures
            seen(r) == part(
                schema_read(self.handles@, self.heap@, handle),
                |s: SchemaView| s.name,
            ),
    {
        match self.schema_of(handle) {
            Ok(rt) => Ok(rt.name.as_str().to_owned()),
            Err(e) => Err(e),
        }
    }

    /// The number of a record's fields.
    pub fn record_length(&self, handle: Handle) -> (r: Result<usize, ValueError>)
        ensures
            part(r, |n: usize| n as int) == part(
                record_read(self.handles@, self.heap@, handle),
                |rec: RecordView| rec.fields.len() as int,
            ),
    {
        match self.record_of(handle) {
            Ok(rec) => Ok(rec.fields.len()),
            Err(e) => Err(e),
        }
    }

    /// The name of a record's field, in declaration order.
    pub fn record_field_name(&self, handle: Handle, index: usize) -> (r: Result<&str, ValueError>)
        ensures
            seen(r) == item(
                part(schema_read(self.handles@, self.heap@, handle), |s: SchemaView| s.fields),
                index as int,
            ),
    {
        match self.schema_of(handle) {
            Ok(rt) => {
                assert(texts(rt.fields@).len() == rt.fields@.len());
                if index < rt.fields.len() {
                    assert(texts(rt.fields@)[index as int] == rt.fields@[index as int]@);
                    Ok(rt.fields[index].as_str())
                } else {
                    Err(ValueError::IndexOutOfBounds)
                }
            },
            Err(e) => Err(e),
        }
    }

    /// Gives the value of a record's field a handle.
    pub fn record_field(&mut self, handle: Handle, index: usize) -> (r: Result<Handle, ValueError>)
        requires
            old(self).ready(),
        ensures
            final(self).handles@.wf(),
            handed(
                old(self).handles@,
                final(self).handles@,
                item(
                    part(
                        record_read(old(self).handles@, old(self).heap@, handle),
                        |rec: RecordView| rec.fields,
                    ),
                    index as int,
                ),
                r,
            ),
            *final(self) == (Instance { handles: final(self).handles, ..*old(self) }),
    {
        let value = match self.record_of(handle) {
            Ok(rec) => {
                if index < rec.fields.len() {
                    rec.fields[index]
                } else {
                    return Err(ValueError::IndexOutOfBounds);
                }
            },
            Err(e) => {
                return Err(e);
            },
        };
        Ok(self.handles.intern(value))
    }

    /// The number of a dict's entries.
    pub fn dict_length(&self, handle: Handle) -> (r: Result<usize, ValueError>)
        ensures
            part(r, |n: usize| n as int) == part(
                entries_read(self.handles@, self.heap@, handle),
                |entries: Seq<(Value, Value)>| entries.len() as int,
            ),
    {
        match values::value_of(&self.handles, handle) {
            Ok(Value::Dict(i)) => match self.heap.dict(i) {
                Some(d) => Ok(d.entries.len()),
                None => Ok(0),
            },
            Ok(v) => Err(values::wrong_kind(v, Kind::Dict)),
            Err(e) => Err(e),
        }
    }

    fn dict_entry(&self, handle: Handle, index: usize) -> (r: Result<(Value, Value), ValueError>)
        ensures
            r == item(entries_read(self.handles@, self.heap@, handle), index as int),
    {
        match values::value_of(&self.handles, handle) {
            Ok(Value::Dict(i)) => match self.heap.dict(i) {
                Some(d) => {
                    if index < d.entries.len() {
                        Ok(d.entries[index])
                    } else {
                        Err(ValueError::IndexOutOfBounds)
                    }
                },
                None => Err(ValueError::IndexOutOfBounds),
            },
            Ok(v) => Err(values::wrong_kind(v, Kind::Dict)),
            Err(e) => Err(e),
        }
    }

    /// Gives a dict's key a handle, in insertion order.
    pub fn dict_key(&mut self, handle: Handle, index: usize) -> (r: Result<Handle, ValueError>)
        requires
            old(self).ready(),
        ensures
            final(self).handles@.wf(),
            handed(
                old(self).handles@,
                final(self).handles@,
                part(
                    item(
                        entries_read(old(self).handles@, old(self).heap@, handle),
                        index as int,
                    ),
                    |e: (Value, Value)| e.0,
                ),
                r,
            ),
            *final(self) == (Instance { handles: final(self).handles, ..*old(self) }),
    {
        match self.dict_entry(handle, index) {
            Ok(e) => Ok(self.handles.intern(e.0)),
            Err(e) => Err(e),
        }
    }

    /// Gives a dict's value a handle, in insertion order.
    pub fn dict_value(&mut self, handle: Handle, index: usize) -> (r: Result<Handle, ValueError>)
        requires
            old(self).ready(),
        ensures
            final(self).handles@.wf(),
            handed(
                old(self).handles@,
                final(self).handles@,
                part(
                    item(
                        entries_read(old(self).handles@, old(self).heap@, handle),
                        index as int,
                    ),
                    |e: (Value, Value)| e.1,
                ),
                r,
            ),
            *final(self) == (Instance { handles: final(self).handles, ..*old(self) }),
    {
        match self.dict_entry(handle, index) {
            Ok(e) => Ok(self.handles.intern(e.1)),
            Err(e) => Err(e),
        }
    }

    fn callable_of(&self, handle: Handle) -> (r: Result<&crate::heap::CalObj, ValueError>)
        ensures
            seen(r) == callable_read(self.handles@, self.heap@, handle),
    {
        match values::value_of(&self.handles, handle) {
            Ok(Value::Callable(i)) => match self.heap.callable(i) {
                Some(c) => Ok(c),
                None => Err(ValueError::Stale),
            },
            Ok(v) => Err(values::wrong_kind(v, Kind::Callable)),
            Err(e) => Err(e),
        }
    }

    fn callable_source(&self, c: &crate::heap::CalObj) -> (r: Option<(usize, NodeId)>)
        ensures
            (match r {
                Some((m, decl)) => declaration(self.modules@, c@) == Some((m as int, decl)) && m
                    < self.modules@.len(),
                None => declaration(self.modules@, c@) is None,
            }),
    {
        match c.target {
            CallableTarget::Source(id) => {
                let m: usize = c.module.0 as usize;
                if m < self.modules.len() && (id as usize) < self.modules[m].resolved.callables.len() {
                    Some((m, self.modules[m].resolved.callables[id as usize].decl))
                } else {
                    None
                }
            },
            _ => None,
        }
    }

    /// The name that a callable was declared under; an anonymous one and one without a
    /// declaration have none.
    pub fn callable_name(&self, handle: Handle) -> (r: Result<Option<String>, ValueError>)
        ensures
            name_read(r) == part(
                callable_read(self.handles@, self.heap@, handle),
                |c: CalView| declared_name(self.modules@, c),
            ),
    {
        let c = match self.callable_of(handle) {
            Ok(c) => c,
            Err(e) => {
                return Err(e);
            },
        };
        match self.callable_source(c) {
            Some((m, decl)) => match self.modules[m].resolved.ast.node(decl) {
                Some(Node::Callable { name: Some(n), .. }) => Ok(Some(n.as_str().to_owned())),
                _ => Ok(None),
            },
            None => Ok(None),
        }
    }

    /// Whether a callable yields a value.
    pub fn callable_is_function(&self, handle: Handle) -> (r: Result<Option<bool>, ValueError>)
        ensures
            r == part(
                callable_read(self.handles@, self.heap@, handle),
                |c: CalView| is_function(self.modules@, self.natives@.table, c),
            ),
    {
        let c = match self.callable_of(handle) {
            Ok(c) => c,
            Err(e) => {
                return Err(e);
            },
        };
        match c.target {
            CallableTarget::Source(id) => {
                let m: usize = c.module.0 as usize;
                if m < self.modules.len() && (id as usize) < self.modules[m].resolved.callables.len() {
                    Ok(Some(self.modules[m].resolved.callables[id as usize].kind == BodyKind::Func))
                } else {
                    Ok(None)
                }
            },
            CallableTarget::Intrinsic(id) => {
                if (id as usize) < self.natives.table.len() {
                    assert(self.natives@.table[id as int] == self.natives.table@[id as int]@);
                    Ok(Some(self.natives.table[id as usize].kind == BodyKind::Func))
                } else {
                    Ok(None)
                }
            },
            CallableTarget::Dispatcher(_) => Ok(Some(true)),
        }
    }

    /// Where a callable is declared.
    pub fn callable_position(&self, handle: Handle) -> (r: Result<Option<Position>, ValueError>)
        ensures
            r == part(
                callable_read(self.handles@, self.heap@, handle),
                |c: CalView| declared_at(self.modules@, c),
            ),
    {
        let c = match self.callable_of(handle) {
            Ok(c) => c,
            Err(e) => {
                return Err(e);
            },
        };
        match self.callable_source(c) {
            Some((m, decl)) => Ok(
                Some(
                    Position {
                        module: self.modules[m].resolved.canonical_id,
                        span: self.modules[m].resolved.ast.span(decl),
                    },
                ),
            ),
            None => Ok(None),
        }
    }

    /// Where a callable's docstring is.
    pub fn callable_docstring(&self, handle: Handle) -> (r: Result<Option<Position>, ValueError>)
        ensures
            r == part(
                callable_read(self.handles@, self.heap@, handle),
                |c: CalView| documented_at(self.modules@, c),
            ),
    {
        let c = match self.callable_of(handle) {
            Ok(c) => c,
            Err(e) => {
                return Err(e);
            },
        };
        match self.callable_source(c) {
            Some((m, decl)) => match self.modules[m].resolved.ast.node(decl) {
                Some(Node::Callable { doc: Some(span), .. }) => Ok(
                    Some(
                        Position { module: self.modules[m].resolved.canonical_id, span: *span },
                    ),
                ),
                _ => Ok(None),
            },
            None => Ok(None),
        }
    }

    /// The name of a type.
    pub fn name_of_type(&self, handle: Handle) -> (r: Result<String, ValueError>)
        ensures
            seen(r) == part(
                type_read(self.handles@, self.heap@, handle),
                |k: TypeView| spelled(k),
            ),
    {
        match values::value_of(&self.handles, handle) {
            Ok(Value::Type(i)) => match self.heap.type_value(i) {
                Some(TypeKind::Builtin(b)) => Ok(builtin_text(*b).to_owned()),
                Some(TypeKind::Record(rt)) => Ok(rt.name.as_str().to_owned()),
                Some(TypeKind::Protocol(name)) => Ok(name.as_str().to_owned()),
                None => Err(ValueError::Stale),
            },
            Ok(v) => Err(values::wrong_kind(v, Kind::Type)),
            Err(e) => Err(e),
        }
    }

    /// The names a module declares, in declaration order.
    pub fn module_member_names(&self, handle: Handle) -> (r: Result<Vec<String>, ValueError>)
        ensures
            texts_read(r) == part(
                module_read(self.handles@, handle),
                |m: ModuleId| member_names(self.modules@, m),
            ),
    {
        let id = match values::value_of(&self.handles, handle) {
            Ok(Value::Module(m)) => m,
            Ok(v) => {
                return Err(values::wrong_kind(v, Kind::Module));
            },
            Err(e) => {
                return Err(e);
            },
        };
        let mut r: Vec<String> = Vec::new();
        if (id.0 as usize) < self.modules.len() {
            let globals = &self.modules[id.0 as usize].resolved.globals;
            let mut i: usize = 0;
            assert(texts(r@) =~= global_names(globals@).take(0));
            while i < globals.len()
                invariant
                    i <= globals@.len(),
                    texts(r@) == global_names(globals@).take(i as int),
                decreases globals@.len() - i,
            {
                let ghost before = r@;
                let name = globals[i].name.as_str().to_owned();
                r.push(name);
                assert(texts(r@) =~= texts(before).push(name@));
                assert(global_names(globals@)[i as int] == globals@[i as int].name@);
                assert(texts(r@) =~= global_names(globals@).take(i + 1));
                i = i + 1;
            }
            assert(global_names(globals@).take(i as int) =~= global_names(globals@));
        } else {
            assert(texts(r@) =~= Seq::empty());
        }
        Ok(r)
    }
}

} // verus!
