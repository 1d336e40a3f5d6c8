//! What name resolution found out about a module: where each name lives, what each body's
//! frame holds, which calls are tail calls, and what the module exports.
use crate::ast::Ast;
use crate::ast::Node;
use crate::ast::NodeId;
use crate::span::ModuleId;
use crate::span::Span;
use crate::text::same_text;
use vstd::prelude::*;

verus! {

/// What kind of body a callable has.
#[derive(Clone, Copy, PartialEq, Eq, Debug, Structural)]
pub enum BodyKind {
    /// A module's top level.
    ModuleTopLevel,
    /// A procedure, which yields no value.
    Proc,
    /// A function, which yields one.
    Func,
    /// A block argument's body.
    Block,
}

/// A resolved parameter.
#[derive(Debug)]
pub struct ParamInfo {
    /// The name.
    pub name: String,
    /// The frame slot.
    pub slot: u16,
    /// Whether it is the block parameter.
    pub is_block: bool,
    /// Whether it has a default.
    pub has_default: bool,
}

/// A captured binding: the callee's slot for it, and where the creating frame finds it.
#[derive(Clone, Copy, Debug)]
pub struct CaptureInfo {
    /// The slot in the callee's frame.
    pub slot: u16,
    /// How many defining links to follow from the creating frame.
    pub hops: u16,
    /// The slot in the frame reached.
    pub from_slot: u16,
}

/// A resolved body.
#[derive(Debug)]
pub struct CallableInfo {
    /// The declaring node.
    pub decl: NodeId,
    /// The body node.
    pub body: NodeId,
    /// What kind of body it is.
    pub kind: BodyKind,
    /// The parameters.
    pub params: Vec<ParamInfo>,
    /// The number of frame slots.
    pub slot_count: u16,
    /// Which slots live in cells.
    pub cell_boxed: Vec<bool>,
    /// The captured bindings.
    pub captures: Vec<CaptureInfo>,
    /// The name of each slot.
    pub slot_names: Vec<String>,
}

/// Where a name lives.
#[derive(Clone, Copy, PartialEq, Eq, Debug, Structural)]
pub enum Resolution {
    /// A slot of the current frame.
    LocalSlot(u16),
    /// A free module-level name, by its index among the module's references.
    ModuleName(u32),
    /// A slot of an enclosing frame, that many defining links away.
    BlockOuter {
        /// The number of links.
        hops: u16,
        /// The slot.
        slot: u16,
    },
}

/// What a `return`, `break` or `continue` leaves.
#[derive(Clone, Copy, PartialEq, Eq, Debug, Structural)]
pub enum ExitTarget {
    /// The loop of a node.
    Loop(NodeId),
    /// The call that consumes the current block (`break`), or the block itself (`continue`).
    Block,
    /// The enclosing procedure or function.
    Callable,
}

/// What a module-level name declares.
#[derive(Clone, Copy, PartialEq, Eq, Debug, Structural)]
pub enum GlobalKind {
    /// A variable.
    Let,
    /// A constant.
    Const,
    /// A dynamic parameter.
    Parameter,
    /// A procedure.
    Proc,
    /// A function.
    Fn,
    /// A record type.
    Record,
    /// A protocol.
    Protocol,
    /// A module.
    Module,
}

/// A module-level declaration.
#[derive(Debug)]
pub struct GlobalDecl {
    /// The name.
    pub name: String,
    /// What it declares.
    pub kind: GlobalKind,
    /// The declaring node.
    pub decl: NodeId,
}

/// Whether other modules see a name.
#[derive(Clone, Copy, PartialEq, Eq, Debug, Structural)]
pub enum Membership {
    /// They do.
    Exported,
    /// The module keeps it private.
    Private,
    /// The module does not declare it.
    Absent,
}

/// A resolved module.
#[derive(Debug)]
pub struct ResolvedModule {
    /// The module's id.
    pub canonical_id: ModuleId,
    /// The tree.
    pub ast: Ast,
    /// The `Module` node.
    pub root: NodeId,
    /// Every statement, with its source range.
    pub stmt_spans: Vec<(Span, NodeId)>,
    /// The bodies.
    pub callables: Vec<CallableInfo>,
    /// The module-level declarations.
    pub globals: Vec<GlobalDecl>,
    /// The exported names, or nothing when all are.
    pub exports: Option<Vec<String>>,
    /// The free names referred to.
    pub name_refs: Vec<String>,
    /// Where each node's name lives.
    pub resolutions: Vec<Option<Resolution>>,
    /// What each exit leaves.
    pub exit_targets: Vec<Option<ExitTarget>>,
    /// Which nodes are tail calls.
    pub tail_calls: Vec<bool>,
}

/// Whether one of some strings is a given text.
pub open spec fn has_text(names: Seq<String>, text: Seq<char>) -> bool {
    exists|i: int| 0 <= i < names.len() && (#[trigger] names[i])@ == text
}

/// Whether a module-level declaration has a given name.
pub open spec fn declares(globals: Seq<GlobalDecl>, text: Seq<char>) -> bool {
    exists|i: int| 0 <= i < globals.len() && (#[trigger] globals[i]).name@ == text
}

/// The first body of a given declaration.
pub open spec fn body_of(callables: Seq<CallableInfo>, decl: NodeId, from: nat) -> Option<nat>
    decreases callables.len() - from,
{
    if from >= callables.len() {
        None
    } else if callables[from as int].decl == decl {
        Some(from)
    } else {
        body_of(callables, decl, from + 1)
    }
}

/// The first body that is a module's top level.
pub open spec fn top_level_of(callables: Seq<CallableInfo>, from: nat) -> Option<nat>
    decreases callables.len() - from,
{
    if from >= callables.len() {
        None
    } else if callables[from as int].kind == BodyKind::ModuleTopLevel {
        Some(from)
    } else {
        top_level_of(callables, from + 1)
    }
}

impl ResolvedModule {
    /// Whether other modules see a name.
    pub open spec fn visibility(&self, text: Seq<char>) -> Membership {
        if !declares(self.globals@, text) {
            Membership::Absent
        } else {
            match self.exports {
                None => Membership::Exported,
                Some(names) => if has_text(names@, text) {
                    Membership::Exported
                } else {
                    Membership::Private
                },
            }
        }
    }

    /// Where a node's name lives.
    pub open spec fn resolution(&self, id: NodeId) -> Option<Resolution> {
        if (id.0 as int) < self.resolutions@.len() {
            self.resolutions@[id.0 as int]
        } else {
            None
        }
    }

    /// What an exit leaves.
    pub open spec fn exit_target(&self, id: NodeId) -> Option<ExitTarget> {
        if (id.0 as int) < self.exit_targets@.len() {
            self.exit_targets@[id.0 as int]
        } else {
            None
        }
    }

    /// Whether a node is a tail call.
    pub open spec fn tail_call(&self, id: NodeId) -> bool {
        (id.0 as int) < self.tail_calls@.len() && self.tail_calls@[id.0 as int]
    }

    /// A referred-to free name.
    pub open spec fn name_ref(&self, i: u32) -> Option<Seq<char>> {
        if (i as int) < self.name_refs@.len() {
            Some(self.name_refs@[i as int]@)
        } else {
            None
        }
    }

    /// A body.
    pub open spec fn body(&self, i: int) -> Option<CallableInfo> {
        if 0 <= i < self.callables@.len() {
            Some(self.callables@[i])
        } else {
            None
        }
    }

    /// The node of an id.
    pub open spec fn node_at(&self, id: NodeId) -> Option<Node> {
        self.ast.at(id)
    }

    /// Whether other modules see a name.
    pub fn member_visibility(&self, name: &str) -> (r: Membership)
        ensures
            r == self.visibility(name@),
    {
        let mut declared: bool = false;
        let mut i: usize = 0;
        while i < self.globals.len()
            invariant
                i <= self.globals@.len(),
                declared == (exists|k: int|
                    0 <= k < i && (#[trigger] self.globals@[k]).name@ == name@),
            decreases self.globals@.len() - i,
        {
            if same_text(self.globals[i].name.as_str(), name) {
                declared = true;
                assert(self.globals@[i as int].name@ == name@);
            }
            i = i + 1;
        }
        if !declared {
            return Membership::Absent;
        }
        match &self.exports {
            None => Membership::Exported,
            Some(names) => if contains_text(names, name) {
                Membership::Exported
            } else {
                Membership::Private
            },
        }
    }

    /// Where a node's name lives.
    pub fn resolution_of(&self, id: NodeId) -> (r: Option<Resolution>)
        ensures
            r == self.resolution(id),
    {
        if (id.0 as usize) < self.resolutions.len() {
            self.resolutions[id.0 as usize]
        } else {
            None
        }
    }

    /// What an exit leaves.
    pub fn exit_target_of(&self, id: NodeId) -> (r: Option<ExitTarget>)
        ensures
            r == self.exit_target(id),
    {
        if (id.0 as usize) < self.exit_targets.len() {
            self.exit_targets[id.0 as usize]
        } else {
            None
        }
    }

    /// Whether a node is a tail call.
    pub fn is_tail_call(&self, id: NodeId) -> (r: bool)
        ensures
            r == self.tail_call(id),
    {
        (id.0 as usize) < self.tail_calls.len() && self.tail_calls[id.0 as usize]
    }

    /// A referred-to free name.
    pub fn name_ref_text(&self, i: u32) -> (r: Option<&str>)
        ensures
            (match r {
                Some(s) => self.name_ref(i) == Some(s@),
                None => self.name_ref(i) is None,
            }),
    {
        if (i as usize) < self.name_refs.len() {
            Some(self.name_refs[i as usize].as_str())
        } else {
            None
        }
    }

    /// The first body of a given declaration.
    pub fn body_index(&self, decl: NodeId) -> (r: Option<usize>)
        ensures
            (match r {
                Some(i) => body_of(self.callables@, decl, 0) == Some(i as nat) && i
                    < self.callables@.len(),
                None => body_of(self.callables@, decl, 0) is None,
            }),
    {
        let mut i: usize = 0;
        while i < self.callables.len()
            invariant
                i <= self.callables@.len(),
                body_of(self.callables@, decl, 0) == body_of(self.callables@, decl, i as nat),
            decreases self.callables@.len() - i,
        {
            if self.callables[i].decl == decl {
                return Some(i);
            }
            i = i + 1;
        }
        None
    }

    /// The module's top-level body.
    pub fn top_level(&self) -> (r: Option<usize>)
        ensures
            (match r {
                Some(i) => top_level_of(self.callables@, 0) == Some(i as nat) && i
                    < self.callables@.len(),
                None => top_level_of(self.callables@, 0) is None,
            }),
    {
        let mut i: usize = 0;
        while i < self.callables.len()
            invariant
                i <= self.callables@.len(),
                top_level_of(self.callables@, 0) == top_level_of(self.callables@, i as nat),
            decreases self.callables@.len() - i,
        {
            if self.callables[i].kind == BodyKind::ModuleTopLevel {
                return Some(i);
            }
            i = i + 1;
        }
        None
    }
}

/// Whether one of some strings is a given text.
pub fn contains_text(names: &Vec<String>, name: &str) -> (r: bool)
    ensures
        r == has_text(names@, name@),
{
    let mut i: usize = 0;
    while i < names.len()
        invariant
            i <= names@.len(),
            forall|k: int| 0 <= k < i ==> (#[trigger] names@[k])@ != name@,
        decreases names@.len() - i,
    {
        if same_text(names[i].as_str(), name) {
            assert(names@[i as int]@ == name@);
            return true;
        }
        i = i + 1;
    }
    false
}

} // verus!
