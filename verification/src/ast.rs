//! The syntax tree of a module: a table of nodes, each with its source range.
use crate::span::Span;
use vstd::prelude::*;

verus! {

/// A node's index in its module's tree.
#[derive(Clone, Copy, PartialEq, Eq, Debug, Structural)]
pub struct NodeId(pub u32);

/// A binary operator.
#[derive(Clone, Copy, PartialEq, Eq, Debug, Structural)]
pub enum BinaryOp {
    /// `+`
    Add,
    /// `-`
    Sub,
    /// `*`
    Mul,
    /// `/`
    Div,
    /// `//`
    FloorDiv,
    /// `%`
    Rem,
    /// `**`
    Pow,
    /// `==`
    Eq,
    /// `!=`
    Ne,
    /// `<`
    Lt,
    /// `>`
    Gt,
    /// `<=`
    Le,
    /// `>=`
    Ge,
    /// `and`
    And,
    /// `or`
    Or,
    /// `is`
    Is,
}

/// A unary operator.
#[derive(Clone, Copy, PartialEq, Eq, Debug, Structural)]
pub enum UnaryOp {
    /// `-`
    Neg,
    /// `+`
    Pos,
    /// `not`
    Not,
}

/// An argument of a call.
#[derive(Debug)]
pub enum Arg {
    /// An argument by position.
    Positional(NodeId),
    /// An argument by parameter name.
    Keyword {
        /// The parameter name.
        name: String,
        /// The argument.
        value: NodeId,
    },
}

/// A declared parameter.
#[derive(Debug)]
pub enum Param {
    /// An ordinary parameter.
    Ordinary {
        /// The name.
        name: String,
        /// The default, where there is one.
        default: Option<NodeId>,
    },
    /// The trailing block parameter.
    Block {
        /// The name.
        name: String,
    },
}

/// A dict literal's key.
#[derive(Debug)]
pub enum DictKey {
    /// A bare word, which is itself as a string.
    Bare(String),
    /// An expression.
    Expr(NodeId),
}

/// A dict literal's entry.
#[derive(Debug)]
pub struct DictEntry {
    /// The key.
    pub key: DictKey,
    /// The value.
    pub value: NodeId,
}

/// A part of a string literal.
#[derive(Debug)]
pub enum StrPart {
    /// A literal run.
    Text(String),
    /// An interpolated expression.
    Interp(NodeId),
}

/// An arm of an `if`.
#[derive(Clone, Copy, Debug)]
pub struct IfArm {
    /// The condition.
    pub cond: NodeId,
    /// The body.
    pub body: NodeId,
}

/// One target of an `import`.
#[derive(Debug)]
pub struct ImportTarget {
    /// The dotted path, by segments.
    pub path: Vec<String>,
    /// The name to bind instead of the last segment.
    pub alias: Option<String>,
    /// Whether all the module's names are imported.
    pub wildcard: bool,
}

/// A node.
#[allow(inconsistent_fields)]
#[derive(Debug)]
pub enum Node {
    /// A module's statements.
    Module {
        /// The statements.
        stmts: Vec<NodeId>,
        /// The docstring.
        doc: Option<Span>,
    },
    /// A body's statements.
    Block(Vec<NodeId>),
    /// An integer literal that `i64` holds.
    IntLit(i64),
    /// A float literal, by its bit pattern.
    FloatLit(u64),
    /// `true` or `false`.
    BoolLit(bool),
    /// `nil`.
    NilLit,
    /// A byte string literal.
    BytesLit(Vec<u8>),
    /// A string literal.
    StrLit(Vec<StrPart>),
    /// An integer literal beyond `i64`.
    BigIntLit {
        /// The radix.
        radix: u8,
        /// The digits.
        digits: String,
    },
    /// A list literal.
    List(Vec<NodeId>),
    /// A dict literal.
    Dict(Vec<DictEntry>),
    /// A name.
    Ident(String),
    /// `if`.
    If {
        /// The arms, at least one.
        arms: Vec<IfArm>,
        /// The `else` body.
        else_body: Option<NodeId>,
    },
    /// `while`.
    While {
        /// The condition.
        cond: NodeId,
        /// The body.
        body: NodeId,
    },
    /// `loop`.
    Loop {
        /// The body.
        body: NodeId,
    },
    /// `try` with its `rescue`.
    Try {
        /// The protected body.
        body: NodeId,
        /// The body that runs when something is caught.
        rescue_body: NodeId,
    },
    /// `raise`, of a value or again of what is being handled.
    Raise(Option<NodeId>),
    /// `return`.
    Return(Option<NodeId>),
    /// `break`.
    Break(Option<NodeId>),
    /// `continue`.
    Continue(Option<NodeId>),
    /// `with` over a dynamic parameter.
    With {
        /// The value to bind.
        value: NodeId,
        /// The body.
        body: NodeId,
    },
    /// A binary operation.
    Binary {
        /// The operator.
        op: BinaryOp,
        /// The left operand.
        lhs: NodeId,
        /// The right operand.
        rhs: NodeId,
    },
    /// A unary operation.
    Unary {
        /// The operator.
        op: UnaryOp,
        /// The operand.
        operand: NodeId,
    },
    /// A field of an object.
    Field {
        /// The object.
        object: NodeId,
        /// The field's name.
        name: String,
    },
    /// An element of an object.
    Index {
        /// The object.
        object: NodeId,
        /// The key.
        index: NodeId,
    },
    /// A call.
    Call {
        /// The callee.
        callee: NodeId,
        /// The arguments, positional ones first.
        args: Vec<Arg>,
        /// The body of the trailing block argument.
        block: Option<NodeId>,
    },
    /// A procedure or function.
    Callable {
        /// The name, unless it is anonymous.
        name: Option<String>,
        /// The parameters.
        params: Vec<Param>,
        /// The body.
        body: NodeId,
        /// The docstring.
        doc: Option<Span>,
    },
    /// `let`.
    Let {
        /// The name.
        name: String,
        /// The initializer.
        value: NodeId,
    },
    /// `const`.
    Const {
        /// The name.
        name: String,
        /// The initializer.
        value: NodeId,
    },
    /// `parameter`.
    Parameter {
        /// The name.
        name: String,
        /// The default.
        value: NodeId,
    },
    /// An assignment.
    Assign {
        /// The place.
        target: NodeId,
        /// The value.
        value: NodeId,
    },
    /// A record declaration.
    Record {
        /// The name.
        name: String,
        /// The field names.
        fields: Vec<String>,
        /// Whether instances are shared.
        is_ref: bool,
    },
    /// `import`.
    Import(Vec<ImportTarget>),
}

/// A module's tree.
#[derive(Debug)]
pub struct Ast {
    pub(crate) nodes: Vec<Node>,
    pub(crate) spans: Vec<Span>,
    pub(crate) line_starts: Vec<u32>,
}

impl Ast {
    /// The node of an id.
    pub closed spec fn at(&self, id: NodeId) -> Option<Node> {
        if (id.0 as int) < self.nodes@.len() {
            Some(self.nodes@[id.0 as int])
        } else {
            None
        }
    }

    /// The source range of a node.
    pub closed spec fn range(&self, id: NodeId) -> Span {
        if (id.0 as int) < self.spans@.len() {
            self.spans@[id.0 as int]
        } else {
            Span::nowhere()
        }
    }

    /// The number of nodes.
    pub closed spec fn size(&self) -> nat {
        self.nodes@.len()
    }

    /// The byte offsets lines after the first start at.
    pub closed spec fn line_marks(&self) -> Seq<u32> {
        self.line_starts@
    }

    /// Each node has a source range.
    pub closed spec fn wf(&self) -> bool {
        self.nodes@.len() == self.spans@.len()
    }

    /// An empty tree.
    pub fn new() -> (r: Ast)
        ensures
            r.size() == 0,
            r.wf(),
            r.line_marks() == Seq::<u32>::empty(),
            forall|id: NodeId| #[trigger] r.at(id) is None,
    {
        let r = Ast { nodes: Vec::new(), spans: Vec::new(), line_starts: Vec::new() };
        assert(r.line_marks() =~= Seq::<u32>::empty());
        r
    }

    /// Adds a node; its id is the number of nodes before it.
    pub fn push(&mut self, node: Node, span: Span) -> (r: NodeId)
        requires
            old(self).wf(),
            old(self).size() < u32::MAX,
        ensures
            final(self).wf(),
            r.0 == old(self).size(),
            final(self).size() == old(self).size() + 1,
            final(self).at(r) == Some(node),
            final(self).range(r) == span,
            final(self).line_marks() == old(self).line_marks(),
            forall|id: NodeId| id != r ==> #[trigger] final(self).at(id) == old(self).at(id),
            forall|id: NodeId| id != r ==> #[trigger] final(self).range(id) == old(self).range(id),
    {
        let id: u32 = self.nodes.len() as u32;
        self.nodes.push(node);
        self.spans.push(span);
        NodeId(id)
    }

    /// Records where a line after the first starts.
    pub fn push_line(&mut self, offset: u32)
        ensures
            final(self).line_marks() == old(self).line_marks().push(offset),
            final(self).size() == old(self).size(),
            final(self).wf() == old(self).wf(),
            forall|id: NodeId| #[trigger] final(self).at(id) == old(self).at(id),
            forall|id: NodeId| #[trigger] final(self).range(id) == old(self).range(id),
    {
        self.line_starts.push(offset);
    }

    /// The node of an id.
    pub fn node(&self, id: NodeId) -> (r: Option<&Node>)
        ensures
            (match r {
                Some(n) => self.at(id) == Some(*n),
                None => self.at(id) is None,
            }),
    {
        if (id.0 as usize) < self.nodes.len() {
            Some(&self.nodes[id.0 as usize])
        } else {
            None
        }
    }

    /// The source range of a node.
    pub fn span(&self, id: NodeId) -> (r: Span)
        ensures
            r == self.range(id),
    {
        if (id.0 as usize) < self.spans.len() {
            self.spans[id.0 as usize]
        } else {
            Span::dummy()
        }
    }

    /// The number of nodes.
    pub fn len(&self) -> (r: usize)
        ensures
            r == self.size(),
    {
        self.nodes.len()
    }

    /// The 1-based line of a byte offset.
    pub fn line_of(&self, offset: u32) -> (r: u32)
        ensures
            r == line_number(self.line_marks(), self.line_marks().len(), offset),
    {
        let mut line: u32 = 1;
        let mut i: usize = 0;
        while i < self.line_starts.len()
            invariant
                i <= self.line_starts@.len(),
                line == line_number(self.line_starts@, i as nat, offset),
            decreases self.line_starts@.len() - i,
        {
            if self.line_starts[i] <= offset && line < u32::MAX {
                line = line + 1;
            }
            i = i + 1;
        }
        line
    }
}

/// One more than how many of the first `n` line marks lie at or before an offset.
pub open spec fn line_number(marks: Seq<u32>, n: nat, offset: u32) -> u32
    decreases n,
{
    if n == 0 || n > marks.len() {
        1
    } else {
        let before = line_number(marks, (n - 1) as nat, offset);
        if marks[n - 1] <= offset && before < u32::MAX {
            (before + 1) as u32
        } else {
            before
        }
    }
}

} // verus!
