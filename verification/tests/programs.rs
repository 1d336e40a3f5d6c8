use doodle_core::ast::Arg;
use doodle_core::ast::Ast;
use doodle_core::ast::BinaryOp;
use doodle_core::ast::DictEntry;
use doodle_core::ast::DictKey;
use doodle_core::ast::IfArm;
use doodle_core::ast::ImportTarget;
use doodle_core::ast::Node;
use doodle_core::ast::NodeId;
use doodle_core::ast::Param;
use doodle_core::ast::StrPart;
use doodle_core::ast::UnaryOp;
use doodle_core::aux_eval::AuxOutcome;
use doodle_core::context::IntrinsicCtx;
use doodle_core::compare::equal;
use doodle_core::drive::CapabilityId;
use doodle_core::drive::Outcome;
use doodle_core::drive::Resolution as Answer;
use doodle_core::drive::resolve;
use doodle_core::drive::resolve_with;
use doodle_core::drive::run;
use doodle_core::drive::run_bounded;
use doodle_core::error::EngineFault;
use doodle_core::error::ExceptionKind;
use doodle_core::error::LimitKind;
use doodle_core::exception::Diagnostic;
use doodle_core::exception::Severity;
use doodle_core::instance::Directive;
use doodle_core::instance::Instance;
use doodle_core::instance::InstanceState;
use doodle_core::instance::ObservationMode;
use doodle_core::instance::PauseReason;
use doodle_core::intrinsic::ForeignBuilder;
use doodle_core::intrinsic::HostError;
use doodle_core::intrinsic::HostReply;
use doodle_core::intrinsic::Intrinsic;
use doodle_core::intrinsic::Registry;
use doodle_core::intrinsic::cos;
use doodle_core::intrinsic::decode;
use doodle_core::intrinsic::draw_line;
use doodle_core::intrinsic::each;
use doodle_core::intrinsic::encode;
use doodle_core::intrinsic::length;
use doodle_core::intrinsic::print;
use doodle_core::intrinsic::read_line;
use doodle_core::intrinsic::set_turtle;
use doodle_core::intrinsic::sin;
use doodle_core::limits::Limits;
use doodle_core::load::Config;
use doodle_core::load::ConfigError;
use doodle_core::load::UnicodeVersion;
use doodle_core::native::ConstValue;
use doodle_core::native::NativeModule;
use doodle_core::protocol::Implementation;
use doodle_core::protocol::WellKnown;
use doodle_core::protocol::dispatch_type_of;
use doodle_core::resolve::BodyKind;
use doodle_core::resolve::CallableInfo;
use doodle_core::resolve::CaptureInfo;
use doodle_core::resolve::ExitTarget;
use doodle_core::resolve::GlobalDecl;
use doodle_core::resolve::GlobalKind;
use doodle_core::resolve::ParamInfo;
use doodle_core::resolve::Resolution;
use doodle_core::resolve::ResolvedModule;
use doodle_core::sourcing::ImportResolution;
use doodle_core::sourcing::resolve_import;
use doodle_core::sourcing::resolve_import_with;
use doodle_core::span::ModuleId;
use doodle_core::span::Span;
use doodle_core::turn::BlockOutcome;
use doodle_core::turn::TurnOf;
use doodle_core::value::Kind;
use doodle_core::value::Value;
use doodle_core::values::value_of;
use doodle_core::values::ValueError;

// A small front end: enough of a reader to write the programs under test as text.

#[derive(Clone, PartialEq, Debug)]
enum Tok {
    Int(String),
    Float(f64),
    Str(Vec<(bool, String, u32)>),
    Word(String),
    Sym(&'static str),
    Line,
    End,
}

const SYMBOLS: [&str; 27] = [
    "**", "//", "==", "!=", "<=", ">=", "+", "-", "*", "/", "%", "<", ">", "=", "(", ")", "[", "]",
    "{", "}", ",", ":", ".", "!", ";", "?", "&",
];

fn lex(src: &str) -> Vec<(Tok, u32, u32)> {
    let b: Vec<char> = src.chars().collect();
    let mut out = Vec::new();
    let mut i = 0;
    while i < b.len() {
        let start = i;
        let c = b[i];
        if c == '\n' {
            i += 1;
            out.push((Tok::Line, start as u32, i as u32));
        } else if c == ' ' {
            i += 1;
        } else if c.is_ascii_digit() {
            while i < b.len() && b[i].is_ascii_digit() {
                i += 1;
            }
            if i + 1 < b.len() && b[i] == '.' && b[i + 1].is_ascii_digit() {
                i += 1;
                while i < b.len() && b[i].is_ascii_digit() {
                    i += 1;
                }
                let text: String = b[start..i].iter().collect();
                out.push((Tok::Float(text.parse().unwrap()), start as u32, i as u32));
            } else {
                let text: String = b[start..i].iter().collect();
                out.push((Tok::Int(text), start as u32, i as u32));
            }
        } else if c.is_alphabetic() || c == '_' {
            while i < b.len() && (b[i].is_alphanumeric() || b[i] == '_') {
                i += 1;
            }
            out.push((Tok::Word(b[start..i].iter().collect()), start as u32, i as u32));
        } else if c == '"' {
            i += 1;
            let mut parts = Vec::new();
            let mut text = String::new();
            while b[i] != '"' {
                if b[i] == '{' {
                    parts.push((false, text.clone(), 0));
                    text.clear();
                    let from = i + 1;
                    while b[i] != '}' {
                        i += 1;
                    }
                    parts.push((true, b[from..i].iter().collect(), from as u32));
                } else {
                    text.push(b[i]);
                }
                i += 1;
            }
            parts.push((false, text, 0));
            i += 1;
            out.push((Tok::Str(parts), start as u32, i as u32));
        } else {
            let rest: String = b[i..b.len().min(i + 2)].iter().collect();
            let sym = SYMBOLS.iter().find(|s| rest.starts_with(**s)).unwrap();
            i += sym.len();
            out.push((Tok::Sym(sym), start as u32, i as u32));
        }
    }
    out.push((Tok::Line, b.len() as u32, b.len() as u32));
    out.push((Tok::End, b.len() as u32, b.len() as u32));
    out
}

#[derive(PartialEq, Clone, Copy)]
enum ScopeKind {
    Module,
    Callable,
    Block,
}

struct Scope {
    kind: ScopeKind,
    names: Vec<(String, u16)>,
    slot_names: Vec<String>,
    boxed: Vec<bool>,
    captures: Vec<CaptureInfo>,
    loops: Vec<NodeId>,
    guards: usize,
}

impl Scope {
    fn new(kind: ScopeKind) -> Scope {
        Scope {
            kind,
            names: Vec::new(),
            slot_names: Vec::new(),
            boxed: Vec::new(),
            captures: Vec::new(),
            loops: Vec::new(),
            guards: 0,
        }
    }

    fn slot(&mut self, name: &str) -> u16 {
        let slot = self.slot_names.len() as u16;
        self.slot_names.push(name.to_string());
        self.boxed.push(false);
        self.names.push((name.to_string(), slot));
        slot
    }
}

struct Reader {
    toks: Vec<(Tok, u32, u32)>,
    at: usize,
    ast: Ast,
    scopes: Vec<Scope>,
    callables: Vec<CallableInfo>,
    globals: Vec<GlobalDecl>,
    name_refs: Vec<String>,
    resolutions: Vec<Option<Resolution>>,
    exit_targets: Vec<Option<ExitTarget>>,
    tail_calls: Vec<bool>,
    stmt_spans: Vec<(Span, NodeId)>,
}

impl Reader {
    fn peek(&self) -> Tok {
        self.toks[self.at].0.clone()
    }

    fn start(&self) -> u32 {
        self.toks[self.at].1
    }

    fn end(&self) -> u32 {
        self.toks[self.at - 1].2
    }

    fn take(&mut self) -> Tok {
        self.at += 1;
        self.toks[self.at - 1].0.clone()
    }

    fn sym(&mut self, s: &'static str) -> bool {
        if self.peek() == Tok::Sym(s) {
            self.at += 1;
            true
        } else {
            false
        }
    }

    fn need(&mut self, s: &'static str) {
        let at = self.at;
        assert!(self.sym(s), "expected {s} at token {at}: {:?}", self.peek());
    }

    fn word(&mut self, w: &str) -> bool {
        if self.peek() == Tok::Word(w.to_string()) {
            self.at += 1;
            true
        } else {
            false
        }
    }

    fn name(&mut self) -> String {
        match self.take() {
            Tok::Word(w) => w,
            other => panic!("expected a name, got {other:?}"),
        }
    }

    fn node(&mut self, node: Node, start: u32) -> NodeId {
        let end = self.end();
        self.node_at(node, start, end)
    }

    fn node_at(&mut self, node: Node, start: u32, end: u32) -> NodeId {
        self.resolutions.push(None);
        self.exit_targets.push(None);
        self.tail_calls.push(false);
        self.ast.push(node, Span { start, end })
    }

    fn resolve(&mut self, id: NodeId, r: Resolution) {
        self.resolutions[id.0 as usize] = Some(r);
    }

    fn lookup(&mut self, frame: usize, name: &str) -> Option<(u16, u16)> {
        let found = self.scopes[frame].names.iter().rev().find(|n| n.0 == name).map(|n| n.1);
        if let Some(slot) = found {
            return Some((0, slot));
        }
        match self.scopes[frame].kind {
            ScopeKind::Module => None,
            ScopeKind::Block => self.lookup(frame - 1, name).map(|(h, s)| (h + 1, s)),
            ScopeKind::Callable => {
                let (hops, from_slot) = self.lookup(frame - 1, name)?;
                let owner = frame - 1 - hops as usize;
                self.scopes[owner].boxed[from_slot as usize] = true;
                let slot = self.scopes[frame].slot(name);
                self.scopes[frame].captures.push(CaptureInfo { slot, hops, from_slot });
                Some((0, slot))
            }
        }
    }

    fn refer(&mut self, name: &str) -> Resolution {
        match self.lookup(self.scopes.len() - 1, name) {
            Some((0, slot)) => Resolution::LocalSlot(slot),
            Some((hops, slot)) => Resolution::BlockOuter { hops, slot },
            None => {
                let known = self.name_refs.iter().position(|n| n == name);
                let i = known.unwrap_or_else(|| {
                    self.name_refs.push(name.to_string());
                    self.name_refs.len() - 1
                });
                Resolution::ModuleName(i as u32)
            }
        }
    }

    fn at_module(&self) -> bool {
        self.scopes.len() == 1
    }

    fn declare(&mut self, name: &str, kind: GlobalKind) -> Option<u16> {
        if self.at_module() {
            self.globals.push(GlobalDecl { name: name.to_string(), kind, decl: NodeId(0) });
            None
        } else {
            Some(self.scopes.last_mut().unwrap().slot(name))
        }
    }

    fn declared(&mut self, id: NodeId, name: &str, slot: Option<u16>) {
        match slot {
            Some(s) => self.resolve(id, Resolution::LocalSlot(s)),
            None => {
                let g = self.globals.iter_mut().rev().find(|g| g.name == name).unwrap();
                g.decl = id;
            }
        }
    }

    fn skip_lines(&mut self) {
        while self.peek() == Tok::Line {
            self.at += 1;
        }
    }

    fn body(&mut self, enders: &[&str]) -> NodeId {
        let start = self.start();
        let stmts = self.stmts(enders);
        self.node(Node::Block(stmts), start)
    }

    fn stmts(&mut self, enders: &[&str]) -> Vec<NodeId> {
        let mut stmts = Vec::new();
        loop {
            self.skip_lines();
            if self.peek() == Tok::End {
                return stmts;
            }
            if let Tok::Word(w) = self.peek() {
                if enders.contains(&w.as_str()) {
                    return stmts;
                }
            }
            let s = self.stmt();
            let span = self.ast.span(s);
            self.stmt_spans.push((span, s));
            stmts.push(s);
        }
    }

    fn callable_parts(&mut self, kind: BodyKind, scope: ScopeKind) -> (Vec<Param>, NodeId, Scope, Vec<ParamInfo>, Option<Span>) {
        self.scopes.push(Scope::new(scope));
        let mut params = Vec::new();
        let mut infos = Vec::new();
        if self.sym("(") {
            while !self.sym(")") {
                let block = self.sym("&");
                let name = self.name();
                let slot = self.scopes.last_mut().unwrap().slot(&name);
                let default = if self.sym("=") { Some(self.expr()) } else { None };
                infos.push(ParamInfo {
                    name: name.clone(),
                    slot,
                    is_block: block,
                    has_default: default.is_some(),
                });
                params.push(if block {
                    Param::Block { name }
                } else {
                    Param::Ordinary { name, default }
                });
                self.sym(",");
            }
        }
        self.skip_lines();
        let doc = match self.peek() {
            Tok::Str(_) if scope == ScopeKind::Callable => {
                Some(Span { start: self.start(), end: self.toks[self.at].2 })
            }
            _ => None,
        };
        let body = self.body(&["end"]);
        if kind != BodyKind::Block {
            let last = match self.ast.node(body) {
                Some(Node::Block(stmts)) => stmts.last().copied(),
                _ => None,
            };
            if let Some(s) = last {
                if kind == BodyKind::Proc {
                    self.mark_tail(s);
                }
            }
        }
        assert!(self.word("end"));
        let scope = self.scopes.pop().unwrap();
        (params, body, scope, infos, doc)
    }

    fn mark_tail(&mut self, id: NodeId) {
        if matches!(self.ast.node(id), Some(Node::Call { .. })) {
            self.tail_calls[id.0 as usize] = true;
        }
    }

    fn info(&mut self, decl: NodeId, body: NodeId, kind: BodyKind, scope: Scope, params: Vec<ParamInfo>) {
        self.callables.push(CallableInfo {
            decl,
            body,
            kind,
            params,
            slot_count: scope.slot_names.len() as u16,
            cell_boxed: scope.boxed,
            captures: scope.captures,
            slot_names: scope.slot_names,
        });
    }

    fn stmt(&mut self) -> NodeId {
        let start = self.start();
        for (w, kind) in [("let", 0), ("const", 1), ("parameter", 2)] {
            if self.word(w) {
                let name = self.name();
                self.need("=");
                let value = self.expr();
                let (g, node) = match kind {
                    0 => (GlobalKind::Let, Node::Let { name: name.clone(), value }),
                    1 => (GlobalKind::Const, Node::Const { name: name.clone(), value }),
                    _ => (GlobalKind::Parameter, Node::Parameter { name: name.clone(), value }),
                };
                let slot = self.declare(&name, g);
                let id = self.node(node, start);
                self.declared(id, &name, slot);
                return id;
            }
        }
        for (w, kind) in [("to", BodyKind::Proc), ("fn", BodyKind::Func)] {
            let named = matches!(self.toks[self.at + 1].0, Tok::Word(_));
            if named && self.word(w) {
                let name = self.name();
                let g = if kind == BodyKind::Proc { GlobalKind::Proc } else { GlobalKind::Fn };
                let slot = self.declare(&name, g);
                let (params, body, scope, infos, doc) =
                    self.callable_parts(kind, ScopeKind::Callable);
                let id = self.node(
                    Node::Callable { name: Some(name.clone()), params, body, doc },
                    start,
                );
                self.declared(id, &name, slot);
                self.info(id, body, kind, scope, infos);
                return id;
            }
        }
        let is_ref = self.word("ref");
        if self.word("record") {
            let name = self.name();
            let mut fields = Vec::new();
            self.need("(");
            while !self.sym(")") {
                fields.push(self.name());
                self.sym(",");
            }
            let slot = self.declare(&name, GlobalKind::Record);
            let id = self.node(Node::Record { name: name.clone(), fields, is_ref }, start);
            self.declared(id, &name, slot);
            return id;
        }
        if self.word("import") {
            let mut targets = Vec::new();
            loop {
                let mut path = vec![self.name()];
                let mut wildcard = false;
                while self.sym(".") {
                    if self.sym("*") {
                        wildcard = true;
                    } else {
                        path.push(self.name());
                    }
                }
                let alias = if self.word("as") { Some(self.name()) } else { None };
                targets.push(ImportTarget { path, alias, wildcard });
                if !self.sym(",") {
                    break;
                }
            }
            return self.node(Node::Import(targets), start);
        }
        if self.word("if") {
            let mut arms = Vec::new();
            let mut else_body = None;
            let cond = self.expr();
            assert!(self.word("do"));
            let body = self.body(&["elif", "else", "end"]);
            arms.push(IfArm { cond, body });
            loop {
                if self.word("elif") {
                    let cond = self.expr();
                    assert!(self.word("do"));
                    let body = self.body(&["elif", "else", "end"]);
                    arms.push(IfArm { cond, body });
                } else if self.word("else") {
                    else_body = Some(self.body(&["end"]));
                } else {
                    assert!(self.word("end"));
                    return self.node(Node::If { arms, else_body }, start);
                }
            }
        }
        if self.word("while") {
            let cond = self.expr();
            assert!(self.word("do"));
            // The node of a loop is the target of the exits inside it, so it is made first.
            let id = self.node(Node::NilLit, start);
            self.scopes.last_mut().unwrap().loops.push(id);
            let body = self.body(&["end"]);
            assert!(self.word("end"));
            self.scopes.last_mut().unwrap().loops.pop();
            return self.remake(id, Node::While { cond, body }, start);
        }
        if self.word("loop") {
            assert!(self.word("do"));
            let id = self.node(Node::NilLit, start);
            self.scopes.last_mut().unwrap().loops.push(id);
            let body = self.body(&["end"]);
            assert!(self.word("end"));
            self.scopes.last_mut().unwrap().loops.pop();
            return self.remake(id, Node::Loop { body }, start);
        }
        if self.word("try") {
            self.scopes.last_mut().unwrap().guards += 1;
            let body = self.body(&["rescue"]);
            self.scopes.last_mut().unwrap().guards -= 1;
            assert!(self.word("rescue"));
            let name = self.name();
            let slot = self.scopes.last_mut().unwrap().slot(&name);
            let rescue_body = self.body(&["end"]);
            assert!(self.word("end"));
            let id = self.node(Node::Try { body, rescue_body }, start);
            self.resolve(id, Resolution::LocalSlot(slot));
            return id;
        }
        if self.word("with") {
            let name = self.name();
            self.need("=");
            let value = self.expr();
            assert!(self.word("do"));
            self.scopes.last_mut().unwrap().guards += 1;
            let body = self.body(&["end"]);
            self.scopes.last_mut().unwrap().guards -= 1;
            assert!(self.word("end"));
            let id = self.node(Node::With { value, body }, start);
            let r = self.refer(&name);
            self.resolve(id, r);
            return id;
        }
        if self.word("raise") {
            let e = self.operand();
            return self.node(Node::Raise(e), start);
        }
        if self.word("return") {
            let e = self.operand();
            if let Some(call) = e {
                let scope = self.scopes.last().unwrap();
                if scope.kind == ScopeKind::Callable && scope.guards == 0 {
                    self.mark_tail(call);
                }
            }
            let id = self.node(Node::Return(e), start);
            self.exit_targets[id.0 as usize] = Some(ExitTarget::Callable);
            return id;
        }
        for (w, again) in [("break", false), ("continue", true)] {
            if self.word(w) {
                let e = self.operand();
                let node = if again { Node::Continue(e) } else { Node::Break(e) };
                let id = self.node(node, start);
                let target = match self.scopes.last().unwrap().loops.last() {
                    Some(l) => ExitTarget::Loop(*l),
                    None => ExitTarget::Block,
                };
                self.exit_targets[id.0 as usize] = Some(target);
                return id;
            }
        }
        let e = self.expr();
        if self.sym("=") {
            let value = self.expr();
            return self.node(Node::Assign { target: e, value }, start);
        }
        e
    }

    /// Rebuilds the tree with a node replaced, which stands where a placeholder stood.
    fn remake(&mut self, id: NodeId, node: Node, start: u32) -> NodeId {
        let end = self.end();
        let old = std::mem::replace(&mut self.ast, Ast::new());
        self.ast = replace(old, id, node, Span { start, end });
        id
    }

    fn operand(&mut self) -> Option<NodeId> {
        if self.peek() == Tok::Line {
            None
        } else {
            Some(self.expr())
        }
    }

    fn expr(&mut self) -> NodeId {
        self.binary(0)
    }

    fn binary(&mut self, level: usize) -> NodeId {
        let levels: [&[(&str, BinaryOp)]; 7] = [
            &[("or", BinaryOp::Or)],
            &[("and", BinaryOp::And)],
            &[("==", BinaryOp::Eq), ("!=", BinaryOp::Ne), ("is", BinaryOp::Is)],
            &[
                ("<", BinaryOp::Lt),
                (">", BinaryOp::Gt),
                ("<=", BinaryOp::Le),
                (">=", BinaryOp::Ge),
            ],
            &[("+", BinaryOp::Add), ("-", BinaryOp::Sub)],
            &[
                ("*", BinaryOp::Mul),
                ("/", BinaryOp::Div),
                ("//", BinaryOp::FloorDiv),
                ("%", BinaryOp::Rem),
            ],
            &[("**", BinaryOp::Pow)],
        ];
        if level == levels.len() {
            return self.unary();
        }
        let start = self.start();
        let mut lhs = self.binary(level + 1);
        loop {
            let found = levels[level].iter().find(|(s, _)| match self.peek() {
                Tok::Sym(t) => t == *s,
                Tok::Word(w) => w == *s,
                _ => false,
            });
            let Some((_, op)) = found else {
                return lhs;
            };
            self.at += 1;
            let rhs = self.binary(level + 1);
            lhs = self.node(Node::Binary { op: *op, lhs, rhs }, start);
        }
    }

    fn unary(&mut self) -> NodeId {
        let start = self.start();
        let op = if self.sym("-") {
            UnaryOp::Neg
        } else if self.sym("+") {
            UnaryOp::Pos
        } else if self.word("not") {
            UnaryOp::Not
        } else {
            return self.postfix();
        };
        let operand = self.unary();
        self.node(Node::Unary { op, operand }, start)
    }

    fn postfix(&mut self) -> NodeId {
        let start = self.start();
        let mut e = self.primary();
        loop {
            if self.sym("(") {
                let mut args = Vec::new();
                while !self.sym(")") {
                    let keyword = self.toks[self.at + 1].0 == Tok::Sym(":");
                    if keyword {
                        let name = self.name();
                        self.need(":");
                        args.push(Arg::Keyword { name, value: self.expr() });
                    } else {
                        args.push(Arg::Positional(self.expr()));
                    }
                    self.sym(",");
                }
                let block = if self.word("do") {
                    let (_, body, scope, infos, _) =
                        self.callable_parts(BodyKind::Block, ScopeKind::Block);
                    self.info(body, body, BodyKind::Block, scope, infos);
                    Some(body)
                } else {
                    None
                };
                e = self.node(Node::Call { callee: e, args, block }, start);
            } else if self.sym("[") {
                let index = self.expr();
                self.need("]");
                e = self.node(Node::Index { object: e, index }, start);
            } else if self.sym(".") {
                let name = self.name();
                e = self.node(Node::Field { object: e, name }, start);
            } else {
                return e;
            }
        }
    }

    fn primary(&mut self) -> NodeId {
        let start = self.start();
        match self.take() {
            Tok::Int(digits) => match digits.parse::<i64>() {
                Ok(n) => self.node(Node::IntLit(n), start),
                Err(_) => self.node(Node::BigIntLit { radix: 10, digits }, start),
            },
            Tok::Float(x) => self.node(Node::FloatLit(x.to_bits()), start),
            Tok::Str(parts) => {
                let end = self.end();
                let mut out = Vec::new();
                for (interpolated, text, _) in parts {
                    if interpolated {
                        let mut inner = lex(&text);
                        std::mem::swap(&mut inner, &mut self.toks);
                        let at = std::mem::replace(&mut self.at, 0);
                        out.push(StrPart::Interp(self.expr()));
                        self.toks = inner;
                        self.at = at;
                    } else if !text.is_empty() {
                        out.push(StrPart::Text(text));
                    }
                }
                self.node_at(Node::StrLit(out), start, end)
            }
            Tok::Sym("(") => {
                let e = self.expr();
                self.need(")");
                e
            }
            Tok::Sym("[") => {
                let mut items = Vec::new();
                while !self.sym("]") {
                    items.push(self.expr());
                    self.sym(",");
                }
                self.node(Node::List(items), start)
            }
            Tok::Sym("{") => {
                let mut entries = Vec::new();
                while !self.sym("}") {
                    let bare = matches!(self.peek(), Tok::Word(_))
                        && self.toks[self.at + 1].0 == Tok::Sym(":");
                    let key = if bare {
                        DictKey::Bare(self.name())
                    } else {
                        DictKey::Expr(self.expr())
                    };
                    self.need(":");
                    entries.push(DictEntry { key, value: self.expr() });
                    self.sym(",");
                }
                self.node(Node::Dict(entries), start)
            }
            Tok::Word(w) if w == "true" => self.node(Node::BoolLit(true), start),
            Tok::Word(w) if w == "false" => self.node(Node::BoolLit(false), start),
            Tok::Word(w) if w == "nil" => self.node(Node::NilLit, start),
            Tok::Word(w) if w == "fn" || w == "to" => {
                let kind = if w == "fn" { BodyKind::Func } else { BodyKind::Proc };
                let (params, body, scope, infos, doc) =
                    self.callable_parts(kind, ScopeKind::Callable);
                let id = self.node(Node::Callable { name: None, params, body, doc }, start);
                self.info(id, body, kind, scope, infos);
                id
            }
            Tok::Word(w) => {
                let id = self.node(Node::Ident(w.clone()), start);
                let r = self.refer(&w);
                self.resolve(id, r);
                id
            }
            other => panic!("unexpected {other:?}"),
        }
    }
}

fn replace(old: Ast, id: NodeId, node: Node, span: Span) -> Ast {
    // The tree is rebuilt node by node; nothing in it is shared.
    let mut out = Ast::new();
    let mut node = Some(node);
    let n = old.len();
    for i in 0..n {
        let here = NodeId(i as u32);
        if here == id {
            out.push(node.take().unwrap(), span);
        } else {
            out.push(copy(old.node(here).unwrap()), old.span(here));
        }
    }
    out
}

fn copy_arg(a: &Arg) -> Arg {
    match a {
        Arg::Positional(v) => Arg::Positional(*v),
        Arg::Keyword { name, value } => Arg::Keyword { name: name.clone(), value: *value },
    }
}

fn copy_param(p: &Param) -> Param {
    match p {
        Param::Ordinary { name, default } => {
            Param::Ordinary { name: name.clone(), default: *default }
        }
        Param::Block { name } => Param::Block { name: name.clone() },
    }
}

fn copy(n: &Node) -> Node {
    match n {
        Node::Module { stmts, doc } => Node::Module { stmts: stmts.clone(), doc: *doc },
        Node::Block(s) => Node::Block(s.clone()),
        Node::IntLit(n) => Node::IntLit(*n),
        Node::FloatLit(x) => Node::FloatLit(*x),
        Node::BoolLit(b) => Node::BoolLit(*b),
        Node::NilLit => Node::NilLit,
        Node::BytesLit(b) => Node::BytesLit(b.clone()),
        Node::StrLit(parts) => Node::StrLit(
            parts
                .iter()
                .map(|p| match p {
                    StrPart::Text(t) => StrPart::Text(t.clone()),
                    StrPart::Interp(e) => StrPart::Interp(*e),
                })
                .collect(),
        ),
        Node::BigIntLit { radix, digits } => {
            Node::BigIntLit { radix: *radix, digits: digits.clone() }
        }
        Node::List(items) => Node::List(items.clone()),
        Node::Dict(entries) => Node::Dict(
            entries
                .iter()
                .map(|e| DictEntry {
                    key: match &e.key {
                        DictKey::Bare(w) => DictKey::Bare(w.clone()),
                        DictKey::Expr(e) => DictKey::Expr(*e),
                    },
                    value: e.value,
                })
                .collect(),
        ),
        Node::Ident(w) => Node::Ident(w.clone()),
        Node::If { arms, else_body } => Node::If { arms: arms.clone(), else_body: *else_body },
        Node::While { cond, body } => Node::While { cond: *cond, body: *body },
        Node::Loop { body } => Node::Loop { body: *body },
        Node::Try { body, rescue_body } => Node::Try { body: *body, rescue_body: *rescue_body },
        Node::Raise(e) => Node::Raise(*e),
        Node::Return(e) => Node::Return(*e),
        Node::Break(e) => Node::Break(*e),
        Node::Continue(e) => Node::Continue(*e),
        Node::With { value, body } => Node::With { value: *value, body: *body },
        Node::Binary { op, lhs, rhs } => Node::Binary { op: *op, lhs: *lhs, rhs: *rhs },
        Node::Unary { op, operand } => Node::Unary { op: *op, operand: *operand },
        Node::Field { object, name } => Node::Field { object: *object, name: name.clone() },
        Node::Index { object, index } => Node::Index { object: *object, index: *index },
        Node::Call { callee, args, block } => Node::Call {
            callee: *callee,
            args: args.iter().map(copy_arg).collect(),
            block: *block,
        },
        Node::Callable { name, params, body, doc } => Node::Callable {
            name: name.clone(),
            params: params.iter().map(copy_param).collect(),
            body: *body,
            doc: *doc,
        },
        Node::Let { name, value } => Node::Let { name: name.clone(), value: *value },
        Node::Const { name, value } => Node::Const { name: name.clone(), value: *value },
        Node::Parameter { name, value } => {
            Node::Parameter { name: name.clone(), value: *value }
        }
        Node::Assign { target, value } => Node::Assign { target: *target, value: *value },
        Node::Record { name, fields, is_ref } => {
            Node::Record { name: name.clone(), fields: fields.clone(), is_ref: *is_ref }
        }
        Node::Import(targets) => Node::Import(
            targets
                .iter()
                .map(|t| ImportTarget {
                    path: t.path.clone(),
                    alias: t.alias.clone(),
                    wildcard: t.wildcard,
                })
                .collect(),
        ),
    }
}

/// Reads a module, numbered as given.
fn module(src: &str, id: u32) -> ResolvedModule {
    let mut r = Reader {
        toks: lex(src),
        at: 0,
        ast: Ast::new(),
        scopes: vec![Scope::new(ScopeKind::Module)],
        callables: Vec::new(),
        globals: Vec::new(),
        name_refs: Vec::new(),
        resolutions: Vec::new(),
        exit_targets: Vec::new(),
        tail_calls: Vec::new(),
        stmt_spans: Vec::new(),
    };
    let stmts = r.stmts(&[]);
    let end = src.chars().count() as u32;
    let root = r.node_at(Node::Module { stmts, doc: None }, 0, end);
    for (i, c) in src.chars().enumerate() {
        if c == '\n' {
            r.ast.push_line(i as u32 + 1);
        }
    }
    let scope = r.scopes.pop().unwrap();
    r.info(root, root, BodyKind::ModuleTopLevel, scope, Vec::new());
    ResolvedModule {
        canonical_id: ModuleId(id),
        ast: r.ast,
        root,
        stmt_spans: r.stmt_spans,
        callables: r.callables,
        globals: r.globals,
        exports: None,
        name_refs: r.name_refs,
        resolutions: r.resolutions,
        exit_targets: r.exit_targets,
        tail_calls: r.tail_calls,
    }
}

// The host's side of a drive: it runs its own functions and answers.

type HostFn = fn(&mut Host, &mut Instance) -> HostReply;

struct Host {
    functions: Vec<HostFn>,
    stopped: Option<Outcome>,
}

impl Host {
    fn call(&mut self, inst: &mut Instance, n: u32) -> Option<Outcome> {
        let f = self.functions[n as usize];
        let reply = f(self, inst);
        if self.stopped.is_some() {
            return self.stopped.take();
        }
        inst.answer_call(reply);
        None
    }

    fn finish(&mut self, inst: &mut Instance, first: Outcome) -> Outcome {
        let mut outcome = first;
        loop {
            match outcome {
                Outcome::HostCall(n) => {
                    if let Some(o) = self.call(inst, n) {
                        return o;
                    }
                    outcome = inst.go_on();
                }
                other => return other,
            }
        }
    }

    /// Has the block of the running call run, as far as it goes.
    fn invoke(&mut self, inst: &mut Instance, args: &[doodle_core::handle::Handle]) -> BlockOutcome {
        if let Some(done) = inst.invoke_block_handles(args) {
            return done;
        }
        let first = inst.go_on();
        match self.finish(inst, first) {
            Outcome::BlockDone(done) => done,
            other => {
                self.stopped = Some(other);
                BlockOutcome::Halted
            }
        }
    }
}

fn registry_with(intrinsics: Vec<Intrinsic>) -> Registry {
    let mut r = Registry::new();
    for i in intrinsics {
        r.register(i).unwrap();
    }
    r
}

fn run_hosted(src: &str, registry: Registry, functions: Vec<HostFn>) -> (Instance, Outcome) {
    let mut inst = Instance::load_with_intrinsics(module(src, 0), registry);
    let mut host = Host { functions, stopped: None };
    let first = run(&mut inst, Directive::RunToCompletion);
    let outcome = host.finish(&mut inst, first);
    (inst, outcome)
}

fn run_with(src: &str, registry: Registry) -> (Instance, Outcome) {
    run_hosted(src, registry, Vec::new())
}

/// What a program prints.
fn printed(src: &str) -> String {
    let (inst, outcome) = run_with(src, registry_with(vec![print()]));
    assert!(matches!(outcome, Outcome::Completed(None)), "{outcome:?}");
    String::from_utf8(inst.output().to_vec()).unwrap()
}

/// The kind of the exception that a program ends with.
fn raised(src: &str) -> String {
    let (inst, outcome) = run_with(src, registry_with(vec![print()]));
    match outcome {
        Outcome::Raised(value, _) => inst.describe_raised(value).0,
        other => panic!("expected an exception, got {other:?}"),
    }
}

// Host-registered functions.

fn answer() -> Intrinsic {
    ForeignBuilder::new("answer", BodyKind::Func).host(0)
}

fn answer_42(_: &mut Host, inst: &mut Instance) -> HostReply {
    HostReply::Value(Some(inst.make_int(42)))
}

fn misbehave() -> Intrinsic {
    ForeignBuilder::new("misbehave", BodyKind::Proc).block_param("body").host(0)
}

/// Has its block run again after a transfer left it.
fn redrives_after_a_non_local_exit(host: &mut Host, inst: &mut Instance) -> HostReply {
    let zero = inst.make_int(0);
    assert_eq!(host.invoke(inst, &[zero]), BlockOutcome::NonLocalExit);
    host.invoke(inst, &[zero]);
    HostReply::Value(None)
}

/// Answers with a value after a transfer left its block.
fn returns_a_value_after_a_non_local_exit(host: &mut Host, inst: &mut Instance) -> HostReply {
    let zero = inst.make_int(0);
    assert_eq!(host.invoke(inst, &[zero]), BlockOutcome::NonLocalExit);
    HostReply::Value(Some(inst.make_int(42)))
}

fn proc_consumer() -> Intrinsic {
    ForeignBuilder::new("consume", BodyKind::Proc).block_param("body").host(0)
}

fn consume_once(host: &mut Host, inst: &mut Instance) -> HostReply {
    let zero = inst.make_int(0);
    host.invoke(inst, &[zero]);
    HostReply::Value(None)
}

#[test]
fn intrinsic_register_rejects_a_duplicate_name() {
    let mut r = Registry::new();
    r.register(print()).unwrap();
    assert_eq!(
        r.register(print()),
        Err(HostError::DuplicateIntrinsic("print".to_string()))
    );
}

#[test]
fn intrinsic_register_rejects_a_builtin_type_value_name() {
    let mut r = Registry::new();
    let shadow_int = ForeignBuilder::new("Int", BodyKind::Func).host(0);
    assert_eq!(
        r.register(shadow_int),
        Err(HostError::CollidesWithBuiltin("Int".to_string()))
    );
}

#[test]
fn intrinsic_print_renders_its_argument_and_appends_a_newline() {
    let (inst, outcome) = run_with("print(1 + 2)\n", registry_with(vec![print()]));
    assert!(matches!(outcome, Outcome::Completed(None)), "{outcome:?}");
    assert_eq!(inst.output(), b"3\n");
}

#[test]
fn intrinsic_print_renders_each_demo_scalar_kind() {
    let (inst, _) = run_with(
        "print(nil)\nprint(true)\nprint(-7)\nprint(1.5)\nprint(\"hi\")\n",
        registry_with(vec![print()]),
    );
    assert_eq!(inst.output(), b"nil\ntrue\n-7\n1.5\nhi\n");
}

#[test]
fn intrinsic_an_fn_intrinsic_yields_a_value_the_call_consumes() {
    let (inst, _) = run_hosted(
        "print(answer())\n",
        registry_with(vec![print(), answer()]),
        vec![answer_42],
    );
    assert_eq!(inst.output(), b"42\n");
}

#[test]
fn intrinsic_a_user_declaration_shadows_an_intrinsic() {
    let (inst, outcome) = run_with(
        "to print(x)\nx\nend\nprint(\"hi\")\n",
        registry_with(vec![print()]),
    );
    assert!(matches!(outcome, Outcome::Completed(None)), "{outcome:?}");
    assert_eq!(inst.output(), b"", "the registered print was shadowed");
}

#[test]
fn intrinsic_a_missing_argument_raises() {
    let (_, outcome) = run_with("print()\n", registry_with(vec![print()]));
    assert!(matches!(outcome, Outcome::Raised(..)), "{outcome:?}");
}

#[test]
fn intrinsic_a_block_passed_to_a_block_less_intrinsic_raises() {
    let (_, outcome) = run_with("print(1) do\n1\nend\n", registry_with(vec![print()]));
    assert!(matches!(outcome, Outcome::Raised(..)), "{outcome:?}");
}

#[test]
fn intrinsic_a_to_intrinsic_result_used_as_a_value_raises() {
    let (_, outcome) = run_with("print(1) + 1\n", registry_with(vec![print()]));
    assert!(matches!(outcome, Outcome::Raised(..)), "{outcome:?}");
}

#[test]
fn tests_register_rejects_a_duplicate_name() {
    let mut r = Registry::new();
    r.register(print()).unwrap();
    assert_eq!(
        r.register(print()),
        Err(HostError::DuplicateIntrinsic("print".to_string()))
    );
}

#[test]
fn tests_register_rejects_a_builtin_type_value_name() {
    let mut r = Registry::new();
    let shadow_int = ForeignBuilder::new("Int", BodyKind::Func).host(0);
    assert_eq!(
        r.register(shadow_int),
        Err(HostError::CollidesWithBuiltin("Int".to_string()))
    );
}

#[test]
fn tests_print_renders_its_argument_and_appends_a_newline() {
    let (inst, outcome) = run_with("print(1 + 2)\n", registry_with(vec![print()]));
    assert!(matches!(outcome, Outcome::Completed(None)), "{outcome:?}");
    assert_eq!(inst.output(), b"3\n");
}

#[test]
fn tests_print_renders_each_demo_scalar_kind() {
    let (inst, _) = run_with(
        "print(nil)\nprint(true)\nprint(-7)\nprint(1.5)\nprint(\"hi\")\n",
        registry_with(vec![print()]),
    );
    assert_eq!(inst.output(), b"nil\ntrue\n-7\n1.5\nhi\n");
}

#[test]
fn tests_an_fn_intrinsic_yields_a_value_the_call_consumes() {
    let (inst, _) = run_hosted(
        "print(answer())\n",
        registry_with(vec![print(), answer()]),
        vec![answer_42],
    );
    assert_eq!(inst.output(), b"42\n");
}

#[test]
fn tests_a_user_declaration_shadows_an_intrinsic() {
    let (inst, outcome) = run_with(
        "to print(x)\nx\nend\nprint(\"hi\")\n",
        registry_with(vec![print()]),
    );
    assert!(matches!(outcome, Outcome::Completed(None)), "{outcome:?}");
    assert_eq!(inst.output(), b"", "the registered print was shadowed");
}

#[test]
fn tests_a_missing_argument_raises() {
    let (_, outcome) = run_with("print()\n", registry_with(vec![print()]));
    assert!(matches!(outcome, Outcome::Raised(..)), "{outcome:?}");
}

#[test]
fn tests_a_block_passed_to_a_block_less_intrinsic_raises() {
    let (_, outcome) = run_with("print(1) do\n1\nend\n", registry_with(vec![print()]));
    assert!(matches!(outcome, Outcome::Raised(..)), "{outcome:?}");
}

#[test]
fn tests_a_to_intrinsic_result_used_as_a_value_raises() {
    let (_, outcome) = run_with("print(1) + 1\n", registry_with(vec![print()]));
    assert!(matches!(outcome, Outcome::Raised(..)), "{outcome:?}");
}

#[test]
fn a_valued_break_into_a_native_procedure_consumer_raises_no_value_destination() {
    let (inst, outcome) = run_hosted(
        "consume() do (x)\nbreak 5\nend\n",
        registry_with(vec![proc_consumer()]),
        vec![consume_once],
    );
    let Outcome::Raised(value, _) = outcome else {
        panic!("expected an exception, got {outcome:?}");
    };
    let (slug, _) = inst.describe_raised(value);
    assert_eq!(slug, ExceptionKind::NoValueDestination.slug());
}

fn cancel_now() -> Intrinsic {
    ForeignBuilder::new("cancel_now", BodyKind::Proc).host(0)
}

fn request_cancel(_: &mut Host, inst: &mut Instance) -> HostReply {
    inst.cancel_token().cancel();
    HostReply::Value(None)
}

#[test]
fn cancelling_inside_a_native_consumers_reentrant_drive_tears_it_down() {
    // The block requests cancellation and then loops forever: the safe point of the loop,
    // reached inside `each`, sees the request, and the transfer crosses the call.
    let (inst, outcome) = run_hosted(
        "each([1]) do (x)\ncancel_now()\nloop do\n1\nend\nend\n",
        registry_with(vec![each(), cancel_now()]),
        vec![request_cancel],
    );
    assert!(
        matches!(outcome, Outcome::Faulted(EngineFault::Cancelled)),
        "{outcome:?}"
    );
    assert_eq!(inst.state(), InstanceState::Faulted);
}

#[test]
fn sin_and_cos_yield_deterministic_floats() {
    let (inst, _) = run_with(
        "print(sin(0))\nprint(cos(0))\nprint(sin(1.0))\nprint(cos(1.0))\n",
        registry_with(vec![print(), sin(), cos()]),
    );
    assert_eq!(
        inst.output(),
        b"0.0\n1.0\n0.8414709848078965\n0.5403023058681398\n"
    );
}

#[test]
fn a_proc_reassigns_a_module_level_binding() {
    let (inst, outcome) = run_with(
        "let counter = 0\nto bump()\ncounter = counter + 1\nend\nbump()\nbump()\nprint(counter)\n",
        registry_with(vec![print()]),
    );
    assert!(matches!(outcome, Outcome::Completed(None)), "{outcome:?}");
    assert_eq!(inst.output(), b"2\n");
}

#[test]
fn is_string_and_equals_nil_branch_as_the_color_parser_needs() {
    let (inst, _) = run_with(
        "print(\"red\" is String)\nprint(3 is String)\nprint(nil == nil)\nprint(7 == nil)\n",
        registry_with(vec![print()]),
    );
    assert_eq!(inst.output(), b"true\nfalse\ntrue\nfalse\n");
}

#[test]
fn a_drawing_capability_suspends_with_its_args_and_resolves_to_void() {
    let (mut inst, outcome) = run_with(
        "draw_line(0, 0, 10, 20, 255, 128, 0, 255)\n",
        registry_with(vec![draw_line()]),
    );
    let Outcome::Suspended(request) = outcome else {
        panic!("expected Suspended, got {outcome:?}");
    };
    assert_eq!(request.capability, CapabilityId(0));
    let nums: Vec<i64> = request.args.iter().map(|&h| inst.as_int(h).unwrap()).collect();
    assert_eq!(nums, vec![0, 0, 10, 20, 255, 128, 0, 255]);
    let nil = inst.make_nil();
    let done = resolve(&mut inst, Answer::Value(nil));
    assert!(matches!(done, Outcome::Completed(None)), "{done:?}");
    assert_eq!(inst.state(), InstanceState::Completed);
}

#[test]
fn set_turtle_carries_a_pose_and_a_visibility_flag() {
    let (mut inst, outcome) = run_with(
        "set_turtle(5, 7, 90, true)\n",
        registry_with(vec![set_turtle()]),
    );
    let Outcome::Suspended(request) = outcome else {
        panic!("expected Suspended, got {outcome:?}");
    };
    assert_eq!(request.args.len(), 4);
    assert_eq!(inst.as_int(request.args[0]).unwrap(), 5);
    assert_eq!(inst.as_int(request.args[2]).unwrap(), 90);
    assert!(inst.as_bool(request.args[3]).unwrap());
    let nil = inst.make_nil();
    assert!(matches!(
        resolve(&mut inst, Answer::Value(nil)),
        Outcome::Completed(None)
    ));
}

#[test]
fn driving_a_block_again_after_a_non_local_exit_faults() {
    let (inst, outcome) = run_hosted(
        "misbehave() do (x)\nbreak\nend\n",
        registry_with(vec![misbehave()]),
        vec![redrives_after_a_non_local_exit],
    );
    assert!(
        matches!(outcome, Outcome::Faulted(EngineFault::Internal)),
        "{outcome:?}"
    );
    assert_eq!(inst.state(), InstanceState::Faulted);
}

#[test]
fn returning_a_value_after_a_non_local_exit_faults() {
    let (inst, outcome) = run_hosted(
        "misbehave() do (x)\nbreak\nend\n",
        registry_with(vec![misbehave()]),
        vec![returns_a_value_after_a_non_local_exit],
    );
    assert!(
        matches!(outcome, Outcome::Faulted(EngineFault::Internal)),
        "{outcome:?}"
    );
    assert_eq!(inst.state(), InstanceState::Faulted);
}

fn greet() -> Intrinsic {
    ForeignBuilder::new("greet", BodyKind::Proc)
        .default_param("who", ConstValue::Str("world".to_string()))
        .block_param("body")
        .host(0)
}

fn greet_host(host: &mut Host, inst: &mut Instance) -> HostReply {
    let who = inst.arg_handle(0).expect("one bound argument");
    let outcome = host.invoke(inst, &[who]);
    assert_eq!(outcome, BlockOutcome::Completed);
    HostReply::Value(None)
}

#[test]
fn a_foreign_default_and_block_bind_per_l8_3() {
    let (inst, outcome) = run_hosted(
        "greet() do (who)\nprint(who)\nend\ngreet(\"moon\") do (who)\nprint(who)\nend\n",
        registry_with(vec![print(), greet()]),
        vec![greet_host],
    );
    assert!(matches!(outcome, Outcome::Completed(None)), "{outcome:?}");
    assert_eq!(inst.output(), b"world\nmoon\n");
}

#[test]
fn a_materialized_foreign_default_survives_a_gc_during_the_call() {
    let src = "greet() do (who)\nprint(who)\nend\n";
    let mut inst = Instance::load_with_intrinsics(
        module(src, 0),
        registry_with(vec![print(), greet()]),
    );
    inst.collect_at_every_safe_point();
    let mut host = Host { functions: vec![greet_host], stopped: None };
    let first = run(&mut inst, Directive::RunToCompletion);
    let outcome = host.finish(&mut inst, first);
    assert!(matches!(outcome, Outcome::Completed(None)), "{outcome:?}");
    assert_eq!(inst.output(), b"world\n");
}

#[test]
fn a_host_callback_default_and_block_bind_per_l8_3() {
    let (inst, outcome) = run_hosted(
        "greet() do (who)\nprint(who)\nend\ngreet(\"moon\") do (who)\nprint(who)\nend\n",
        registry_with(vec![print(), greet()]),
        vec![greet_host],
    );
    assert!(matches!(outcome, Outcome::Completed(None)), "{outcome:?}");
    assert_eq!(inst.output(), b"world\nmoon\n");
}

fn sum() -> Intrinsic {
    ForeignBuilder::new("add", BodyKind::Func).param("a").param("b").host(0)
}

fn sum_host(_: &mut Host, inst: &mut Instance) -> HostReply {
    let (Some(ha), Some(hb)) = (inst.arg_handle(0), inst.arg_handle(1)) else {
        inst.fault_host();
        return HostReply::Value(None);
    };
    let mut ctx = IntrinsicCtx { instance: inst };
    let (Ok(a), Ok(b)) = (ctx.as_int(ha), ctx.as_int(hb)) else {
        ctx.instance.fault_host();
        return HostReply::Value(None);
    };
    let total = ctx.make_int(a + b);
    ctx.release(ha).ok();
    ctx.release(hb).ok();
    HostReply::Value(Some(total))
}

#[test]
fn a_host_fn_reads_args_and_constructs_a_result_via_the_ctx() {
    let (inst, outcome) = run_hosted(
        "print(add(2, 3))\n",
        registry_with(vec![print(), sum()]),
        vec![sum_host],
    );
    assert!(matches!(outcome, Outcome::Completed(None)), "{outcome:?}");
    assert_eq!(inst.output(), b"5\n");
}

fn boom() -> Intrinsic {
    ForeignBuilder::new("boom", BodyKind::Proc).host(0)
}

fn boom_host(_: &mut Host, inst: &mut Instance) -> HostReply {
    let mut ctx = IntrinsicCtx { instance: inst };
    let msg = ctx.make_string(b"boom").expect("valid UTF-8");
    HostReply::Raise(msg)
}

#[test]
fn a_host_callback_raises_a_ctx_constructed_value() {
    let (inst, outcome) = run_hosted(
        "try\nboom()\nrescue e\nprint(e)\nend\n",
        registry_with(vec![print(), boom()]),
        vec![boom_host],
    );
    assert!(matches!(outcome, Outcome::Completed(None)), "{outcome:?}");
    assert_eq!(inst.output(), b"boom\n");
}

#[test]
fn register_rejects_a_reserved_prelude_name() {
    let make = |name: &str| ForeignBuilder::new(name, BodyKind::Func).host(0);
    for name in ["Int", "Error", "Stringable", "Hashable", "to_string"] {
        let mut reg = Registry::new();
        assert!(
            matches!(
                reg.register(make(name)),
                Err(HostError::CollidesWithBuiltin(_))
            ),
            "`{name}` should be a reserved prelude name"
        );
    }
    assert!(Registry::new().register(make("draw")).is_ok());
}

// The language.

#[test]
fn a_closure_shares_the_binding_it_captured() {
    assert_eq!(
        printed(
            "fn counter()\nlet n = 0\nfn bump()\nn = n + 1\nreturn n\nend\nreturn bump\nend\n\
             let a = counter()\nprint(a())\nprint(a())\nlet b = counter()\nprint(b())\n"
        ),
        "1\n2\n1\n"
    );
}

#[test]
fn a_declaration_in_a_loop_binds_anew_each_time() {
    assert_eq!(
        printed(
            "to go()\nlet d = {}\nlet i = 0\nwhile i < 3 do\nlet x = i\n\
             d[i] = fn () \nreturn x\nend\ni = i + 1\nend\n\
             let f = d[0]\nlet g = d[2]\nprint(f())\nprint(g())\nend\ngo()\n"
        ),
        "0\n2\n"
    );
}

fn limited(stack_depth: u32, step_budget: u64, heap_bytes: u64, op: u64) -> Limits {
    Limits { step_budget, heap_bytes, stack_depth, max_op_result_bytes: op }
}

/// How a program under limits comes out.
fn run_limited(src: &str, limits: Limits) -> (Instance, Outcome) {
    let mut inst = Instance::load_with_intrinsics_and_limits(
        module(src, 0),
        limits,
        registry_with(vec![print()]),
    );
    let outcome = run(&mut inst, Directive::RunToCompletion);
    (inst, outcome)
}

const DOWN: &str =
    "fn down(n)\nif n == 0 do\nreturn \"done\"\nend\nreturn down(n - 1)\nend\nprint(down(1000))\n";

const DEEP: &str = "fn deep(n)\nif n == 0 do\nreturn 0\nend\nreturn 1 + deep(n - 1)\nend\nprint(deep(1000))\n";

#[test]
fn tail_calls_do_not_grow_the_stack() {
    let (inst, outcome) = run_limited(DOWN, limited(8, 1000000, 1 << 28, 1 << 24));
    assert!(matches!(outcome, Outcome::Completed(None)), "{outcome:?}");
    assert_eq!(inst.output(), b"done\n");
}

#[test]
fn other_calls_grow_the_stack_to_its_limit() {
    let (_, outcome) = run_limited(DEEP, limited(100, 1000000, 1 << 28, 1 << 24));
    assert!(
        matches!(outcome, Outcome::Faulted(EngineFault::LimitExceeded(LimitKind::StackDepth))),
        "{outcome:?}"
    );
    let (inst, outcome) = run_limited(DEEP, limited(2000, 1000000, 1 << 28, 1 << 24));
    assert!(matches!(outcome, Outcome::Completed(None)), "{outcome:?}");
    assert_eq!(inst.output(), b"1000\n");
}

#[test]
fn each_safe_point_takes_one_from_the_budget() {
    let mut inst = Instance::load_with_intrinsics_and_limits(
        module(DOWN, 0),
        limited(8, 100000, 1 << 28, 1 << 24),
        registry_with(vec![print()]),
    );
    let mut points: u64 = 0;
    loop {
        let before = inst.machine.meter.fuel.budget;
        let turn = inst.turn();
        let spent = before - inst.machine.meter.fuel.budget;
        match turn {
            TurnOf::SafePoint => {
                assert_eq!(spent, 1);
                points += 1;
            }
            TurnOf::Done => break,
            _ => assert_eq!(spent, 0),
        }
    }
    assert_eq!(inst.machine.meter.fuel.budget, 100000 - points);
    assert!(points > 3000);
}

#[test]
fn a_budget_ends_an_endless_loop() {
    let (inst, outcome) =
        run_limited("loop do\n1\nend\n", limited(100, 50, 1 << 28, 1 << 24));
    assert!(
        matches!(outcome, Outcome::Faulted(EngineFault::LimitExceeded(LimitKind::StepBudget))),
        "{outcome:?}"
    );
    assert_eq!(inst.state(), InstanceState::Faulted);
}

#[test]
fn a_heap_limit_ends_a_program_that_keeps_everything() {
    let (_, outcome) = run_limited(
        "let all = nil\nloop do\nall = [all, all]\nend\n",
        limited(100, 1000000, 100000, 1 << 24),
    );
    assert!(
        matches!(outcome, Outcome::Faulted(EngineFault::LimitExceeded(LimitKind::Heap))),
        "{outcome:?}"
    );
}

#[test]
fn garbage_does_not_count_against_the_heap_limit() {
    let (inst, outcome) = run_limited(
        "let i = 0\nwhile i < 3000 do\n[i, i, i, i]\ni = i + 1\nend\nprint(i)\n",
        limited(100, 1000000, 100000, 1 << 24),
    );
    assert!(matches!(outcome, Outcome::Completed(None)), "{outcome:?}");
    assert_eq!(inst.output(), b"3000\n");
}

#[test]
fn an_operation_with_too_large_a_result_faults_before_it_runs() {
    let (_, outcome) = run_limited(
        "let x = 2 ** 1000000\n",
        limited(100, 1000000, 1 << 28, 1000),
    );
    assert!(
        matches!(outcome, Outcome::Faulted(EngineFault::LimitExceeded(LimitKind::OpResult))),
        "{outcome:?}"
    );
}

#[test]
fn a_with_is_undone_however_it_is_left() {
    assert_eq!(
        printed(
            "parameter p = 1\nto show()\nprint(p)\nend\n\
             try\nwith p = 2 do\nshow()\nraise \"x\"\nend\nrescue e\nprint(e)\nend\nshow()\n\
             to leave()\nwith p = 3 do\nshow()\nreturn\nend\nend\nleave()\nshow()\n\
             while true do\nwith p = 4 do\nshow()\nbreak\nend\nend\nshow()\n"
        ),
        "2\nx\n1\n3\n1\n4\n1\n"
    );
}

#[test]
fn value_records_are_copied_and_reference_records_shared() {
    assert_eq!(
        printed(
            "record P(x)\nref record R(x)\nlet a = P(1)\nlet b = a\nb.x = 2\nprint(a.x)\nprint(b.x)\n\
             print(a == b)\nlet c = R(1)\nlet d = c\nd.x = 2\nprint(c.x)\nprint(c == d)\n\
             let e = P(P(1))\nlet f = e\nprint(e == f)\n"
        ),
        "1\n2\nfalse\n2\ntrue\ntrue\n"
    );
}

#[test]
fn a_dict_keeps_the_first_of_some_equal_keys_in_its_place() {
    let (mut inst, outcome) = run_with(
        "let d = {1: \"a\", 2: \"b\", 1.0: \"c\"}\nd[3] = \"d\"\nd[2.0] = \"e\"\nd[-0.0] = \"z\"\nd[0] = \"y\"\n",
        registry_with(vec![]),
    );
    assert!(matches!(outcome, Outcome::Completed(None)), "{outcome:?}");
    let d = inst.module_global_value(0, 0).unwrap();
    assert_eq!(inst.dict_length(d), Ok(4));
    let mut found = Vec::new();
    for i in 0..3 {
        let k = inst.dict_key(d, i).unwrap();
        let v = inst.dict_value(d, i).unwrap();
        found.push((inst.as_int(k).unwrap(), inst.string_bytes(v).unwrap().to_vec()));
    }
    assert_eq!(
        found,
        vec![(1, b"c".to_vec()), (2, b"e".to_vec()), (3, b"d".to_vec())]
    );
    let zero = inst.dict_key(d, 3).unwrap();
    assert_eq!(inst.kind_of(zero), Ok(Kind::Float));
    let last = inst.dict_value(d, 3).unwrap();
    assert_eq!(inst.string_bytes(last), Ok(&b"y"[..]));
    assert_eq!(inst.dict_key(d, 4), Err(ValueError::IndexOutOfBounds));
}

#[test]
fn a_record_may_be_a_key_and_is_copied_into_the_dict() {
    assert_eq!(
        printed(
            "record P(x)\nlet k = P(1)\nlet d = {}\nd[k] = \"one\"\nk.x = 2\n\
             print(d[P(1)])\ntry\nprint(d[k])\nrescue e\nprint(e.kind)\nend\n"
        ),
        "one\nkey-not-found\n"
    );
}

#[test]
fn equality_is_structural_and_sees_through_cycles_and_order() {
    assert_eq!(
        printed(
            "ref record N(next)\nlet a = N(nil)\na.next = a\nlet b = N(nil)\nb.next = b\n\
             print(a == b)\nprint([1, [2]] == [1.0, [2]])\nprint({1: 2, 3: 4} == {3: 4, 1: 2})\n\
             print({3: 4, 1: 2} == {1: 2, 3: 4})\nprint({1: 2} == {1: 3})\nprint(0.0 == -0.0)\n\
             print(9007199254740993 == 9007199254740992.0)\nprint(nil == false)\n"
        ),
        "true\ntrue\ntrue\ntrue\nfalse\ntrue\nfalse\nfalse\n"
    );
}

#[test]
fn control_flow_runs_as_written() {
    assert_eq!(
        printed(
            "let i = 0\nwhile true do\ni = i + 1\nif i == 2 do\ncontinue\nelif i == 4 do\nbreak\nelse\nprint(i)\nend\nend\n\
             to f(x)\nif x do\nreturn\nend\nprint(\"not left\")\nend\nf(true)\nf(false)\n\
             print(true and false)\nprint(false or true)\nprint(not true)\n"
        ),
        "1\n3\nnot left\nfalse\ntrue\nfalse\n"
    );
}

#[test]
fn arguments_bind_by_position_keyword_and_default() {
    assert_eq!(
        printed(
            "to f(a, b = a + 1, c = 9)\nprint(\"{a} {b} {c}\")\nend\nf(1)\nf(1, c: 5)\nf(b: 7, a: 2)\nf(1, 2, 3)\n"
        ),
        "1 2 9\n1 2 5\n2 7 9\n1 2 3\n"
    );
}

#[test]
fn a_block_yields_to_its_caller_and_leaves_through_its_definer() {
    assert_eq!(
        printed(
            "fn twice(&body)\nreturn body(1) + body(2)\nend\n\
             print(twice() do (x)\nx * 10\nend)\n\
             print(twice() do (x)\ncontinue 5\nend)\n\
             print(twice() do (x)\nbreak 7\nend)\n\
             fn find()\ntwice() do (x)\nif x == 2 do\nreturn \"found {x}\"\nend\n0\nend\nreturn \"none\"\nend\n\
             print(find())\n"
        ),
        "30\n10\n7\nfound 2\n"
    );
}

#[test]
fn each_walks_the_elements_there_were() {
    let (inst, outcome) = run_with(
        "let sum = 0\neach([1, 2, 3, 4]) do (x)\nif x == 2 do\ncontinue\nend\nif x == 4 do\nbreak\nend\nsum = sum + x\nend\nprint(sum)\n",
        registry_with(vec![print(), each()]),
    );
    assert!(matches!(outcome, Outcome::Completed(None)), "{outcome:?}");
    assert_eq!(inst.output(), b"4\n");
}

#[test]
fn length_counts_clusters_bytes_items_and_entries() {
    let (inst, outcome) = run_with(
        "print(length(\"e\u{301}a\"))\nprint(length(encode(\"\u{e9}\")))\nprint(length([1, 2]))\nprint(length({1: 2}))\nprint(decode(encode(\"\u{e9}\")))\n",
        registry_with(vec![print(), length(), encode(), decode()]),
    );
    assert!(matches!(outcome, Outcome::Completed(None)), "{outcome:?}");
    assert_eq!(inst.output(), "2\n2\n2\n1\n\u{e9}\n".as_bytes());
}

#[test]
fn indexing_reads_items_and_clusters() {
    assert_eq!(
        printed(
            "let l = [1, 2, 3]\nprint(l[0])\nprint(l[2])\nprint(\"ab\u{e9}\"[2])\n"
        ),
        "1\n3\n\u{e9}\n"
    );
}

#[test]
fn numbers_are_exact_and_promote() {
    assert_eq!(
        printed(
            "print(9223372036854775807 + 1)\nprint(9223372036854775808 - 1)\nprint(-7 // 2)\nprint(-7 % 2)\nprint(7 % -2)\n\
             print(2 ** 100)\nprint(6 / 4)\nprint(1.5 + 1)\nprint(-9223372036854775807 - 1)\nprint(7.5 // 2)\nprint(2 ** -1)\n"
        ),
        "9223372036854775808\n9223372036854775807\n-4\n1\n-1\n1267650600228229401496703205376\n1.5\n2.5\n-9223372036854775808\n3.0\n0.5\n"
    );
}

#[test]
fn each_kind_of_failure_has_its_name() {
    for (src, slug) in [
        ("1 + nil\n", "type-mismatch"),
        ("if 1 do\n2\nend\n", "type-mismatch"),
        ("1 // 0\n", "division-by-zero"),
        ("1.0 / 0\n", "division-by-zero"),
        ("2.0 ** 2000\n", "non-finite-float"),
        ("1 < nil\n", "undefined-ordering"),
        ("to f()\nend\nlet x = f()\n", "procedure-in-expression"),
        ("print(nowhere)\n", "name-not-defined"),
        ("print(later)\nlet later = 1\n", "used-before-defined"),
        ("let x = 1\nx()\n", "not-callable"),
        ("to f(a)\nend\nf()\n", "missing-argument"),
        ("to f(a)\nend\nf(1, 2)\n", "too-many-arguments"),
        ("to f(a)\nend\nf(b: 1)\n", "unknown-keyword"),
        ("to f(a)\nend\nf(1, a: 1)\n", "duplicate-argument"),
        ("let d = {[1]: 2}\n", "unhashable-key"),
        ("let d = {}\nd[1]\n", "key-not-found"),
        ("[1][1]\n", "index-out-of-range"),
        ("[1][-1]\n", "index-out-of-range"),
        ("let l = [1]\nl[0] = 2\n", "type-mismatch"),
        ("record P(x)\nP(1).y\n", "no-such-field"),
        ("fn f()\nend\nf()\n", "function-fell-off-end"),
        ("let p = 1\nwith p = 2 do\n1\nend\n", "with-target-not-parameter"),
        ("1 and true\n", "type-mismatch"),
    ] {
        assert_eq!(raised(src), slug, "{src}");
    }
}

#[test]
fn bytes_that_are_no_text_raise_when_decoded() {
    fn bad(_: &mut Host, inst: &mut Instance) -> HostReply {
        HostReply::Value(Some(inst.make_bytes(&[0xff])))
    }
    let (inst, outcome) = run_hosted(
        "decode(bad())\n",
        registry_with(vec![decode(), ForeignBuilder::new("bad", BodyKind::Func).host(0)]),
        vec![bad],
    );
    let Outcome::Raised(value, _) = outcome else {
        panic!("expected an exception, got {outcome:?}");
    };
    assert_eq!(inst.describe_raised(value).0, "invalid-utf8");
}

#[test]
fn a_handler_sees_what_was_raised_and_can_raise_it_again() {
    assert_eq!(
        printed(
            "try\ntry\nraise [1, 2]\nrescue e\nprint(e[1])\nraise\nend\nrescue f\nprint(f[0])\nend\n\
             try\n1 // 0\nrescue e\nprint(e.kind)\nprint(e.message)\nend\n"
        ),
        "2\n1\ndivision-by-zero\nyou can't divide by zero\n"
    );
}

// Modules.

fn source(inst: &Instance, src: &str, canonical_id: &str) -> ImportResolution {
    ImportResolution::Source {
        module: module(src, inst.next_module_id().0),
        diagnostics: Vec::new(),
        canonical_id: canonical_id.to_string(),
    }
}

/// Runs a program whose imports are found among some sources, by path.
fn run_modules(src: &str, sources: &[(&str, &str)]) -> (Instance, Outcome, Vec<String>) {
    let mut inst = Instance::load_with_intrinsics(module(src, 0), registry_with(vec![print()]));
    let mut asked = Vec::new();
    let mut outcome = run(&mut inst, Directive::RunToCompletion);
    while let Outcome::SuspendedImport(request) = &outcome {
        let path = request.path.join(".");
        asked.push(path.clone());
        let answer = match sources.iter().find(|(p, _)| *p == path) {
            Some((p, s)) => source(&inst, s, p),
            None => ImportResolution::NotFound,
        };
        outcome = resolve_import(&mut inst, answer);
    }
    (inst, outcome, asked)
}

#[test]
fn a_module_is_loaded_once_and_its_names_are_live() {
    let (inst, outcome, asked) = run_modules(
        "import shapes\nimport shapes.side as s\nimport shapes as again\nprint(s)\nshapes.grow()\nprint(s)\nprint(again.side)\n",
        &[("shapes", "print(\"loading\")\nlet side = 1\nto grow()\nside = side + 1\nend\n")],
    );
    assert!(matches!(outcome, Outcome::Completed(None)), "{outcome:?}");
    assert_eq!(inst.output(), b"loading\n1\n2\n2\n");
    assert_eq!(asked[0], "shapes");
    assert_eq!(asked.iter().filter(|p| *p == "shapes").count(), 1);
}

#[test]
fn a_wildcard_import_supplies_names_that_own_names_hide() {
    let (inst, outcome, _) = run_modules(
        "import shapes.*\nlet side = 5\nprint(side)\nprint(area())\n",
        &[("shapes", "let side = 1\nfn area()\nreturn side * side\nend\n")],
    );
    assert!(matches!(outcome, Outcome::Completed(None)), "{outcome:?}");
    assert_eq!(inst.output(), b"5\n1\n");
}

#[test]
fn a_name_that_two_wildcard_imports_supply_is_ambiguous() {
    let (inst, outcome, _) = run_modules(
        "import a.*, b.*\nprint(x)\n",
        &[("a", "let x = 1\n"), ("b", "let x = 2\n")],
    );
    let Outcome::Raised(value, _) = outcome else {
        panic!("expected an exception, got {outcome:?}");
    };
    assert_eq!(inst.describe_raised(value).0, "ambiguous-import");
}

#[test]
fn an_import_that_is_not_found_raises() {
    let (inst, outcome, asked) = run_modules("import nowhere\n", &[]);
    let Outcome::Raised(value, _) = outcome else {
        panic!("expected an exception, got {outcome:?}");
    };
    assert_eq!(inst.describe_raised(value).0, "module-not-found");
    assert_eq!(asked, vec!["nowhere"]);
}

#[test]
fn a_member_that_is_not_there_raises() {
    let (inst, outcome, _) =
        run_modules("import shapes\nprint(shapes.angle)\n", &[("shapes", "let side = 1\n")]);
    let Outcome::Raised(value, _) = outcome else {
        panic!("expected an exception, got {outcome:?}");
    };
    assert_eq!(inst.describe_raised(value).0, "no-such-member");
}

#[test]
fn modules_that_import_each_other_raise() {
    let (inst, outcome, _) = run_modules(
        "import a\n",
        &[("a", "import b\n"), ("b", "import a\n")],
    );
    let Outcome::Raised(value, _) = outcome else {
        panic!("expected an exception, got {outcome:?}");
    };
    let (slug, message) = inst.describe_raised(value);
    assert_eq!(slug, "circular-import");
    assert!(message.contains("a") && message.contains("b"), "{message}");
}

#[test]
fn exceptions_carry_structured_details() {
    let (inst, outcome) = run_with(
        "try\n1 < nil\nrescue e\nprint(e.details[\"operator\"])\nprint(e.details[\"left\"])\n\
         print(e.details[\"right\"])\nprint(length(e.details))\nend\n\
         try\nlet d = {1: 2}\nd[\"k\"]\nrescue e\nprint(e.details[\"key\"])\nend\n",
        registry_with(vec![print(), length()]),
    );
    assert!(matches!(outcome, Outcome::Completed(None)), "{outcome:?}");
    assert_eq!(inst.output(), b"<\nInt\nNil\n3\nk\n");

    let (inst, outcome, _) = run_modules(
        "try\nimport a\nrescue e\nlet c = e.details[\"cycle\"]\nprint(c[0])\nprint(c[1])\nprint(c[2])\nend\n",
        &[("a", "import b\n"), ("b", "import a\n")],
    );
    assert!(matches!(outcome, Outcome::Completed(None)), "{outcome:?}");
    assert_eq!(inst.output(), b"a\nb\na\n");

    let (inst, outcome, _) = run_modules(
        "try\nimport a.b.*\nrescue e\nprint(e.kind)\nprint(e.details[\"path\"][1])\n\
         print(e.details[\"importer\"])\nend\n",
        &[],
    );
    assert!(matches!(outcome, Outcome::Completed(None)), "{outcome:?}");
    assert_eq!(inst.output(), b"module-not-found\nb\n0\n");
}

#[test]
fn a_module_that_failed_raises_the_same_value_again() {
    let (inst, outcome, asked) = run_modules(
        "try\nimport bad\nrescue e\nprint(e)\nend\ntry\nimport bad\nrescue e\nprint(e)\nend\n",
        &[("bad", "print(\"running\")\nraise \"broken\"\n")],
    );
    assert!(matches!(outcome, Outcome::Completed(None)), "{outcome:?}");
    assert_eq!(inst.output(), b"running\nbroken\nbroken\n");
    assert_eq!(asked, vec!["bad"]);
}

#[test]
fn a_module_with_errors_in_its_source_never_runs() {
    let mut inst = Instance::load_with_intrinsics(
        module("import bad\n", 0),
        registry_with(vec![print()]),
    );
    let outcome = run(&mut inst, Directive::RunToCompletion);
    assert!(matches!(outcome, Outcome::SuspendedImport(_)), "{outcome:?}");
    assert_eq!(inst.state(), InstanceState::Suspended);
    let id = inst.next_module_id();
    let answer = ImportResolution::Source {
        module: module("print(\"running\")\n", id.0),
        diagnostics: vec![Diagnostic {
            module: id,
            severity: Severity::Error,
            code: "unexpected".to_string(),
            message: "unexpected `)`".to_string(),
            span: Some(Span::new(0, 1)),
        }],
        canonical_id: "bad".to_string(),
    };
    let outcome = resolve_import(&mut inst, answer);
    let Outcome::Raised(value, _) = outcome else {
        panic!("expected an exception, got {outcome:?}");
    };
    assert_eq!(inst.describe_raised(value).0, "module-load-error");
    assert_eq!(inst.output(), b"");
    assert_eq!(inst.load_diagnostics(0).len(), 1);
}

#[test]
fn an_import_the_host_refuses_raises_its_value() {
    let mut inst = Instance::load_with_intrinsics(
        module("try\nimport gone\nrescue e\nprint(e)\nend\n", 0),
        registry_with(vec![print()]),
    );
    let outcome = run(&mut inst, Directive::RunToCompletion);
    assert!(matches!(outcome, Outcome::SuspendedImport(_)), "{outcome:?}");
    let h = inst.make_string(b"no network").unwrap();
    let outcome = resolve_import(&mut inst, ImportResolution::Raise(h));
    assert!(matches!(outcome, Outcome::Completed(None)), "{outcome:?}");
    assert_eq!(inst.output(), b"no network\n");
}

#[test]
fn a_native_module_supplies_functions_constants_and_records() {
    let mut registry = registry_with(vec![print()]);
    registry
        .register_module(
            NativeModule::new("kit")
                .constant("name", ConstValue::Str("kit".to_string()))
                .constant("size", ConstValue::Int(3))
                .foreign("thing", 7, 9, None)
                .record("Pair", vec!["a".to_string(), "b".to_string()], false)
                .function("answer", ForeignBuilder::new("answer", BodyKind::Func).host(0)),
        )
        .unwrap();
    let (inst, outcome) = run_hosted(
        "import kit\nprint(kit.name)\nprint(kit.size)\nlet p = kit.Pair(1, 2)\nprint(p.b)\nprint(kit.answer())\n",
        registry,
        vec![answer_42],
    );
    assert!(matches!(outcome, Outcome::Completed(None)), "{outcome:?}");
    assert_eq!(inst.output(), b"kit\n3\n2\n42\n");
}

// Driving.

#[test]
fn a_bounded_run_pauses_and_goes_on() {
    let mut inst = Instance::load_with_intrinsics(
        module("let i = 0\nwhile i < 10 do\ni = i + 1\nend\nprint(i)\n", 0),
        registry_with(vec![print()]),
    );
    let mut slices = 0;
    loop {
        match run_bounded(&mut inst, Directive::RunToCompletion, 3) {
            Outcome::Paused(PauseReason::SliceEnd) => {
                assert_eq!(inst.state(), InstanceState::Paused);
                slices += 1;
            }
            Outcome::Completed(None) => break,
            other => panic!("{other:?}"),
        }
    }
    assert!(slices >= 3, "{slices}");
    assert_eq!(inst.output(), b"10\n");
    assert_eq!(inst.state(), InstanceState::Completed);
}

#[test]
fn the_pause_button_stops_once_and_the_stop_button_for_good() {
    let mut inst = Instance::load_with_intrinsics(
        module("print(1)\nprint(2)\n", 0),
        registry_with(vec![print()]),
    );
    let pause = inst.pause_token();
    pause.pause();
    assert!(pause.is_pause_requested());
    let outcome = run(&mut inst, Directive::RunToCompletion);
    assert!(matches!(outcome, Outcome::Paused(PauseReason::HostPause)), "{outcome:?}");
    assert!(!pause.is_pause_requested());
    assert_eq!(inst.output(), b"");
    let outcome = run(&mut inst, Directive::RunToCompletion);
    assert!(matches!(outcome, Outcome::Completed(None)), "{outcome:?}");
    assert_eq!(inst.output(), b"1\n2\n");

    let mut inst = Instance::load(module("try\nloop do\n1\nend\nrescue e\n2\nend\n", 0));
    let cancel = inst.cancel_token();
    assert!(!cancel.is_cancelled());
    cancel.cancel();
    assert!(inst.cancel_token().is_cancelled());
    let outcome = run(&mut inst, Directive::RunToCompletion);
    assert!(matches!(outcome, Outcome::Faulted(EngineFault::Cancelled)), "{outcome:?}");
}

const STEPS: &str = "let a = 1\nlet b = 2\nwhile a < 3 do\na = a + 1\nend\nprint(a + b)\n";

#[test]
fn a_breakpoint_is_hit_at_every_pass() {
    let mut inst = Instance::load_with_intrinsics(module(STEPS, 0), registry_with(vec![print()]));
    let id = inst.set_breakpoint("main", 4);
    let later = inst.set_breakpoint("elsewhere", 1);
    let all = inst.breakpoints();
    assert_eq!(all.len(), 2);
    assert!(all[0].resolved && !all[1].resolved);
    let mut hits = 0;
    loop {
        match run(&mut inst, Directive::Continue) {
            Outcome::Paused(PauseReason::Breakpoint(hit)) => {
                assert_eq!(hit, id);
                assert_eq!(inst.breakpoint_hit(), Some(id));
                hits += 1;
            }
            Outcome::Completed(None) => break,
            other => panic!("{other:?}"),
        }
    }
    assert_eq!(hits, 2);
    inst.clear_breakpoint(id);
    inst.clear_breakpoint(later);
    assert_eq!(inst.breakpoints().len(), 0);
    assert!(inst.set_breakpoint("main", 1) != id);
}

#[test]
fn a_run_to_completion_passes_breakpoints() {
    let mut inst = Instance::load_with_intrinsics(module(STEPS, 0), registry_with(vec![print()]));
    inst.set_breakpoint("main", 4);
    let outcome = run(&mut inst, Directive::RunToCompletion);
    assert!(matches!(outcome, Outcome::Completed(None)), "{outcome:?}");
    assert_eq!(inst.output(), b"5\n");
}

#[test]
fn stepping_stops_before_each_statement() {
    let mut inst = Instance::load_with_intrinsics(module(STEPS, 0), registry_with(vec![print()]));
    let mut starts = Vec::new();
    loop {
        match run(&mut inst, Directive::Step) {
            Outcome::Paused(PauseReason::Step) => {
                let at = inst.current_position().unwrap();
                assert_eq!(at.module, ModuleId(0));
                starts.push(STEPS[..at.span.start as usize].matches('\n').count() + 1);
            }
            Outcome::Completed(None) => break,
            other => panic!("{other:?}"),
        }
    }
    assert_eq!(starts, vec![1, 2, 3, 4, 4, 6]);
    assert_eq!(inst.output(), b"5\n");
}

#[test]
fn fine_stepping_shows_each_completed_subexpression() {
    let mut inst = Instance::load_with_intrinsics(
        module("print(1 + 2 * 3)\n", 0),
        registry_with(vec![print()]),
    );
    inst.set_observation_mode(ObservationMode::Subexpression);
    assert_eq!(inst.observation_mode(), ObservationMode::Subexpression);
    let mut values = Vec::new();
    loop {
        match run(&mut inst, Directive::Step) {
            Outcome::Paused(PauseReason::Step) => {
                if inst.completed_position().is_some() {
                    let h = inst.result_handle().unwrap();
                    values.push(inst.as_int(h).unwrap());
                }
            }
            Outcome::Completed(None) => break,
            other => panic!("{other:?}"),
        }
    }
    assert_eq!(values, vec![6, 7]);
}

#[test]
fn fine_stepping_stops_at_every_kind_of_completed_subexpression() {
    let src = "record P(x)\nlet a = [1, 2 + 3]\nlet p = P(4)\nlet n = p.x\n\
               let b = false and true\nlet c = true or 1\nlet d = {\"k\": -n}\n\
               let e = d[\"k\"]\nlet t = \"<{n}>\"\nlet l = length(a)\nlet m = n\n";
    let mut inst = Instance::load_with_intrinsics(
        module(src, 0),
        registry_with(vec![print(), length()]),
    );
    inst.set_observation_mode(ObservationMode::Subexpression);
    let mut seen = Vec::new();
    loop {
        match run(&mut inst, Directive::Step) {
            Outcome::Paused(PauseReason::Step) => {
                if let Some(at) = inst.completed_position() {
                    assert!(inst.result_handle().is_some());
                    seen.push(src[at.span.start as usize..at.span.end as usize].to_string());
                }
            }
            Outcome::Completed(None) => break,
            other => panic!("{other:?}"),
        }
    }
    assert_eq!(
        seen,
        vec![
            "2 + 3",
            "[1, 2 + 3]",
            "P(4)",
            "p.x",
            "false and true",
            "true or 1",
            "-n",
            "{\"k\": -n}",
            "d[\"k\"]",
            "\"<{n}>\"",
            "length(a)",
        ]
    );
}

#[test]
fn watching_subexpressions_changes_no_result() {
    let src = "let i = 0\nwhile i < 4 do\ni = i + 1\nprint([i, i * 2][1])\nend\n";
    let mut outputs = Vec::new();
    for mode in [ObservationMode::Statement, ObservationMode::Subexpression] {
        let mut inst = Instance::load_with_intrinsics(module(src, 0), registry_with(vec![print()]));
        inst.set_observation_mode(mode);
        loop {
            match run(&mut inst, Directive::Step) {
                Outcome::Paused(PauseReason::Step) => {}
                Outcome::Completed(None) => break,
                other => panic!("{other:?}"),
            }
        }
        outputs.push((inst.output().to_vec(), inst.heap.live_objects()));
    }
    assert_eq!(outputs[0], outputs[1]);
    assert_eq!(outputs[0].0, b"2\n4\n6\n8\n");
}

#[test]
fn a_raise_trap_stops_at_the_raise_with_the_frames_in_place() {
    let mut inst = Instance::load_with_intrinsics(
        module("to f(x)\nraise x\nend\ntry\nf(4)\nrescue e\nprint(e)\nend\n", 0),
        registry_with(vec![print()]),
    );
    inst.raise_trap_enabled = true;
    let outcome = run(&mut inst, Directive::Continue);
    assert!(matches!(outcome, Outcome::Paused(PauseReason::RaiseTrap)), "{outcome:?}");
    assert_eq!(inst.frame_count(), 2);
    assert_eq!(inst.frame_local_names(0), vec!["x"]);
    let x = inst.frame_local_value(0, 0).unwrap();
    assert_eq!(inst.as_int(x), Ok(4));
    let outcome = run(&mut inst, Directive::Continue);
    assert!(matches!(outcome, Outcome::Completed(None)), "{outcome:?}");
    assert_eq!(inst.output(), b"4\n");
}

#[test]
fn the_stack_shows_frames_locals_and_rebound_parameters() {
    let src = "parameter p = 1\nto inner(n)\nlet m = n + 1\nprint(m)\nend\nto outer()\nwith p = 8 do\ninner(4)\n1\nend\nend\nouter()\n";
    let mut inst = Instance::load_with_intrinsics(module(src, 0), registry_with(vec![print()]));
    inst.set_breakpoint("main", 4);
    let outcome = run(&mut inst, Directive::Continue);
    assert!(matches!(outcome, Outcome::Paused(PauseReason::Breakpoint(_))), "{outcome:?}");
    assert_eq!(inst.frame_count(), 3);
    let frames = inst.stack_walk();
    assert_eq!(frames.len(), 3);
    let names: Vec<Option<String>> = frames
        .iter()
        .map(|f| f.callable.and_then(|h| inst.callable_name(h).unwrap()))
        .collect();
    assert_eq!(names, vec![Some("inner".to_string()), Some("outer".to_string()), None]);
    assert!(inst.frame_info(0).unwrap().has_callable);
    assert!(!inst.frame_info(2).unwrap().has_callable);
    assert_eq!(inst.frame_info(3), None);
    assert_eq!(inst.call_site_spans().len(), 2);
    let locals = inst.frame_locals(0);
    let mut seen = Vec::new();
    for b in locals {
        seen.push((b.name, inst.as_int(b.value.unwrap()).unwrap()));
    }
    assert_eq!(seen, vec![("n".to_string(), 4), ("m".to_string(), 5)]);
    assert_eq!(inst.frame_dynamic_names(0), Vec::<String>::new());
    assert_eq!(inst.frame_dynamic_names(1), vec!["p"]);
    let rebound = inst.frame_dynamic_bindings(1);
    assert_eq!(inst.as_int(rebound[0].value.unwrap()), Ok(8));
    let globals = inst.module_global_names(0);
    let global_names: Vec<&str> = globals.iter().map(|g| g.name.as_str()).collect();
    assert_eq!(global_names, vec!["p", "inner", "outer"]);
    assert_eq!(inst.module_canonical_id(ModuleId(0)), Some("main"));
}

#[test]
fn tail_calls_leave_a_bounded_history() {
    let src = "fn a(n)\nreturn b(n)\nend\nfn b(n)\nprint(n)\nreturn 1\nend\nprint(a(4))\n";
    let mut inst = Instance::load_with_intrinsics(module(src, 0), registry_with(vec![print()]));
    inst.set_breakpoint("main", 5);
    let outcome = run(&mut inst, Directive::Continue);
    assert!(matches!(outcome, Outcome::Paused(PauseReason::Breakpoint(_))), "{outcome:?}");
    assert_eq!(inst.frame_count(), 2);
    assert_eq!(inst.frame_info(0).unwrap().tail_count, 1);
    let history = inst.tail_elided_history();
    assert_eq!(history.len(), 1);
    assert_eq!(inst.callable_name(history[0].callable), Ok(Some("a".to_string())));
    assert_eq!(inst.callable_is_function(history[0].callable), Ok(Some(true)));
}

#[test]
fn an_exception_that_ends_the_program_leaves_its_trace() {
    let src = "to f(x)\nraise x\nend\nto g()\nf(1)\n2\nend\ng()\n";
    let (mut inst, outcome) = run_with(src, registry_with(vec![print()]));
    let Outcome::Raised(_, trace) = outcome else {
        panic!("expected an exception, got {outcome:?}");
    };
    assert_eq!(trace.frames.len(), 3);
    assert_eq!(inst.state(), InstanceState::Raised);
    assert_eq!(inst.raised_trace_frame_count(), Some(3));
    assert!(inst.raised_trace_frame(0).unwrap().has_callable);
    let f = inst.raised_trace_frame_callable(0).unwrap();
    assert_eq!(inst.callable_name(f), Ok(Some("f".to_string())));
    assert_eq!(inst.raised_trace_frame(3), None);
    assert_eq!(inst.raised_trace_tail_count(), Some(0));
    let at = inst.raised_trace_raised_at().unwrap();
    assert_eq!(&src[at.start as usize..at.end as usize], "raise x");
}

#[test]
fn a_suspended_call_resolves_to_a_value_or_an_exception() {
    let src = "try\nprint(read_line())\nprint(read_line())\nrescue e\nprint(\"no {e}\")\nend\n";
    let mut inst =
        Instance::load_with_intrinsics(module(src, 0), registry_with(vec![print(), read_line()]));
    let outcome = run(&mut inst, Directive::RunToCompletion);
    assert!(matches!(outcome, Outcome::Suspended(_)), "{outcome:?}");
    let h = inst.make_string(b"first").unwrap();
    let outcome = resolve(&mut inst, Answer::Value(h));
    assert!(matches!(outcome, Outcome::Suspended(_)), "{outcome:?}");
    let h = inst.make_string(b"line").unwrap();
    let outcome = resolve(&mut inst, Answer::Raise(h));
    assert!(matches!(outcome, Outcome::Completed(None)), "{outcome:?}");
    assert_eq!(inst.output(), b"first\nno line\n");
}

#[test]
fn cancelling_a_suspended_program_reaps_it() {
    let mut inst =
        Instance::load_with_intrinsics(module("read_line()\n", 0), registry_with(vec![read_line()]));
    let outcome = run(&mut inst, Directive::RunToCompletion);
    assert!(matches!(outcome, Outcome::Suspended(_)), "{outcome:?}");
    inst.cancel_token().cancel();
    let h = inst.make_nil();
    let outcome = resolve(&mut inst, Answer::Value(h));
    assert!(matches!(outcome, Outcome::Faulted(EngineFault::Cancelled)), "{outcome:?}");
}

#[test]
fn suspending_inside_a_native_call_faults() {
    let (_, outcome) = run_with(
        "each([1]) do (x)\nread_line()\nend\n",
        registry_with(vec![each(), read_line()]),
    );
    assert!(matches!(outcome, Outcome::Faulted(EngineFault::NestedSuspend)), "{outcome:?}");
}

#[test]
fn rendering_uses_the_programs_own_code_and_leaves_the_stop_alone() {
    let src = "record P(x)\nfn show(p)\nreturn \"P of {p.x}\"\nend\nlet p = P(3)\nprint(1)\nprint(\"{p}\")\n";
    let mut inst = Instance::load_with_intrinsics(module(src, 0), registry_with(vec![print()]));
    inst.set_breakpoint("main", 6);
    let outcome = run(&mut inst, Directive::Continue);
    assert!(matches!(outcome, Outcome::Paused(PauseReason::Breakpoint(_))), "{outcome:?}");
    let before = inst.current_position();
    let p = inst.module_global_value(0, 2).unwrap();
    let AuxOutcome::Rendered(plain) = inst.eval_to_string(p, 1000) else {
        panic!("not rendered");
    };
    assert_eq!(inst.string_bytes(plain), Ok(&b"<record>"[..]));
    let show = inst.module_global_value(0, 1).unwrap();
    let (Ok(Value::Callable(cal)), Ok(v)) = (inst.handles.resolve(show), inst.handles.resolve(p))
    else {
        panic!("not a callable");
    };
    let on = dispatch_type_of(v, &inst.heap);
    inst.machine.protocols.push(Implementation { protocol: WellKnown::Stringable, on, cal });
    let AuxOutcome::Rendered(own) = inst.eval_to_string(p, 1000) else {
        panic!("not rendered");
    };
    assert_eq!(inst.string_bytes(own), Ok(&b"P of 3"[..]));
    assert_eq!(inst.eval_to_string(p, 0), AuxOutcome::Faulted(EngineFault::LimitExceeded(LimitKind::StepBudget)));
    assert_eq!(inst.current_position(), before);
    assert_eq!(inst.frame_count(), 1);
    let outcome = run(&mut inst, Directive::RunToCompletion);
    assert!(matches!(outcome, Outcome::Completed(None)), "{outcome:?}");
    assert_eq!(inst.output(), b"1\nP of 3\n");
}

#[test]
fn inspection_reads_records_types_and_callables() {
    let src = "record P(x, y)\nfn area(p)\nreturn 1\nend\nlet p = P(3, 4)\n";
    let (mut inst, outcome) = run_with(src, registry_with(vec![]));
    assert!(matches!(outcome, Outcome::Completed(None)), "{outcome:?}");
    let p = inst.module_global_value(0, 2).unwrap();
    assert_eq!(inst.record_type_name(p), Ok("P".to_string()));
    assert_eq!(inst.record_length(p), Ok(2));
    assert_eq!(inst.record_field_name(p, 1), Ok("y"));
    let y = inst.record_field(p, 1).unwrap();
    assert_eq!(inst.as_int(y), Ok(4));
    assert_eq!(inst.record_field(p, 2), Err(ValueError::IndexOutOfBounds));
    let t = inst.module_global_value(0, 0).unwrap();
    assert_eq!(inst.name_of_type(t), Ok("P".to_string()));
    let f = inst.module_global_value(0, 1).unwrap();
    assert_eq!(inst.callable_name(f), Ok(Some("area".to_string())));
    let at = inst.callable_position(f).unwrap().unwrap();
    assert_eq!(&src[at.span.start as usize..at.span.start as usize + 7], "fn area");
    assert_eq!(
        inst.callable_name(p),
        Err(ValueError::WrongKind { expected: Kind::Callable, got: Kind::Record })
    );
}

#[test]
fn collecting_at_every_safe_point_changes_nothing() {
    let src = "record P(x)\nlet d = {}\nlet i = 0\nwhile i < 5 do\nd[P(i)] = [i, \"{i}\"]\ni = i + 1\nend\nprint(d[P(4)][1])\nprint(length(d))\n";
    let mut inst = Instance::load_with_intrinsics(
        module(src, 0),
        registry_with(vec![print(), length()]),
    );
    inst.collect_at_every_safe_point();
    let outcome = run(&mut inst, Directive::RunToCompletion);
    assert!(matches!(outcome, Outcome::Completed(None)), "{outcome:?}");
    assert_eq!(inst.output(), b"4\n5\n");
}

#[test]
fn texts_are_composed_and_segmented_by_the_pinned_version() {
    let pinned = Instance::unicode_version();
    let (major, minor, update) = unicode_normalization::UNICODE_VERSION;
    assert_eq!((pinned.major, pinned.minor, pinned.update), (major.into(), minor.into(), update.into()));
    let (major, minor, update) = unicode_segmentation::UNICODE_VERSION;
    assert_eq!(
        (u64::from(pinned.major), u64::from(pinned.minor), u64::from(pinned.update)),
        (major, minor, update)
    );
}

#[test]
fn a_configuration_names_the_unicode_version_it_needs() {
    let pinned = Instance::unicode_version();
    let config = Config { limits: Limits::standard(), unicode_version: Some(pinned) };
    assert!(Instance::create(module("1\n", 0), config).is_ok());
    let requested = UnicodeVersion { major: pinned.major + 1, minor: 0, update: 0 };
    let config = Config { limits: Limits::standard(), unicode_version: Some(requested) };
    match Instance::create(module("1\n", 0), config) {
        Err(e) => {
            assert_eq!(e, ConfigError::UnsupportedUnicodeVersion { requested, pinned })
        }
        Ok(_) => panic!("accepted another version"),
    }
}

#[test]
fn a_tail_calls_caller_is_kept_in_the_trace_of_what_it_raised() {
    let src = "fn a(n)\nreturn b(n)\nend\nfn b(n)\nraise n\nend\nprint(a(4))\n";
    let (mut inst, outcome) = run_with(src, registry_with(vec![print()]));
    assert!(matches!(outcome, Outcome::Raised(..)), "{outcome:?}");
    assert_eq!(inst.raised_trace_frame(0).unwrap().tail_count, 1);
    assert_eq!(inst.raised_trace_tail_count(), Some(1));
    let (h, at) = inst.raised_trace_tail_entry(0).unwrap();
    assert_eq!(inst.callable_name(h), Ok(Some("a".to_string())));
    assert_eq!(at.module, ModuleId(0));
    assert_eq!(at.span.start, 0);
    assert!(inst.raised_trace_tail_entry(1).is_none());
}

#[test]
fn a_paused_frame_shows_its_callable_and_what_it_rebound() {
    let src = "parameter p = 1\nto f()\n\"says what it does\"\nwith p = 2 do\nprint(p)\nend\nend\nf()\n";
    let mut inst = Instance::load_with_intrinsics(module(src, 0), registry_with(vec![print()]));
    inst.set_breakpoint("main", 5);
    let outcome = run(&mut inst, Directive::Continue);
    assert!(matches!(outcome, Outcome::Paused(PauseReason::Breakpoint(_))), "{outcome:?}");
    let f = inst.frame_callable(0).unwrap();
    assert_eq!(inst.callable_name(f), Ok(Some("f".to_string())));
    assert_eq!(inst.callable_is_function(f), Ok(Some(false)));
    assert!(inst.frame_callable(1).is_none());
    assert!(inst.frame_callable(2).is_none());
    let p = inst.frame_dynamic_value(0, 0).unwrap();
    assert_eq!(inst.as_int(p), Ok(2));
    assert!(inst.frame_dynamic_value(0, 1).is_none());
    let p = inst.module_global_value(0, 0).unwrap();
    assert_eq!(inst.as_int(p), Ok(2));
}

#[test]
fn a_module_value_lists_its_members() {
    let (mut inst, outcome, _) = run_modules(
        "import shapes\nlet s = shapes\n",
        &[("shapes", "let side = 1\nto grow()\nend\n")],
    );
    assert!(matches!(outcome, Outcome::Completed(None)), "{outcome:?}");
    let s = inst.module_global_value(0, 0).unwrap();
    assert_eq!(inst.kind_of(s), Ok(Kind::Module));
    assert_eq!(
        inst.module_member_names(s),
        Ok(vec!["side".to_string(), "grow".to_string()])
    );
}

#[test]
fn a_call_site_is_read_in_the_callers_own_source() {
    let src = "import shapes\nlet before = 1\nlet also = 2\nshapes.grow(3)\n";
    let (mut inst, outcome, _) =
        run_modules(src, &[("shapes", "to grow(n)\nshrink(n)\n1\nend\nto shrink(n)\nraise n\nend\n")]);
    let Outcome::Raised(_, trace) = outcome else {
        panic!("expected an exception, got {outcome:?}");
    };
    let outer = trace.frames[1].call_site.unwrap();
    assert_eq!(&src[outer.start as usize..outer.end as usize], "shapes.grow(3)");
    let inner = trace.frames[0].call_site.unwrap();
    assert_eq!((inner.start, inner.end), (11, 20));
    assert_eq!(inst.raised_trace_frame(1).unwrap().call_site, Some(outer));
    let grow = inst.raised_trace_frame_callable(1).unwrap();
    assert_eq!(inst.callable_position(grow).unwrap().unwrap().module, inst.machine.load.by_path(&vec!["shapes".to_string()]).unwrap());
}

#[test]
fn stepping_stops_at_calls_and_returns_too() {
    let src = "to f()\n1\nend\nf()\n2\n";
    let mut inst = Instance::load(module(src, 0));
    let mut seen = Vec::new();
    loop {
        match run(&mut inst, Directive::Step) {
            Outcome::Paused(PauseReason::Step) => {
                let at = inst.current_position().unwrap();
                let line = src[..at.span.start as usize].matches('\n').count() + 1;
                seen.push((line, inst.frame_count()));
            }
            Outcome::Completed(None) => break,
            other => panic!("{other:?}"),
        }
    }
    assert_eq!(seen, vec![(1, 1), (4, 1), (2, 2), (2, 2), (5, 1), (5, 1)]);
}

#[test]
fn calls_and_returns_count_against_the_budget() {
    let src = "to f()\n1\nend\nf()\n2\n";
    let (_, outcome) = run_limited(src, limited(100, 5, 1 << 28, 1 << 24));
    assert!(
        matches!(outcome, Outcome::Faulted(EngineFault::LimitExceeded(LimitKind::StepBudget))),
        "{outcome:?}"
    );
    let (_, outcome) = run_limited(src, limited(100, 6, 1 << 28, 1 << 24));
    assert!(matches!(outcome, Outcome::Completed(None)), "{outcome:?}");
}

#[test]
fn a_program_runs_the_same_way_however_it_is_sliced() {
    let src = "let d = {}\nlet i = 0\nfn square(n)\nreturn n * n\nend\nwhile i < 6 do\nd[i] = square(i)\nprint(d[i])\ni = i + 1\nend\n";
    let whole = printed(src);
    for fuel in 1..5 {
        let mut inst =
            Instance::load_with_intrinsics(module(src, 0), registry_with(vec![print()]));
        inst.collect_at_every_safe_point();
        loop {
            match run_bounded(&mut inst, Directive::RunToCompletion, fuel) {
                Outcome::Paused(PauseReason::SliceEnd) => {}
                Outcome::Completed(None) => break,
                other => panic!("{other:?}"),
            }
        }
        assert_eq!(String::from_utf8(inst.output().to_vec()).unwrap(), whole);
    }
}

#[test]
fn an_answer_is_delivered_unless_the_program_was_cancelled() {
    let suspended = || {
        let mut inst = Instance::load_with_intrinsics(
            module("print(read_line())\n", 0),
            registry_with(vec![print(), read_line()]),
        );
        let outcome = run(&mut inst, Directive::RunToCompletion);
        assert!(matches!(outcome, Outcome::Suspended(_)), "{outcome:?}");
        inst
    };
    let mut inst = suspended();
    let h = inst.make_string(b"line").unwrap();
    let outcome = resolve_with(&mut inst, Answer::Value(h), false);
    assert!(matches!(outcome, Outcome::Completed(None)), "{outcome:?}");
    assert_eq!(inst.output(), b"line\n");
    let mut inst = suspended();
    let h = inst.make_string(b"line").unwrap();
    let outcome = resolve_with(&mut inst, Answer::Value(h), true);
    assert!(matches!(outcome, Outcome::Faulted(EngineFault::Cancelled)), "{outcome:?}");
    assert_eq!(inst.output(), b"");
    let mut inst = suspended();
    let h = inst.make_string(b"line").unwrap();
    inst.release(h).unwrap();
    let outcome = resolve_with(&mut inst, Answer::Value(h), false);
    assert!(matches!(outcome, Outcome::Faulted(EngineFault::Internal)), "{outcome:?}");
    assert_eq!(inst.state(), InstanceState::Faulted);
    assert_eq!(inst.frame_count(), 1);
    let outcome = resolve_with(&mut inst, Answer::Value(h), false);
    assert!(matches!(outcome, Outcome::Faulted(EngineFault::Internal)), "{outcome:?}");
}

#[test]
fn an_import_is_answered_unless_the_program_was_cancelled() {
    let suspended = || {
        let mut inst = Instance::load_with_intrinsics(
            module("import m\nprint(m.x)\n", 0),
            registry_with(vec![print()]),
        );
        let outcome = run(&mut inst, Directive::RunToCompletion);
        assert!(matches!(outcome, Outcome::SuspendedImport(_)), "{outcome:?}");
        inst
    };
    let mut inst = suspended();
    let answer = source(&inst, "let x = 3\n", "m");
    let outcome = resolve_import_with(&mut inst, answer, false);
    assert!(matches!(outcome, Outcome::Completed(None)), "{outcome:?}");
    assert_eq!(inst.output(), b"3\n");
    let mut inst = suspended();
    let answer = source(&inst, "print(1)\nlet x = 3\n", "m");
    let outcome = resolve_import_with(&mut inst, answer, true);
    assert!(matches!(outcome, Outcome::Faulted(EngineFault::Cancelled)), "{outcome:?}");
    assert_eq!(inst.output(), b"");
    let mut inst = suspended();
    let h = inst.make_nil();
    inst.release(h).unwrap();
    let outcome = resolve_import_with(&mut inst, ImportResolution::Raise(h), false);
    assert!(matches!(outcome, Outcome::Faulted(EngineFault::Internal)), "{outcome:?}");
    assert_eq!(inst.state(), InstanceState::Faulted);
    assert_eq!(inst.frame_count(), 1);
}

#[test]
fn all_buttons_of_an_instance_are_one() {
    let inst = Instance::load_with_intrinsics(module("1\n", 0), registry_with(vec![]));
    let (first, second) = (inst.pause_token(), inst.pause_token());
    second.pause();
    assert!(first.share().is_pause_requested());
    let (first, second) = (inst.cancel_token(), inst.cancel_token());
    assert!(!first.is_cancelled());
    second.share().cancel();
    assert!(first.is_cancelled());
    assert!(inst.cancel_token().is_cancelled());
}

#[test]
fn a_block_that_a_native_function_cannot_bind_is_blamed_where_it_is_written() {
    let src = "each([1]) do (x, y)\nprint(x)\nend\n";
    let (inst, outcome) = run_with(src, registry_with(vec![print(), each()]));
    let Outcome::Raised(value, trace) = outcome else {
        panic!("expected an exception, got {outcome:?}");
    };
    assert_eq!(inst.describe_raised(value).0, "argument-error");
    let at = trace.raised_at.unwrap();
    assert_eq!(&src[at.start as usize..at.end as usize], "print(x)\n");
}

#[test]
fn a_parked_fault_drops_the_hosts_answer() {
    let mut inst = Instance::load_with_intrinsics(
        module("print(answer())\n", 0),
        registry_with(vec![print(), answer()]),
    );
    let outcome = run(&mut inst, Directive::RunToCompletion);
    assert!(matches!(outcome, Outcome::HostCall(0)), "{outcome:?}");
    inst.machine.meter.set_pending_fault(EngineFault::NestedSuspend);
    let h = inst.make_nil();
    inst.release(h).unwrap();
    inst.answer_call(HostReply::Raise(h));
    assert_eq!(inst.result(), None);
    let outcome = inst.go_on();
    assert!(matches!(outcome, Outcome::Faulted(EngineFault::NestedSuspend)), "{outcome:?}");
    assert_eq!(inst.output(), b"");
}

#[test]
fn slugs_are_distinct_and_in_kebab_case() {
    let kinds = [
        ExceptionKind::TypeMismatch,
        ExceptionKind::DivisionByZero,
        ExceptionKind::NonFiniteFloat,
        ExceptionKind::UndefinedOrdering,
        ExceptionKind::ProcedureInExpression,
        ExceptionKind::NameNotDefined,
        ExceptionKind::UsedBeforeDefined,
        ExceptionKind::NotCallable,
        ExceptionKind::ArgumentError,
        ExceptionKind::MissingArgument,
        ExceptionKind::TooManyArguments,
        ExceptionKind::UnknownKeyword,
        ExceptionKind::DuplicateArgument,
        ExceptionKind::UnhashableKey,
        ExceptionKind::KeyNotFound,
        ExceptionKind::IndexOutOfRange,
        ExceptionKind::NoSuchField,
        ExceptionKind::NoValueDestination,
        ExceptionKind::NegativeCount,
        ExceptionKind::InvalidUtf8,
        ExceptionKind::FunctionFellOffEnd,
        ExceptionKind::HostRaised,
        ExceptionKind::ModuleNotFound,
        ExceptionKind::CircularImport,
        ExceptionKind::ModuleLoadError,
        ExceptionKind::AmbiguousImport,
        ExceptionKind::NotExported,
        ExceptionKind::NoSuchMember,
        ExceptionKind::WithTargetNotParameter,
        ExceptionKind::NotImplemented,
    ];
    for (i, a) in kinds.iter().enumerate() {
        for b in &kinds[i + 1..] {
            assert_ne!(a.slug(), b.slug());
        }
        for group in a.slug().split('-') {
            assert!(!group.is_empty());
            assert!(group.chars().all(|c| c.is_ascii_lowercase() || c.is_ascii_digit()));
        }
    }
    assert_eq!(ExceptionKind::FunctionFellOffEnd.slug(), "function-fell-off-end");
    assert_eq!(ExceptionKind::InvalidUtf8.slug(), "invalid-utf8");
}

#[test]
fn a_walk_of_the_stack_agrees_with_the_frames() {
    let src = "to inner()\nprint(1)\nend\nto outer()\ninner()\n2\nend\nouter()\n";
    let mut inst = Instance::load_with_intrinsics(module(src, 0), registry_with(vec![print()]));
    inst.set_breakpoint("main", 2);
    let outcome = run(&mut inst, Directive::Continue);
    assert!(matches!(outcome, Outcome::Paused(PauseReason::Breakpoint(_))), "{outcome:?}");
    let walk = inst.stack_walk();
    assert_eq!(walk.len(), inst.frame_count());
    for (k, w) in walk.iter().enumerate() {
        let info = inst.frame_info(k).unwrap();
        assert_eq!(w.call_site, info.call_site);
        assert_eq!(w.tail_count, info.tail_count);
        assert_eq!(w.module, info.module);
        assert_eq!(w.callable.is_some(), info.has_callable);
    }
    let site = walk[0].call_site.unwrap();
    assert_eq!(&src[site.start as usize..site.end as usize], "inner()");
    assert_eq!(inst.callable_name(walk[1].callable.unwrap()), Ok(Some("outer".to_string())));
    assert_eq!(walk[2].call_site, None);
}

#[test]
fn findings_of_loading_are_only_added_to() {
    let src = "let print = 1\nimport m\n";
    let mut inst = Instance::load_with_intrinsics(module(src, 0), registry_with(vec![print()]));
    let first = inst.load_diagnostics(0).len();
    assert_eq!(first, 1);
    run(&mut inst, Directive::RunToCompletion);
    assert_eq!(inst.load_diagnostics(0).len(), first);
    let answer = source(&inst, "let print = 2\n", "m");
    let outcome = resolve_import(&mut inst, answer);
    assert!(matches!(outcome, Outcome::Completed(None)), "{outcome:?}");
    assert_eq!(inst.load_diagnostics(0).len(), 2);
    assert_eq!(inst.load_diagnostics(first).len(), 1);
    assert_eq!(inst.load_diagnostics(0)[0].module.0, 0);
    assert!(inst.load_diagnostics(first)[0].module.0 > 0);
    assert!(inst.load_diagnostics(9).is_empty());
}

#[test]
fn the_readers_of_fields_agree() {
    let (mut inst, outcome) = run_with("record P(x, y)\nlet p = P(3, 4)\n", registry_with(vec![]));
    assert!(matches!(outcome, Outcome::Completed(None)), "{outcome:?}");
    let p = inst.module_global_value(0, 1).unwrap();
    let n = inst.record_length(p).unwrap();
    for i in 0..4 {
        assert_eq!(inst.record_field(p, i).is_ok(), i < n);
        assert_eq!(inst.record_field_name(p, i).is_ok(), i < n);
    }
    let y = inst.record_field(p, 1).unwrap();
    assert_eq!(inst.as_int(y), Ok(4));
}

#[test]
fn the_keys_of_a_dict_stay_distinct_through_a_whole_run() {
    let (mut inst, outcome) = run_with(
        "record P(x, y)\nlet p = P(1, 2)\nlet d = {\"a\": 1}\n\
         d[p] = 2\np.x = 7\nd[p] = 3\nd[1] = 4\nd[1.0] = 5\nd[P(1, 2)] = 6\nd[\"a\"] = 7\n\
         let e = {\"a\": 7}\ne[P(7, 2)] = 3\ne[1.0] = 5\ne[P(1, 2)] = 6\n\
         let f = {\"a\": 7}\nf[1] = 5\nf[P(1, 2)] = 6\nf[P(7, 2)] = 3\n",
        registry_with(vec![]),
    );
    assert!(matches!(outcome, Outcome::Completed(None)), "{outcome:?}");
    for collected in [false, true] {
        if collected {
            inst.force_collect();
        }
        let d = inst.module_global_value(0, 2).unwrap();
        assert_eq!(inst.dict_length(d), Ok(4));
        let mut keys = vec![];
        for i in 0..4 {
            let k = inst.dict_key(d, i).unwrap();
            keys.push(value_of(&inst.handles, k).unwrap());
        }
        for i in 0..4 {
            for j in 0..4 {
                assert_eq!(equal(keys[i], keys[j], &inst.heap), i == j);
            }
        }
        let mut dicts = vec![];
        for global in 2..5 {
            let h = inst.module_global_value(0, global).unwrap();
            dicts.push(value_of(&inst.handles, h).unwrap());
        }
        for a in &dicts {
            for b in &dicts {
                assert!(equal(*a, *b, &inst.heap));
            }
        }
    }
}

#[test]
fn handles_to_a_key_lead_to_the_key_itself() {
    let (mut inst, outcome) = run_with(
        "record P(x)\nlet d = {\"a\": 1}\nd[P(1)] = 2\nd[P(2)] = 3\n",
        registry_with(vec![]),
    );
    assert!(matches!(outcome, Outcome::Completed(None)), "{outcome:?}");
    let d = inst.module_global_value(0, 1).unwrap();
    let first = inst.dict_key(d, 1).unwrap();
    let again = inst.dict_key(d, 1).unwrap();
    let (a, b) = (value_of(&inst.handles, first).unwrap(), value_of(&inst.handles, again).unwrap());
    assert_eq!(a, b);
}

#[test]
fn records_fit_their_types_through_a_whole_run() {
    let (mut inst, outcome) = run_with(
        "record P(x, y)\nlet p = P(3, 4)\nlet q = P(p, [p])\nlet err = 0\n\
         try\nlet z = 1 / 0\nrescue e\nerr = e\nend\np.x = q\n",
        registry_with(vec![]),
    );
    assert!(matches!(outcome, Outcome::Completed(None)), "{outcome:?}");
    for collected in [false, true] {
        if collected {
            inst.force_collect();
        }
        for (global, fields) in [(1, 2), (2, 2), (3, 3)] {
            let r = inst.module_global_value(0, global).unwrap();
            assert_eq!(inst.record_length(r), Ok(fields));
            for i in 0..5 {
                assert_eq!(inst.record_field(r, i).is_ok(), i < fields);
                assert_eq!(inst.record_field_name(r, i).is_ok(), i < fields);
            }
        }
    }
}
