//! Runtime errors: the exception a failing operation raises, the structured details it
//! carries, and the trace of where it was raised.
use crate::span::Span;
use crate::value::CalIdx;
use crate::value::Value;
use vstd::prelude::*;

verus! {

/// The kind of a runtime error.
#[derive(Clone, Copy, PartialEq, Eq, Debug, Structural)]
pub enum ExceptionKind {
    /// An operand of the wrong type.
    TypeMismatch,
    /// Division or modulo by zero.
    DivisionByZero,
    /// A float result that would be infinite or not a number.
    NonFiniteFloat,
    /// Ordering where none is defined.
    UndefinedOrdering,
    /// A procedure's (absent) result used as a value.
    ProcedureInExpression,
    /// A name without a binding.
    NameNotDefined,
    /// A binding used before its declaration ran.
    UsedBeforeDefined,
    /// A call of what is not callable.
    NotCallable,
    /// Arguments that do not match the parameters.
    ArgumentError,
    /// A required argument that was not given.
    MissingArgument,
    /// More positional arguments than parameters.
    TooManyArguments,
    /// A keyword that names no parameter.
    UnknownKeyword,
    /// A parameter given more than once.
    DuplicateArgument,
    /// A value that may not be a dict key.
    UnhashableKey,
    /// A key the dict does not hold.
    KeyNotFound,
    /// A position outside a sequence.
    IndexOutOfRange,
    /// A field the record's type does not declare.
    NoSuchField,
    /// A valued `break` whose destination takes no value.
    NoValueDestination,
    /// A negative repetition count.
    NegativeCount,
    /// Bytes that are not well-formed UTF-8.
    InvalidUtf8,
    /// A function that ended without a value.
    FunctionFellOffEnd,
    /// A value the host raised.
    HostRaised,
    /// A module the host does not have.
    ModuleNotFound,
    /// A module importing itself, through others or not.
    CircularImport,
    /// A module whose source has static errors.
    ModuleLoadError,
    /// A name that two wildcard imports supply.
    AmbiguousImport,
    /// A member that its module keeps private.
    NotExported,
    /// A member that its module does not declare.
    NoSuchMember,
    /// A `with` over what is not a dynamic parameter.
    WithTargetNotParameter,
    /// A protocol member without an implementation for the value's type.
    NotImplemented,
}

/// The stable name of an error kind.
pub open spec fn kind_slug(kind: ExceptionKind) -> Seq<char> {
    match kind {
        ExceptionKind::TypeMismatch => "type-mismatch"@,
        ExceptionKind::DivisionByZero => "division-by-zero"@,
        ExceptionKind::NonFiniteFloat => "non-finite-float"@,
        ExceptionKind::UndefinedOrdering => "undefined-ordering"@,
        ExceptionKind::ProcedureInExpression => "procedure-in-expression"@,
        ExceptionKind::NameNotDefined => "name-not-defined"@,
        ExceptionKind::UsedBeforeDefined => "used-before-defined"@,
        ExceptionKind::NotCallable => "not-callable"@,
        ExceptionKind::ArgumentError => "argument-error"@,
        ExceptionKind::MissingArgument => "missing-argument"@,
        ExceptionKind::TooManyArguments => "too-many-arguments"@,
        ExceptionKind::UnknownKeyword => "unknown-keyword"@,
        ExceptionKind::DuplicateArgument => "duplicate-argument"@,
        ExceptionKind::UnhashableKey => "unhashable-key"@,
        ExceptionKind::KeyNotFound => "key-not-found"@,
        ExceptionKind::IndexOutOfRange => "index-out-of-range"@,
        ExceptionKind::NoSuchField => "no-such-field"@,
        ExceptionKind::NoValueDestination => "no-value-destination"@,
        ExceptionKind::NegativeCount => "negative-count"@,
        ExceptionKind::InvalidUtf8 => "invalid-utf8"@,
        ExceptionKind::FunctionFellOffEnd => "function-fell-off-end"@,
        ExceptionKind::HostRaised => "host-raised"@,
        ExceptionKind::ModuleNotFound => "module-not-found"@,
        ExceptionKind::CircularImport => "circular-import"@,
        ExceptionKind::ModuleLoadError => "module-load-error"@,
        ExceptionKind::AmbiguousImport => "ambiguous-import"@,
        ExceptionKind::NotExported => "not-exported"@,
        ExceptionKind::NoSuchMember => "no-such-member"@,
        ExceptionKind::WithTargetNotParameter => "with-target-not-parameter"@,
        ExceptionKind::NotImplemented => "not-implemented"@,
    }
}

impl ExceptionKind {
    /// The stable kebab-case name of this error kind.
    pub fn slug(self) -> (r: &'static str)
        ensures
            r@ == kind_slug(self),
    {
        match self {
            ExceptionKind::TypeMismatch => "type-mismatch",
            ExceptionKind::DivisionByZero => "division-by-zero",
            ExceptionKind::NonFiniteFloat => "non-finite-float",
            ExceptionKind::UndefinedOrdering => "undefined-ordering",
            ExceptionKind::ProcedureInExpression => "procedure-in-expression",
            ExceptionKind::NameNotDefined => "name-not-defined",
            ExceptionKind::UsedBeforeDefined => "used-before-defined",
            ExceptionKind::NotCallable => "not-callable",
            ExceptionKind::ArgumentError => "argument-error",
            ExceptionKind::MissingArgument => "missing-argument",
            ExceptionKind::TooManyArguments => "too-many-arguments",
            ExceptionKind::UnknownKeyword => "unknown-keyword",
            ExceptionKind::DuplicateArgument => "duplicate-argument",
            ExceptionKind::UnhashableKey => "unhashable-key",
            ExceptionKind::KeyNotFound => "key-not-found",
            ExceptionKind::IndexOutOfRange => "index-out-of-range",
            ExceptionKind::NoSuchField => "no-such-field",
            ExceptionKind::NoValueDestination => "no-value-destination",
            ExceptionKind::NegativeCount => "negative-count",
            ExceptionKind::InvalidUtf8 => "invalid-utf8",
            ExceptionKind::FunctionFellOffEnd => "function-fell-off-end",
            ExceptionKind::HostRaised => "host-raised",
            ExceptionKind::ModuleNotFound => "module-not-found",
            ExceptionKind::CircularImport => "circular-import",
            ExceptionKind::ModuleLoadError => "module-load-error",
            ExceptionKind::AmbiguousImport => "ambiguous-import",
            ExceptionKind::NotExported => "not-exported",
            ExceptionKind::NoSuchMember => "no-such-member",
            ExceptionKind::WithTargetNotParameter => "with-target-not-parameter",
            ExceptionKind::NotImplemented => "not-implemented",
        }
    }
}

/// Whether the first `n` characters of a text are in kebab case: lower-case letters and
/// digits in groups joined by single hyphens.
pub open spec fn kebab_to(s: Seq<char>, n: nat) -> bool
    decreases n,
{
    n == 0 || {
        &&& kebab_to(s, (n - 1) as nat)
        &&& 'a' <= s[n - 1] <= 'z' || '0' <= s[n - 1] <= '9' || s[n - 1] == '-'
        &&& s[n - 1] == '-' ==> 1 < n < s.len() && s[n - 2] != '-'
    }
}

/// Whether a text is in kebab case.
pub open spec fn kebab(s: Seq<char>) -> bool {
    s.len() > 0 && kebab_to(s, s.len())
}

/// What tells the slugs apart: how long they are, and two of their characters.
spec fn slug_mark(s: Seq<char>) -> (nat, char, char) {
    (s.len(), s[0], s[4])
}

spec fn kind_mark(kind: ExceptionKind) -> (nat, char, char) {
    match kind {
        ExceptionKind::TypeMismatch => (13, 't', '-'),
        ExceptionKind::DivisionByZero => (16, 'd', 's'),
        ExceptionKind::NonFiniteFloat => (16, 'n', 'f'),
        ExceptionKind::UndefinedOrdering => (18, 'u', 'f'),
        ExceptionKind::ProcedureInExpression => (23, 'p', 'e'),
        ExceptionKind::NameNotDefined => (16, 'n', '-'),
        ExceptionKind::UsedBeforeDefined => (19, 'u', '-'),
        ExceptionKind::NotCallable => (12, 'n', 'c'),
        ExceptionKind::ArgumentError => (14, 'a', 'm'),
        ExceptionKind::MissingArgument => (16, 'm', 'i'),
        ExceptionKind::TooManyArguments => (18, 't', 'm'),
        ExceptionKind::UnknownKeyword => (15, 'u', 'o'),
        ExceptionKind::DuplicateArgument => (18, 'd', 'i'),
        ExceptionKind::UnhashableKey => (14, 'u', 's'),
        ExceptionKind::KeyNotFound => (13, 'k', 'n'),
        ExceptionKind::IndexOutOfRange => (18, 'i', 'x'),
        ExceptionKind::NoSuchField => (13, 'n', 'u'),
        ExceptionKind::NoValueDestination => (20, 'n', 'a'),
        ExceptionKind::NegativeCount => (14, 'n', 't'),
        ExceptionKind::InvalidUtf8 => (12, 'i', 'l'),
        ExceptionKind::FunctionFellOffEnd => (21, 'f', 't'),
        ExceptionKind::HostRaised => (11, 'h', '-'),
        ExceptionKind::ModuleNotFound => (16, 'm', 'l'),
        ExceptionKind::CircularImport => (15, 'c', 'u'),
        ExceptionKind::ModuleLoadError => (17, 'm', 'l'),
        ExceptionKind::AmbiguousImport => (16, 'a', 'g'),
        ExceptionKind::NotExported => (12, 'n', 'e'),
        ExceptionKind::NoSuchMember => (14, 'n', 'u'),
        ExceptionKind::WithTargetNotParameter => (25, 'w', '-'),
        ExceptionKind::NotImplemented => (15, 'n', 'i'),
    }
}

#[verifier::spinoff_prover]
#[verifier::rlimit(50)]
proof fn lemma_slug(kind: ExceptionKind)
    ensures
        kebab(kind_slug(kind)),
        slug_mark(kind_slug(kind)) == kind_mark(kind),
{
    reveal_with_fuel(kebab_to, 27);
    match kind {
        ExceptionKind::TypeMismatch => {
            reveal_strlit("type-mismatch");
        },
        ExceptionKind::DivisionByZero => {
            reveal_strlit("division-by-zero");
        },
        ExceptionKind::NonFiniteFloat => {
            reveal_strlit("non-finite-float");
        },
        ExceptionKind::UndefinedOrdering => {
            reveal_strlit("undefined-ordering");
        },
        ExceptionKind::ProcedureInExpression => {
            reveal_strlit("procedure-in-expression");
        },
        ExceptionKind::NameNotDefined => {
            reveal_strlit("name-not-defined");
        },
        ExceptionKind::UsedBeforeDefined => {
            reveal_strlit("used-before-defined");
        },
        ExceptionKind::NotCallable => {
            reveal_strlit("not-callable");
        },
        ExceptionKind::ArgumentError => {
            reveal_strlit("argument-error");
        },
        ExceptionKind::MissingArgument => {
            reveal_strlit("missing-argument");
        },
        ExceptionKind::TooManyArguments => {
            reveal_strlit("too-many-arguments");
        },
        ExceptionKind::UnknownKeyword => {
            reveal_strlit("unknown-keyword");
        },
        ExceptionKind::DuplicateArgument => {
            reveal_strlit("duplicate-argument");
        },
        ExceptionKind::UnhashableKey => {
            reveal_strlit("unhashable-key");
        },
        ExceptionKind::KeyNotFound => {
            reveal_strlit("key-not-found");
        },
        ExceptionKind::IndexOutOfRange => {
            reveal_strlit("index-out-of-range");
        },
        ExceptionKind::NoSuchField => {
            reveal_strlit("no-such-field");
        },
        ExceptionKind::NoValueDestination => {
            reveal_strlit("no-value-destination");
        },
        ExceptionKind::NegativeCount => {
            reveal_strlit("negative-count");
        },
        ExceptionKind::InvalidUtf8 => {
            reveal_strlit("invalid-utf8");
        },
        ExceptionKind::FunctionFellOffEnd => {
            reveal_strlit("function-fell-off-end");
        },
        ExceptionKind::HostRaised => {
            reveal_strlit("host-raised");
        },
        ExceptionKind::ModuleNotFound => {
            reveal_strlit("module-not-found");
        },
        ExceptionKind::CircularImport => {
            reveal_strlit("circular-import");
        },
        ExceptionKind::ModuleLoadError => {
            reveal_strlit("module-load-error");
        },
        ExceptionKind::AmbiguousImport => {
            reveal_strlit("ambiguous-import");
        },
        ExceptionKind::NotExported => {
            reveal_strlit("not-exported");
        },
        ExceptionKind::NoSuchMember => {
            reveal_strlit("no-such-member");
        },
        ExceptionKind::WithTargetNotParameter => {
            reveal_strlit("with-target-not-parameter");
        },
        ExceptionKind::NotImplemented => {
            reveal_strlit("not-implemented");
        },
    }
}

/// The slugs of different error kinds are different, and each is in kebab case.
pub proof fn law_slugs_are_distinct_kebab_case(a: ExceptionKind, b: ExceptionKind)
    ensures
        kebab(kind_slug(a)),
        a != b ==> kind_slug(a) != kind_slug(b),
{
    lemma_slug(a);
    lemma_slug(b);
}

/// A limit a program can exceed.
#[derive(Clone, Copy, PartialEq, Eq, Debug, Structural)]
pub enum LimitKind {
    /// The lifetime step budget.
    StepBudget,
    /// The heap.
    Heap,
    /// The depth of the frame stack or of nested drives.
    StackDepth,
    /// The size of one operation's result.
    OpResult,
}

/// Why a drive stopped without a value or an exception.
#[derive(Clone, Copy, PartialEq, Eq, Debug, Structural)]
pub enum EngineFault {
    /// A configured limit was exceeded.
    LimitExceeded(LimitKind),
    /// The host cancelled the program.
    Cancelled,
    /// A suspending capability was reached inside a nested drive.
    NestedSuspend,
    /// The host broke its contract, or the machine a rule of its own.
    Internal,
}

/// An exception: its kind and a message for the program's author.
#[derive(Debug)]
pub struct Exception {
    /// The error kind.
    pub kind: ExceptionKind,
    /// The message.
    pub message: String,
}

/// One frame of a captured trace.
#[derive(Clone, Copy, PartialEq, Eq, Debug, Structural)]
pub struct TraceFrame {
    /// The callable the frame ran, if it ran one.
    pub callable: Option<CalIdx>,
    /// Where the frame was entered, if a call in the source entered it.
    pub call_site: Option<Span>,
    /// How many tail calls the frame absorbed.
    pub tail_count: u64,
}

/// Where an exception was raised: the position, the live frames (innermost first) and the
/// callables whose frames tail calls overwrote (most recent first).
#[derive(Debug)]
pub struct Trace {
    /// The source position of the raise, if known.
    pub raised_at: Option<Span>,
    /// The live frames, innermost first.
    pub frames: Vec<TraceFrame>,
    /// The overwritten callables, most recent first.
    pub tail_elided: Vec<CalIdx>,
}

/// The contents of a trace.
pub struct TraceView {
    /// The source position of the raise, if known.
    pub raised_at: Option<Span>,
    /// The live frames, innermost first.
    pub frames: Seq<TraceFrame>,
    /// The overwritten callables, most recent first.
    pub tail_elided: Seq<CalIdx>,
}

impl View for Trace {
    type V = TraceView;

    open spec fn view(&self) -> TraceView {
        TraceView {
            raised_at: self.raised_at,
            frames: self.frames@,
            tail_elided: self.tail_elided@,
        }
    }
}

impl TraceView {
    /// A trace that knows only its position.
    pub open spec fn at(raised_at: Option<Span>) -> TraceView {
        TraceView { raised_at, frames: Seq::empty(), tail_elided: Seq::empty() }
    }
}

impl Trace {
    /// A trace that knows only its position.
    pub fn at(raised_at: Option<Span>) -> (r: Trace)
        ensures
            r@ == TraceView::at(raised_at),
    {
        let r = Trace { raised_at, frames: Vec::new(), tail_elided: Vec::new() };
        assert(r@.frames =~= Seq::empty() && r@.tail_elided =~= Seq::empty());
        r
    }

    /// The same trace again.
    pub fn copy(&self) -> (r: Trace)
        ensures
            r@ == self@,
    {
        let mut frames: Vec<TraceFrame> = Vec::new();
        let mut i: usize = 0;
        while i < self.frames.len()
            invariant
                i <= self.frames@.len(),
                frames@ =~= self.frames@.take(i as int),
            decreases self.frames@.len() - i,
        {
            frames.push(self.frames[i]);
            i = i + 1;
        }
        let mut tail_elided: Vec<CalIdx> = Vec::new();
        let mut j: usize = 0;
        while j < self.tail_elided.len()
            invariant
                j <= self.tail_elided@.len(),
                tail_elided@ =~= self.tail_elided@.take(j as int),
            decreases self.tail_elided@.len() - j,
        {
            tail_elided.push(self.tail_elided[j]);
            j = j + 1;
        }
        assert(frames@ =~= self.frames@ && tail_elided@ =~= self.tail_elided@);
        Trace { raised_at: self.raised_at, frames, tail_elided }
    }
}

/// A structured detail of an error, before it becomes a value.
#[derive(Debug)]
pub enum DetailVal {
    /// A text.
    Str(String),
    /// An integer.
    Int(i64),
    /// A boolean.
    Bool(bool),
    /// A value.
    Value(Value),
    /// A list of details.
    List(Vec<DetailVal>),
    /// Named details.
    Dict(Vec<(&'static str, DetailVal)>),
}

/// The contents of a detail.
pub enum DetailView {
    /// A text.
    Str(Seq<char>),
    /// An integer.
    Int(i64),
    /// A boolean.
    Bool(bool),
    /// A value.
    Value(Value),
    /// A list of details.
    List(Seq<DetailView>),
    /// Named details.
    Dict(Seq<(Seq<char>, DetailView)>),
}

/// The contents of a detail.
pub open spec fn detail_view(d: DetailVal) -> DetailView
    decreases d,
{
    match d {
        DetailVal::Str(s) => DetailView::Str(s@),
        DetailVal::Int(n) => DetailView::Int(n),
        DetailVal::Bool(b) => DetailView::Bool(b),
        DetailVal::Value(v) => DetailView::Value(v),
        DetailVal::List(items) => DetailView::List(
            Seq::new(
                items@.len(),
                |i: int|
                    if 0 <= i < items@.len() {
                        detail_view(items@[i])
                    } else {
                        DetailView::Bool(false)
                    },
            ),
        ),
        DetailVal::Dict(items) => DetailView::Dict(
            Seq::new(
                items@.len(),
                |i: int|
                    if 0 <= i < items@.len() {
                        (items@[i].0@, detail_view(items@[i].1))
                    } else {
                        (Seq::empty(), DetailView::Bool(false))
                    },
            ),
        ),
    }
}

/// The contents of named details.
pub open spec fn details_view(items: Seq<(&'static str, DetailVal)>) -> Seq<
    (Seq<char>, DetailView),
> {
    items.map_values(|e: (&'static str, DetailVal)| (e.0@, detail_view(e.1)))
}

/// A raise in flight: the exception, where it was raised, and its details.
#[derive(Debug)]
pub struct Raise {
    /// The exception.
    pub exception: Exception,
    /// Where it was raised.
    pub trace: Trace,
    /// Its structured details.
    pub details: Vec<(&'static str, DetailVal)>,
}

/// The contents of a raise.
pub struct RaiseView {
    /// The error kind.
    pub kind: ExceptionKind,
    /// The message.
    pub message: Seq<char>,
    /// Where it was raised.
    pub trace: TraceView,
    /// The structured details.
    pub details: Seq<(Seq<char>, DetailView)>,
}

impl View for Raise {
    type V = RaiseView;

    open spec fn view(&self) -> RaiseView {
        RaiseView {
            kind: self.exception.kind,
            message: self.exception.message@,
            trace: self.trace@,
            details: details_view(self.details@),
        }
    }
}

impl RaiseView {
    /// A raise of a kind with a message at a position, without details.
    pub open spec fn new(kind: ExceptionKind, message: Seq<char>, span: Span) -> RaiseView {
        RaiseView {
            kind,
            message,
            trace: TraceView::at(Some(span)),
            details: Seq::empty(),
        }
    }

    /// The same raise with details.
    pub open spec fn with(self, details: Seq<(Seq<char>, DetailView)>) -> RaiseView {
        RaiseView { details, ..self }
    }
}

impl Raise {
    /// A raise of a kind with a message at a position, without details.
    pub fn new(kind: ExceptionKind, message: String, span: Span) -> (r: Raise)
        ensures
            r@ == RaiseView::new(kind, message@, span),
    {
        let r = Raise {
            exception: Exception { kind, message },
            trace: Trace::at(Some(span)),
            details: Vec::new(),
        };
        assert(details_view(r.details@) =~= Seq::empty());
        r
    }

    /// The same raise with details.
    pub fn with_details(self, details: Vec<(&'static str, DetailVal)>) -> (r: Raise)
        ensures
            r@ == self@.with(details_view(details@)),
    {
        Raise { exception: self.exception, trace: self.trace, details }
    }
}

/// A result, its exception as mathematics sees it.
pub open spec fn result_view<T>(r: Result<T, Raise>) -> Result<T, RaiseView> {
    match r {
        Ok(v) => Ok(v),
        Err(e) => Err(e@),
    }
}

} // verus!
