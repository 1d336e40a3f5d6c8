//! Host-registered functions: what a host declares before a program is loaded, and the
//! engine's own functions among them.
use crate::heap::BuiltinType;
use crate::native::const_view;
use crate::native::ConstValue;
use crate::native::ConstView;
use crate::native::NativeModule;
use crate::native::NativeModuleView;
use crate::resolve::BodyKind;
use crate::text::same_text;
use vstd::prelude::*;

verus! {

/// A parameter of a host-registered function.
#[derive(Debug)]
pub struct ForeignParam {
    /// The name.
    pub name: String,
    /// What an omitted argument becomes, made anew for each call.
    pub default: Option<ConstValue>,
    /// Whether it is the trailing block parameter.
    pub is_block: bool,
}

/// A parameter of a host-registered function, as mathematics sees it.
pub struct ForeignParamView {
    /// The name.
    pub name: Seq<char>,
    /// What an omitted argument becomes.
    pub default: Option<ConstView>,
    /// Whether it is the trailing block parameter.
    pub is_block: bool,
}

impl View for ForeignParam {
    type V = ForeignParamView;

    open spec fn view(&self) -> ForeignParamView {
        ForeignParamView {
            name: self.name@,
            default: match self.default {
                Some(c) => Some(const_view(c)),
                None => None,
            },
            is_block: self.is_block,
        }
    }
}

/// The contents of some parameters.
pub open spec fn foreign_params(params: Seq<ForeignParam>) -> Seq<ForeignParamView> {
    params.map_values(|p: ForeignParam| p@)
}

/// The functions the engine itself provides.
#[derive(Clone, Copy, PartialEq, Eq, Debug, Structural)]
pub enum Native {
    /// Renders its argument to the output.
    Print,
    /// Runs its block once per element of a list or cluster of a string.
    Each,
    /// The length of a container.
    Length,
    /// The UTF-8 bytes of a string.
    Encode,
    /// The string of UTF-8 bytes.
    Decode,
    /// The sine.
    Sin,
    /// The cosine.
    Cos,
}

/// How a host-registered function is fulfilled.
#[derive(Clone, Copy, PartialEq, Eq, Debug, Structural)]
pub enum ForeignBody {
    /// By the engine, at once.
    Engine(Native),
    /// By the host, at once, under a number of the host's choosing.
    Host(u32),
    /// By the host, later: the program is suspended meanwhile.
    Capability,
}

/// A host-registered function.
#[derive(Debug)]
pub struct Intrinsic {
    /// The name it is found under.
    pub name: String,
    /// Procedure or function.
    pub kind: BodyKind,
    /// The parameters, a block parameter last.
    pub params: Vec<ForeignParam>,
    /// How it is fulfilled.
    pub body: ForeignBody,
}

/// A host-registered function, as mathematics sees it.
pub struct IntrinsicView {
    /// The name it is found under.
    pub name: Seq<char>,
    /// Procedure or function.
    pub kind: BodyKind,
    /// The parameters, a block parameter last.
    pub params: Seq<ForeignParamView>,
    /// How it is fulfilled.
    pub body: ForeignBody,
}

impl View for Intrinsic {
    type V = IntrinsicView;

    open spec fn view(&self) -> IntrinsicView {
        IntrinsicView {
            name: self.name@,
            kind: self.kind,
            params: foreign_params(self.params@),
            body: self.body,
        }
    }
}

/// The contents of some functions.
pub open spec fn intrinsics_view(all: Seq<Intrinsic>) -> Seq<IntrinsicView> {
    all.map_values(|i: Intrinsic| i@)
}

/// What a synchronous host function answered.
#[derive(Clone, Copy, PartialEq, Eq, Debug, Structural)]
pub enum HostReply {
    /// A result, or none from a procedure.
    Value(Option<crate::handle::Handle>),
    /// An exception.
    Raise(crate::handle::Handle),
}

/// A parameter without a default that is no block.
pub open spec fn required(name: Seq<char>) -> ForeignParamView {
    ForeignParamView { name, default: None, is_block: false }
}

/// A block parameter.
pub open spec fn trailing_block(name: Seq<char>) -> ForeignParamView {
    ForeignParamView { name, default: None, is_block: true }
}

fn param(name: &str) -> (r: ForeignParam)
    ensures
        r@ == required(name@),
{
    ForeignParam { name: name.to_owned(), default: None, is_block: false }
}

/// A builder of host functions: parameters in the order they are added.
pub struct ForeignBuilder {
    /// The name.
    pub name: String,
    /// Procedure or function.
    pub kind: BodyKind,
    /// The parameters so far.
    pub params: Vec<ForeignParam>,
}

impl ForeignBuilder {
    /// The function so far, with a body.
    pub open spec fn built(self, body: ForeignBody) -> IntrinsicView {
        IntrinsicView {
            name: self.name@,
            kind: self.kind,
            params: foreign_params(self.params@),
            body,
        }
    }

    /// A builder of a function without parameters.
    pub fn new(name: &str, kind: BodyKind) -> (r: ForeignBuilder)
        ensures
            r.name@ == name@,
            r.kind == kind,
            foreign_params(r.params@) == Seq::<ForeignParamView>::empty(),
    {
        let r = ForeignBuilder { name: name.to_owned(), kind, params: Vec::new() };
        assert(foreign_params(r.params@) =~= Seq::<ForeignParamView>::empty());
        r
    }

    fn with(self, p: ForeignParam) -> (r: ForeignBuilder)
        ensures
            r.name == self.name,
            r.kind == self.kind,
            foreign_params(r.params@) == foreign_params(self.params@).push(p@),
    {
        let mut params = self.params;
        params.push(p);
        assert(foreign_params(params@) =~= foreign_params(self.params@).push(p@));
        ForeignBuilder { name: self.name, kind: self.kind, params }
    }

    /// Adds a required parameter.
    pub fn param(self, name: &str) -> (r: ForeignBuilder)
        ensures
            r.name == self.name,
            r.kind == self.kind,
            foreign_params(r.params@) == foreign_params(self.params@).push(required(name@)),
    {
        self.with(param(name))
    }

    /// Adds a parameter with a default.
    pub fn default_param(self, name: &str, default: ConstValue) -> (r: ForeignBuilder)
        ensures
            r.name == self.name,
            r.kind == self.kind,
            foreign_params(r.params@) == foreign_params(self.params@).push(
                ForeignParamView {
                    name: name@,
                    default: Some(const_view(default)),
                    is_block: false,
                },
            ),
    {
        self.with(ForeignParam { name: name.to_owned(), default: Some(default), is_block: false })
    }

    /// Adds the trailing block parameter.
    pub fn block_param(self, name: &str) -> (r: ForeignBuilder)
        ensures
            r.name == self.name,
            r.kind == self.kind,
            foreign_params(r.params@) == foreign_params(self.params@).push(trailing_block(name@)),
    {
        self.with(ForeignParam { name: name.to_owned(), default: None, is_block: true })
    }

    /// The function, fulfilled by the host under that number.
    pub fn host(self, callback: u32) -> (r: Intrinsic)
        ensures
            r@ == self.built(ForeignBody::Host(callback)),
    {
        Intrinsic {
            name: self.name,
            kind: self.kind,
            params: self.params,
            body: ForeignBody::Host(callback),
        }
    }
}

/// Why a registration was refused.
#[derive(PartialEq, Eq, Debug)]
pub enum HostError {
    /// A function of that name is registered already.
    DuplicateIntrinsic(String),
    /// The name is one the engine binds itself.
    CollidesWithBuiltin(String),
    /// A module of that name is registered already.
    DuplicateModule(String),
}

/// What a host registers before a program is loaded.
pub struct Registry {
    /// The functions, in registration order.
    pub intrinsics: Vec<Intrinsic>,
    /// The modules, in registration order.
    pub modules: Vec<NativeModule>,
}

/// What a host registers, as mathematics sees it.
pub struct RegistryView {
    /// The functions, in registration order.
    pub intrinsics: Seq<IntrinsicView>,
    /// The modules, in registration order.
    pub modules: Seq<NativeModuleView>,
}

impl View for Registry {
    type V = RegistryView;

    open spec fn view(&self) -> RegistryView {
        RegistryView {
            intrinsics: intrinsics_view(self.intrinsics@),
            modules: self.modules@.map_values(|m: NativeModule| m@),
        }
    }
}

/// The built-in types, under the names they are bound to.
pub open spec fn builtin_types() -> Seq<(Seq<char>, BuiltinType)> {
    seq![
        ("Nil"@, BuiltinType::Nil),
        ("Bool"@, BuiltinType::Bool),
        ("Int"@, BuiltinType::Int),
        ("Float"@, BuiltinType::Float),
        ("Number"@, BuiltinType::Number),
        ("String"@, BuiltinType::String),
        ("Bytes"@, BuiltinType::Bytes),
        ("List"@, BuiltinType::List),
        ("Dict"@, BuiltinType::Dict),
        ("Callable"@, BuiltinType::Callable),
        ("Module"@, BuiltinType::Module),
        ("Type"@, BuiltinType::Type),
        ("Foreign"@, BuiltinType::Foreign),
    ]
}

/// The names and types of a list.
pub open spec fn typed_view(list: Seq<(&'static str, BuiltinType)>) -> Seq<(Seq<char>, BuiltinType)> {
    list.map_values(|e: (&'static str, BuiltinType)| (e.0@, e.1))
}

/// The built-in types, under the names they are bound to.
pub fn builtins() -> (r: Vec<(&'static str, BuiltinType)>)
    ensures
        typed_view(r@) == builtin_types(),
        r@.len() == 13,
{
    let mut r: Vec<(&'static str, BuiltinType)> = Vec::new();
    r.push(("Nil", BuiltinType::Nil));
    r.push(("Bool", BuiltinType::Bool));
    r.push(("Int", BuiltinType::Int));
    r.push(("Float", BuiltinType::Float));
    r.push(("Number", BuiltinType::Number));
    r.push(("String", BuiltinType::String));
    r.push(("Bytes", BuiltinType::Bytes));
    r.push(("List", BuiltinType::List));
    r.push(("Dict", BuiltinType::Dict));
    r.push(("Callable", BuiltinType::Callable));
    r.push(("Module", BuiltinType::Module));
    r.push(("Type", BuiltinType::Type));
    r.push(("Foreign", BuiltinType::Foreign));
    assert(typed_view(r@) =~= builtin_types());
    r
}

/// Whether the engine binds a name itself.
pub open spec fn reserved(name: Seq<char>) -> bool {
    ||| exists|i: int| 0 <= i < builtin_types().len() && (#[trigger] builtin_types()[i]).0 == name
    ||| name == "Error"@
    ||| name == "Stringable"@
    ||| name == "Hashable"@
    ||| name == "to_string"@
}

fn reserved_prelude_name(name: &str) -> (r: bool)
    ensures
        r == reserved(name@),
{
    let all = builtins();
    let mut i: usize = 0;
    while i < all.len()
        invariant
            i <= all@.len(),
            typed_view(all@) == builtin_types(),
            forall|k: int| 0 <= k < i ==> (#[trigger] builtin_types()[k]).0 != name@,
        decreases all@.len() - i,
    {
        assert(typed_view(all@)[i as int] == (all@[i as int].0@, all@[i as int].1));
        if same_text(all[i].0, name) {
            assert(builtin_types()[i as int].0 == name@);
            return true;
        }
        i = i + 1;
    }
    assert(typed_view(all@).len() == all@.len());
    same_text(name, "Error") || same_text(name, "Stringable") || same_text(name, "Hashable")
        || same_text(name, "to_string")
}

/// Whether a function of a name is registered.
pub open spec fn registered(all: Seq<IntrinsicView>, name: Seq<char>) -> bool {
    exists|i: int| 0 <= i < all.len() && (#[trigger] all[i]).name == name
}

/// Whether a module of a name is registered.
pub open spec fn module_registered(all: Seq<NativeModuleView>, name: Seq<char>) -> bool {
    exists|i: int| 0 <= i < all.len() && (#[trigger] all[i]).name == name
}

impl Registry {
    /// A registry with nothing in it.
    pub fn new() -> (r: Registry)
        ensures
            r@ == (RegistryView { intrinsics: Seq::empty(), modules: Seq::empty() }),
    {
        let r = Registry { intrinsics: Vec::new(), modules: Vec::new() };
        assert(r@.intrinsics =~= Seq::<IntrinsicView>::empty());
        assert(r@.modules =~= Seq::<NativeModuleView>::empty());
        r
    }

    fn has_intrinsic(&self, name: &str) -> (r: bool)
        ensures
            r == registered(self@.intrinsics, name@),
    {
        let mut i: usize = 0;
        while i < self.intrinsics.len()
            invariant
                i <= self.intrinsics@.len(),
                forall|k: int| 0 <= k < i ==> (#[trigger] self@.intrinsics[k]).name != name@,
            decreases self.intrinsics@.len() - i,
        {
            assert(self@.intrinsics[i as int] == self.intrinsics@[i as int]@);
            if same_text(self.intrinsics[i].name.as_str(), name) {
                return true;
            }
            i = i + 1;
        }
        false
    }

    fn has_module(&self, name: &str) -> (r: bool)
        ensures
            r == module_registered(self@.modules, name@),
    {
        let mut i: usize = 0;
        while i < self.modules.len()
            invariant
                i <= self.modules@.len(),
                forall|k: int| 0 <= k < i ==> (#[trigger] self@.modules[k]).name != name@,
            decreases self.modules@.len() - i,
        {
            assert(self@.modules[i as int] == self.modules@[i as int]@);
            if same_text(self.modules[i].name.as_str(), name) {
                return true;
            }
            i = i + 1;
        }
        false
    }

    /// Registers a function under a name that nothing has yet.
    pub fn register(&mut self, intrinsic: Intrinsic) -> (r: Result<(), HostError>)
        ensures
            reserved(intrinsic@.name) ==> {
                &&& r matches Err(HostError::CollidesWithBuiltin(name))
                &&& name@ == intrinsic@.name
                &&& final(self)@ == old(self)@
            },
            !reserved(intrinsic@.name) && registered(old(self)@.intrinsics, intrinsic@.name) ==> {
                &&& r matches Err(HostError::DuplicateIntrinsic(name))
                &&& name@ == intrinsic@.name
                &&& final(self)@ == old(self)@
            },
            !reserved(intrinsic@.name) && !registered(old(self)@.intrinsics, intrinsic@.name) ==> {
                &&& r is Ok
                &&& final(self)@ == (RegistryView {
                    intrinsics: old(self)@.intrinsics.push(intrinsic@),
                    ..old(self)@
                })
            },
    {
        if reserved_prelude_name(intrinsic.name.as_str()) {
            return Err(HostError::CollidesWithBuiltin(intrinsic.name));
        }
        if self.has_intrinsic(intrinsic.name.as_str()) {
            return Err(HostError::DuplicateIntrinsic(intrinsic.name));
        }
        self.intrinsics.push(intrinsic);
        assert(self@.intrinsics =~= old(self)@.intrinsics.push(intrinsic@));
        Ok(())
    }

    /// Registers a module under a name that no module has yet.
    pub fn register_module(&mut self, module: NativeModule) -> (r: Result<(), HostError>)
        ensures
            module_registered(old(self)@.modules, module@.name) ==> {
                &&& r matches Err(HostError::DuplicateModule(name))
                &&& name@ == module@.name
                &&& final(self)@ == old(self)@
            },
            !module_registered(old(self)@.modules, module@.name) ==> {
                &&& r is Ok
                &&& final(self)@ == (RegistryView {
                    modules: old(self)@.modules.push(module@),
                    ..old(self)@
                })
            },
    {
        if self.has_module(module.name.as_str()) {
            return Err(HostError::DuplicateModule(module.name));
        }
        self.modules.push(module);
        assert(self@.modules =~= old(self)@.modules.push(module@));
        Ok(())
    }
}

/// A function of one required parameter, fulfilled by the engine.
pub open spec fn engine_unary(name: Seq<char>, kind: BodyKind, parameter: Seq<char>, native: Native) -> IntrinsicView {
    IntrinsicView {
        name,
        kind,
        params: seq![required(parameter)],
        body: ForeignBody::Engine(native),
    }
}

fn unary(name: &str, kind: BodyKind, parameter: &str, native: Native) -> (r: Intrinsic)
    ensures
        r@ == engine_unary(name@, kind, parameter@, native),
{
    let mut params: Vec<ForeignParam> = Vec::new();
    params.push(param(parameter));
    assert(foreign_params(params@) =~= seq![required(parameter@)]);
    Intrinsic { name: name.to_owned(), kind, params, body: ForeignBody::Engine(native) }
}

/// `print`: renders its argument and a line break to the output.
pub fn print() -> (r: Intrinsic)
    ensures
        r@ == engine_unary("print"@, BodyKind::Proc, "value"@, Native::Print),
{
    unary("print", BodyKind::Proc, "value", Native::Print)
}

/// `each`: runs its block once per element of a list or cluster of a string.
pub fn each() -> (r: Intrinsic)
    ensures
        r@ == (IntrinsicView {
            name: "each"@,
            kind: BodyKind::Proc,
            params: seq![required("list"@), trailing_block("body"@)],
            body: ForeignBody::Engine(Native::Each),
        }),
{
    let mut params: Vec<ForeignParam> = Vec::new();
    params.push(param("list"));
    params.push(ForeignParam { name: "body".to_owned(), default: None, is_block: true });
    assert(foreign_params(params@) =~= seq![required("list"@), trailing_block("body"@)]);
    Intrinsic {
        name: "each".to_owned(),
        kind: BodyKind::Proc,
        params,
        body: ForeignBody::Engine(Native::Each),
    }
}

/// `length`: how many clusters, elements or bytes a container has.
pub fn length() -> (r: Intrinsic)
    ensures
        r@ == engine_unary("length"@, BodyKind::Func, "value"@, Native::Length),
{
    unary("length", BodyKind::Func, "value", Native::Length)
}

/// `encode`: the UTF-8 bytes of a string.
pub fn encode() -> (r: Intrinsic)
    ensures
        r@ == engine_unary("encode"@, BodyKind::Func, "value"@, Native::Encode),
{
    unary("encode", BodyKind::Func, "value", Native::Encode)
}

/// `decode`: the string of UTF-8 bytes.
pub fn decode() -> (r: Intrinsic)
    ensures
        r@ == engine_unary("decode"@, BodyKind::Func, "value"@, Native::Decode),
{
    unary("decode", BodyKind::Func, "value", Native::Decode)
}

/// `sin`: the sine of an angle in radians.
pub fn sin() -> (r: Intrinsic)
    ensures
        r@ == engine_unary("sin"@, BodyKind::Func, "angle"@, Native::Sin),
{
    unary("sin", BodyKind::Func, "angle", Native::Sin)
}

/// `cos`: the cosine of an angle in radians.
pub fn cos() -> (r: Intrinsic)
    ensures
        r@ == engine_unary("cos"@, BodyKind::Func, "angle"@, Native::Cos),
{
    unary("cos", BodyKind::Func, "angle", Native::Cos)
}

/// A suspending function of required parameters.
pub open spec fn capability(name: Seq<char>, kind: BodyKind, parameters: Seq<Seq<char>>) -> IntrinsicView {
    IntrinsicView {
        name,
        kind,
        params: parameters.map_values(|p: Seq<char>| required(p)),
        body: ForeignBody::Capability,
    }
}

/// The texts of some literals.
pub open spec fn literal_texts(v: Seq<&'static str>) -> Seq<Seq<char>> {
    v.map_values(|s: &'static str| s@)
}

fn suspending(name: &str, kind: BodyKind, parameters: Vec<&'static str>) -> (r: Intrinsic)
    ensures
        r@ == capability(name@, kind, literal_texts(parameters@)),
{
    let mut params: Vec<ForeignParam> = Vec::new();
    let mut i: usize = 0;
    while i < parameters.len()
        invariant
            i <= parameters@.len(),
            params@.len() == i,
            forall|k: int| 0 <= k < i ==> (#[trigger] params@[k])@ == required(parameters@[k]@),
        decreases parameters@.len() - i,
    {
        params.push(param(parameters[i]));
        i = i + 1;
    }
    let r = Intrinsic { name: name.to_owned(), kind, params, body: ForeignBody::Capability };
    assert(r@.params =~= capability(name@, kind, literal_texts(parameters@)).params);
    r
}

fn nullary(name: &str, kind: BodyKind) -> (r: Intrinsic)
    ensures
        r@ == capability(name@, kind, Seq::empty()),
{
    let none: Vec<&'static str> = Vec::new();
    assert(literal_texts(none@) =~= Seq::empty());
    suspending(name, kind, none)
}

/// `read_line`: suspends until the host supplies a line.
pub fn read_line() -> (r: Intrinsic)
    ensures
        r@ == capability("read_line"@, BodyKind::Func, Seq::empty()),
{
    nullary("read_line", BodyKind::Func)
}

/// `time`: suspends until the host supplies the time.
pub fn time() -> (r: Intrinsic)
    ensures
        r@ == capability("time"@, BodyKind::Func, Seq::empty()),
{
    nullary("time", BodyKind::Func)
}

/// `random`: suspends until the host supplies a random number.
pub fn random() -> (r: Intrinsic)
    ensures
        r@ == capability("random"@, BodyKind::Func, Seq::empty()),
{
    nullary("random", BodyKind::Func)
}

/// `draw_line`: suspends until the host has drawn a line in a color.
pub fn draw_line() -> (r: Intrinsic)
    ensures
        r@ == capability(
            "draw_line"@,
            BodyKind::Proc,
            seq!["x0"@, "y0"@, "x1"@, "y1"@, "r"@, "g"@, "b"@, "a"@],
        ),
{
    let parameters: Vec<&'static str> = vec!["x0", "y0", "x1", "y1", "r", "g", "b", "a"];
    assert(literal_texts(parameters@) =~= seq![
        "x0"@,
        "y0"@,
        "x1"@,
        "y1"@,
        "r"@,
        "g"@,
        "b"@,
        "a"@,
    ]);
    suspending("draw_line", BodyKind::Proc, parameters)
}

/// `set_turtle`: suspends until the host has posed the turtle.
pub fn set_turtle() -> (r: Intrinsic)
    ensures
        r@ == capability(
            "set_turtle"@,
            BodyKind::Proc,
            seq!["x"@, "y"@, "heading"@, "visible"@],
        ),
{
    let parameters: Vec<&'static str> = vec!["x", "y", "heading", "visible"];
    assert(literal_texts(parameters@) =~= seq!["x"@, "y"@, "heading"@, "visible"@]);
    suspending("set_turtle", BodyKind::Proc, parameters)
}

/// `clear_canvas`: suspends until the host has erased its surface.
pub fn clear_canvas() -> (r: Intrinsic)
    ensures
        r@ == capability("clear_canvas"@, BodyKind::Proc, Seq::empty()),
{
    nullary("clear_canvas", BodyKind::Proc)
}

/// A registry that grew by registration never binds a name twice, nor one of the engine's.
pub open spec fn registry_wf(r: RegistryView) -> bool {
    &&& forall|i: int| 0 <= i < r.intrinsics.len() ==> !reserved((#[trigger] r.intrinsics[i]).name)
    &&& forall|i: int, j: int|
        0 <= i < j < r.intrinsics.len() ==> (#[trigger] r.intrinsics[i]).name != (
        #[trigger] r.intrinsics[j]).name
}

/// Registering keeps names distinct, and the functions before it keep their places.
pub proof fn law_registration_keeps_names_distinct(r: RegistryView, i: IntrinsicView)
    requires
        registry_wf(r),
        !reserved(i.name),
        !registered(r.intrinsics, i.name),
    ensures
        registry_wf(RegistryView { intrinsics: r.intrinsics.push(i), ..r }),
        forall|k: int|
            0 <= k < r.intrinsics.len() ==> r.intrinsics.push(i)[k] == #[trigger] r.intrinsics[k],
{
}

} // verus!
