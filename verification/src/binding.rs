//! Argument binding: positional arguments fill parameters in order, keyword arguments by
//! name; each parameter at most once, and copied for binding.
use crate::ast::Arg;
use crate::ast::NodeId;
use crate::error::ExceptionKind;
use crate::error::Raise;
use crate::error::RaiseView;
use crate::exception::parameter_detail;
use crate::exception::parameter_details;
use crate::exception::text_of;
use crate::exception::too_many_arguments_detail;
use crate::exception::too_many_arguments_details;
use crate::exception::unknown_keyword_detail;
use crate::exception::unknown_keyword_details;
use crate::heap::Heap;
use crate::heap::HeapView;
use crate::record::copied;
use crate::record::copy_on_bind;
use crate::resolve::ParamInfo;
use crate::span::Span;
use crate::text::join3;
use crate::text::same_text;
use crate::text::texts;
use crate::value::Value;
use vstd::prelude::*;

verus! {

/// A parameter, as mathematics sees it.
pub struct ParamView {
    /// The name.
    pub name: Seq<char>,
    /// The frame slot.
    pub slot: u16,
    /// Whether it is the block parameter.
    pub is_block: bool,
    /// Whether it has a default.
    pub has_default: bool,
}

impl View for ParamInfo {
    type V = ParamView;

    open spec fn view(&self) -> ParamView {
        ParamView {
            name: self.name@,
            slot: self.slot,
            is_block: self.is_block,
            has_default: self.has_default,
        }
    }
}

/// The contents of some parameters.
pub open spec fn params_view(params: Seq<ParamInfo>) -> Seq<ParamView> {
    params.map_values(|p: ParamInfo| p@)
}

/// The names of the parameters that a keyword may name.
pub open spec fn ordinary_names(params: Seq<ParamView>) -> Seq<Seq<char>>
    decreases params.len(),
{
    if params.len() == 0 {
        Seq::empty()
    } else {
        let before = ordinary_names(params.drop_last());
        if params.last().is_block {
            before
        } else {
            before.push(params.last().name)
        }
    }
}

/// How many arguments are positional.
pub open spec fn positional_count(args: Seq<Arg>) -> nat
    decreases args.len(),
{
    if args.len() == 0 {
        0
    } else {
        positional_count(args.drop_last()) + if args.last() is Positional {
            1nat
        } else {
            0nat
        }
    }
}

/// The parameter of a name, from a position on.
pub open spec fn parameter_named(params: Seq<ParamView>, name: Seq<char>, from: nat) -> Option<nat>
    decreases params.len() - from,
{
    if from >= params.len() {
        None
    } else if params[from as int].name == name {
        Some(from)
    } else {
        parameter_named(params, name, from + 1)
    }
}

/// The parameter that an argument fills, when so many positional ones came before it.
pub open spec fn argument_target(
    params: Seq<ParamView>,
    args: Seq<Arg>,
    arg: Arg,
    pos: nat,
    callee: Option<Seq<char>>,
    span: Span,
) -> Result<nat, RaiseView> {
    match arg {
        Arg::Positional(_) => if pos >= params.len() || params[pos as int].is_block {
            Err(
                RaiseView::new(
                    ExceptionKind::TooManyArguments,
                    "too many arguments for this call"@,
                    span,
                ).with(
                    too_many_arguments_detail(
                        callee,
                        ordinary_names(params).len() as int,
                        positional_count(args) as int,
                    ),
                ),
            )
        } else {
            Ok(pos)
        },
        Arg::Keyword { name, .. } => match parameter_named(params, name@, 0) {
            Some(p) => if params[p as int].is_block {
                Err(
                    RaiseView::new(
                        ExceptionKind::UnknownKeyword,
                        "`"@ + name@ + "` takes a `do … end` block, not a keyword argument"@,
                        span,
                    ).with(unknown_keyword_detail(callee, name@, ordinary_names(params))),
                )
            } else {
                Ok(p)
            },
            None => Err(
                RaiseView::new(
                    ExceptionKind::UnknownKeyword,
                    "`"@ + name@ + "` isn't a parameter here"@,
                    span,
                ).with(unknown_keyword_detail(callee, name@, ordinary_names(params))),
            ),
        },
    }
}

/// How far binding has come.
pub struct Bound {
    /// The heap.
    pub heap: HeapView,
    /// The slots.
    pub slots: Seq<Option<Value>>,
    /// Which parameters are filled.
    pub filled: Seq<bool>,
    /// How many positional arguments were bound.
    pub pos: nat,
    /// The exception that stopped it.
    pub raise: Option<RaiseView>,
}

/// The slots with one filled, where there is such a slot.
pub open spec fn slot_filled(slots: Seq<Option<Value>>, slot: u16, v: Value) -> Seq<Option<Value>> {
    if slot < slots.len() {
        slots.update(slot as int, Some(v))
    } else {
        slots
    }
}

/// How far binding has come after the first `n` arguments.
pub open spec fn bound(
    h: HeapView,
    params: Seq<ParamView>,
    slot_count: nat,
    args: Seq<Arg>,
    values: Seq<Value>,
    callee: Option<Seq<char>>,
    span: Span,
    n: nat,
) -> Bound
    decreases n,
{
    if n == 0 || n > args.len() || n > values.len() {
        Bound {
            heap: h,
            slots: Seq::new(slot_count, |i: int| None::<Value>),
            filled: Seq::new(params.len(), |i: int| false),
            pos: 0,
            raise: None,
        }
    } else {
        let b = bound(h, params, slot_count, args, values, callee, span, (n - 1) as nat);
        if b.raise is Some {
            b
        } else {
            match argument_target(params, args, args[n - 1], b.pos, callee, span) {
                Err(e) => Bound { raise: Some(e), ..b },
                Ok(p) => if b.filled[p as int] {
                    Bound {
                        raise: Some(
                            RaiseView::new(
                                ExceptionKind::DuplicateArgument,
                                "`"@ + params[p as int].name + "` was given more than once"@,
                                span,
                            ).with(parameter_detail(callee, params[p as int].name)),
                        ),
                        pos: if args[n - 1] is Positional {
                            b.pos + 1
                        } else {
                            b.pos
                        },
                        ..b
                    }
                } else {
                    let (heap, copy) = copied(b.heap, values[n - 1]);
                    Bound {
                        heap,
                        slots: slot_filled(b.slots, params[p as int].slot, copy),
                        filled: b.filled.update(p as int, true),
                        pos: if args[n - 1] is Positional {
                            b.pos + 1
                        } else {
                            b.pos
                        },
                        raise: None,
                    }
                },
            }
        }
    }
}

/// What binding arguments to parameters comes to.
pub open spec fn arguments_bound(
    h: HeapView,
    params: Seq<ParamView>,
    slot_count: nat,
    args: Seq<Arg>,
    values: Seq<Value>,
    callee: Option<Seq<char>>,
    span: Span,
) -> Bound {
    let n = if args.len() < values.len() {
        args.len()
    } else {
        values.len()
    };
    bound(h, params, slot_count, args, values, callee, span, n)
}

/// The names of the parameters that a keyword may name.
pub fn keyword_parameters(params: &Vec<ParamInfo>) -> (r: Vec<String>)
    ensures
        texts(r@) == ordinary_names(params_view(params@)),
        r@.len() == ordinary_names(params_view(params@)).len(),
{
    let mut r: Vec<String> = Vec::new();
    let mut i: usize = 0;
    assert(params_view(params@).take(0) =~= Seq::empty());
    assert(texts(r@) =~= Seq::empty());
    while i < params.len()
        invariant
            i <= params@.len(),
            texts(r@) == ordinary_names(params_view(params@).take(i as int)),
        decreases params@.len() - i,
    {
        let ghost before = r@;
        proof {
            assert(params_view(params@).take(i + 1).drop_last() =~= params_view(params@).take(
                i as int,
            ));
        }
        if !params[i].is_block {
            r.push(params[i].name.as_str().to_owned());
            assert(texts(r@) =~= texts(before).push(params@[i as int].name@));
        }
        i = i + 1;
    }
    assert(params_view(params@).take(i as int) =~= params_view(params@));
    assert(texts(r@).len() == r@.len());
    r
}

fn count_positional(args: &Vec<Arg>) -> (r: usize)
    ensures
        r == positional_count(args@),
{
    let mut n: usize = 0;
    let mut i: usize = 0;
    assert(args@.take(0) =~= Seq::empty());
    while i < args.len()
        invariant
            i <= args@.len(),
            n <= i,
            n == positional_count(args@.take(i as int)),
        decreases args@.len() - i,
    {
        assert(args@.take(i + 1).drop_last() =~= args@.take(i as int));
        if let Arg::Positional(_) = &args[i] {
            n = n + 1;
        }
        i = i + 1;
    }
    assert(args@.take(i as int) =~= args@);
    n
}

fn parameter_position(params: &Vec<ParamInfo>, name: &str) -> (r: Option<usize>)
    ensures
        (match r {
            Some(p) => parameter_named(params_view(params@), name@, 0) == Some(p as nat) && p
                < params@.len(),
            None => parameter_named(params_view(params@), name@, 0) is None,
        }),
{
    let mut i: usize = 0;
    while i < params.len()
        invariant
            i <= params@.len(),
            parameter_named(params_view(params@), name@, 0) == parameter_named(
                params_view(params@),
                name@,
                i as nat,
            ),
        decreases params@.len() - i,
    {
        if same_text(params[i].name.as_str(), name) {
            return Some(i);
        }
        i = i + 1;
    }
    None
}

fn target_of(
    params: &Vec<ParamInfo>,
    args: &Vec<Arg>,
    arg: &Arg,
    pos: usize,
    callee: Option<&str>,
    span: Span,
) -> (r: Result<usize, Raise>)
    ensures
        (match argument_target(
            params_view(params@),
            args@,
            *arg,
            pos as nat,
            text_of(callee),
            span,
        ) {
            Ok(p) => r is Ok && r->Ok_0 == p && p < params@.len(),
            Err(e) => r is Err && r->Err_0@ == e,
        }),
{
    match arg {
        Arg::Positional(_) => {
            if pos >= params.len() || params[pos].is_block {
                let expected = keyword_parameters(params);
                let got: usize = count_positional(args);
                return Err(
                    Raise::new(
                        ExceptionKind::TooManyArguments,
                        "too many arguments for this call".to_owned(),
                        span,
                    ).with_details(too_many_arguments_details(callee, expected.len(), got)),
                );
            }
            Ok(pos)
        },
        Arg::Keyword { name, .. } => match parameter_position(params, name.as_str()) {
            Some(p) => {
                if params[p].is_block {
                    return Err(
                        Raise::new(
                            ExceptionKind::UnknownKeyword,
                            join3(
                                "`",
                                name.as_str(),
                                "` takes a `do … end` block, not a keyword argument",
                            ),
                            span,
                        ).with_details(
                            unknown_keyword_details(
                                callee,
                                name.as_str(),
                                keyword_parameters(params),
                            ),
                        ),
                    );
                }
                Ok(p)
            },
            None => Err(
                Raise::new(
                    ExceptionKind::UnknownKeyword,
                    join3("`", name.as_str(), "` isn't a parameter here"),
                    span,
                ).with_details(
                    unknown_keyword_details(callee, name.as_str(), keyword_parameters(params)),
                ),
            ),
        },
    }
}

/// Binds arguments to parameters: the values by slot, and which parameters are filled.
#[verifier::rlimit(40)]
pub fn bind_arguments(
    heap: &mut Heap,
    args: &Vec<Arg>,
    params: &Vec<ParamInfo>,
    slot_count: u16,
    arg_values: &Vec<Value>,
    callee: Option<&str>,
    span: Span,
) -> (r: Result<(Vec<Option<Value>>, Vec<bool>), Raise>)
    ensures
        ({
            let b = arguments_bound(
                old(heap)@,
                params_view(params@),
                slot_count as nat,
                args@,
                arg_values@,
                text_of(callee),
                span,
            );
            &&& final(heap)@ == b.heap
            &&& match b.raise {
                Some(e) => r is Err && r->Err_0@ == e,
                None => {
                    let (slots, filled) = r->Ok_0;
                    r is Ok && slots@ == b.slots && filled@ == b.filled
                },
            }
        }),
{
    let mut slots: Vec<Option<Value>> = Vec::new();
    let mut s: u16 = 0;
    while s < slot_count
        invariant
            s <= slot_count,
            slots@ =~= Seq::new(s as nat, |i: int| None::<Value>),
        decreases slot_count - s,
    {
        slots.push(None);
        s = s + 1;
    }
    let mut filled: Vec<bool> = Vec::new();
    let mut f: usize = 0;
    while f < params.len()
        invariant
            f <= params@.len(),
            filled@ =~= Seq::new(f as nat, |i: int| false),
        decreases params@.len() - f,
    {
        filled.push(false);
        f = f + 1;
    }
    let ghost pv = params_view(params@);
    let ghost h0 = heap@;
    let ghost total: nat = if args@.len() < arg_values@.len() {
        args@.len()
    } else {
        arg_values@.len()
    };
    let mut pos: usize = 0;
    let mut i: usize = 0;
    proof {
        let b = bound(h0, pv, slot_count as nat, args@, arg_values@, text_of(callee), span, 0);
        assert(slots@ =~= b.slots);
        assert(filled@ =~= b.filled);
    }
    while i < args.len() && i < arg_values.len()
        invariant
            i <= args@.len(),
            i <= arg_values@.len(),
            pos <= i,
            pv == params_view(params@),
            filled@.len() == params@.len(),
            h0 == old(heap)@,
            total == (if args@.len() < arg_values@.len() {
                args@.len()
            } else {
                arg_values@.len()
            }),
            ({
                let b = bound(
                    h0,
                    pv,
                    slot_count as nat,
                    args@,
                    arg_values@,
                    text_of(callee),
                    span,
                    i as nat,
                );
                &&& b.heap == heap@
                &&& b.slots == slots@
                &&& b.filled == filled@
                &&& b.pos == pos
                &&& b.raise is None
            }),
        decreases args@.len() - i,
    {
        let p: usize = match target_of(params, args, &args[i], pos, callee, span) {
            Ok(p) => p,
            Err(e) => {
                proof {
                    lemma_bound_stops(
                        h0,
                        pv,
                        slot_count as nat,
                        args@,
                        arg_values@,
                        text_of(callee),
                        span,
                        (i + 1) as nat,
                        total,
                    );
                }
                return Err(e);
            },
        };
        if let Arg::Positional(_) = &args[i] {
            pos = pos + 1;
        }
        if filled[p] {
            proof {
                lemma_bound_stops(
                    h0,
                    pv,
                    slot_count as nat,
                    args@,
                    arg_values@,
                    text_of(callee),
                    span,
                    (i + 1) as nat,
                    total,
                );
            }
            return Err(
                Raise::new(
                    ExceptionKind::DuplicateArgument,
                    join3("`", params[p].name.as_str(), "` was given more than once"),
                    span,
                ).with_details(parameter_details(callee, params[p].name.as_str())),
            );
        }
        let copy = copy_on_bind(arg_values[i], heap);
        let slot: usize = params[p].slot as usize;
        if slot < slots.len() {
            slots.set(slot, Some(copy));
        }
        filled.set(p, true);
        i = i + 1;
    }
    Ok((slots, filled))
}

/// Once binding has stopped it stays stopped.
proof fn lemma_bound_stops(
    h: HeapView,
    params: Seq<ParamView>,
    slot_count: nat,
    args: Seq<Arg>,
    values: Seq<Value>,
    callee: Option<Seq<char>>,
    span: Span,
    n: nat,
    total: nat,
)
    requires
        1 <= n <= total,
        total <= args.len(),
        total <= values.len(),
        bound(h, params, slot_count, args, values, callee, span, n).raise is Some,
    ensures
        bound(h, params, slot_count, args, values, callee, span, total) == bound(
            h,
            params,
            slot_count,
            args,
            values,
            callee,
            span,
            n,
        ),
    decreases total - n,
{
    if n < total {
        lemma_bound_stops(
            h,
            params,
            slot_count,
            args,
            values,
            callee,
            span,
            n,
            (total - 1) as nat,
        );
    }
}

/// The expression an argument evaluates.
pub open spec fn argument_node(arg: Arg) -> NodeId {
    match arg {
        Arg::Positional(e) => e,
        Arg::Keyword { value, .. } => value,
    }
}

/// The expression an argument evaluates.
pub fn arg_expr(arg: &Arg) -> (r: NodeId)
    ensures
        r == argument_node(*arg),
{
    match arg {
        Arg::Positional(e) => *e,
        Arg::Keyword { value, .. } => *value,
    }
}

/// The first parameter, from a position on, that is required and not filled.
pub open spec fn unfilled(params: Seq<ParamView>, filled: Seq<bool>, from: nat) -> Option<nat>
    decreases params.len() - from,
{
    if from >= params.len() {
        None
    } else if !filled[from as int] && !params[from as int].is_block
        && !params[from as int].has_default {
        Some(from)
    } else {
        unfilled(params, filled, from + 1)
    }
}

/// The raise for a required argument that was not given.
pub open spec fn missing_raise(callee: Option<Seq<char>>, name: Seq<char>, span: Span) -> RaiseView {
    RaiseView::new(
        ExceptionKind::MissingArgument,
        "missing argument `"@ + name + "` for this call"@,
        span,
    ).with(parameter_detail(callee, name))
}

/// The raise for a required argument that was not given.
pub fn missing_argument(callee: Option<&str>, name: &str, span: Span) -> (r: Raise)
    ensures
        r@ == missing_raise(text_of(callee), name@, span),
{
    Raise::new(
        ExceptionKind::MissingArgument,
        join3("missing argument `", name, "` for this call"),
        span,
    ).with_details(parameter_details(callee, name))
}

/// The first parameter that is required and not filled.
pub fn first_unfilled(params: &Vec<ParamInfo>, filled: &Vec<bool>) -> (r: Option<usize>)
    requires
        filled@.len() == params@.len(),
    ensures
        (match r {
            Some(p) => unfilled(params_view(params@), filled@, 0) == Some(p as nat) && p
                < params@.len(),
            None => unfilled(params_view(params@), filled@, 0) is None,
        }),
{
    let mut i: usize = 0;
    while i < params.len()
        invariant
            i <= params@.len(),
            filled@.len() == params@.len(),
            unfilled(params_view(params@), filled@, 0) == unfilled(
                params_view(params@),
                filled@,
                i as nat,
            ),
        decreases params@.len() - i,
    {
        if !filled[i] && !params[i].is_block && !params[i].has_default {
            return Some(i);
        }
        i = i + 1;
    }
    None
}

proof fn lemma_parameter_in_range(params: Seq<ParamView>, name: Seq<char>, from: nat)
    ensures
        (match parameter_named(params, name, from) {
            Some(p) => p < params.len() && params[p as int].name == name,
            None => true,
        }),
    decreases params.len() - from,
{
    if from < params.len() {
        lemma_parameter_in_range(params, name, from + 1);
    }
}

proof fn lemma_bound_lengths(
    h: HeapView,
    params: Seq<ParamView>,
    slot_count: nat,
    args: Seq<Arg>,
    values: Seq<Value>,
    callee: Option<Seq<char>>,
    span: Span,
    n: nat,
)
    ensures
        bound(h, params, slot_count, args, values, callee, span, n).filled.len() == params.len(),
        bound(h, params, slot_count, args, values, callee, span, n).slots.len() == slot_count,
    decreases n,
{
    if n > 0 && n <= args.len() && n <= values.len() {
        lemma_bound_lengths(
            h,
            params,
            slot_count,
            args,
            values,
            callee,
            span,
            (n - 1) as nat,
        );
        if let Arg::Keyword { name, .. } = args[n - 1] {
            lemma_parameter_in_range(params, name@, 0);
        }
    }
}

/// Binding has one slot per slot asked for and one flag per parameter.
pub proof fn lemma_arguments_bound_lengths(
    h: HeapView,
    params: Seq<ParamView>,
    slot_count: nat,
    args: Seq<Arg>,
    values: Seq<Value>,
    callee: Option<Seq<char>>,
    span: Span,
)
    ensures
        arguments_bound(h, params, slot_count, args, values, callee, span).filled.len()
            == params.len(),
        arguments_bound(h, params, slot_count, args, values, callee, span).slots.len()
            == slot_count,
{
    let n = if args.len() < values.len() {
        args.len()
    } else {
        values.len()
    };
    lemma_bound_lengths(h, params, slot_count, args, values, callee, span, n);
}

} // verus!
