//! The built-in `Error` value: what an engine raise becomes when a program can see it. Its
//! details are ordinary values, so a host reads them without parsing the message.
use crate::dict::insert;
use crate::dict::inserted;
use crate::error::detail_view;
use crate::error::details_view;
use crate::error::DetailVal;
use crate::error::DetailView;
use crate::hash::key_hash;
use crate::heap::Heap;
use crate::heap::HeapView;
use crate::heap::TypeKind;
use crate::span::ModuleId;
use crate::span::Span;
use crate::unicode::nfc;
use crate::unicode::nfc_text;
use crate::value::DictIdx;
use crate::value::ListIdx;
use crate::value::RecIdx;
use crate::value::StrIdx;
use crate::value::TypeIdx;
use crate::value::Value;
use vstd::prelude::*;

verus! {

/// The heap after allocating a text in canonical composition.
pub open spec fn text_heap(h: HeapView, text: Seq<char>) -> HeapView {
    h.new_string(nfc_text(text))
}

/// The string value such an allocation makes.
pub open spec fn text_value(h: HeapView) -> Value {
    Value::Str(StrIdx(h.strings.len() as usize))
}

/// Allocates a text in canonical composition.
pub fn alloc_str(heap: &mut Heap, s: &str) -> (r: StrIdx)
    ensures
        Value::Str(r) == text_value(old(heap)@),
        final(heap)@ == text_heap(old(heap)@, s@),
{
    let text = nfc(s);
    heap.alloc_string(text)
}

/// The heap after a detail became a value, and the value.
pub open spec fn detail_value(h: HeapView, d: DetailView) -> (HeapView, Value)
    decreases d, 0nat,
{
    match d {
        DetailView::Str(s) => (text_heap(h, s), text_value(h)),
        DetailView::Int(n) => (h, Value::Int(n)),
        DetailView::Bool(b) => (h, Value::Bool(b)),
        DetailView::Value(v) => (h, v),
        DetailView::List(items) => {
            let (after, values) = detail_items(h, items, items.len());
            (after.new_list(values), Value::List(ListIdx(after.lists.len() as usize)))
        },
        DetailView::Dict(items) => {
            let idx = DictIdx(h.dicts.len() as usize);
            (detail_entries(h.new_dict(), idx, items, items.len()), Value::Dict(idx))
        },
    }
}

/// The heap after the first `n` details became values, and the values.
pub open spec fn detail_items(h: HeapView, items: Seq<DetailView>, n: nat) -> (
    HeapView,
    Seq<Value>,
)
    decreases items, n,
{
    if n == 0 || n > items.len() {
        (h, Seq::empty())
    } else {
        let (before, values) = detail_items(h, items, (n - 1) as nat);
        let (after, last) = detail_value(before, items[n - 1]);
        (after, values.push(last))
    }
}

/// The heap after the first `n` named details were stored in a dict.
pub open spec fn detail_entries(
    h: HeapView,
    idx: DictIdx,
    items: Seq<(Seq<char>, DetailView)>,
    n: nat,
) -> HeapView
    decreases items, n,
{
    if n == 0 || n > items.len() {
        h
    } else {
        let before = detail_entries(h, idx, items, (n - 1) as nat);
        let keyed = text_heap(before, items[n - 1].0);
        let key = text_value(before);
        let (valued, value) = detail_value(keyed, items[n - 1].1);
        inserted(valued, idx, key, value, key_hash(valued, key))
    }
}

/// The heap after named details became a dict.
pub open spec fn details_heap(h: HeapView, items: Seq<(Seq<char>, DetailView)>) -> HeapView {
    detail_entries(h.new_dict(), DictIdx(h.dicts.len() as usize), items, items.len())
}

/// The heap after making an `Error`, and the `Error`.
pub open spec fn error_made(
    h: HeapView,
    error_type: TypeIdx,
    slug: Seq<char>,
    message: Seq<char>,
    details: Seq<(Seq<char>, DetailView)>,
) -> (HeapView, Value) {
    let kinded = text_heap(h, slug);
    let told = text_heap(kinded, message);
    let detailed = details_heap(told, details);
    let fields = seq![
        text_value(h),
        text_value(kinded),
        Value::Dict(DictIdx(told.dicts.len() as usize)),
    ];
    (
        detailed.new_record(error_type, fields),
        Value::Record(RecIdx(detailed.records.len() as usize)),
    )
}

/// Makes an `Error` of a kind, with a message and details.
pub fn make_error(
    heap: &mut Heap,
    error_type: TypeIdx,
    kind_slug: &str,
    message: &str,
    details: &Vec<(&'static str, DetailVal)>,
) -> (r: Value)
    ensures
        (final(heap)@, r) == error_made(
            old(heap)@,
            error_type,
            kind_slug@,
            message@,
            details_view(details@),
        ),
{
    let kind = Value::Str(alloc_str(heap, kind_slug));
    let message = Value::Str(alloc_str(heap, message));
    let details = build_details(heap, details);
    let mut fields: Vec<Value> = Vec::new();
    fields.push(kind);
    fields.push(message);
    fields.push(details);
    assert(fields@ =~= seq![kind, message, details]);
    Value::Record(heap.alloc_record(error_type, fields))
}

/// Named details as a dict.
fn build_details(heap: &mut Heap, entries: &Vec<(&'static str, DetailVal)>) -> (r: Value)
    ensures
        final(heap)@ == details_heap(old(heap)@, details_view(entries@)),
        r == Value::Dict(DictIdx(old(heap)@.dicts.len() as usize)),
    decreases entries,
{
    let idx = heap.alloc_dict();
    let ghost start = heap@;
    let mut i: usize = 0;
    while i < entries.len()
        invariant
            i <= entries@.len(),
            start == old(heap)@.new_dict(),
            idx == DictIdx(old(heap)@.dicts.len() as usize),
            heap@ == detail_entries(start, idx, details_view(entries@), i as nat),
        decreases entries@.len() - i,
    {
        let key = Value::Str(alloc_str(heap, entries[i].0));
        assert(decreases_to!(entries => entries@[i as int].1));
        let value = detail_to_value(heap, &entries[i].1);
        let stored = insert(heap, idx, key, value, Span::dummy());
        assert(stored is Ok);
        i = i + 1;
    }
    Value::Dict(idx)
}

/// A detail as a value.
fn detail_to_value(heap: &mut Heap, val: &DetailVal) -> (r: Value)
    ensures
        (final(heap)@, r) == detail_value(old(heap)@, detail_view(*val)),
    decreases val,
{
    match val {
        DetailVal::Str(s) => Value::Str(alloc_str(heap, s.as_str())),
        DetailVal::Int(n) => Value::Int(*n),
        DetailVal::Bool(b) => Value::Bool(*b),
        DetailVal::Value(v) => *v,
        DetailVal::List(items) => {
            let ghost views = detail_view(*val)->List_0;
            let mut values: Vec<Value> = Vec::new();
            let mut i: usize = 0;
            while i < items.len()
                invariant
                    i <= items@.len(),
                    *val == DetailVal::List(*items),
                    views == detail_view(*val)->List_0,
                    views.len() == items@.len(),
                    (heap@, values@) == detail_items(old(heap)@, views, i as nat),
                decreases items@.len() - i,
            {
                assert(decreases_to!(val => items@[i as int]));
                let value = detail_to_value(heap, &items[i]);
                values.push(value);
                i = i + 1;
            }
            Value::List(heap.alloc_list(values))
        },
        DetailVal::Dict(entries) => {
            assert(details_view(entries@) =~= detail_view(*val)->Dict_0);
            build_details(heap, entries)
        },
    }
}

/// The name of a value's type, as the type value itself is spelled.
pub open spec fn type_text(h: HeapView, value: Value) -> Seq<char> {
    match value {
        Value::Nil => "Nil"@,
        Value::Bool(_) => "Bool"@,
        Value::Int(_) => "Int"@,
        Value::BigInt(_) => "Int"@,
        Value::Float(_) => "Float"@,
        Value::Str(_) => "String"@,
        Value::Bytes(_) => "Bytes"@,
        Value::List(_) => "List"@,
        Value::Dict(_) => "Dict"@,
        Value::Record(r) => match h.record(r) {
            Some(rec) => match h.schema(rec.type_idx) {
                Some(rt) => rt.name,
                None => "Record"@,
            },
            None => "Record"@,
        },
        Value::Callable(_) => "Callable"@,
        Value::Module(_) => "Module"@,
        Value::Type(_) => "Type"@,
        Value::Foreign(_) => "Foreign"@,
    }
}

/// The name of a value's type.
pub fn value_type_name(value: Value, heap: &Heap) -> (r: String)
    ensures
        r@ == type_text(heap@, value),
{
    match value {
        Value::Nil => "Nil".to_owned(),
        Value::Bool(_) => "Bool".to_owned(),
        Value::Int(_) => "Int".to_owned(),
        Value::BigInt(_) => "Int".to_owned(),
        Value::Float(_) => "Float".to_owned(),
        Value::Str(_) => "String".to_owned(),
        Value::Bytes(_) => "Bytes".to_owned(),
        Value::List(_) => "List".to_owned(),
        Value::Dict(_) => "Dict".to_owned(),
        Value::Record(r) => match heap.record(r) {
            Some(rec) => match heap.type_value(rec.type_idx) {
                Some(TypeKind::Record(rt)) => rt.name.as_str().to_owned(),
                _ => "Record".to_owned(),
            },
            None => "Record".to_owned(),
        },
        Value::Callable(_) => "Callable".to_owned(),
        Value::Module(_) => "Module".to_owned(),
        Value::Type(_) => "Type".to_owned(),
        Value::Foreign(_) => "Foreign".to_owned(),
    }
}

/// A list of texts as a detail.
pub open spec fn text_details(items: Seq<Seq<char>>) -> DetailView {
    DetailView::List(items.map_values(|s: Seq<char>| DetailView::Str(s)))
}

/// A list of texts as a detail.
pub fn strs(items: Vec<String>) -> (r: DetailVal)
    ensures
        detail_view(r) == text_details(crate::text::texts(items@)),
{
    let mut list: Vec<DetailVal> = Vec::new();
    let mut i: usize = 0;
    while i < items.len()
        invariant
            i <= items@.len(),
            list@.len() == i,
            forall|k: int|
                0 <= k < i ==> detail_view(#[trigger] list@[k]) == DetailView::Str(items@[k]@),
        decreases items@.len() - i,
    {
        list.push(DetailVal::Str(items[i].as_str().to_owned()));
        i = i + 1;
    }
    let r = DetailVal::List(list);
    assert(detail_view(r)->List_0 =~= text_details(crate::text::texts(items@))->List_0);
    r
}

/// One named text as details.
pub open spec fn one_text(key: Seq<char>, text: Seq<char>) -> Seq<(Seq<char>, DetailView)> {
    seq![(key, DetailView::Str(text))]
}

/// One named text as details.
pub fn text_detail(key: &'static str, text: &str) -> (r: Vec<(&'static str, DetailVal)>)
    ensures
        details_view(r@) == one_text(key@, text@),
{
    let mut r: Vec<(&'static str, DetailVal)> = Vec::new();
    r.push((key, DetailVal::Str(text.to_owned())));
    assert(details_view(r@) =~= one_text(key@, text@));
    r
}

/// Two named texts as details.
pub open spec fn two_texts(
    key: Seq<char>,
    text: Seq<char>,
    other: Seq<char>,
    other_text: Seq<char>,
) -> Seq<(Seq<char>, DetailView)> {
    seq![(key, DetailView::Str(text)), (other, DetailView::Str(other_text))]
}

/// Two named texts as details.
pub fn text_pair_detail(
    key: &'static str,
    text: &str,
    other: &'static str,
    other_text: &str,
) -> (r: Vec<(&'static str, DetailVal)>)
    ensures
        details_view(r@) == two_texts(key@, text@, other@, other_text@),
{
    let mut r: Vec<(&'static str, DetailVal)> = Vec::new();
    r.push((key, DetailVal::Str(text.to_owned())));
    r.push((other, DetailVal::Str(other_text.to_owned())));
    assert(details_view(r@) =~= two_texts(key@, text@, other@, other_text@));
    r
}

/// The details of a parameter that is missing or given twice.
pub open spec fn parameter_detail(callee: Option<Seq<char>>, parameter: Seq<char>) -> Seq<
    (Seq<char>, DetailView),
> {
    callee_detail(callee).push(("parameter"@, DetailView::Str(parameter)))
}

/// The leading detail that names the callee, where it has a name.
pub open spec fn callee_detail(callee: Option<Seq<char>>) -> Seq<(Seq<char>, DetailView)> {
    match callee {
        Some(c) => seq![("callee"@, DetailView::Str(c))],
        None => Seq::empty(),
    }
}

/// The view of an optional text.
pub open spec fn text_of(s: Option<&str>) -> Option<Seq<char>> {
    match s {
        Some(s) => Some(s@),
        None => None,
    }
}

fn callee_details(callee: Option<&str>) -> (r: Vec<(&'static str, DetailVal)>)
    ensures
        details_view(r@) == callee_detail(text_of(callee)),
{
    let mut r: Vec<(&'static str, DetailVal)> = Vec::new();
    if let Some(c) = callee {
        r.push(("callee", DetailVal::Str(c.to_owned())));
    }
    assert(details_view(r@) =~= callee_detail(text_of(callee)));
    r
}

/// The details of a parameter that is missing or given twice.
pub fn parameter_details(callee: Option<&str>, parameter: &str) -> (r: Vec<
    (&'static str, DetailVal),
>)
    ensures
        details_view(r@) == parameter_detail(text_of(callee), parameter@),
{
    let mut r = callee_details(callee);
    let ghost before = r@;
    r.push(("parameter", DetailVal::Str(parameter.to_owned())));
    assert(details_view(r@) =~= details_view(before).push(
        ("parameter"@, DetailView::Str(parameter@)),
    ));
    r
}

/// The details of a keyword that names no parameter.
pub open spec fn unknown_keyword_detail(
    callee: Option<Seq<char>>,
    keyword: Seq<char>,
    parameters: Seq<Seq<char>>,
) -> Seq<(Seq<char>, DetailView)> {
    callee_detail(callee).push(("keyword"@, DetailView::Str(keyword))).push(
        ("parameters"@, text_details(parameters)),
    )
}

/// The details of a keyword that names no parameter.
pub fn unknown_keyword_details(callee: Option<&str>, keyword: &str, parameters: Vec<String>) -> (r:
    Vec<(&'static str, DetailVal)>)
    ensures
        details_view(r@) == unknown_keyword_detail(
            text_of(callee),
            keyword@,
            crate::text::texts(parameters@),
        ),
{
    let mut r = callee_details(callee);
    let ghost before = r@;
    r.push(("keyword", DetailVal::Str(keyword.to_owned())));
    let names = strs(parameters);
    r.push(("parameters", names));
    assert(details_view(r@) =~= details_view(before).push(
        ("keyword"@, DetailView::Str(keyword@)),
    ).push(("parameters"@, detail_view(names))));
    r
}

/// The details of a call with too many positional arguments.
pub open spec fn too_many_arguments_detail(
    callee: Option<Seq<char>>,
    expected: int,
    got: int,
) -> Seq<(Seq<char>, DetailView)> {
    callee_detail(callee).push(("expected"@, DetailView::Int(expected as i64))).push(
        ("got"@, DetailView::Int(got as i64)),
    )
}

/// The details of a call with too many positional arguments.
pub fn too_many_arguments_details(callee: Option<&str>, expected: usize, got: usize) -> (r: Vec<
    (&'static str, DetailVal),
>)
    ensures
        details_view(r@) == too_many_arguments_detail(
            text_of(callee),
            expected as int,
            got as int,
        ),
{
    let mut r = callee_details(callee);
    let ghost before = r@;
    r.push(("expected", DetailVal::Int(expected as i64)));
    r.push(("got", DetailVal::Int(got as i64)));
    assert(details_view(r@) =~= details_view(before).push(
        ("expected"@, DetailView::Int(expected as i64)),
    ).push(("got"@, DetailView::Int(got as i64))));
    r
}

/// The details of an operand of the wrong type.
pub open spec fn type_mismatch_detail(
    operator: Seq<char>,
    expected: Seq<char>,
    got: Seq<char>,
) -> Seq<(Seq<char>, DetailView)> {
    seq![
        ("operator"@, DetailView::Str(operator)),
        ("expected"@, text_details(seq![expected])),
        ("got"@, DetailView::Str(got)),
    ]
}

/// The details of an operand of the wrong type.
pub fn type_mismatch_details(operator: &str, expected: &str, got: Value, heap: &Heap) -> (r: Vec<
    (&'static str, DetailVal),
>)
    ensures
        details_view(r@) == type_mismatch_detail(operator@, expected@, type_text(heap@, got)),
{
    let mut accepted: Vec<String> = Vec::new();
    accepted.push(expected.to_owned());
    assert(crate::text::texts(accepted@) =~= seq![expected@]);
    let mut r: Vec<(&'static str, DetailVal)> = Vec::new();
    r.push(("operator", DetailVal::Str(operator.to_owned())));
    r.push(("expected", strs(accepted)));
    r.push(("got", DetailVal::Str(value_type_name(got, heap))));
    assert(details_view(r@) =~= type_mismatch_detail(
        operator@,
        expected@,
        type_text(heap@, got),
    ));
    r
}

/// The details of two operands without an order.
pub open spec fn ordering_detail(
    operator: Seq<char>,
    left: Seq<char>,
    right: Seq<char>,
    nan: bool,
) -> Seq<(Seq<char>, DetailView)> {
    let both = seq![
        ("operator"@, DetailView::Str(operator)),
        ("left"@, DetailView::Str(left)),
        ("right"@, DetailView::Str(right)),
    ];
    if nan {
        both.push(("nan"@, DetailView::Bool(true)))
    } else {
        both
    }
}

/// The details of two operands without an order.
pub fn ordering_details(operator: &str, left: Value, right: Value, nan: bool, heap: &Heap) -> (r:
    Vec<(&'static str, DetailVal)>)
    ensures
        details_view(r@) == ordering_detail(
            operator@,
            type_text(heap@, left),
            type_text(heap@, right),
            nan,
        ),
{
    let mut r: Vec<(&'static str, DetailVal)> = Vec::new();
    r.push(("operator", DetailVal::Str(operator.to_owned())));
    r.push(("left", DetailVal::Str(value_type_name(left, heap))));
    r.push(("right", DetailVal::Str(value_type_name(right, heap))));
    if nan {
        r.push(("nan", DetailVal::Bool(true)));
    }
    assert(details_view(r@) =~= ordering_detail(
        operator@,
        type_text(heap@, left),
        type_text(heap@, right),
        nan,
    ));
    r
}

/// The details of a module that was not found.
pub open spec fn module_ref_detail(path: Seq<Seq<char>>, importer: ModuleId) -> Seq<
    (Seq<char>, DetailView),
> {
    seq![("path"@, text_details(path)), ("importer"@, DetailView::Int(importer.0 as i64))]
}

/// The details of a module that was not found.
pub fn module_ref_details(path: Vec<String>, importer: ModuleId) -> (r: Vec<
    (&'static str, DetailVal),
>)
    ensures
        details_view(r@) == module_ref_detail(crate::text::texts(path@), importer),
{
    let ghost segments = crate::text::texts(path@);
    let mut r: Vec<(&'static str, DetailVal)> = Vec::new();
    r.push(("path", strs(path)));
    r.push(("importer", DetailVal::Int(importer.0 as i64)));
    assert(details_view(r@) =~= module_ref_detail(segments, importer));
    r
}

/// How bad a diagnostic is.
#[derive(Clone, Copy, PartialEq, Eq, Debug, Structural)]
pub enum Severity {
    /// The module cannot run.
    Error,
    /// The module can run.
    Warning,
}

/// A finding about a module's source.
#[derive(Debug)]
pub struct Diagnostic {
    /// The module.
    pub module: ModuleId,
    /// How bad it is.
    pub severity: Severity,
    /// Its stable name.
    pub code: String,
    /// What it says.
    pub message: String,
    /// Where it is.
    pub span: Option<Span>,
}

impl Diagnostic {
    /// The same finding again.
    pub fn copy(&self) -> (r: Diagnostic)
        ensures
            r@ == self@,
    {
        Diagnostic {
            module: self.module,
            severity: self.severity,
            code: self.code.as_str().to_owned(),
            message: self.message.as_str().to_owned(),
            span: self.span,
        }
    }
}

/// The contents of a finding.
pub struct DiagnosticView {
    /// The module.
    pub module: ModuleId,
    /// How bad it is.
    pub severity: Severity,
    /// Its stable name.
    pub code: Seq<char>,
    /// What it says.
    pub message: Seq<char>,
    /// Where it is.
    pub span: Option<Span>,
}

impl View for Diagnostic {
    type V = DiagnosticView;

    open spec fn view(&self) -> DiagnosticView {
        DiagnosticView {
            module: self.module,
            severity: self.severity,
            code: self.code@,
            message: self.message@,
            span: self.span,
        }
    }
}

/// The contents of some findings.
pub open spec fn diagnostics_view(all: Seq<Diagnostic>) -> Seq<DiagnosticView> {
    all.map_values(|d: Diagnostic| d@)
}

/// A finding as a detail.
pub open spec fn diagnostic_detail(d: DiagnosticView) -> DetailView {
    let severity = match d.severity {
        Severity::Error => "error"@,
        Severity::Warning => "warning"@,
    };
    let entry = seq![
        ("severity"@, DetailView::Str(severity)),
        ("code"@, DetailView::Str(d.code)),
        ("message"@, DetailView::Str(d.message)),
    ];
    match d.span {
        Some(s) => DetailView::Dict(
            entry.push(
                (
                    "span"@,
                    DetailView::Dict(
                        seq![
                            ("start"@, DetailView::Int(s.start as i64)),
                            ("end"@, DetailView::Int(s.end as i64)),
                        ],
                    ),
                ),
            ),
        ),
        None => DetailView::Dict(entry),
    }
}

/// A finding as a detail.
fn diagnostic_value(d: &Diagnostic) -> (r: DetailVal)
    ensures
        detail_view(r) == diagnostic_detail(d@),
{
    proof {
        reveal_with_fuel(detail_view, 3);
    }
    let mut entry: Vec<(&'static str, DetailVal)> = Vec::new();
    let severity = match d.severity {
        Severity::Error => "error",
        Severity::Warning => "warning",
    };
    entry.push(("severity", DetailVal::Str(severity.to_owned())));
    entry.push(("code", DetailVal::Str(d.code.as_str().to_owned())));
    entry.push(("message", DetailVal::Str(d.message.as_str().to_owned())));
    if let Some(s) = d.span {
        let mut range: Vec<(&'static str, DetailVal)> = Vec::new();
        range.push(("start", DetailVal::Int(s.start as i64)));
        range.push(("end", DetailVal::Int(s.end as i64)));
        let range = DetailVal::Dict(range);
        assert(detail_view(range)->Dict_0 =~= seq![
            ("start"@, DetailView::Int(s.start as i64)),
            ("end"@, DetailView::Int(s.end as i64)),
        ]);
        entry.push(("span", range));
    }
    let r = DetailVal::Dict(entry);
    assert(detail_view(r)->Dict_0 =~= diagnostic_detail(d@)->Dict_0);
    r
}

/// The details of a module whose source has errors.
pub open spec fn module_load_detail(
    path: Seq<Seq<char>>,
    canonical_id: Seq<char>,
    diagnostics: Seq<DiagnosticView>,
) -> Seq<(Seq<char>, DetailView)> {
    seq![
        ("path"@, text_details(path)),
        ("canonical_id"@, DetailView::Str(canonical_id)),
        (
            "diagnostics"@,
            DetailView::List(diagnostics.map_values(|d: DiagnosticView| diagnostic_detail(d))),
        ),
    ]
}

/// The details of a module whose source has errors.
pub fn module_load_details(path: Vec<String>, canonical_id: &str, diags: &Vec<Diagnostic>) -> (r:
    Vec<(&'static str, DetailVal)>)
    ensures
        details_view(r@) == module_load_detail(
            crate::text::texts(path@),
            canonical_id@,
            diagnostics_view(diags@),
        ),
{
    let ghost views = diagnostics_view(diags@);
    let ghost segments = crate::text::texts(path@);
    let mut findings: Vec<DetailVal> = Vec::new();
    let mut i: usize = 0;
    while i < diags.len()
        invariant
            i <= diags@.len(),
            findings@.len() == i,
            views == diagnostics_view(diags@),
            forall|k: int|
                0 <= k < i ==> detail_view(#[trigger] findings@[k]) == diagnostic_detail(views[k]),
        decreases diags@.len() - i,
    {
        findings.push(diagnostic_value(&diags[i]));
        i = i + 1;
    }
    let findings = DetailVal::List(findings);
    assert(detail_view(findings)->List_0 =~= views.map_values(
        |d: DiagnosticView| diagnostic_detail(d),
    ));
    let mut r: Vec<(&'static str, DetailVal)> = Vec::new();
    r.push(("path", strs(path)));
    r.push(("canonical_id", DetailVal::Str(canonical_id.to_owned())));
    r.push(("diagnostics", findings));
    assert(details_view(r@) =~= module_load_detail(segments, canonical_id@, views));
    r
}

/// A string field of a record, or the empty text.
pub open spec fn field_text(h: HeapView, r: RecIdx, pos: int) -> Seq<char> {
    match h.record(r) {
        Some(rec) => if 0 <= pos < rec.fields.len() {
            match rec.fields[pos] {
                Value::Str(s) => h.text(s),
                _ => ""@,
            }
        } else {
            ""@
        },
        None => ""@,
    }
}

/// What a host is told of a raised value: the kind and message of an `Error`, or a generic
/// kind with the text of a string.
pub open spec fn description(h: HeapView, error_type: TypeIdx, value: Value) -> (
    Seq<char>,
    Seq<char>,
) {
    match value {
        Value::Record(r) => if h.record(r) is Some && h.record(r)->0.type_idx == error_type {
            (field_text(h, r, 0), field_text(h, r, 1))
        } else {
            ("raised"@, "(a raised value)"@)
        },
        Value::Str(s) => ("raised"@, h.text(s)),
        _ => ("raised"@, "(a raised value)"@),
    }
}

/// What a host is told of a raised value.
pub fn describe(heap: &Heap, error_type: TypeIdx, value: Value) -> (r: (String, String))
    ensures
        (r.0@, r.1@) == description(heap@, error_type, value),
{
    match value {
        Value::Record(idx) => {
            if let Some(rec) = heap.record(idx) {
                if rec.type_idx == error_type {
                    return (field_str(heap, idx, 0), field_str(heap, idx, 1));
                }
            }
            ("raised".to_owned(), "(a raised value)".to_owned())
        },
        Value::Str(s) => ("raised".to_owned(), heap.string(s).to_owned()),
        _ => ("raised".to_owned(), "(a raised value)".to_owned()),
    }
}

fn field_str(heap: &Heap, r: RecIdx, pos: usize) -> (res: String)
    ensures
        res@ == field_text(heap@, r, pos as int),
{
    match heap.record(r) {
        Some(rec) => {
            if pos < rec.fields.len() {
                match rec.fields[pos] {
                    Value::Str(s) => heap.string(s).to_owned(),
                    _ => "".to_owned(),
                }
            } else {
                "".to_owned()
            }
        },
        None => "".to_owned(),
    }
}

} // verus!
