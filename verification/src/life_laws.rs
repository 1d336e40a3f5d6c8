//! What holds over the whole life of an instance, whatever the host does with it.
use crate::aux_eval::aux_begun;
use crate::aux_eval::aux_driven;
use crate::aux_eval::aux_stopped;
use crate::aux_eval::AuxOutcome;
use crate::aux_eval::AuxResult;
use crate::aux_eval::put_back;
use crate::drive::armed;
use crate::drive::driven;
use crate::drive::follows;
use crate::drive::goes_on;
use crate::drive::Outcome;
use crate::drive::passed;
use crate::drive::passes;
use crate::drive::passes_to;
use crate::drive::plodded;
use crate::drive::Resolution;
use crate::drive::resolved_as;
use crate::drive::resumed;
use crate::drive::runs;
use crate::drive::runs_to;
use crate::drive::stopped;
use crate::error::RaiseView;
use crate::exception::diagnostics_view;
use crate::exception::DiagnosticView;
use crate::heap::HeapView;
use crate::instance::Directive;
use crate::instance::Instance;
use crate::sourcing::import_answered;
use crate::sourcing::import_cancelled;
use crate::sourcing::import_resolved;
use crate::sourcing::ImportResolution;
use crate::turn::TurnKind;
use crate::value::CalIdx;
use crate::value::Value;
use vstd::prelude::*;

verus! {

/// Whether the host had an instance driven: from the start or on from a pause, on after one
/// of its functions, or with its answer to a parked call or import.
pub open spec fn host_drove(a: Instance, b: Instance) -> bool {
    ||| exists|out: Outcome| #[trigger] driven(a, b, out)
    ||| exists|c: Instance, directive: Directive, fuel: Option<u64>, out: Outcome| #[trigger]
        armed(a, c, directive, fuel) && #[trigger] driven(c, b, out)
    ||| exists|r: Resolution, cancelled: bool, out: Outcome| #[trigger]
        resolved_as(a, r, cancelled, b, out)
    ||| exists|r: ImportResolution, cancelled: bool, out: Outcome| #[trigger]
        import_resolved(a, r, cancelled, b, out)
}

/// Whether the host had a value rendered, in part or whole.
pub open spec fn host_rendered(a: Instance, b: Instance) -> bool {
    ||| exists|cal: CalIdx, value: Value, fuel: u64, raise: Option<RaiseView>| #[trigger]
        aux_begun(a, cal, value, fuel, b, raise)
    ||| exists|out: AuxOutcome| #[trigger] aux_driven(a, b, out)
    ||| exists|h: HeapView, result: AuxResult, out: AuxOutcome| #[trigger]
        put_back(a, h, result, b, out)
}

/// Whether the host read, made or let go of values, answered a call, collected the heap, or
/// set how the instance is observed.
pub open spec fn host_handled(a: Instance, b: Instance) -> bool {
    b == (Instance {
        heap: b.heap,
        machine: b.machine,
        natives: b.natives,
        handles: b.handles,
        finalizations: b.finalizations,
        gc_every_safe_point: b.gc_every_safe_point,
        breakpoints: b.breakpoints,
        observation_mode: b.observation_mode,
        raise_trap_enabled: b.raise_trap_enabled,
        ..a
    })
}

/// Whether the host did something with an instance.
#[verifier::opaque]
pub open spec fn host_did(a: Instance, b: Instance) -> bool {
    host_drove(a, b) || host_rendered(a, b) || host_handled(a, b)
}

/// Whether a number of things that the host does leads from an instance to another.
pub open spec fn lives_to(a: Instance, b: Instance, n: nat) -> bool
    decreases n,
{
    if n == 0 {
        a == b
    } else {
        exists|c: Instance| lives_to(a, c, (n - 1) as nat) && #[trigger] host_did(c, b)
    }
}

/// What loading has found in an instance so far.
pub open spec fn findings(i: Instance) -> Seq<DiagnosticView> {
    diagnostics_view(i.load_diagnostics@)
}

proof fn lemma_passing_finds_nothing(a: Instance, b: Instance, n: nat)
    requires
        passes_to(a, b, n),
    ensures
        b.load_diagnostics == a.load_diagnostics,
    decreases n,
{
    if n > 0 {
        let (c, t) = choose|c: Instance, t: TurnKind|
            passes_to(a, c, (n - 1) as nat) && #[trigger] passes(c, t, b);
        lemma_passing_finds_nothing(a, c, (n - 1) as nat);
    }
}

proof fn lemma_running_finds_nothing(a: Instance, b: Instance, n: nat)
    requires
        runs_to(a, b, n),
    ensures
        b.load_diagnostics == a.load_diagnostics,
    decreases n,
{
    if n > 0 {
        let (c, t) = choose|c: Instance, t: TurnKind|
            runs_to(a, c, (n - 1) as nat) && #[trigger] follows(c, t, b) && goes_on(t);
        lemma_running_finds_nothing(a, c, (n - 1) as nat);
    }
}

proof fn lemma_driving_finds_nothing(a: Instance, z: Instance, r: Outcome)
    requires
        driven(a, z, r),
    ensures
        z.load_diagnostics == a.load_diagnostics,
{
    if exists|b: Instance, c: Instance, t: TurnKind, n: nat, host_pause: bool|
        #![trigger passed(a, b, n), follows(b, t, c), stopped(c, t, host_pause, z, Some(r))]
        passed(a, b, n) && follows(b, t, c) && stopped(c, t, host_pause, z, Some(r)) {
        let (b, c, t, n, host_pause) = choose|
            b: Instance,
            c: Instance,
            t: TurnKind,
            n: nat,
            host_pause: bool,
        |
            #![trigger passed(a, b, n), follows(b, t, c), stopped(c, t, host_pause, z, Some(r))]
            passed(a, b, n) && follows(b, t, c) && stopped(c, t, host_pause, z, Some(r));
        lemma_passing_finds_nothing(a, b, n);
    } else {
        let (b, n) = choose|b: Instance, n: nat| #[trigger]
            passed(a, b, n) && plodded(a, b) && z.load_diagnostics == b.load_diagnostics;
        lemma_passing_finds_nothing(a, b, n);
    }
}

proof fn lemma_rendering_finds_nothing(a: Instance, b: Instance)
    requires
        host_rendered(a, b),
    ensures
        b.load_diagnostics == a.load_diagnostics,
{
    if exists|out: AuxOutcome| #[trigger] aux_driven(a, b, out) {
        let out = choose|out: AuxOutcome| #[trigger] aux_driven(a, b, out);
        if exists|c: Instance, d: Instance, t: TurnKind, n: nat|
            #![trigger runs(a, c, n), follows(c, t, d), aux_stopped(d, t, b, out)]
            runs(a, c, n) && follows(c, t, d) && aux_stopped(d, t, b, out) {
            let (c, d, t, n) = choose|c: Instance, d: Instance, t: TurnKind, n: nat|
                #![trigger runs(a, c, n), follows(c, t, d), aux_stopped(d, t, b, out)]
                runs(a, c, n) && follows(c, t, d) && aux_stopped(d, t, b, out);
            lemma_running_finds_nothing(a, c, n);
        } else {
            let (c, n) = choose|c: Instance, n: nat| #[trigger]
                runs(a, c, n) && plodded(a, c) && b.load_diagnostics == c.load_diagnostics;
            lemma_running_finds_nothing(a, c, n);
        }
    }
}

proof fn lemma_drives_only_add_findings(a: Instance, b: Instance)
    requires
        host_drove(a, b),
    ensures
        findings(a).is_prefix_of(findings(b)),
{
    if exists|out: Outcome| #[trigger] driven(a, b, out) {
        let out = choose|out: Outcome| #[trigger] driven(a, b, out);
        lemma_driving_finds_nothing(a, b, out);
    } else if exists|c: Instance, directive: Directive, fuel: Option<u64>, out: Outcome| #[trigger]
        armed(a, c, directive, fuel) && #[trigger] driven(c, b, out) {
        let (c, directive, fuel, out) = choose|
            c: Instance,
            directive: Directive,
            fuel: Option<u64>,
            out: Outcome,
        | #[trigger]
            armed(a, c, directive, fuel) && #[trigger] driven(c, b, out);
        lemma_driving_finds_nothing(c, b, out);
    } else if exists|r: Resolution, cancelled: bool, out: Outcome| #[trigger]
        resolved_as(a, r, cancelled, b, out) {
        let (r, cancelled, out) = choose|r: Resolution, cancelled: bool, out: Outcome| #[trigger]
            resolved_as(a, r, cancelled, b, out);
        if exists|c: Instance| #[trigger] resumed(a, r, cancelled, c) && driven(c, b, out) {
            let c = choose|c: Instance| #[trigger]
                resumed(a, r, cancelled, c) && driven(c, b, out);
            lemma_driving_finds_nothing(c, b, out);
        }
    } else {
        let (r, cancelled, out) = choose|
            r: ImportResolution,
            cancelled: bool,
            out: Outcome,
        | #[trigger]
            import_resolved(a, r, cancelled, b, out);
        if cancelled {
            let c = choose|c: Instance| #[trigger] import_cancelled(a, c) && driven(c, b, out);
            lemma_driving_finds_nothing(c, b, out);
        } else if exists|c: Instance| #[trigger] import_answered(a, r, c) && driven(c, b, out) {
            let c = choose|c: Instance| #[trigger] import_answered(a, r, c) && driven(c, b, out);
            lemma_driving_finds_nothing(c, b, out);
        }
    }
}

proof fn lemma_findings_come_first(a: Instance, b: Instance)
    requires
        host_did(a, b),
    ensures
        findings(a).is_prefix_of(findings(b)),
{
    reveal(host_did);
    if host_drove(a, b) {
        lemma_drives_only_add_findings(a, b);
    } else if host_rendered(a, b) {
        lemma_rendering_finds_nothing(a, b);
    }
}

proof fn lemma_prefixes(a: Seq<DiagnosticView>, b: Seq<DiagnosticView>, c: Seq<DiagnosticView>)
    requires
        a.is_prefix_of(b),
        b.is_prefix_of(c),
    ensures
        a.is_prefix_of(c),
{
    assert(a =~= c.subrange(0, a.len() as int));
}

proof fn lemma_read_on(a: Seq<DiagnosticView>, b: Seq<DiagnosticView>, since: int)
    requires
        a.is_prefix_of(b),
        0 <= since <= a.len(),
    ensures
        b.skip(since) == a.skip(since) + b.skip(a.len() as int),
{
    assert(b.skip(since) =~= a.skip(since) + b.skip(a.len() as int));
}

/// The record of what loading found only grows: whatever the host does with an instance, what
/// was there before comes first. So a host that reads on from where it left off, at `since`
/// plus what it got, misses nothing and gets nothing twice.
pub proof fn law_findings_only_grow(a: Instance, b: Instance, n: nat, since: int)
    requires
        lives_to(a, b, n),
        0 <= since <= findings(a).len(),
    ensures
        findings(a).is_prefix_of(findings(b)),
        findings(b).skip(since) == findings(a).skip(since) + findings(b).skip(
            findings(a).len() as int,
        ),
    decreases n,
{
    if n > 0 {
        let c = choose|c: Instance|
            lives_to(a, c, (n - 1) as nat) && #[trigger] host_did(c, b);
        law_findings_only_grow(a, c, (n - 1) as nat, since);
        lemma_findings_come_first(c, b);
        lemma_prefixes(findings(a), findings(c), findings(b));
    } else {
        assert(findings(a).is_prefix_of(findings(b)));
    }
    lemma_read_on(findings(a), findings(b), since);
}

} // verus!
