//! Resource limits: how much a program may run, allocate and compute in one operation, and
//! the counters that keep to it. Exceeding a limit is a fault, which a program cannot
//! catch.
use crate::error::EngineFault;
use crate::error::LimitKind;
use vstd::prelude::*;

verus! {

/// The floor of the collection threshold, and its initial value.
pub const GC_MIN_BYTES: u64 = 1048576;

/// How many times the surviving set's size the next collection waits for.
pub const GC_GROWTH: u64 = 2;

/// The limits of one program.
#[derive(Clone, Copy, PartialEq, Eq, Debug, Structural)]
pub struct Limits {
    /// How many steps the program may run in its lifetime.
    pub step_budget: u64,
    /// How many accounted bytes its heap may hold.
    pub heap_bytes: u64,
    /// How deep its frame stack may grow.
    pub stack_depth: u32,
    /// How many bytes the result of one operation may have.
    pub max_op_result_bytes: u64,
}

impl Limits {
    /// Generous limits.
    pub open spec fn generous() -> Limits {
        Limits {
            step_budget: u64::MAX,
            heap_bytes: 268435456,
            stack_depth: 10000,
            max_op_result_bytes: 16777216,
        }
    }

    /// Generous limits.
    pub fn standard() -> (r: Limits)
        ensures
            r == Limits::generous(),
    {
        Limits {
            step_budget: u64::MAX,
            heap_bytes: 268435456,
            stack_depth: 10000,
            max_op_result_bytes: 16777216,
        }
    }
}

/// The counter spent at each safe point: what is left of the lifetime budget and of the
/// current drive's fuel.
#[derive(Clone, Copy, PartialEq, Eq, Debug, Structural)]
pub struct FusedCounter {
    /// What is left of the lifetime budget.
    pub budget: u64,
    /// What is left of the current drive's fuel; without it the drive is not sliced.
    pub slice: Option<u64>,
    /// Whether the current drive's fuel is spent.
    pub exhausted: bool,
}

impl FusedCounter {
    /// A full counter without a slice.
    pub open spec fn full(limits: Limits) -> FusedCounter {
        FusedCounter { budget: limits.step_budget, slice: None, exhausted: false }
    }

    /// The counter with a drive's fuel armed.
    pub open spec fn armed(self, fuel: Option<u64>) -> FusedCounter {
        FusedCounter { budget: self.budget, slice: fuel, exhausted: fuel == Some(0u64) }
    }

    /// The counter after one safe point.
    pub open spec fn spent(self) -> FusedCounter {
        match self.slice {
            Some(n) => if n > 0 {
                FusedCounter {
                    budget: (self.budget - 1) as u64,
                    slice: Some((n - 1) as u64),
                    exhausted: self.exhausted || n == 1,
                }
            } else {
                FusedCounter { budget: (self.budget - 1) as u64, ..self }
            },
            None => FusedCounter { budget: (self.budget - 1) as u64, ..self },
        }
    }

    /// A full counter without a slice.
    pub fn new(limits: &Limits) -> (r: FusedCounter)
        ensures
            r == FusedCounter::full(*limits),
    {
        FusedCounter { budget: limits.step_budget, slice: None, exhausted: false }
    }

    /// Arms a drive's fuel: at most that many safe points, or as many as it takes.
    pub fn arm_slice(&mut self, fuel: Option<u64>)
        ensures
            *final(self) == old(self).armed(fuel),
    {
        self.slice = fuel;
        self.exhausted = match fuel {
            Some(n) => n == 0,
            None => false,
        };
    }

    /// Whether the current drive's fuel is spent.
    pub fn sliced_out(&self) -> (r: bool)
        ensures
            r == self.exhausted,
    {
        self.exhausted
    }

    /// Spends one safe point, or faults where the lifetime budget is out.
    pub fn spend(&mut self) -> (r: Result<(), EngineFault>)
        ensures
            old(self).budget > 0 ==> r is Ok && *final(self) == old(self).spent(),
            old(self).budget == 0 ==> *final(self) == *old(self) && r == Err::<(), EngineFault>(
                EngineFault::LimitExceeded(LimitKind::StepBudget),
            ),
    {
        if self.budget == 0 {
            return Err(EngineFault::LimitExceeded(LimitKind::StepBudget));
        }
        self.budget = self.budget - 1;
        if let Some(n) = self.slice {
            if n > 0 {
                self.slice = Some(n - 1);
                if n - 1 == 0 {
                    self.exhausted = true;
                }
            }
        }
        Ok(())
    }

    /// Charges work against the lifetime budget, where the budget covers it. The drive's
    /// fuel is left alone: it counts safe points.
    pub fn charge(&mut self, cost: u64) -> (r: bool)
        ensures
            r == (old(self).budget >= cost),
            final(self).slice == old(self).slice,
            final(self).exhausted == old(self).exhausted,
            final(self).budget == (if r {
                old(self).budget - cost
            } else {
                old(self).budget as int
            }),
    {
        if self.budget < cost {
            return false;
        }
        self.budget = self.budget - cost;
        true
    }
}

/// The limits of a program, what is left of them, and the fault a transition parked.
#[derive(Clone, Copy, PartialEq, Eq, Debug, Structural)]
pub struct Meter {
    /// The limits.
    pub limits: Limits,
    /// What is left of the counted ones.
    pub fuel: FusedCounter,
    /// The fault to surface before the next transition.
    pub pending_fault: Option<EngineFault>,
}

/// Which limit an operation whose result has that many bytes would exceed.
pub open spec fn op_refused(m: Meter, result_bytes: int) -> Option<LimitKind> {
    if result_bytes > m.limits.heap_bytes {
        Some(LimitKind::Heap)
    } else if result_bytes > m.limits.max_op_result_bytes {
        Some(LimitKind::OpResult)
    } else if result_bytes > m.fuel.budget {
        Some(LimitKind::StepBudget)
    } else {
        None
    }
}

/// The meter after asking to compute a result of that many bytes.
pub open spec fn op_metered(m: Meter, result_bytes: int) -> Meter {
    match op_refused(m, result_bytes) {
        Some(limit) => m.parked(EngineFault::LimitExceeded(limit)),
        None => Meter {
            fuel: FusedCounter { budget: (m.fuel.budget - result_bytes) as u64, ..m.fuel },
            ..m
        },
    }
}

impl Meter {
    /// A meter of the given limits, nothing spent.
    pub open spec fn fresh(limits: Limits) -> Meter {
        Meter { limits, fuel: FusedCounter::full(limits), pending_fault: None }
    }

    /// The meter with a fault parked.
    pub open spec fn parked(self, fault: EngineFault) -> Meter {
        Meter { pending_fault: Some(fault), ..self }
    }

    /// A meter of the given limits, nothing spent.
    pub fn new(limits: Limits) -> (r: Meter)
        ensures
            r == Meter::fresh(limits),
    {
        Meter { limits, fuel: FusedCounter::new(&limits), pending_fault: None }
    }

    /// Parks a fault for the next transition to surface.
    pub fn set_pending_fault(&mut self, fault: EngineFault)
        ensures
            *final(self) == old(self).parked(fault),
    {
        self.pending_fault = Some(fault);
    }

    /// Takes the parked fault.
    pub fn take_pending_fault(&mut self) -> (r: Option<EngineFault>)
        ensures
            r == old(self).pending_fault,
            *final(self) == (Meter { pending_fault: None, ..*old(self) }),
    {
        let fault = self.pending_fault;
        self.pending_fault = None;
        fault
    }

    /// Refuses a frame stack deeper than the limit.
    pub fn check_stack_depth(&self, depth: usize) -> (r: Result<(), EngineFault>)
        ensures
            r == (if depth > self.limits.stack_depth {
                Err::<(), EngineFault>(EngineFault::LimitExceeded(LimitKind::StackDepth))
            } else {
                Ok::<(), EngineFault>(())
            }),
    {
        if depth > self.limits.stack_depth as usize {
            Err(EngineFault::LimitExceeded(LimitKind::StackDepth))
        } else {
            Ok(())
        }
    }

    /// Admits an operation whose result has at most that many bytes, charging the budget
    /// for it; or parks the fault of the first limit it would exceed, before any of it is
    /// computed.
    pub fn admit_op_result(&mut self, result_bytes: u128) -> (r: bool)
        ensures
            r == (op_refused(*old(self), result_bytes as int) is None),
            *final(self) == op_metered(*old(self), result_bytes as int),
    {
        if result_bytes > self.limits.heap_bytes as u128 {
            self.set_pending_fault(EngineFault::LimitExceeded(LimitKind::Heap));
            return false;
        }
        if result_bytes > self.limits.max_op_result_bytes as u128 {
            self.set_pending_fault(EngineFault::LimitExceeded(LimitKind::OpResult));
            return false;
        }
        if !self.fuel.charge(result_bytes as u64) {
            self.set_pending_fault(EngineFault::LimitExceeded(LimitKind::StepBudget));
            return false;
        }
        true
    }
}

/// The threshold that a collection which left that many bytes arms.
pub open spec fn next_threshold(bytes: u64) -> u64 {
    if bytes * GC_GROWTH > u64::MAX {
        u64::MAX
    } else if bytes * GC_GROWTH < GC_MIN_BYTES {
        GC_MIN_BYTES
    } else {
        (bytes * GC_GROWTH) as u64
    }
}

/// The threshold that a collection which left that many bytes arms.
pub fn rearmed_threshold(bytes: u64) -> (r: u64)
    ensures
        r == next_threshold(bytes),
{
    match bytes.checked_mul(GC_GROWTH) {
        Some(n) => if n < GC_MIN_BYTES {
            GC_MIN_BYTES
        } else {
            n
        },
        None => u64::MAX,
    }
}

/// The lifetime budget never grows: not by a safe point, not by an operation, and not by
/// arming a drive's fuel.
pub proof fn law_budget_only_shrinks(m: Meter, fuel: Option<u64>, result_bytes: int)
    requires
        result_bytes >= 0,
    ensures
        m.fuel.budget > 0 ==> m.fuel.spent().budget < m.fuel.budget,
        m.fuel.armed(fuel).budget == m.fuel.budget,
        op_metered(m, result_bytes).fuel.budget <= m.fuel.budget,
{
}

/// A sliced drive is out exactly when it has spent as many safe points as its fuel.
pub proof fn law_slice_runs_its_fuel(c: FusedCounter, fuel: u64, n: nat)
    requires
        c.slice == Some(fuel),
        c.exhausted == (fuel == 0),
        n <= fuel,
        n <= c.budget,
    ensures
        spent_times(c, n).exhausted <==> n == fuel,
    decreases n,
{
    lemma_spent_times(c, fuel, n);
}

/// The counter after that many safe points.
pub open spec fn spent_times(c: FusedCounter, n: nat) -> FusedCounter
    decreases n,
{
    if n == 0 {
        c
    } else {
        spent_times(c, (n - 1) as nat).spent()
    }
}

proof fn lemma_spent_times(c: FusedCounter, fuel: u64, n: nat)
    requires
        c.slice == Some(fuel),
        c.exhausted == (fuel == 0),
        n <= fuel,
        n <= c.budget,
    ensures
        spent_times(c, n).slice == Some((fuel - n) as u64),
        spent_times(c, n).budget == c.budget - n,
        spent_times(c, n).exhausted == (n == fuel),
    decreases n,
{
    if n > 0 {
        lemma_spent_times(c, fuel, (n - 1) as nat);
    }
}

/// An admitted operation is within every limit, and a refused one exceeds the one it
/// faults with.
pub proof fn law_admission_keeps_the_limits(m: Meter, result_bytes: int)
    ensures
        op_refused(m, result_bytes) is None <==> result_bytes <= m.limits.heap_bytes
            && result_bytes <= m.limits.max_op_result_bytes && result_bytes <= m.fuel.budget,
        op_refused(m, result_bytes) == Some(LimitKind::Heap) ==> result_bytes
            > m.limits.heap_bytes,
        op_refused(m, result_bytes) == Some(LimitKind::OpResult) ==> result_bytes
            > m.limits.max_op_result_bytes,
        op_refused(m, result_bytes) == Some(LimitKind::StepBudget) ==> result_bytes
            > m.fuel.budget,
{
}

} // verus!
