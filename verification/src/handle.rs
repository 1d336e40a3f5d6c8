//! Host handles: generation-checked, reference-counted names for values the host holds. A
//! handle whose slot was freed is stale, and stays stale when the slot is used again.
use crate::value::Value;
use vstd::prelude::*;

verus! {

/// How far a handle's slot index is shifted: one more than the largest generation.
pub const INDEX_WEIGHT: u64 = 0x1_0000_0000;

/// A host handle: a slot index and the generation it was handed out under.
#[derive(Clone, Copy, PartialEq, Eq, Debug, Hash, Structural)]
pub struct Handle(pub u64);

impl Handle {
    /// The slot index.
    pub open spec fn slot(self) -> int {
        self.0 as int / INDEX_WEIGHT as int
    }

    /// The generation.
    pub open spec fn age(self) -> int {
        self.0 as int % INDEX_WEIGHT as int
    }

    fn new(index: u32, generation: u32) -> (r: Handle)
        ensures
            r.slot() == index,
            r.age() == generation,
    {
        proof {
            assert(index * INDEX_WEIGHT + generation <= u64::MAX) by (nonlinear_arith)
                requires
                    index <= 0xffff_ffffu32,
                    generation <= 0xffff_ffffu32,
                    INDEX_WEIGHT == 0x1_0000_0000u64,
            ;
            vstd::arithmetic::div_mod::lemma_fundamental_div_mod_converse(
                index * INDEX_WEIGHT + generation,
                INDEX_WEIGHT as int,
                index as int,
                generation as int,
            );
        }
        Handle(index as u64 * INDEX_WEIGHT + generation as u64)
    }

    fn index(self) -> (r: u32)
        ensures
            r == self.slot(),
    {
        (self.0 / INDEX_WEIGHT) as u32
    }

    fn generation(self) -> (r: u32)
        ensures
            r == self.age(),
    {
        (self.0 % INDEX_WEIGHT) as u32
    }

    /// The handle as a plain number.
    pub fn bits(self) -> (r: u64)
        ensures
            r == self.0,
    {
        self.0
    }

    /// The handle a plain number stands for.
    pub fn from_bits(bits: u64) -> (r: Handle)
        ensures
            r == Handle(bits),
    {
        Handle(bits)
    }
}

/// Handles are determined by their slot index and generation.
proof fn lemma_handle_parts(a: Handle, b: Handle)
    requires
        a.slot() == b.slot(),
        a.age() == b.age(),
    ensures
        a == b,
{
    vstd::arithmetic::div_mod::lemma_fundamental_div_mod(a.0 as int, INDEX_WEIGHT as int);
    vstd::arithmetic::div_mod::lemma_fundamental_div_mod(b.0 as int, INDEX_WEIGHT as int);
}

/// Why a handle operation failed.
#[derive(Clone, Copy, PartialEq, Eq, Debug, Structural)]
pub enum HandleError {
    /// The handle was released, or never handed out.
    Stale,
}

/// A slot: occupied while `refs` is not zero.
#[derive(Clone, Copy, PartialEq, Eq, Debug, Structural)]
pub struct Slot {
    /// The value, while occupied.
    pub value: Value,
    /// The generation of the slot's current or next handle.
    pub generation: u32,
    /// The number of references.
    pub refs: u32,
}

/// The generation after `g`: zero is never used, so no handle is all zeros.
pub open spec fn next_generation(g: u32) -> u32 {
    if g == u32::MAX {
        1
    } else {
        (g + 1) as u32
    }
}

/// The values of the occupied slots, in slot order.
pub open spec fn occupied_values(slots: Seq<Slot>) -> Seq<Value>
    decreases slots.len(),
{
    if slots.len() == 0 {
        Seq::empty()
    } else {
        let rest = occupied_values(slots.drop_last());
        if slots.last().refs > 0 {
            rest.push(slots.last().value)
        } else {
            rest
        }
    }
}

/// The table of host handles.
pub struct HandleTable {
    pub(crate) slots: Vec<Slot>,
    pub(crate) free: Vec<u32>,
}

/// The contents of a handle table.
pub struct TableView {
    /// The slots.
    pub slots: Seq<Slot>,
    /// The free slots, the next to be used last.
    pub free: Seq<u32>,
}

impl View for HandleTable {
    type V = TableView;

    closed spec fn view(&self) -> TableView {
        TableView { slots: self.slots@, free: self.free@ }
    }
}

impl TableView {
    /// The slot a handle names, while it is live.
    pub open spec fn live(self, h: Handle) -> bool {
        &&& h.slot() < self.slots.len()
        &&& self.slots[h.slot()].refs > 0
        &&& self.slots[h.slot()].generation == h.age()
    }

    /// The value a live handle names.
    pub open spec fn resolve(self, h: Handle) -> Option<Value> {
        if self.live(h) {
            Some(self.slots[h.slot()].value)
        } else {
            None
        }
    }

    /// The number of references of a live handle.
    pub open spec fn refs(self, h: Handle) -> nat {
        if self.live(h) {
            self.slots[h.slot()].refs as nat
        } else {
            0
        }
    }

    /// Free slots are listed once, and only they are; no generation is zero.
    pub open spec fn wf(self) -> bool {
        &&& self.slots.len() <= INDEX_WEIGHT
        &&& self.free.no_duplicates()
        &&& forall|k: int|
            0 <= k < self.free.len() ==> {
                &&& (#[trigger] self.free[k]) < self.slots.len()
                &&& self.slots[self.free[k] as int].refs == 0
            }
        &&& forall|i: int|
            0 <= i < self.slots.len() && (#[trigger] self.slots[i]).refs == 0
                ==> self.free.contains(i as u32)
        &&& forall|i: int| 0 <= i < self.slots.len() ==> (#[trigger] self.slots[i]).generation >= 1
    }

    /// Whether `n` more handles fit.
    pub open spec fn room(self, n: int) -> bool {
        self.slots.len() + n <= INDEX_WEIGHT + self.free.len()
    }

    /// The slot the next handle will name.
    pub open spec fn next_slot(self) -> int {
        if self.free.len() > 0 {
            self.free.last() as int
        } else {
            self.slots.len() as int
        }
    }

    /// The generation the next handle will have.
    pub open spec fn next_age(self) -> int {
        if self.free.len() > 0 {
            self.slots[self.free.last() as int].generation as int
        } else {
            1
        }
    }

    /// The table with a value given a new handle.
    pub open spec fn interned(self, value: Value) -> TableView {
        let slot = Slot { value, generation: self.next_age() as u32, refs: 1 };
        if self.free.len() > 0 {
            TableView {
                slots: self.slots.update(self.next_slot(), slot),
                free: self.free.drop_last(),
            }
        } else {
            TableView { slots: self.slots.push(slot), free: self.free }
        }
    }

    /// The handle a value would be given.
    pub open spec fn next_handle(self) -> Handle {
        Handle((self.next_slot() * INDEX_WEIGHT + self.next_age()) as u64)
    }

    /// The table with the count of a live handle changed by one reference.
    pub open spec fn retained(self, h: Handle) -> TableView {
        let slot = self.slots[h.slot()];
        TableView {
            slots: self.slots.update(
                h.slot(),
                Slot { refs: (slot.refs + 1) as u32, ..slot },
            ),
            free: self.free,
        }
    }

    /// The table with a live handle released once: at zero references its slot is free,
    /// under a new generation.
    pub open spec fn released(self, h: Handle) -> TableView {
        let slot = self.slots[h.slot()];
        if slot.refs == 1 {
            TableView {
                slots: self.slots.update(
                    h.slot(),
                    Slot { refs: 0, generation: next_generation(slot.generation), ..slot },
                ),
                free: self.free.push(h.slot() as u32),
            }
        } else {
            TableView {
                slots: self.slots.update(
                    h.slot(),
                    Slot { refs: (slot.refs - 1) as u32, ..slot },
                ),
                free: self.free,
            }
        }
    }
}

impl HandleTable {
    /// An empty table.
    pub fn new() -> (r: HandleTable)
        ensures
            r@ == (TableView { slots: Seq::empty(), free: Seq::empty() }),
            r@.wf(),
    {
        let r = HandleTable { slots: Vec::new(), free: Vec::new() };
        assert(r@.slots =~= Seq::empty() && r@.free =~= Seq::empty());
        r
    }

    /// The number of slots.
    pub fn slot_count(&self) -> (r: usize)
        ensures
            r == self@.slots.len(),
    {
        self.slots.len()
    }

    /// The number of free slots.
    pub fn free_count(&self) -> (r: usize)
        ensures
            r == self@.free.len(),
    {
        self.free.len()
    }

    /// Gives a value a new handle, with one reference.
    pub fn intern(&mut self, value: Value) -> (r: Handle)
        requires
            old(self)@.wf(),
            old(self)@.room(1),
        ensures
            r == old(self)@.next_handle(),
            final(self)@ == old(self)@.interned(value),
            final(self)@.wf(),
            old(self)@.resolve(r) is None,
            final(self)@.resolve(r) == Some(value),
            final(self)@.refs(r) == 1,
            r.0 != 0,
            forall|h: Handle| h != r ==> #[trigger] final(self)@.resolve(h) == old(self)@.resolve(h),
            forall|h: Handle| h != r ==> #[trigger] final(self)@.refs(h) == old(self)@.refs(h),
    {
        let ghost before = self@;
        let r = match self.free.pop() {
            Some(index) => {
                let generation: u32 = self.slots[index as usize].generation;
                self.slots.set(index as usize, Slot { value, generation, refs: 1 });
                Handle::new(index, generation)
            },
            None => {
                let index: u32 = self.slots.len() as u32;
                self.slots.push(Slot { value, generation: 1, refs: 1 });
                Handle::new(index, 1)
            },
        };
        proof {
            assert(self@.slots =~= before.interned(value).slots);
            assert(self@.free =~= before.interned(value).free);
            lemma_interned(before, value, r);
        }
        r
    }

    fn live_index(&self, handle: Handle) -> (r: Result<usize, HandleError>)
        ensures
            r is Ok <==> self@.live(handle),
            r is Ok ==> r->Ok_0 == handle.slot(),
            r is Err ==> r->Err_0 == HandleError::Stale,
    {
        let index: usize = handle.index() as usize;
        if index < self.slots.len() && self.slots[index].refs > 0 && self.slots[index].generation
            == handle.generation() {
            Ok(index)
        } else {
            Err(HandleError::Stale)
        }
    }

    /// Adds a reference to a live handle.
    pub fn retain(&mut self, handle: Handle) -> (r: Result<Handle, HandleError>)
        requires
            old(self)@.wf(),
            old(self)@.refs(handle) < u32::MAX,
        ensures
            final(self)@.wf(),
            old(self)@.live(handle) ==> r == Ok::<Handle, HandleError>(handle) && final(self)@
                == old(self)@.retained(handle),
            !old(self)@.live(handle) ==> r == Err::<Handle, HandleError>(HandleError::Stale)
                && final(self)@ == old(self)@,
    {
        let ghost before = self@;
        match self.live_index(handle) {
            Ok(index) => {
                let slot: Slot = self.slots[index];
                self.slots.set(
                    index,
                    Slot { value: slot.value, generation: slot.generation, refs: slot.refs + 1 },
                );
                proof {
                    assert(self@.slots =~= before.retained(handle).slots);
                    assert(self@.free =~= before.free);
                }
                Ok(handle)
            },
            Err(e) => Err(e),
        }
    }

    /// Drops a reference of a live handle; at zero references the handle is stale for good.
    pub fn release(&mut self, handle: Handle) -> (r: Result<(), HandleError>)
        requires
            old(self)@.wf(),
        ensures
            final(self)@.wf(),
            old(self)@.live(handle) ==> r is Ok && final(self)@ == old(self)@.released(handle),
            !old(self)@.live(handle) ==> r == Err::<(), HandleError>(HandleError::Stale)
                && final(self)@ == old(self)@,
    {
        let ghost before = self@;
        match self.live_index(handle) {
            Ok(index) => {
                let slot: Slot = self.slots[index];
                if slot.refs == 1 {
                    let generation: u32 = if slot.generation == u32::MAX {
                        1
                    } else {
                        slot.generation + 1
                    };
                    self.slots.set(index, Slot { value: slot.value, generation, refs: 0 });
                    self.free.push(index as u32);
                } else {
                    self.slots.set(
                        index,
                        Slot { value: slot.value, generation: slot.generation, refs: slot.refs - 1 },
                    );
                }
                proof {
                    assert(self@.slots =~= before.released(handle).slots);
                    assert(self@.free =~= before.released(handle).free);
                    lemma_released(before, handle);
                }
                Ok(())
            },
            Err(e) => Err(e),
        }
    }

    /// The value a live handle names.
    pub fn resolve(&self, handle: Handle) -> (r: Result<Value, HandleError>)
        ensures
            (match self@.resolve(handle) {
                Some(v) => r == Ok::<Value, HandleError>(v),
                None => r == Err::<Value, HandleError>(HandleError::Stale),
            }),
    {
        match self.live_index(handle) {
            Ok(index) => Ok(self.slots[index].value),
            Err(e) => Err(e),
        }
    }

    /// The values live handles name, in slot order.
    pub fn root_values(&self) -> (r: Vec<Value>)
        ensures
            r@ == occupied_values(self@.slots),
    {
        let mut r: Vec<Value> = Vec::new();
        let mut i: usize = 0;
        while i < self.slots.len()
            invariant
                i <= self.slots@.len(),
                r@ == occupied_values(self.slots@.take(i as int)),
            decreases self.slots@.len() - i,
        {
            let slot: Slot = self.slots[i];
            proof {
                assert(self.slots@.take(i + 1).drop_last() =~= self.slots@.take(i as int));
            }
            if slot.refs > 0 {
                r.push(slot.value);
            }
            i = i + 1;
        }
        assert(self.slots@.take(i as int) =~= self.slots@);
        r
    }
}

proof fn lemma_interned(t: TableView, value: Value, r: Handle)
    requires
        t.wf(),
        t.room(1),
        r.slot() == t.next_slot(),
        r.age() == t.next_age(),
    ensures
        r == t.next_handle(),
        t.interned(value).wf(),
        t.resolve(r) is None,
        t.interned(value).resolve(r) == Some(value),
        t.interned(value).refs(r) == 1,
        r.0 != 0,
        forall|h: Handle| h != r ==> #[trigger] t.interned(value).resolve(h) == t.resolve(h),
        forall|h: Handle| h != r ==> #[trigger] t.interned(value).refs(h) == t.refs(h),
{
    let u = t.interned(value);
    let s = t.next_slot();
    vstd::arithmetic::div_mod::lemma_fundamental_div_mod(r.0 as int, INDEX_WEIGHT as int);
    assert(INDEX_WEIGHT * s == s * INDEX_WEIGHT) by (nonlinear_arith);
    if t.free.len() > 0 {
        assert(t.free[t.free.len() - 1] == t.free.last());
        assert forall|k: int| 0 <= k < u.free.len() implies {
            &&& (#[trigger] u.free[k]) < u.slots.len()
            &&& u.slots[u.free[k] as int].refs == 0
        } by {
            assert(u.free[k] == t.free[k]);
            assert(t.free[k] != t.free[t.free.len() - 1]);
        }
        assert forall|i: int|
            0 <= i < u.slots.len() && (#[trigger] u.slots[i]).refs == 0 implies u.free.contains(
            i as u32,
        ) by {
            assert(i != s);
            assert(t.slots[i].refs == 0);
            let k = choose|k: int| 0 <= k < t.free.len() && t.free[k] == i as u32;
            assert(t.free[k] == i as u32);
            assert(k != t.free.len() - 1);
            assert(u.free[k] == i as u32);
        }
    } else {
        assert forall|i: int|
            0 <= i < u.slots.len() && (#[trigger] u.slots[i]).refs == 0 implies u.free.contains(
            i as u32,
        ) by {
            assert(i != s);
            assert(t.slots[i].refs == 0);
        }
    }
    assert forall|h: Handle| h != r implies #[trigger] u.resolve(h) == t.resolve(h) by {
        if h.slot() == s && h.age() == r.age() {
            lemma_handle_parts(h, r);
        }
    }
    assert forall|h: Handle| h != r implies #[trigger] u.refs(h) == t.refs(h) by {
        if h.slot() == s && h.age() == r.age() {
            lemma_handle_parts(h, r);
        }
    }
}

proof fn lemma_released(t: TableView, h: Handle)
    requires
        t.wf(),
        t.live(h),
    ensures
        t.released(h).wf(),
{
    let u = t.released(h);
    let s = h.slot();
    if t.slots[s].refs == 1 {
        assert forall|k: int| 0 <= k < u.free.len() implies {
            &&& (#[trigger] u.free[k]) < u.slots.len()
            &&& u.slots[u.free[k] as int].refs == 0
        } by {
            if k < t.free.len() {
                assert(u.free[k] == t.free[k]);
            }
        }
        assert forall|i: int|
            0 <= i < u.slots.len() && (#[trigger] u.slots[i]).refs == 0 implies u.free.contains(
            i as u32,
        ) by {
            if i == s {
                assert(u.free[u.free.len() - 1] == i as u32);
            } else {
                assert(t.slots[i].refs == 0);
                let k = choose|k: int| 0 <= k < t.free.len() && t.free[k] == i as u32;
                assert(u.free[k] == i as u32);
            }
        }
        assert forall|a: int, b: int| 0 <= a < b < u.free.len() implies u.free[a] != u.free[b] by {
            if b == t.free.len() {
                assert(t.slots[t.free[a] as int].refs == 0);
            }
        }
    } else {
        assert forall|k: int| 0 <= k < u.free.len() implies {
            &&& (#[trigger] u.free[k]) < u.slots.len()
            &&& u.slots[u.free[k] as int].refs == 0
        } by {
            assert(u.free[k] == t.free[k]);
        }
        assert forall|i: int|
            0 <= i < u.slots.len() && (#[trigger] u.slots[i]).refs == 0 implies u.free.contains(
            i as u32,
        ) by {
            assert(t.slots[i].refs == 0);
        }
    }
}

/// A value given a handle is what that handle names, and no other handle changes.
pub proof fn law_a_new_handle_names_its_value(t: TableView, value: Value)
    requires
        t.wf(),
        t.room(1),
    ensures
        t.interned(value).wf(),
        t.resolve(t.next_handle()) is None,
        t.interned(value).resolve(t.next_handle()) == Some(value),
        forall|h: Handle|
            h != t.next_handle() ==> #[trigger] t.interned(value).resolve(h) == t.resolve(h),
{
    let s = t.next_slot();
    let g = t.next_age();
    if t.free.len() > 0 {
        assert(t.free[t.free.len() - 1] == t.free.last());
        assert(t.slots[s].generation >= 1);
    }
    assert(0 <= s < INDEX_WEIGHT && 0 <= g < INDEX_WEIGHT);
    assert(s * INDEX_WEIGHT + g <= u64::MAX) by (nonlinear_arith)
        requires
            0 <= s < INDEX_WEIGHT,
            0 <= g < INDEX_WEIGHT,
            INDEX_WEIGHT == 0x1_0000_0000u64,
    ;
    assert(0 <= s * INDEX_WEIGHT) by (nonlinear_arith)
        requires
            0 <= s,
    ;
    vstd::arithmetic::div_mod::lemma_fundamental_div_mod_converse(
        s * INDEX_WEIGHT + g,
        INDEX_WEIGHT as int,
        s,
        g,
    );
    lemma_interned(t, value, t.next_handle());
}

/// No live handle is all zeros, so zero can stand for the absence of a handle.
pub proof fn law_zero_is_never_live(t: TableView)
    requires
        t.wf(),
    ensures
        t.resolve(Handle(0)) is None,
{
}

/// A retained handle takes two releases: after the first it still names its value.
pub proof fn law_retain_needs_a_release(t: TableView, h: Handle)
    requires
        t.wf(),
        t.live(h),
        t.refs(h) < u32::MAX,
    ensures
        t.retained(h).wf(),
        t.retained(h).live(h),
        t.retained(h).released(h) == t,
{
    let u = t.retained(h);
    lemma_retained(t, h);
    assert(u.released(h).slots =~= t.slots);
}

proof fn lemma_retained(t: TableView, h: Handle)
    requires
        t.wf(),
        t.live(h),
        t.refs(h) < u32::MAX,
    ensures
        t.retained(h).wf(),
{
    let u = t.retained(h);
    assert forall|k: int| 0 <= k < u.free.len() implies {
        &&& (#[trigger] u.free[k]) < u.slots.len()
        &&& u.slots[u.free[k] as int].refs == 0
    } by {
        assert(u.free[k] == t.free[k]);
    }
    assert forall|i: int|
        0 <= i < u.slots.len() && (#[trigger] u.slots[i]).refs == 0 implies u.free.contains(
        i as u32,
    ) by {
        assert(t.slots[i].refs == 0);
    }
}

/// A handle released for good stays stale when its slot is handed out again, to any value.
pub proof fn law_reuse_keeps_old_handles_stale(t: TableView, h: Handle, value: Value)
    requires
        t.wf(),
        t.live(h),
        t.refs(h) == 1,
    ensures
        t.released(h).resolve(h) is None,
        t.released(h).next_slot() == h.slot(),
        t.released(h).interned(value).resolve(h) is None,
{
    let u = t.released(h);
    lemma_released(t, h);
    assert(u.free.last() == h.slot() as u32);
}

} // verus!
