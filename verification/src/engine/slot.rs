//! Slots: each one runs at most one task at a time.
use vstd::prelude::*;

verus! {

/// Where a slot is in the life of its task.
#[derive(Debug, Clone, Copy, PartialEq, Eq, Structural)]
pub enum SlotPhase {
    Idle,
    Prompt,
    Generating,
    Done,
}

/// One slot; a task is named by its 128-bit id.
#[derive(Debug, Clone, Copy, PartialEq, Eq, Structural)]
pub struct ServerSlot {
    pub id: usize,
    pub active_task_id: Option<u128>,
    pub phase: SlotPhase,
}

impl ServerSlot {
    /// A free, idle slot.
    pub fn new(id: usize) -> (s: Self)
        ensures
            s.id == id,
            s.active_task_id is None,
            s.phase == SlotPhase::Idle,
    {
        ServerSlot { id, active_task_id: None, phase: SlotPhase::Idle }
    }
}

/// A free slot.
pub open spec fn idle_slot(id: usize) -> ServerSlot {
    ServerSlot { id, active_task_id: None, phase: SlotPhase::Idle }
}

/// A slot generating for the task.
pub open spec fn busy_slot(id: usize, task_id: u128) -> ServerSlot {
    ServerSlot { id, active_task_id: Some(task_id), phase: SlotPhase::Generating }
}

/// The index of the first free slot, if any.
pub open spec fn first_free(slots: Seq<ServerSlot>) -> Option<int> {
    if exists|i: int| #[trigger] is_first_free(slots, i) {
        Some(choose|i: int| #[trigger] is_first_free(slots, i))
    } else {
        None
    }
}

/// `i` is a free slot and every slot before it is busy.
pub open spec fn is_first_free(slots: Seq<ServerSlot>, i: int) -> bool {
    &&& 0 <= i < slots.len()
    &&& slots[i].active_task_id is None
    &&& forall|j: int| 0 <= j < i ==> (#[trigger] slots[j]).active_task_id is Some
}

/// A slot of `slots` after the task `task_id` has finished.
pub open spec fn released_slot(s: ServerSlot, task_id: u128) -> ServerSlot {
    if s.active_task_id == Some(task_id) {
        idle_slot(s.id)
    } else {
        s
    }
}

/// The slots of `slots` that run a task, in order.
pub open spec fn active_spec(slots: Seq<ServerSlot>) -> Seq<ServerSlot>
    decreases slots.len(),
{
    if slots.len() == 0 {
        Seq::empty()
    } else if slots.last().active_task_id is Some {
        active_spec(slots.drop_last()).push(slots.last())
    } else {
        active_spec(slots.drop_last())
    }
}

/// The slots that run a task, in order.
pub fn active_slots(slots: &[ServerSlot]) -> (r: Vec<ServerSlot>)
    ensures
        r@ == active_spec(slots@),
{
    let mut out: Vec<ServerSlot> = Vec::new();
    let mut i: usize = 0;
    while i < slots.len()
        invariant
            i <= slots@.len(),
            out@ == active_spec(slots@.take(i as int)),
        decreases slots@.len() - i,
    {
        assert(slots@.take(i + 1).drop_last() =~= slots@.take(i as int));
        if slots[i].active_task_id.is_some() {
            out.push(slots[i]);
        }
        i = i + 1;
    }
    assert(slots@.take(slots@.len() as int) =~= slots@);
    out
}

/// The engine's slots, numbered from zero.
pub struct SlotTable {
    pub slots: Vec<ServerSlot>,
}

impl SlotTable {
    /// `n` free slots with ids `0..n`.
    pub fn new(n: usize) -> (t: Self)
        ensures
            t.slots@.len() == n,
            forall|i: int| 0 <= i < n ==> #[trigger] t.slots@[i] == idle_slot(i as usize),
    {
        let mut slots: Vec<ServerSlot> = Vec::with_capacity(n);
        let mut i: usize = 0;
        while i < n
            invariant
                i <= n,
                slots@.len() == i,
                forall|j: int| 0 <= j < i ==> #[trigger] slots@[j] == idle_slot(j as usize),
            decreases n - i,
        {
            slots.push(ServerSlot::new(i));
            i = i + 1;
        }
        SlotTable { slots }
    }

    /// Gives the task the first free slot, which starts generating; with no
    /// free slot nothing changes. Returns the index taken.
    pub fn assign(&mut self, task_id: u128) -> (r: Option<usize>)
        ensures
            r == (match first_free(old(self).slots@) {
                Some(i) => Some(i as usize),
                None => None::<usize>,
            }),
            match r {
                Some(i) => final(self).slots@ == old(self).slots@.update(
                    i as int,
                    busy_slot(old(self).slots@[i as int].id, task_id),
                ),
                None => final(self).slots@ == old(self).slots@,
            },
    {
        let mut i: usize = 0;
        while i < self.slots.len()
            invariant
                i <= self.slots@.len(),
                self.slots@ == old(self).slots@,
                forall|j: int| 0 <= j < i ==> (#[trigger] self.slots@[j]).active_task_id is Some,
            decreases self.slots@.len() - i,
        {
            if self.slots[i].active_task_id.is_none() {
                let id = self.slots[i].id;
                let ghost old_slots = self.slots@;
                proof {
                    assert(is_first_free(old_slots, i as int));
                    let k = choose|k: int| #[trigger] is_first_free(old_slots, k);
                    assert(k == i as int) by {
                        if k < i as int {
                            assert(old_slots[k].active_task_id is Some);
                        } else if k > i as int {
                            assert(old_slots[i as int].active_task_id is Some);
                        }
                    }
                }
                self.slots.set(
                    i,
                    ServerSlot { id, active_task_id: Some(task_id), phase: SlotPhase::Generating },
                );
                return Some(i);
            }
            i = i + 1;
        }
        proof {
            assert forall|k: int| !#[trigger] is_first_free(self.slots@, k) by {
                if 0 <= k < self.slots@.len() {
                    assert(self.slots@[k].active_task_id is Some);
                }
            }
        }
        None
    }

    /// Frees every slot that runs the task; they go back to idle.
    pub fn release(&mut self, task_id: u128)
        ensures
            final(self).slots@.len() == old(self).slots@.len(),
            forall|i: int|
                0 <= i < old(self).slots@.len() ==> #[trigger] final(self).slots@[i] == released_slot(
                    old(self).slots@[i],
                    task_id,
                ),
    {
        let mut i: usize = 0;
        while i < self.slots.len()
            invariant
                i <= self.slots@.len(),
                self.slots@.len() == old(self).slots@.len(),
                forall|j: int|
                    0 <= j < i ==> #[trigger] self.slots@[j] == released_slot(old(self).slots@[j], task_id),
                forall|j: int| i <= j < self.slots@.len() ==> #[trigger] self.slots@[j] == old(self).slots@[j],
            decreases self.slots@.len() - i,
        {
            if self.slots[i].active_task_id == Some(task_id) {
                let id = self.slots[i].id;
                self.slots.set(i, ServerSlot { id, active_task_id: None, phase: SlotPhase::Idle });
            }
            i = i + 1;
        }
    }
}

/// A task that was given a slot holds none once it is released, and every
/// other slot is as it was before the task came.
pub proof fn law_assign_then_release(before: Seq<ServerSlot>, i: int, task_id: u128)
    requires
        first_free(before) == Some(i),
        forall|j: int| 0 <= j < before.len() ==> (#[trigger] before[j]).active_task_id != Some(task_id),
    ensures
        ({
            let assigned = before.update(i, busy_slot(before[i].id, task_id));
            forall|j: int|
                0 <= j < before.len() ==> #[trigger] released_slot(assigned[j], task_id) == (if j
                    == i {
                    idle_slot(before[i].id)
                } else {
                    before[j]
                })
        }),
{
    assert(is_first_free(before, i));
}

} // verus!
