//! The allocator as a mathematical state, and what holds of it.
//!
//! A state is a sequence of slots, a stack of the free slots' indices and
//! the next generation id. `after_alloc` and `after_free` say what the two
//! operations do to a state; the laws below are proved of those, and so
//! hold of every allocator whose view they describe.

use vstd::prelude::*;
use crate::shared::Entity;
use crate::wasm_entity::Handle;
use crate::wasm_entity::lemma_handle_eq;

verus! {

/// What one slot holds.
pub enum Slot {
    /// Never allocated.
    Untouched,
    /// Holds the entity of generation `id`.
    Occupied { id: u32, entity: Entity },
    /// Was allocated, then freed; waits on the free list.
    Free,
}

/// The state of an allocator.
pub struct AllocatorState {
    /// The slots, by index.
    pub slots: Seq<Slot>,
    /// The indices of the free slots, the next one to be reused first.
    pub free: Seq<u32>,
    /// The id that the next allocation gets.
    pub next_id: u32,
}

/// One step of a caller.
pub enum Op {
    Alloc,
    Free(Handle),
}

impl AllocatorState {
    /// The state of a new allocator: only the reserved slot 0.
    pub open spec fn initial() -> Self {
        AllocatorState { slots: seq![Slot::Untouched], free: Seq::empty(), next_id: 1 }
    }

    /// The id stored in slot `index`: zero unless the slot is occupied.
    pub open spec fn stored_id(self, index: int) -> u32 {
        match self.slots[index] {
            Slot::Occupied { id, .. } => id,
            _ => 0,
        }
    }

    /// `handle` names an occupied slot of its own generation.
    pub open spec fn valid(self, handle: Handle) -> bool {
        &&& handle.spec_id() != 0
        &&& handle.spec_index() != 0
        &&& handle.spec_index() < self.slots.len()
        &&& self.slots[handle.spec_index() as int] is Occupied
        &&& self.stored_id(handle.spec_index() as int) == handle.spec_id()
    }

    /// The entity that a valid handle names.
    pub open spec fn payload(self, handle: Handle) -> Entity
        recommends
            self.valid(handle),
    {
        self.slots[handle.spec_index() as int]->entity
    }

    /// `handle` is of a generation that was already handed out, and names
    /// nothing now.
    pub open spec fn spent(self, handle: Handle) -> bool {
        handle.spec_id() < self.next_id && !self.valid(handle)
    }

    /// Another id is left to hand out.
    pub open spec fn can_alloc(self) -> bool {
        self.next_id < u32::MAX
    }

    /// The slot that the next allocation uses: the head of the free list,
    /// or a new slot at the end.
    pub open spec fn alloc_index(self) -> u32 {
        if self.free.len() > 0 {
            self.free[0]
        } else {
            self.slots.len() as u32
        }
    }

    /// The state after one allocation.
    pub open spec fn after_alloc(self) -> Self
        recommends
            self.can_alloc(),
    {
        let fresh = Slot::Occupied { id: self.next_id, entity: Entity::zero() };
        if self.free.len() > 0 {
            AllocatorState {
                slots: self.slots.update(self.free[0] as int, fresh),
                free: self.free.drop_first(),
                next_id: (self.next_id + 1) as u32,
            }
        } else {
            AllocatorState {
                slots: self.slots.push(fresh),
                free: self.free,
                next_id: (self.next_id + 1) as u32,
            }
        }
    }

    /// The state after `handle` is freed: unchanged if it names nothing.
    pub open spec fn after_free(self, handle: Handle) -> Self {
        if self.valid(handle) {
            AllocatorState {
                slots: self.slots.update(handle.spec_index() as int, Slot::Free),
                free: seq![handle.spec_index()] + self.free,
                next_id: self.next_id,
            }
        } else {
            self
        }
    }

    /// Slot `index` holds an entity.
    pub open spec fn occupied(self, index: int) -> bool {
        0 <= index < self.slots.len() && self.slots[index] is Occupied
    }

    /// The state after the entity in the occupied slot `index` is
    /// replaced.
    pub open spec fn with_entity(self, index: int, entity: Entity) -> Self
        recommends
            self.occupied(index),
    {
        AllocatorState {
            slots: self.slots.update(
                index,
                Slot::Occupied { id: self.stored_id(index), entity },
            ),
            free: self.free,
            next_id: self.next_id,
        }
    }

    /// The state after the entity that `handle` names is replaced.
    pub open spec fn with_payload(self, handle: Handle, entity: Entity) -> Self
        recommends
            self.valid(handle),
    {
        self.with_entity(handle.spec_index() as int, entity)
    }

    /// The entities in the first `n` slots, by index.
    pub open spec fn entities_upto(self, n: int) -> Seq<Entity>
        decreases n,
    {
        if n <= 0 {
            Seq::empty()
        } else {
            let before = self.entities_upto(n - 1);
            match self.slots[n - 1] {
                Slot::Occupied { entity, .. } => before.push(entity),
                _ => before,
            }
        }
    }

    /// All entities, by slot index.
    pub open spec fn entities(self) -> Seq<Entity> {
        self.entities_upto(self.slots.len() as int)
    }

    /// The number of entities in the first `n` slots.
    pub open spec fn rank(self, n: int) -> int {
        self.entities_upto(n).len() as int
    }

    /// The state after every entity is replaced: the entity in the
    /// occupied slot that has `k` occupied slots before it becomes
    /// `entities[k]`.
    pub open spec fn with_entities(self, entities: Seq<Entity>) -> Self
        recommends
            entities.len() == self.entities().len(),
    {
        AllocatorState {
            slots: Seq::new(
                self.slots.len(),
                |i: int|
                    match self.slots[i] {
                        Slot::Occupied { id, .. } => Slot::Occupied {
                            id,
                            entity: entities[self.rank(i)],
                        },
                        other => other,
                    },
            ),
            free: self.free,
            next_id: self.next_id,
        }
    }

    /// The state after a caller's step. An allocation that cannot be made
    /// is left out.
    pub open spec fn step(self, op: Op) -> Self {
        match op {
            Op::Alloc => if self.can_alloc() {
                self.after_alloc()
            } else {
                self
            },
            Op::Free(handle) => self.after_free(handle),
        }
    }

    /// The state after a caller's steps, in order.
    pub open spec fn run(self, ops: Seq<Op>) -> Self
        decreases ops.len(),
    {
        if ops.len() == 0 {
            self
        } else {
            self.step(ops[0]).run(ops.drop_first())
        }
    }

    /// What holds of every state that an allocator reaches.
    pub open spec fn inv(self) -> bool {
        &&& self.slots.len() >= 1
        &&& self.slots[0] is Untouched
        &&& forall|i: int| 1 <= i < self.slots.len() ==> !(#[trigger] self.slots[i] is Untouched)
        &&& 1 <= self.next_id
        &&& self.slots.len() <= self.next_id
        &&& forall|i: int|
            0 <= i < self.slots.len() && #[trigger] self.slots[i] is Occupied ==> 0
                < self.stored_id(i) < self.next_id
        &&& forall|i: int, j: int|
            0 <= i < self.slots.len() && 0 <= j < self.slots.len() && i != j
                && #[trigger] self.slots[i] is Occupied && #[trigger] self.slots[j] is Occupied
                ==> self.stored_id(i) != self.stored_id(j)
        &&& self.free.no_duplicates()
        &&& forall|k: int|
            0 <= k < self.free.len() ==> 0 < #[trigger] self.free[k] < self.slots.len()
                && self.slots[self.free[k] as int] is Free
        &&& forall|i: int|
            0 <= i < self.slots.len() && #[trigger] self.slots[i] is Free ==> self.free.contains(
                i as u32,
            )
    }
}

/// A new allocator's state is well formed.
pub proof fn lemma_initial_inv()
    ensures
        AllocatorState::initial().inv(),
{
}

/// An allocation keeps the state well formed.
pub proof fn lemma_alloc_inv(state: AllocatorState)
    requires
        state.inv(),
        state.can_alloc(),
    ensures
        state.after_alloc().inv(),
{
    let after = state.after_alloc();
    if state.free.len() > 0 {
        let head = state.free[0];
        assert forall|k: int| 0 <= k < after.free.len() implies 0 < #[trigger] after.free[k]
            < after.slots.len() && after.slots[after.free[k] as int] is Free by {
            assert(after.free[k] == state.free[k + 1]);
            assert(state.free[k + 1] != state.free[0]);
        }
        assert forall|i: int|
            0 <= i < after.slots.len() && #[trigger] after.slots[i] is Free implies after.free.contains(
            i as u32,
        ) by {
            assert(state.slots[i] is Free);
            assert(state.free.contains(i as u32));
            let k = choose|k: int| 0 <= k < state.free.len() && state.free[k] == i as u32;
            assert(k != 0);
            assert(after.free[k - 1] == i as u32);
        }
        assert(after.free.no_duplicates()) by {
            assert forall|a: int, b: int|
                0 <= a < after.free.len() && 0 <= b < after.free.len() && a != b implies after.free[a]
                != after.free[b] by {
                assert(after.free[a] == state.free[a + 1]);
                assert(after.free[b] == state.free[b + 1]);
            }
        }
    } else {
        assert forall|i: int|
            0 <= i < after.slots.len() && #[trigger] after.slots[i] is Free implies after.free.contains(
            i as u32,
        ) by {
            assert(state.slots[i] is Free);
        }
    }
}

/// Freeing keeps the state well formed.
pub proof fn lemma_free_inv(state: AllocatorState, handle: Handle)
    requires
        state.inv(),
    ensures
        state.after_free(handle).inv(),
{
    let after = state.after_free(handle);
    if state.valid(handle) {
        let index = handle.spec_index();
        assert(!state.free.contains(index)) by {
            if state.free.contains(index) {
                let k = choose|k: int| 0 <= k < state.free.len() && state.free[k] == index;
                assert(state.slots[state.free[k] as int] is Free);
            }
        }
        assert forall|k: int| 0 <= k < after.free.len() implies 0 < #[trigger] after.free[k]
            < after.slots.len() && after.slots[after.free[k] as int] is Free by {
            if k > 0 {
                assert(after.free[k] == state.free[k - 1]);
            }
        }
        assert forall|i: int|
            0 <= i < after.slots.len() && #[trigger] after.slots[i] is Free implies after.free.contains(
            i as u32,
        ) by {
            if i == index {
                assert(after.free[0] == index);
            } else {
                assert(state.slots[i] is Free);
                let k = choose|k: int| 0 <= k < state.free.len() && state.free[k] == i as u32;
                assert(after.free[k + 1] == i as u32);
            }
        }
        assert(after.free.no_duplicates()) by {
            assert forall|a: int, b: int|
                0 <= a < after.free.len() && 0 <= b < after.free.len() && a != b implies after.free[a]
                != after.free[b] by {
                if a > 0 {
                    assert(after.free[a] == state.free[a - 1]);
                }
                if b > 0 {
                    assert(after.free[b] == state.free[b - 1]);
                }
            }
        }
    }
}

/// Replacing the entity in an occupied slot keeps the state well formed,
/// and changes no slot's id.
pub proof fn lemma_with_entity_inv(state: AllocatorState, index: int, entity: Entity)
    requires
        state.inv(),
        state.occupied(index),
    ensures
        state.with_entity(index, entity).inv(),
        forall|handle: Handle|
            state.valid(handle) <==> #[trigger] state.with_entity(index, entity).valid(handle),
{
    let after = state.with_entity(index, entity);
    assert forall|i: int|
        0 <= i < after.slots.len() && #[trigger] after.slots[i] is Free implies after.free.contains(
        i as u32,
    ) by {
        assert(state.slots[i] is Free);
    }
    assert forall|i: int| 0 <= i < after.slots.len() implies after.stored_id(i) == state.stored_id(
        i,
    ) && (after.slots[i] is Occupied <==> state.slots[i] is Occupied) by {}
}

/// The number of entities grows with the number of slots counted.
pub proof fn lemma_rank_grows(state: AllocatorState, fewer: int, more: int)
    requires
        0 <= fewer <= more,
    ensures
        0 <= state.rank(fewer) <= state.rank(more),
        state.rank(more) <= state.rank(fewer) + (more - fewer),
    decreases more - fewer,
{
    if fewer < more {
        lemma_rank_grows(state, fewer, more - 1);
    }
}

/// Each of the entities of the first `n` slots is the entity of a slot:
/// of the occupied slot whose rank is the entity's place.
pub proof fn lemma_slot_of_rank(state: AllocatorState, k: int, n: int) -> (index: int)
    requires
        0 <= n <= state.slots.len(),
        0 <= k < state.rank(n),
    ensures
        0 <= index < n,
        state.slots[index] is Occupied,
        state.rank(index) == k,
        state.entities_upto(n)[k] == state.slots[index]->entity,
    decreases n,
{
    if state.slots[n - 1] is Occupied && state.rank(n - 1) == k {
        n - 1
    } else {
        lemma_slot_of_rank(state, k, n - 1)
    }
}

/// Two states with the same slots occupied have the same ranks.
pub proof fn lemma_rank_same(a: AllocatorState, b: AllocatorState, n: int)
    requires
        0 <= n <= a.slots.len(),
        a.slots.len() == b.slots.len(),
        forall|i: int| 0 <= i < a.slots.len() ==> (a.slots[i] is Occupied <==> b.slots[i] is Occupied),
    ensures
        a.rank(n) == b.rank(n),
    decreases n,
{
    if n > 0 {
        lemma_rank_same(a, b, n - 1);
    }
}

/// In the state with every entity replaced, the entities of the first `n`
/// slots are the first of the new entities.
proof fn lemma_entities_upto_replaced(state: AllocatorState, entities: Seq<Entity>, n: int)
    requires
        entities.len() == state.entities().len(),
        0 <= n <= state.slots.len(),
    ensures
        state.with_entities(entities).entities_upto(n) == entities.subrange(0, state.rank(n)),
    decreases n,
{
    lemma_rank_grows(state, n, state.slots.len() as int);
    if n > 0 {
        lemma_entities_upto_replaced(state, entities, n - 1);
        lemma_rank_grows(state, n - 1, n);
    }
    assert(state.with_entities(entities).entities_upto(n) =~= entities.subrange(
        0,
        state.rank(n),
    ));
}

/// Replacing every entity keeps the state well formed and every handle as
/// valid as it was, and the state then holds exactly the new entities.
pub proof fn lemma_with_entities_inv(state: AllocatorState, entities: Seq<Entity>)
    requires
        state.inv(),
        entities.len() == state.entities().len(),
    ensures
        state.with_entities(entities).inv(),
        state.with_entities(entities).entities() == entities,
        forall|handle: Handle|
            state.valid(handle) <==> #[trigger] state.with_entities(entities).valid(handle),
{
    let after = state.with_entities(entities);
    assert forall|i: int| 0 <= i < after.slots.len() implies after.stored_id(i) == state.stored_id(
        i,
    ) && (after.slots[i] is Occupied <==> state.slots[i] is Occupied) && (after.slots[i] is Free
        <==> state.slots[i] is Free) && (after.slots[i] is Untouched
        <==> state.slots[i] is Untouched) by {}
    assert forall|i: int|
        0 <= i < after.slots.len() && #[trigger] after.slots[i] is Free implies after.free.contains(
        i as u32,
    ) by {
        assert(state.slots[i] is Free);
    }
    lemma_entities_upto_replaced(state, entities, state.slots.len() as int);
    assert(entities.subrange(0, entities.len() as int) =~= entities);
}

/// Replacing every entity by itself changes nothing.
pub proof fn lemma_with_own_entities(state: AllocatorState)
    ensures
        state.with_entities(state.entities()) == state,
{
    let after = state.with_entities(state.entities());
    assert forall|i: int| 0 <= i < state.slots.len() implies after.slots[i] == state.slots[i] by {
        if state.slots[i] is Occupied {
            lemma_rank_grows(state, i + 1, state.slots.len() as int);
            lemma_entity_at_rank(state, i, state.slots.len() as int);
        }
    }
    assert(after.slots =~= state.slots);
}

/// The entity of the occupied slot `index` stands among the entities of
/// the first `n` slots at the place that the slot's rank gives.
pub proof fn lemma_entity_at_rank(state: AllocatorState, index: int, n: int)
    requires
        0 <= index < n,
        state.slots[index] is Occupied,
    ensures
        state.rank(index) < state.rank(n),
        state.entities_upto(n)[state.rank(index)] == state.slots[index]->entity,
    decreases n,
{
    if index < n - 1 {
        lemma_entity_at_rank(state, index, n - 1);
    }
}

/// Replacing the entity that a valid handle names keeps the state well
/// formed and the handle valid, and the handle then names the new entity.
pub proof fn lemma_with_payload_inv(state: AllocatorState, handle: Handle, entity: Entity)
    requires
        state.inv(),
        state.valid(handle),
    ensures
        state.with_payload(handle, entity).inv(),
        state.with_payload(handle, entity).valid(handle),
        state.with_payload(handle, entity).payload(handle) == entity,
{
    let after = state.with_payload(handle, entity);
    assert forall|i: int|
        0 <= i < after.slots.len() && #[trigger] after.slots[i] is Free implies after.free.contains(
        i as u32,
    ) by {
        assert(state.slots[i] is Free);
    }
    assert forall|i: int| 0 <= i < after.slots.len() implies after.stored_id(i) == state.stored_id(
        i,
    ) && (after.slots[i] is Occupied <==> state.slots[i] is Occupied) by {}
}

/// The handle that an allocation returns names a zeroed entity, has no
/// zero half, and named nothing before.
pub proof fn law_alloc_gives_valid_handle(state: AllocatorState, handle: Handle)
    requires
        state.inv(),
        state.can_alloc(),
        handle.spec_id() == state.next_id,
        handle.spec_index() == state.alloc_index(),
    ensures
        handle.spec_id() != 0,
        handle.spec_index() != 0,
        !state.valid(handle),
        state.after_alloc().valid(handle),
        state.after_alloc().payload(handle) == Entity::zero(),
{
    if state.free.len() > 0 {
        assert(0 < state.free[0] < state.slots.len());
    }
    if state.valid(handle) {
        assert(state.slots[handle.spec_index() as int] is Occupied);
    }
}

/// An allocation changes nothing for the handles that were there: a valid
/// one stays valid, with its entity, and a spent one stays spent.
pub proof fn law_alloc_keeps_others(state: AllocatorState, other: Handle)
    requires
        state.inv(),
        state.can_alloc(),
    ensures
        state.valid(other) ==> state.after_alloc().valid(other) && state.after_alloc().payload(
            other,
        ) == state.payload(other),
        state.spent(other) ==> state.after_alloc().spent(other),
{
    if state.free.len() > 0 {
        assert(state.slots[state.free[0] as int] is Free);
    }
    if state.valid(other) {
        assert(state.slots[other.spec_index() as int] is Occupied);
    }
}

/// Freeing a valid handle makes it spent; freeing any other handle, one
/// already freed or one never handed out, changes nothing.
pub proof fn law_free_spends_handle(state: AllocatorState, handle: Handle)
    requires
        state.inv(),
    ensures
        state.valid(handle) ==> state.after_free(handle).spent(handle),
        !state.valid(handle) ==> state.after_free(handle) == state,
        !state.after_free(handle).valid(handle),
        !state.after_free(handle).after_free(handle).valid(handle),
        state.after_free(handle).after_free(handle) == state.after_free(handle),
{
    if state.valid(handle) {
        assert(state.slots[handle.spec_index() as int] is Occupied);
    }
}

/// Freeing one handle changes nothing for any other: a valid one stays
/// valid, with its entity, and a spent one stays spent.
pub proof fn law_free_keeps_others(state: AllocatorState, handle: Handle, other: Handle)
    requires
        state.inv(),
        other != handle,
    ensures
        state.valid(other) ==> state.after_free(handle).valid(other) && state.after_free(
            handle,
        ).payload(other) == state.payload(other),
        state.spent(other) ==> state.after_free(handle).spent(other),
{
    lemma_handle_eq(handle, other);
}

/// Whatever the caller does, the state stays well formed.
pub proof fn lemma_run_inv(state: AllocatorState, ops: Seq<Op>)
    requires
        state.inv(),
    ensures
        state.run(ops).inv(),
    decreases ops.len(),
{
    if ops.len() > 0 {
        lemma_step_inv(state, ops[0]);
        lemma_run_inv(state.step(ops[0]), ops.drop_first());
    }
}

/// One step keeps the state well formed.
pub proof fn lemma_step_inv(state: AllocatorState, op: Op)
    requires
        state.inv(),
    ensures
        state.step(op).inv(),
{
    match op {
        Op::Alloc => {
            if state.can_alloc() {
                lemma_alloc_inv(state);
            }
        },
        Op::Free(handle) => {
            lemma_free_inv(state, handle);
        },
    }
}

/// A valid handle stays valid, and keeps its entity, through every run of
/// allocations and frees in which it is not itself freed.
pub proof fn law_valid_until_freed(state: AllocatorState, handle: Handle, ops: Seq<Op>)
    requires
        state.inv(),
        state.valid(handle),
        forall|k: int| 0 <= k < ops.len() ==> ops[k] != Op::Free(handle),
    ensures
        state.run(ops).valid(handle),
        state.run(ops).payload(handle) == state.payload(handle),
    decreases ops.len(),
{
    if ops.len() > 0 {
        let next = state.step(ops[0]);
        lemma_step_inv(state, ops[0]);
        match ops[0] {
            Op::Alloc => {
                if state.can_alloc() {
                    law_alloc_keeps_others(state, handle);
                }
            },
            Op::Free(freed) => {
                law_free_keeps_others(state, freed, handle);
            },
        }
        assert forall|k: int| 0 <= k < ops.drop_first().len() implies ops.drop_first()[k]
            != Op::Free(handle) by {
            assert(ops.drop_first()[k] == ops[k + 1]);
        }
        law_valid_until_freed(next, handle, ops.drop_first());
    }
}

/// A spent handle stays spent through every run of allocations and frees:
/// a handle that was freed is never valid again, whoever reuses its slot.
pub proof fn law_spent_forever(state: AllocatorState, handle: Handle, ops: Seq<Op>)
    requires
        state.inv(),
        state.spent(handle),
    ensures
        state.run(ops).spent(handle),
    decreases ops.len(),
{
    if ops.len() > 0 {
        let next = state.step(ops[0]);
        lemma_step_inv(state, ops[0]);
        match ops[0] {
            Op::Alloc => {
                if state.can_alloc() {
                    law_alloc_keeps_others(state, handle);
                }
            },
            Op::Free(freed) => {
                if freed == handle {
                    law_free_spends_handle(state, handle);
                } else {
                    law_free_keeps_others(state, freed, handle);
                }
            },
        }
        law_spent_forever(next, handle, ops.drop_first());
    }
}

} // verus!
