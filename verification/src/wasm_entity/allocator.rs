//! The slot store behind the handles.
//!
//! Slots are never removed: a freed slot goes on a list that runs through
//! the free slots themselves, and the next allocation takes it from there
//! under a new generation id.

use vstd::prelude::*;
use crate::shared::Entity;
use crate::wasm_entity::model::lemma_alloc_inv;
use crate::wasm_entity::model::lemma_free_inv;
use crate::wasm_entity::model::lemma_entity_at_rank;
use crate::wasm_entity::model::lemma_rank_grows;
use crate::wasm_entity::model::lemma_rank_same;
use crate::wasm_entity::model::lemma_with_entities_inv;
use crate::wasm_entity::model::lemma_with_entity_inv;
use crate::wasm_entity::model::law_alloc_gives_valid_handle;
use crate::wasm_entity::model::AllocatorState;
use crate::wasm_entity::model::Slot;
use crate::wasm_entity::Handle;

verus! {

/// The first word of every block: the generation id of the entity that
/// occupies it, or zero when nothing does.
#[derive(Clone, Copy, PartialEq, Eq, Hash, Structural)]
pub struct BlockMetadata {
    pub id: u32,
}

impl BlockMetadata {
    /// The metadata of a block with the given id word.
    pub fn new(id: u32) -> (metadata: Self)
        ensures
            metadata.id == id,
    {
        Self { id }
    }
}

/// The first two words of a free block: a zero id, then the index of the
/// next free block, if there is one.
#[derive(Clone, Copy)]
pub struct FreeMetadata {
    _id: u32,
    next: Option<u32>,
}

impl FreeMetadata {
    /// The id word of a free block, which is always zero.
    pub closed spec fn spec_id(&self) -> u32 {
        self._id
    }

    /// The index of the next free block, if there is one.
    pub closed spec fn spec_next(&self) -> Option<u32> {
        self.next
    }

    /// The metadata of a free block that points at `next`.
    pub fn new(next: Option<u32>) -> (metadata: Self)
        requires
            next != Some(0u32),
        ensures
            metadata.spec_id() == 0,
            metadata.spec_next() == next,
    {
        Self { _id: 0u32, next }
    }

    #[verifier::when_used_as_spec(spec_next)]
    pub fn next(&self) -> (next: Option<u32>)
        ensures
            next == self.spec_next(),
    {
        self.next
    }
}

/// A block of which only the id word is known.
#[derive(Clone, Copy)]
pub struct UnknownBlock {
    metadata: BlockMetadata,
}

impl UnknownBlock {
    /// The id word of the block.
    pub closed spec fn spec_id(&self) -> u32 {
        self.metadata.id
    }

    /// A block with the given id word.
    pub fn new(id: u32) -> (block: Self)
        ensures
            block.spec_id() == id,
    {
        Self { metadata: BlockMetadata::new(id) }
    }
}

/// A block that holds an entity.
#[derive(Clone, Copy)]
pub struct OccupiedBlock {
    metadata: BlockMetadata,
    rest: Entity,
}

impl OccupiedBlock {
    /// The generation id of the entity.
    pub closed spec fn spec_id(&self) -> u32 {
        self.metadata.id
    }

    /// The entity.
    pub closed spec fn spec_entity(&self) -> Entity {
        self.rest
    }

    /// A block that holds a zeroed entity of generation `id`.
    pub fn new(id: u32) -> (block: Self)
        requires
            id != 0,
        ensures
            block.spec_id() == id,
            block.spec_entity() == Entity::zero(),
    {
        Self { metadata: BlockMetadata::new(id), rest: Entity::zeroed() }
    }

    /// The entity in the block.
    pub fn entity(&self) -> (entity: &Entity)
        ensures
            *entity == self.spec_entity(),
    {
        &self.rest
    }

    /// The entity in the block, to be changed in place.
    pub fn entity_mut(&mut self) -> (entity: &mut Entity)
        ensures
            *entity == old(self).spec_entity(),
            final(self).spec_id() == old(self).spec_id(),
            final(self).spec_entity() == *final(entity),
    {
        &mut self.rest
    }
}

/// A block on the free list.
#[derive(Clone, Copy)]
pub struct FreeBlock {
    metadata: FreeMetadata,
}

impl FreeBlock {
    /// The index of the next free block, if there is one.
    pub closed spec fn spec_next(&self) -> Option<u32> {
        self.metadata.spec_next()
    }

    /// The id word of the block, which is always zero.
    pub closed spec fn spec_id(&self) -> u32 {
        self.metadata.spec_id()
    }

    /// A free block that points at `next`.
    pub fn new(next: Option<u32>) -> (block: Self)
        requires
            next != Some(0u32),
        ensures
            block.spec_id() == 0,
            block.spec_next() == next,
    {
        Self { metadata: FreeMetadata::new(next) }
    }
}

/// One block of the store, in one of its three states.
#[derive(Clone, Copy)]
pub enum Block {
    Unknown(UnknownBlock),
    Occupied(OccupiedBlock),
    Free(FreeBlock),
}

impl Block {
    /// What the block holds.
    pub closed spec fn slot(&self) -> Slot {
        match *self {
            Block::Unknown(_) => Slot::Untouched,
            Block::Occupied(block) => Slot::Occupied {
                id: block.metadata.id,
                entity: block.rest,
            },
            Block::Free(_) => Slot::Free,
        }
    }

    /// `after` is this block with, at most, another entity in it.
    pub closed spec fn kept(&self, after: Block) -> bool {
        match *self {
            Block::Occupied(block) => after is Occupied && after->Occupied_0.metadata
                == block.metadata,
            _ => after == *self,
        }
    }

    /// The id word of the block is zero exactly if no entity is in it.
    pub closed spec fn id_word_ok(&self) -> bool {
        match *self {
            Block::Unknown(block) => block.metadata.id == 0,
            Block::Occupied(block) => block.metadata.id != 0,
            Block::Free(block) => block.metadata.spec_id() == 0,
        }
    }
}

/// The store of all entities.
pub struct Allocator {
    memory: Vec<Block>,
    free_head: Option<u32>,
    next_id: u32,
    free: Ghost<Seq<u32>>,
}

impl View for Allocator {
    type V = AllocatorState;

    closed spec fn view(&self) -> AllocatorState {
        self.state_with(self.memory@)
    }
}

impl Allocator {
    /// The state that this allocator would stand for if its blocks were
    /// `blocks`.
    spec fn state_with(&self, blocks: Seq<Block>) -> AllocatorState {
        AllocatorState {
            slots: Seq::new(blocks.len(), |i: int| blocks[i].slot()),
            free: self.free@,
            next_id: self.next_id,
        }
    }

    /// The `k`-th free block points at the one after it, and the last at
    /// none.
    spec fn linked(&self, k: int) -> bool {
        &&& self.memory@[self.free@[k] as int] is Free
        &&& self.memory@[self.free@[k] as int]->Free_0.metadata.spec_next() == if k + 1
            < self.free@.len() {
            Some(self.free@[k + 1])
        } else {
            None
        }
    }

    /// The blocks and the head of the free list stand for a state that an
    /// allocator can reach.
    pub closed spec fn wf(&self) -> bool {
        &&& self@.inv()
        &&& forall|i: int|
            0 <= i < self.memory@.len() ==> (#[trigger] self.memory@[i]).id_word_ok()
        &&& forall|k: int| 0 <= k < self.free@.len() ==> #[trigger] self.linked(k)
        &&& self.free_head == if self.free@.len() > 0 {
            Some(self.free@[0])
        } else {
            None
        }
    }

    /// `after` is this allocator with another entity in the occupied block
    /// `index`, and nothing else changed.
    spec fn entity_replaced(&self, after: Allocator, index: int) -> bool {
        &&& 0 <= index < self.memory@.len()
        &&& self.memory@[index] is Occupied
        &&& after.memory@.len() == self.memory@.len()
        &&& after.memory@[index] is Occupied
        &&& after.memory@[index]->Occupied_0.metadata.id
            == self.memory@[index]->Occupied_0.metadata.id
        &&& forall|i: int|
            0 <= i < self.memory@.len() && i != index ==> after.memory@[i] == self.memory@[i]
        &&& after.free_head == self.free_head
        &&& after.next_id == self.next_id
        &&& after.free@ == self.free@
    }

    /// Replacing an entity in place keeps the allocator well formed.
    proof fn lemma_entity_replaced(&self, after: Allocator, index: int)
        requires
            self.wf(),
            self.entity_replaced(after, index),
        ensures
            after.wf(),
            after@ == self@.with_entity(index, after.memory@[index]->Occupied_0.rest),
    {
        let entity = after.memory@[index]->Occupied_0.rest;
        lemma_with_entity_inv(self@, index, entity);
        assert(after@.slots =~= self@.with_entity(index, entity).slots);
        assert forall|i: int| 0 <= i < after.memory@.len() implies (
        #[trigger] after.memory@[i]).id_word_ok() by {
            assert(self.memory@[i].id_word_ok());
        }
        assert forall|k: int| 0 <= k < after.free@.len() implies #[trigger] after.linked(k) by {
            assert(self.linked(k));
            assert(self@.slots[self@.free[k] as int] is Free);
        }
    }

    /// `after` is this allocator with other entities in its occupied
    /// blocks, and nothing else changed.
    spec fn entities_replaced(&self, after: Allocator) -> bool {
        &&& after.memory@.len() == self.memory@.len()
        &&& forall|i: int|
            0 <= i < self.memory@.len() ==> (#[trigger] self.memory@[i]).kept(after.memory@[i])
        &&& after.free_head == self.free_head
        &&& after.next_id == self.next_id
        &&& after.free@ == self.free@
    }

    /// Replacing entities in place keeps the allocator well formed.
    proof fn lemma_entities_replaced(&self, after: Allocator)
        requires
            self.wf(),
            self.entities_replaced(after),
        ensures
            after.wf(),
            after@.entities().len() == self@.entities().len(),
            after@ == self@.with_entities(after@.entities()),
            after@ == self.state_with(after.memory@),
    {
        let count = self.memory@.len() as int;
        assert forall|i: int| 0 <= i < count implies (self@.slots[i] is Occupied
            <==> after@.slots[i] is Occupied) && self@.stored_id(i) == after@.stored_id(i) by {
            assert(self.memory@[i].kept(after.memory@[i]));
        }
        lemma_rank_same(self@, after@, count);
        lemma_with_entities_inv(self@, after@.entities());
        let replaced = self@.with_entities(after@.entities());
        assert forall|i: int| 0 <= i < count implies replaced.slots[i] == after@.slots[i] by {
            assert(self.memory@[i].kept(after.memory@[i]));
            if self@.slots[i] is Occupied {
                lemma_rank_same(self@, after@, i);
                lemma_entity_at_rank(after@, i, count);
            }
        }
        assert(replaced.slots =~= after@.slots);
        assert forall|i: int| 0 <= i < after.memory@.len() implies (
        #[trigger] after.memory@[i]).id_word_ok() by {
            assert(self.memory@[i].kept(after.memory@[i]));
            assert(self.memory@[i].id_word_ok());
        }
        assert forall|k: int| 0 <= k < after.free@.len() implies #[trigger] after.linked(k) by {
            assert(self.linked(k));
            assert(self.memory@[self.free@[k] as int].kept(after.memory@[self.free@[k] as int]));
        }
    }

    /// Whatever borrowers of the entities leave in them, the allocator
    /// stays well formed.
    proof fn lemma_entities_lent(&self)
        requires
            self.wf(),
        ensures
            forall|after: Allocator| self.entities_replaced(after) ==> #[trigger] after.wf(),
            forall|after: Allocator|
                self.entities_replaced(after) ==> (#[trigger] after@) == self@.with_entities(
                    self.state_with(after.memory@).entities(),
                ),
    {
        assert forall|after: Allocator| self.entities_replaced(after) implies #[trigger]
            after.wf() by {
            self.lemma_entities_replaced(after);
        }
        assert forall|after: Allocator| self.entities_replaced(after) implies (
        #[trigger] after@) == self@.with_entities(self.state_with(after.memory@).entities()) by {
            self.lemma_entities_replaced(after);
        }
    }

    /// The occupied slot that has `k` occupied slots before it.
    proof fn lemma_slot_of_rank(&self, k: int) -> (index: int)
        requires
            0 <= k < self@.entities().len(),
        ensures
            0 <= index < self.memory@.len(),
            self.memory@[index] is Occupied,
            self@.slots[index] is Occupied,
            self@.rank(index) == k,
    {
        crate::wasm_entity::model::lemma_slot_of_rank(self@, k, self@.slots.len() as int)
    }

    /// `after` holds what this allocator holds.
    spec fn unchanged(&self, after: Allocator) -> bool {
        &&& after.memory@.len() == self.memory@.len()
        &&& forall|i: int| 0 <= i < self.memory@.len() ==> after.memory@[i] == self.memory@[i]
        &&& after.free_head == self.free_head
        &&& after.next_id == self.next_id
        &&& after.free@ == self.free@
    }

    /// An allocator in which nothing changed is as well formed as before.
    proof fn lemma_unchanged(&self, after: Allocator)
        requires
            self.wf(),
            self.unchanged(after),
        ensures
            after.wf(),
            after@ == self@,
    {
        assert(after@.slots =~= self@.slots);
        assert forall|k: int| 0 <= k < after.free@.len() implies #[trigger] after.linked(k) by {
            assert(self.linked(k));
        }
    }

    /// Whatever a borrower of the block `index` leaves in it, short of
    /// changing its id, the allocator stays well formed.
    proof fn lemma_block_lent(&self, index: int)
        requires
            self.wf(),
        ensures
            forall|after: Allocator|
                self.entity_replaced(after, index) ==> #[trigger] after.wf(),
            forall|after: Allocator|
                self.entity_replaced(after, index) ==> (#[trigger] after@) == self@.with_entity(
                    index,
                    after.memory@[index]->Occupied_0.rest,
                ),
            forall|after: Allocator| self.unchanged(after) ==> #[trigger] after.wf(),
            forall|after: Allocator| self.unchanged(after) ==> (#[trigger] after@) == self@,
    {
        assert forall|after: Allocator| self.entity_replaced(after, index) implies #[trigger]
            after.wf() by {
            self.lemma_entity_replaced(after, index);
        }
        assert forall|after: Allocator| self.entity_replaced(after, index) implies (
        #[trigger] after@) == self@.with_entity(index, after.memory@[index]->Occupied_0.rest) by {
            self.lemma_entity_replaced(after, index);
        }
        assert forall|after: Allocator| self.unchanged(after) implies #[trigger] after.wf() by {
            self.lemma_unchanged(after);
        }
        assert forall|after: Allocator| self.unchanged(after) implies (#[trigger] after@)
            == self@ by {
            self.lemma_unchanged(after);
        }
    }

    /// What holds of every well-formed allocator's state.
    pub proof fn lemma_wf_inv(&self)
        requires
            self.wf(),
        ensures
            self@.inv(),
    {
    }

    /// An allocator with no entity in it.
    pub fn new() -> (allocator: Self)
        ensures
            allocator.wf(),
            allocator@ == AllocatorState::initial(),
    {
        let mut memory: Vec<Block> = Vec::new();
        memory.push(Block::Unknown(UnknownBlock::new(0)));
        let allocator = Self { memory, free_head: None, next_id: 1, free: Ghost(Seq::empty()) };
        assert(allocator@.slots =~= AllocatorState::initial().slots);
        allocator
    }

    /// Whether an id is left for another allocation.
    pub fn can_alloc(&self) -> (possible: bool)
        ensures
            possible == self@.can_alloc(),
    {
        self.next_id < u32::MAX
    }

    /// The number of slots, the reserved slot 0 among them.
    pub fn slot_count(&self) -> (count: usize)
        ensures
            count == self@.slots.len(),
    {
        self.memory.len()
    }

    /// The entity that `handle` names, if it names one.
    pub fn entity(&self, handle: Handle) -> (entity: Option<&Entity>)
        requires
            self.wf(),
        ensures
            entity is Some <==> self@.valid(handle),
            entity is Some ==> *entity->0 == self@.payload(handle),
    {
        match self.get_occupied_block(handle) {
            Some(block) => Some(block.entity()),
            None => None,
        }
    }

    /// The entity that `handle` names, if it names one, to be changed in
    /// place.
    pub fn entity_mut(&mut self, handle: Handle) -> (entity: Option<&mut Entity>)
        requires
            old(self).wf(),
        ensures
            entity is Some <==> old(self)@.valid(handle),
            final(self).wf(),
            entity is None ==> final(self)@ == old(self)@,
            entity is Some ==> *entity->0 == old(self)@.payload(handle),
            entity is Some ==> final(self)@ == old(self)@.with_payload(handle, *final(entity->0)),
    {
        match self.get_occupied_block_mut(handle) {
            Some(block) => Some(block.entity_mut()),
            None => None,
        }
    }

    /// The entities of all occupied slots, by slot index.
    pub fn entities(&self) -> (all: Vec<&Entity>)
        requires
            self.wf(),
        ensures
            all@.len() == self@.entities().len(),
            forall|i: int| 0 <= i < all@.len() ==> *all@[i] == self@.entities()[i],
    {
        let mut all: Vec<&Entity> = Vec::new();
        let mut at: usize = 1;
        assert(self@.entities_upto(1) =~= Seq::empty()) by {
            assert(self@.entities_upto(0) =~= Seq::empty());
        }
        while at < self.memory.len()
            invariant
                1 <= at <= self.memory@.len(),
                self.wf(),
                all@.len() == self@.entities_upto(at as int).len(),
                forall|i: int|
                    0 <= i < all@.len() ==> *all@[i] == self@.entities_upto(at as int)[i],
            decreases self.memory@.len() - at,
        {
            match &self.memory[at] {
                Block::Occupied(block) => {
                    if block.metadata.id > 0 {
                        all.push(block.entity());
                    }
                },
                _ => {},
            }
            at = at + 1;
        }
        all
    }

    /// The entities of all occupied slots, by slot index, to be changed in
    /// place. What the references hold when they are given up is what the
    /// occupied slots then hold; nothing else changes.
    pub fn entities_mut(&mut self) -> (all: Vec<&mut Entity>)
        requires
            old(self).wf(),
        ensures
            all@.len() == old(self)@.entities().len(),
            forall|k: int| 0 <= k < all@.len() ==> *all@[k] == old(self)@.entities()[k],
            final(self).wf(),
            final(self)@ == old(self)@.with_entities(final(self)@.entities()),
            final(self)@.entities().len() == all@.len(),
            forall|k: int| 0 <= k < all@.len() ==> final(self)@.entities()[k] == *final(all@[k]),
    {
        let ghost before = *self;
        proof {
            before.lemma_entities_lent();
        }
        let mut all: Vec<&mut Entity> = Vec::new();
        let blocks = self.memory.as_mut_slice();
        let ghost fin: Seq<Block> = final(blocks)@;
        let ghost mut done: int = 0;
        let mut rest: &mut [Block] = blocks;
        proof {
            assert(fin.skip(0) =~= fin);
        }
        while rest.len() > 0
            invariant
                0 <= done <= fin.len(),
                done + rest@.len() == before.memory@.len(),
                forall|i: int| 0 <= i < rest@.len() ==> rest@[i] == before.memory@[done + i],
                all@.len() == before@.rank(done),
                forall|k: int| 0 <= k < all@.len() ==> *all@[k] == before@.entities_upto(done)[k],
                fin.skip(done) == final(rest)@,
                forall|i: int| 0 <= i < done ==> (#[trigger] before.memory@[i]).kept(fin[i]),
                forall|i: int|
                    0 <= i < done && (#[trigger] before.memory@[i]) is Occupied
                        ==> fin[i]->Occupied_0.rest == *final(all@[before@.rank(i)]),
            decreases rest@.len(),
        {
            let current = rest;
            let (head, tail) = current.split_at_mut(1);
            proof {
                lemma_rank_grows(before@, done, done + 1);
            }
            match head.first_mut() {
                Some(block) => {
                    let ghost last = *final(block);
                    match block {
                        Block::Occupied(occupied) => {
                            all.push(occupied.entity_mut());
                        },
                        _ => {},
                    }
                    proof {
                        let joined = seq![last] + final(tail)@;
                        assert(fin.skip(done) =~= joined);
                        assert(fin.skip(done).len() == joined.len());
                        assert(fin[done] == fin.skip(done)[0]);
                        assert(fin.skip(done + 1) =~= fin.skip(done).skip(1));
                        assert(joined.skip(1) =~= final(tail)@);
                    }
                },
                None => {},
            }
            rest = tail;
            proof {
                assert forall|i: int| 0 <= i < done && (#[trigger] before.memory@[i])
                    is Occupied implies fin[i]->Occupied_0.rest == *final(all@[before@.rank(i)]) by {
                    lemma_rank_grows(before@, i + 1, done);
                }
                done = done + 1;
            }
        }
        proof {
            assert(fin.skip(done) =~= Seq::<Block>::empty());
            assert(fin.len() == before.memory@.len());
            let state = before.state_with(fin);
            assert forall|i: int| 0 <= i < fin.len() implies (state.slots[i] is Occupied
                <==> before@.slots[i] is Occupied) by {
                assert(before.memory@[i].kept(fin[i]));
            }
            lemma_rank_same(state, before@, fin.len() as int);
            assert forall|k: int| 0 <= k < all@.len() implies state.entities()[k] == *final(all@[k]) by {
                let i = before.lemma_slot_of_rank(k);
                assert(before.memory@[i].kept(fin[i]));
                lemma_rank_same(state, before@, i);
                lemma_entity_at_rank(state, i, fin.len() as int);
            }
        }
        all
    }

    /// Takes a slot for a new, zeroed entity and gives it the next
    /// generation id: the slot freed last if one is free, a new slot at the
    /// end otherwise.
    pub fn allocate(&mut self) -> (handle: Handle)
        requires
            old(self).wf(),
            old(self)@.can_alloc(),
        ensures
            final(self).wf(),
            final(self)@ == old(self)@.after_alloc(),
            handle.spec_id() == old(self)@.next_id,
            handle.spec_index() == old(self)@.alloc_index(),
            handle.spec_id() != 0,
            handle.spec_index() != 0,
            !old(self)@.valid(handle),
            final(self)@.valid(handle),
            final(self)@.payload(handle) == Entity::zero(),
    {
        let ghost before = *self;
        proof {
            lemma_alloc_inv(before@);
        }
        let idx = self.pop_free();
        let id: u32 = self.next_id;
        self.next_id = self.next_id + 1;
        let block = Block::Occupied(OccupiedBlock::new(id));
        let handle = match idx {
            Some(idx) => {
                self.memory[idx as usize] = block;
                Handle::new(id, idx)
            },
            None => {
                let idx: u32 = self.memory.len() as u32;
                self.memory.push(block);
                Handle::new(id, idx)
            },
        };
        proof {
            let after = before@.after_alloc();
            assert(self@.slots =~= after.slots);
            assert(self@.free =~= after.free);
            assert forall|i: int| 0 <= i < self.memory@.len() implies (
            #[trigger] self.memory@[i]).id_word_ok() by {
                if i < before.memory@.len() && i != handle.spec_index() {
                    assert(before.memory@[i].id_word_ok());
                }
            }
            assert forall|k: int| 0 <= k < self.free@.len() implies #[trigger] self.linked(k) by {
                if before.free@.len() > 0 {
                    assert(before.linked(k + 1));
                    assert(before.free@[k + 1] != before.free@[0]);
                } else {
                    assert(before.linked(k));
                }
            }
            law_alloc_gives_valid_handle(before@, handle);
        }
        handle
    }

    /// Frees the slot that `handle` names, if it names one, and puts it at
    /// the head of the free list. Any other handle is refused and nothing
    /// changes.
    pub fn free(&mut self, handle: Handle) -> (freed: bool)
        requires
            old(self).wf(),
        ensures
            final(self).wf(),
            freed == old(self)@.valid(handle),
            final(self)@ == old(self)@.after_free(handle),
            !freed ==> final(self)@ == old(self)@,
            !final(self)@.valid(handle),
    {
        let ghost before = *self;
        proof {
            lemma_free_inv(before@, handle);
        }
        if self.get_occupied_block(handle).is_some() {
            let index: u32 = handle.index();
            assert(self.free_head != Some(0u32)) by {
                if self.free@.len() > 0 {
                    assert(0 < self.free@[0]);
                }
            }
            let free_block = Block::Free(FreeBlock::new(self.free_head));
            self.memory[index as usize] = free_block;
            self.free_head = Some(index);
            self.free = Ghost(seq![index] + self.free@);
            proof {
                let after = before@.after_free(handle);
                assert(self@.slots =~= after.slots);
                assert(self@.free =~= after.free);
                assert forall|i: int| 0 <= i < self.memory@.len() implies (
            #[trigger] self.memory@[i]).id_word_ok() by {
                    if i != index {
                        assert(before.memory@[i].id_word_ok());
                    }
                }
                assert(!before.free@.contains(index)) by {
                    if before.free@.contains(index) {
                        let k = choose|k: int|
                            0 <= k < before.free@.len() && before.free@[k] == index;
                        assert(before@.slots[before@.free[k] as int] is Free);
                    }
                }
                assert forall|k: int| 0 <= k < self.free@.len() implies #[trigger] self.linked(
                    k,
                ) by {
                    if k > 0 {
                        assert(before.linked(k - 1));
                        assert(self.free@[k] == before.free@[k - 1]);
                        assert(before.free@.contains(before.free@[k - 1]));
                        if k + 1 < self.free@.len() {
                            assert(self.free@[k + 1] == before.free@[k]);
                        }
                    } else {
                        if self.free@.len() > 1 {
                            assert(self.free@[1] == before.free@[0]);
                        }
                    }
                }
            }
            true
        } else {
            false
        }
    }

    /// Takes the head off the free list, if there is one. The block that
    /// it names is still marked free when this returns.
    fn pop_free(&mut self) -> (head: Option<u32>)
        requires
            old(self).wf(),
        ensures
            final(self).memory@ == old(self).memory@,
            final(self).next_id == old(self).next_id,
            old(self).free@.len() == 0 ==> head is None && final(self).free@ == old(self).free@
                && final(self).free_head is None,
            old(self).free@.len() > 0 ==> head == Some(old(self).free@[0]) && final(self).free@
                == old(self).free@.drop_first() && final(self).free_head == if old(self).free@.len()
                > 1 {
                Some(old(self).free@[1])
            } else {
                None
            },
    {
        match self.free_head {
            Some(idx) => {
                assert(self.linked(0));
                assert(0 < self.free@[0] < self.memory@.len());
                match &self.memory[idx as usize] {
                    Block::Free(block) => {
                        let new_idx = block.metadata.next();
                        self.free_head = new_idx;
                        self.free = Ghost(self.free@.drop_first());
                        Some(idx)
                    },
                    _ => None,
                }
            },
            None => None,
        }
    }

    fn get_occupied_block(&self, handle: Handle) -> (block: Option<&OccupiedBlock>)
        requires
            self.wf(),
        ensures
            block is Some <==> self@.valid(handle),
            block is Some ==> block->0.spec_id() == handle.spec_id() && block->0.spec_entity()
                == self@.payload(handle),
    {
        let id: u32 = handle.id();
        let index: u32 = handle.index();
        if id == 0 || index == 0 {
            return None;
        }
        let at: usize = index as usize;
        if at >= self.memory.len() {
            return None;
        }
        assert(self.memory@[at as int].id_word_ok());
        match &self.memory[at] {
            Block::Occupied(block) => {
                if block.metadata.id == id {
                    Some(block)
                } else {
                    None
                }
            },
            _ => None,
        }
    }

    fn get_occupied_block_mut(&mut self, handle: Handle) -> (block: Option<&mut OccupiedBlock>)
        requires
            old(self).wf(),
        ensures
            block is Some <==> old(self)@.valid(handle),
            block is None ==> final(self).wf() && final(self)@ == old(self)@,
            block is Some ==> block->0.spec_id() == handle.spec_id() && block->0.spec_entity()
                == old(self)@.payload(handle),
            block is Some && final(block->0).spec_id() == handle.spec_id() ==> final(self).wf()
                && final(self)@ == old(self)@.with_payload(
                handle,
                final(block->0).spec_entity(),
            ),
    {
        let id: u32 = handle.id();
        let index: u32 = handle.index();
        if id == 0 || index == 0 {
            return None;
        }
        let at: usize = index as usize;
        if at >= self.memory.len() {
            return None;
        }
        let ghost before = *self;
        assert(self.memory@[at as int].id_word_ok());
        proof {
            before.lemma_block_lent(at as int);
        }
        match &mut self.memory[at] {
            Block::Occupied(block) => {
                if block.metadata.id == id {
                    Some(block)
                } else {
                    None
                }
            },
            _ => None,
        }
    }
}

impl Default for Allocator {
    fn default() -> (allocator: Self)
        ensures
            allocator.wf(),
            allocator@ == AllocatorState::initial(),
    {
        Allocator::new()
    }
}

} // verus!
