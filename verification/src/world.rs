//! The world that a guest sees: its entities, reached by handle and copied
//! to and from the guest's own memory.

use vstd::prelude::*;
use crate::shared::Entity;
use crate::shared::ENTITY_BYTES;
use crate::wasm_entity::allocator::Allocator;
use crate::wasm_entity::model::AllocatorState;
use crate::wasm_entity::Handle;

verus! {

/// The entities of one guest.
pub struct WasmWorld {
    allocator: Allocator,
}

impl View for WasmWorld {
    type V = AllocatorState;

    closed spec fn view(&self) -> AllocatorState {
        self.allocator@
    }
}

impl WasmWorld {
    /// The world's allocator is well formed.
    pub closed spec fn wf(&self) -> bool {
        self.allocator.wf()
    }

    /// What holds of every well-formed world's state.
    pub proof fn lemma_wf_inv(&self)
        requires
            self.wf(),
        ensures
            self@.inv(),
    {
        self.allocator.lemma_wf_inv();
    }

    /// A world with no entity in it.
    pub fn new() -> (world: Self)
        ensures
            world.wf(),
            world@ == AllocatorState::initial(),
    {
        Self { allocator: Allocator::new() }
    }

    /// Whether another entity can be created.
    pub fn can_create(&self) -> (possible: bool)
        ensures
            possible == self@.can_alloc(),
    {
        self.allocator.can_alloc()
    }

    /// Creates a zeroed entity.
    pub fn create_entity(&mut self) -> (handle: Handle)
        requires
            old(self).wf(),
            old(self)@.can_alloc(),
        ensures
            final(self).wf(),
            final(self)@ == old(self)@.after_alloc(),
            handle.spec_id() == old(self)@.next_id,
            handle.spec_index() == old(self)@.alloc_index(),
            handle.spec_id() != 0,
            handle.spec_index() != 0,
            !old(self)@.valid(handle),
            final(self)@.valid(handle),
            final(self)@.payload(handle) == Entity::zero(),
    {
        self.allocator.allocate()
    }

    /// Removes the entity that `handle` names. A handle that names none
    /// is refused and nothing changes.
    pub fn remove_entity(&mut self, handle: Handle) -> (removed: bool)
        requires
            old(self).wf(),
        ensures
            final(self).wf(),
            removed == old(self)@.valid(handle),
            final(self)@ == old(self)@.after_free(handle),
            !final(self)@.valid(handle),
    {
        self.allocator.free(handle)
    }

    /// The entities, by slot index.
    pub fn entities(&self) -> (all: Vec<&Entity>)
        requires
            self.wf(),
        ensures
            all@.len() == self@.entities().len(),
            forall|i: int| 0 <= i < all@.len() ==> *all@[i] == self@.entities()[i],
    {
        self.allocator.entities()
    }

    /// Copies the entity that `handle` names out to the guest: its wire
    /// image fills `guest_memory`. For a handle that names none, nothing is
    /// written.
    pub fn write_entity_to_guest(&self, handle: Handle, guest_memory: &mut [u8]) -> (written: bool)
        requires
            self.wf(),
            self@.valid(handle) ==> old(guest_memory)@.len() == ENTITY_BYTES,
        ensures
            written == self@.valid(handle),
            written ==> final(guest_memory)@ == self@.payload(handle).wire_bytes(),
            !written ==> final(guest_memory)@ == old(guest_memory)@,
    {
        match self.allocator.entity(handle) {
            Some(entity) => {
                entity.write_wire(guest_memory);
                assert(guest_memory@ =~= guest_memory@.subrange(0, ENTITY_BYTES as int));
                true
            },
            None => false,
        }
    }

    /// Replaces the entity that `handle` names by the one whose wire image
    /// is `guest_memory`. For a handle that names none, nothing changes.
    pub fn read_entity_from_guest(&mut self, handle: Handle, guest_memory: &[u8]) -> (read: bool)
        requires
            old(self).wf(),
            old(self)@.valid(handle) ==> guest_memory@.len() == ENTITY_BYTES,
        ensures
            final(self).wf(),
            read == old(self)@.valid(handle),
            read ==> final(self)@ == old(self)@.with_payload(
                handle,
                Entity::of_wire(guest_memory@),
            ),
            read ==> final(self)@.valid(handle) && final(self)@.payload(handle).wire_bytes()
                == guest_memory@,
            !read ==> final(self)@ == old(self)@,
    {
        proof {
            self.allocator.lemma_wf_inv();
            if self@.valid(handle) {
                crate::wasm_entity::model::lemma_with_payload_inv(
                    self@,
                    handle,
                    Entity::of_wire(guest_memory@),
                );
                Entity::lemma_wire_bytes_of(guest_memory@);
            }
        }
        match self.allocator.entity_mut(handle) {
            Some(entity) => {
                assert(guest_memory@ =~= guest_memory@.subrange(0, ENTITY_BYTES as int));
                *entity = Entity::read_wire(guest_memory);
                true
            },
            None => false,
        }
    }
}

impl Default for WasmWorld {
    fn default() -> (world: Self)
        ensures
            world.wf(),
            world@ == AllocatorState::initial(),
    {
        WasmWorld::new()
    }
}

} // verus!
