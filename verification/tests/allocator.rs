use pipe_cleaner::shared::Entity;
use pipe_cleaner::wasm_entity::allocator::Allocator;
use pipe_cleaner::wasm_entity::allocator::BlockMetadata;
use pipe_cleaner::wasm_entity::allocator::FreeBlock;
use pipe_cleaner::wasm_entity::allocator::FreeMetadata;
use pipe_cleaner::wasm_entity::allocator::OccupiedBlock;
use pipe_cleaner::wasm_entity::allocator::UnknownBlock;
use pipe_cleaner::wasm_entity::Handle;

#[test]
fn first_handle_is_id_one_in_slot_one() {
    let mut a = Allocator::default();
    assert_eq!(a.slot_count(), 1);
    let h = a.allocate();
    assert_eq!((h.id(), h.index()), (1, 1));
    assert_eq!(a.slot_count(), 2);
}

#[test]
fn freed_slot_is_reused_under_a_new_id() {
    let mut a = Allocator::new();
    let h1 = a.allocate();
    assert_eq!((h1.id(), h1.index()), (1, 1));
    assert!(a.free(h1));
    let h2 = a.allocate();
    assert_eq!((h2.id(), h2.index()), (2, 1));
    assert!(a.entity(h1).is_none());
    assert!(a.entity(h2).is_some());
    assert_eq!(a.slot_count(), 2);
}

#[test]
fn handle_is_valid_until_freed_and_never_after() {
    let mut a = Allocator::new();
    let h1 = a.allocate();
    let h2 = a.allocate();
    let h3 = a.allocate();
    assert!(a.entity(h1).is_some());
    assert!(a.entity(h2).is_some());
    assert!(a.entity(h3).is_some());
    assert!(a.free(h2));
    assert!(a.entity(h1).is_some());
    assert!(a.entity(h2).is_none());
    assert!(a.entity(h3).is_some());
    let mut later = Vec::new();
    for _ in 0..50 {
        let h = a.allocate();
        assert!(a.entity(h).is_some());
        assert!(a.entity(h2).is_none());
        later.push(h);
    }
    for h in later {
        assert!(a.free(h));
        assert!(a.entity(h).is_none());
        assert!(a.entity(h2).is_none());
    }
    assert!(a.entity(h1).is_some());
    assert!(a.entity(h3).is_some());
}

#[test]
fn free_list_is_last_in_first_out() {
    let mut a = Allocator::new();
    let h1 = a.allocate();
    let h2 = a.allocate();
    let h3 = a.allocate();
    assert_eq!((h1.index(), h2.index(), h3.index()), (1, 2, 3));
    assert!(a.free(h1));
    assert!(a.free(h3));
    assert!(a.free(h2));
    let again: Vec<(u32, u32)> = (0..4)
        .map(|_| {
            let h = a.allocate();
            (h.id(), h.index())
        })
        .collect();
    assert_eq!(again, vec![(4, 2), (5, 3), (6, 1), (7, 4)]);
}

#[test]
fn freeing_twice_fails_and_changes_nothing() {
    let mut a = Allocator::new();
    let h1 = a.allocate();
    let h2 = a.allocate();
    assert!(a.free(h1));
    assert!(!a.free(h1));
    assert!(!a.free(h1));
    assert_eq!(a.slot_count(), 3);
    assert!(a.entity(h2).is_some());
    let h3 = a.allocate();
    assert_eq!((h3.id(), h3.index()), (3, 1));
    let h4 = a.allocate();
    assert_eq!((h4.id(), h4.index()), (4, 3));
}

#[test]
fn freeing_a_forged_handle_fails_and_changes_nothing() {
    let mut a = Allocator::new();
    let h1 = a.allocate();
    a.entity_mut(h1).unwrap().engine_fields.model = 9;
    assert!(!a.free(Handle::new(2, 1)));
    assert!(!a.free(Handle::new(1, 2)));
    assert!(!a.free(Handle::new(1, 700)));
    assert!(!a.free(Handle::new(u32::MAX, u32::MAX)));
    assert_eq!(a.slot_count(), 2);
    assert_eq!(a.entity(h1).unwrap().engine_fields.model, 9);
    let h2 = a.allocate();
    assert_eq!((h2.id(), h2.index()), (2, 2));
}

#[test]
fn new_entity_is_zeroed() {
    let mut a = Allocator::new();
    let h = a.allocate();
    assert_eq!(*a.entity(h).unwrap(), Entity::zeroed());
    assert_eq!(a.entity(h).unwrap().game_fields, [0u8; 76]);
    assert_eq!(a.entity(h).unwrap().engine_fields.color, [0u32; 3]);
}

#[test]
fn reused_slot_holds_a_zeroed_entity_again() {
    let mut a = Allocator::new();
    let h1 = a.allocate();
    a.entity_mut(h1).unwrap().engine_fields.max_speed = 0x3f80_0000;
    a.entity_mut(h1).unwrap().game_fields[75] = 0xaa;
    assert!(a.free(h1));
    let h2 = a.allocate();
    assert_eq!(h2.index(), h1.index());
    assert_eq!(*a.entity(h2).unwrap(), Entity::zeroed());
}

#[test]
fn no_handle_has_a_zero_half() {
    let mut a = Allocator::new();
    let mut live = Vec::new();
    for round in 0..200u32 {
        let h = a.allocate();
        assert_ne!(h.id(), 0);
        assert_ne!(h.index(), 0);
        assert_eq!(h.id(), round + 1);
        assert_eq!(Handle::from_bits(h.bits()), Some(h));
        if round % 3 == 0 {
            assert!(a.free(h));
        } else {
            live.push(h);
        }
    }
    for h in live {
        assert!(a.entity(h).is_some());
    }
}

#[test]
fn entity_mut_changes_only_the_named_entity() {
    let mut a = Allocator::new();
    let h1 = a.allocate();
    let h2 = a.allocate();
    a.entity_mut(h2).unwrap().engine_fields.position.angle = 77;
    assert_eq!(a.entity(h2).unwrap().engine_fields.position.angle, 77);
    assert_eq!(*a.entity(h1).unwrap(), Entity::zeroed());
    assert!(a.entity_mut(Handle::new(9, 1)).is_none());
    assert!(a.entity_mut(Handle::new(1, 9)).is_none());
}

#[test]
fn entities_lists_occupied_slots_by_index() {
    let mut a = Allocator::new();
    assert!(a.entities().is_empty());
    let h1 = a.allocate();
    let h2 = a.allocate();
    let h3 = a.allocate();
    a.entity_mut(h1).unwrap().engine_fields.model = 10;
    a.entity_mut(h2).unwrap().engine_fields.model = 20;
    a.entity_mut(h3).unwrap().engine_fields.model = 30;
    let models: Vec<u32> = a.entities().iter().map(|e| e.engine_fields.model).collect();
    assert_eq!(models, vec![10, 20, 30]);
    assert!(a.free(h2));
    let models: Vec<u32> = a.entities().iter().map(|e| e.engine_fields.model).collect();
    assert_eq!(models, vec![10, 30]);
    let models: Vec<u32> = a.entities().iter().map(|e| e.engine_fields.model).collect();
    assert_eq!(models, vec![10, 30]);
}

#[test]
fn entities_mut_reaches_occupied_slots_only() {
    let mut a = Allocator::new();
    assert!(a.entities_mut().is_empty());
    let h1 = a.allocate();
    let h2 = a.allocate();
    let h3 = a.allocate();
    assert!(a.free(h2));
    let mut place: u32 = 0;
    for entity in a.entities_mut() {
        place += 1;
        assert_eq!(*entity, Entity::zeroed());
        entity.engine_fields.model = place * 100;
        entity.game_fields[0] = place as u8;
    }
    assert_eq!(place, 2);
    assert_eq!(a.entity(h1).unwrap().engine_fields.model, 100);
    assert_eq!(a.entity(h3).unwrap().engine_fields.model, 200);
    assert_eq!(a.entity(h3).unwrap().game_fields[0], 2);
    assert!(a.entity(h2).is_none());
    let h4 = a.allocate();
    assert_eq!((h4.id(), h4.index()), (4, 2));
    assert_eq!(*a.entity(h4).unwrap(), Entity::zeroed());
    let models: Vec<u32> = a.entities_mut().iter().map(|e| e.engine_fields.model).collect();
    assert_eq!(models, vec![100, 0, 200]);
}

#[test]
fn can_alloc_on_a_new_allocator() {
    let a = Allocator::new();
    assert!(a.can_alloc());
}

#[test]
fn block_constructors() {
    assert_eq!(BlockMetadata::new(5).id, 5);
    assert_eq!(FreeMetadata::new(Some(3)).next(), Some(3));
    assert_eq!(FreeMetadata::new(None).next(), None);
    let mut block = OccupiedBlock::new(4);
    assert_eq!(*block.entity(), Entity::zeroed());
    block.entity_mut().engine_fields.model = 2;
    assert_eq!(block.entity().engine_fields.model, 2);
    let _ = UnknownBlock::new(0);
    let _ = FreeBlock::new(Some(1));
}

#[test]
fn long_run_agrees_with_a_table_of_live_handles() {
    let mut a = Allocator::new();
    let mut live: Vec<(Handle, u32)> = Vec::new();
    let mut dead: Vec<Handle> = Vec::new();
    let mut free_stack: Vec<u32> = Vec::new();
    let mut slots: u32 = 1;
    let mut next_id: u32 = 1;
    let mut seed: u32 = 0x2545_f491;
    for step in 0..4000u32 {
        seed = seed.wrapping_mul(1_664_525).wrapping_add(1_013_904_223);
        let choice = (seed >> 16) % 5;
        if choice < 3 || live.is_empty() {
            let expected_index = match free_stack.pop() {
                Some(index) => index,
                None => {
                    slots += 1;
                    slots - 1
                }
            };
            let h = a.allocate();
            assert_eq!((h.id(), h.index()), (next_id, expected_index));
            next_id += 1;
            assert_eq!(*a.entity(h).unwrap(), Entity::zeroed());
            a.entity_mut(h).unwrap().engine_fields.model = step;
            live.push((h, step));
        } else if choice == 3 {
            let at = (seed as usize >> 8) % live.len();
            let (h, _) = live.swap_remove(at);
            assert!(a.free(h));
            free_stack.push(h.index());
            dead.push(h);
        } else if !dead.is_empty() {
            let at = (seed as usize >> 8) % dead.len();
            assert!(!a.free(dead[at]));
        }
        assert_eq!(a.slot_count(), slots as usize);
        assert_eq!(a.entities().len(), live.len());
        if step % 64 == 0 {
            for (h, model) in live.iter() {
                assert_eq!(a.entity(*h).unwrap().engine_fields.model, *model);
            }
            for h in dead.iter() {
                assert!(a.entity(*h).is_none());
            }
        }
    }
}
