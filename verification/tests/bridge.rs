use pipe_cleaner::shared::word_from_le;
use pipe_cleaner::shared::word_to_le;
use pipe_cleaner::shared::EngineFields;
use pipe_cleaner::shared::Entity;
use pipe_cleaner::shared::PipePosition;
use pipe_cleaner::shared::ENGINE_BYTES;
use pipe_cleaner::shared::ENGINE_FIELDS_SZ;
use pipe_cleaner::shared::ENTITY_BYTES;
use pipe_cleaner::shared::ENTITY_SZ;
use pipe_cleaner::shared::FIELD_SZ;
use pipe_cleaner::shared::GAME_BYTES;
use pipe_cleaner::shared::GAME_FIELDS_SZ;
use pipe_cleaner::wasm::create_entity;
use pipe_cleaner::wasm::get_entity;
use pipe_cleaner::wasm::remove_entity;
use pipe_cleaner::wasm::write_entity_back;
use pipe_cleaner::wasm::FAILURE;
use pipe_cleaner::wasm::SUCCESS;
use pipe_cleaner::wasm_entity::Handle;
use pipe_cleaner::world::WasmWorld;

fn sample_entity() -> Entity {
    let mut game_fields = [0u8; GAME_BYTES];
    for (i, byte) in game_fields.iter_mut().enumerate() {
        *byte = (i as u8).wrapping_mul(7).wrapping_add(3);
    }
    Entity {
        engine_fields: EngineFields {
            position: PipePosition { angle: 13.7f32.to_bits(), depth: 3.2f32.to_bits() },
            velocity: [0x0102_0304, 0xffff_ffff],
            target_velocity: [0x8000_0000, 1],
            max_acceleration: 80.0f32.to_bits(),
            max_speed: 8.0f32.to_bits(),
            color: [0, 1.0f32.to_bits(), 0x7fc0_0000],
            model: 2,
        },
        game_fields,
    }
}

fn wire_of(entity: &Entity) -> Vec<u8> {
    let mut out = vec![0u8; ENTITY_BYTES];
    entity.write_wire(&mut out);
    out
}

#[test]
fn sizes_add_up() {
    assert_eq!(FIELD_SZ, 4);
    assert_eq!(ENTITY_SZ, ENGINE_FIELDS_SZ + GAME_FIELDS_SZ);
    assert_eq!(ENTITY_BYTES, ENTITY_SZ * FIELD_SZ);
    assert_eq!(ENGINE_BYTES, ENGINE_FIELDS_SZ * FIELD_SZ);
    assert_eq!(GAME_BYTES, GAME_FIELDS_SZ * FIELD_SZ);
}

#[test]
fn words_are_little_endian() {
    assert_eq!(word_to_le(0x0102_0304), [4, 3, 2, 1]);
    assert_eq!(word_to_le(0), [0, 0, 0, 0]);
    assert_eq!(word_to_le(u32::MAX), [255, 255, 255, 255]);
    assert_eq!(word_to_le(0x1234_5678), 0x1234_5678u32.to_le_bytes());
    assert_eq!(word_from_le(4, 3, 2, 1), 0x0102_0304);
    assert_eq!(word_from_le(0xff, 0, 0, 0x80), 0x8000_00ff);
    assert_eq!(word_from_le(0x78, 0x56, 0x34, 0x12), u32::from_le_bytes([0x78, 0x56, 0x34, 0x12]));
}

#[test]
fn engine_fields_lay_out_in_wire_order() {
    let fields = sample_entity().engine_fields;
    let words = fields.to_words();
    assert_eq!(
        words,
        [
            13.7f32.to_bits(),
            3.2f32.to_bits(),
            0x0102_0304,
            0xffff_ffff,
            0x8000_0000,
            1,
            80.0f32.to_bits(),
            8.0f32.to_bits(),
            0,
            1.0f32.to_bits(),
            0x7fc0_0000,
            2,
        ]
    );
    assert_eq!(EngineFields::from_words(&words), fields);
    assert_eq!(EngineFields::zeroed().to_words(), [0u32; 12]);
}

#[test]
fn wire_image_is_little_endian_words_then_guest_bytes() {
    let entity = sample_entity();
    let wire = wire_of(&entity);
    assert_eq!(wire.len(), 124);
    assert_eq!(&wire[0..4], &13.7f32.to_le_bytes());
    assert_eq!(&wire[4..8], &3.2f32.to_le_bytes());
    assert_eq!(&wire[8..12], &[4, 3, 2, 1]);
    assert_eq!(&wire[12..16], &[255, 255, 255, 255]);
    assert_eq!(&wire[16..20], &[0, 0, 0, 0x80]);
    assert_eq!(&wire[44..48], &[2, 0, 0, 0]);
    assert_eq!(&wire[48..124], &entity.game_fields[..]);
    assert_eq!(Entity::read_wire(&wire), entity);
}

#[test]
fn write_wire_leaves_the_rest_of_the_buffer() {
    let entity = sample_entity();
    let mut out = vec![0xeeu8; 130];
    entity.write_wire(&mut out);
    assert_eq!(&out[..124], &wire_of(&entity)[..]);
    assert_eq!(&out[124..], &[0xee; 6]);
}

#[test]
fn create_returns_the_bits_of_a_valid_handle() {
    let mut world = WasmWorld::default();
    assert!(world.can_create());
    let bits = create_entity(&mut world);
    assert_eq!(bits, 0x0000_0001_0000_0001);
    let bits = create_entity(&mut world);
    assert_eq!(bits, 0x0000_0002_0000_0002);
    assert_eq!(world.entities().len(), 2);
}

#[test]
fn get_entity_writes_the_wire_image_at_the_address() {
    let mut world = WasmWorld::new();
    let bits = create_entity(&mut world);
    let handle = Handle::from_bits(bits).unwrap();
    let entity = sample_entity();
    assert!(world.read_entity_from_guest(handle, &wire_of(&entity)));
    let mut memory = vec![0x55u8; 400];
    assert_eq!(get_entity(&world, &mut memory, bits, 100), SUCCESS);
    assert_eq!(&memory[..100], &[0x55u8; 100][..]);
    assert_eq!(&memory[100..224], &wire_of(&entity)[..]);
    assert_eq!(&memory[224..], &[0x55u8; 176][..]);
}

#[test]
fn get_entity_works_at_an_odd_address() {
    let mut world = WasmWorld::new();
    let bits = create_entity(&mut world);
    let handle = Handle::from_bits(bits).unwrap();
    let entity = sample_entity();
    assert!(world.read_entity_from_guest(handle, &wire_of(&entity)));
    let mut memory = vec![0u8; 200];
    assert_eq!(get_entity(&world, &mut memory, bits, 3), SUCCESS);
    assert_eq!(&memory[3..127], &wire_of(&entity)[..]);
}

#[test]
fn get_entity_beyond_memory_fails_and_writes_nothing() {
    let mut world = WasmWorld::new();
    let bits = create_entity(&mut world);
    let mut memory = vec![0x55u8; 200];
    assert_eq!(get_entity(&world, &mut memory, bits, 77), FAILURE);
    assert_eq!(memory, vec![0x55u8; 200]);
    assert_eq!(get_entity(&world, &mut memory, bits, 200), FAILURE);
    assert_eq!(get_entity(&world, &mut memory, bits, 201), FAILURE);
    assert_eq!(get_entity(&world, &mut memory, bits, u32::MAX), FAILURE);
    assert_eq!(memory, vec![0x55u8; 200]);
    assert_eq!(get_entity(&world, &mut memory, bits, 76), SUCCESS);
    assert_eq!(&memory[..76], &[0x55u8; 76][..]);
    assert_eq!(&memory[76..], &[0u8; 124][..]);
}

#[test]
fn get_entity_with_a_bad_handle_fails_and_writes_nothing() {
    let mut world = WasmWorld::new();
    let bits = create_entity(&mut world);
    let mut memory = vec![0x55u8; 200];
    assert_eq!(get_entity(&world, &mut memory, 0, 0), FAILURE);
    assert_eq!(get_entity(&world, &mut memory, 1, 0), FAILURE);
    assert_eq!(get_entity(&world, &mut memory, bits + 1, 0), FAILURE);
    assert_eq!(get_entity(&world, &mut memory, bits + (1 << 32), 0), FAILURE);
    assert_eq!(memory, vec![0x55u8; 200]);
    assert_eq!(remove_entity(&mut world, bits), SUCCESS);
    assert_eq!(get_entity(&world, &mut memory, bits, 0), FAILURE);
    assert_eq!(memory, vec![0x55u8; 200]);
}

#[test]
fn write_back_then_read_is_byte_identical() {
    let mut world = WasmWorld::new();
    let _other = create_entity(&mut world);
    let bits = create_entity(&mut world);
    let mut memory = vec![0u8; 512];
    for (i, byte) in memory.iter_mut().enumerate() {
        *byte = (i as u8) ^ 0xa5;
    }
    let written = memory[10..134].to_vec();
    assert_eq!(write_entity_back(&mut world, &memory, bits, 10), SUCCESS);
    assert_eq!(get_entity(&world, &mut memory, bits, 300), SUCCESS);
    assert_eq!(&memory[300..424], &written[..]);
    assert_eq!(&memory[10..134], &written[..]);
    let handle = Handle::from_bits(bits).unwrap();
    let stored = world.entities()[1];
    assert_eq!(wire_of(stored), written);
    assert_eq!(
        stored.engine_fields.position.angle,
        u32::from_le_bytes([written[0], written[1], written[2], written[3]])
    );
    assert_eq!(&stored.game_fields[..], &written[48..]);
    let mut out = vec![0u8; 124];
    assert!(world.write_entity_to_guest(handle, &mut out));
    assert_eq!(out, written);
}

#[test]
fn write_back_keeps_every_engine_value() {
    let mut world = WasmWorld::new();
    let bits = create_entity(&mut world);
    let words =
        [0u32, 1, 0x7f80_0000, 0xff80_0000, 0x7fc0_0001, 0x8000_0000, u32::MAX, 0x0102_0304];
    for word in words {
        let mut memory = vec![0u8; 248];
        for field in 0..12 {
            memory[4 * field..4 * field + 4].copy_from_slice(&word.to_le_bytes());
        }
        assert_eq!(write_entity_back(&mut world, &memory, bits, 0), SUCCESS);
        assert_eq!(world.entities()[0].engine_fields.to_words(), [word; 12]);
        assert_eq!(get_entity(&world, &mut memory, bits, 124), SUCCESS);
        assert_eq!(memory[..124], memory[124..]);
    }
}

#[test]
fn write_back_with_a_bad_handle_or_address_changes_nothing() {
    let mut world = WasmWorld::new();
    let bits = create_entity(&mut world);
    let memory = vec![0x11u8; 200];
    assert_eq!(write_entity_back(&mut world, &memory, 0, 0), FAILURE);
    assert_eq!(write_entity_back(&mut world, &memory, bits ^ 3, 0), FAILURE);
    assert_eq!(write_entity_back(&mut world, &memory, bits, 77), FAILURE);
    assert_eq!(write_entity_back(&mut world, &memory, bits, u32::MAX), FAILURE);
    assert_eq!(*world.entities()[0], Entity::zeroed());
    assert_eq!(write_entity_back(&mut world, &memory, bits, 76), SUCCESS);
    assert_eq!(world.entities()[0].engine_fields.model, 0x1111_1111);
}

#[test]
fn remove_succeeds_once() {
    let mut world = WasmWorld::new();
    let first = create_entity(&mut world);
    let second = create_entity(&mut world);
    assert_eq!(remove_entity(&mut world, first), SUCCESS);
    assert_eq!(remove_entity(&mut world, first), FAILURE);
    assert_eq!(remove_entity(&mut world, 0), FAILURE);
    assert_eq!(remove_entity(&mut world, 7 << 32), FAILURE);
    assert_eq!(world.entities().len(), 1);
    let third = create_entity(&mut world);
    assert_eq!(third, 0x0000_0001_0000_0003);
    assert_eq!(remove_entity(&mut world, first), FAILURE);
    assert_eq!(remove_entity(&mut world, second), SUCCESS);
    assert_eq!(remove_entity(&mut world, third), SUCCESS);
    assert!(world.entities().is_empty());
}

#[test]
fn world_methods_refuse_a_stale_handle() {
    let mut world = WasmWorld::new();
    let handle = world.create_entity();
    assert!(world.remove_entity(handle));
    assert!(!world.remove_entity(handle));
    let mut out = [0x77u8; 124];
    assert!(!world.write_entity_to_guest(handle, &mut out));
    assert_eq!(out, [0x77u8; 124]);
    assert!(!world.read_entity_from_guest(handle, &out));
    let again = world.create_entity();
    assert_eq!((again.id(), again.index()), (2, 1));
    assert!(!world.write_entity_to_guest(handle, &mut out));
    assert!(world.write_entity_to_guest(again, &mut out));
    assert_eq!(out, [0u8; 124]);
}
