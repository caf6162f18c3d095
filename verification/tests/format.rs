//! The persistence format: primitive encodings, trap tags, and the full
//! save-file round trip.

use factory_core::blocks::{Block, TunnelType};
use factory_core::inventory::Inventory;
use factory_core::items::Item;
use factory_core::registry::{register_blocks, BlockKind, ItemKind, Registry};
use factory_core::serialization::{
    try_read_bool, try_read_i32, try_read_u32, try_read_u64, write_bool, write_i32, write_u32,
    write_u64, Buffer, SerializationError, SerializationTrap,
};
use factory_core::simulation::place_block_at;
use factory_core::game::{read_save, write_save};
use factory_core::world::{Direction, Vec2i, World};

fn standard_registry() -> Registry {
    let mut reg = Registry::new();
    assert!(register_blocks(&mut reg));
    reg
}

fn coal(reg: &Registry, n: u32) -> Item {
    let id = reg.item_id_of_kind(ItemKind::Resource).unwrap();
    Item::new(id, ItemKind::Resource, n)
}

#[test]
fn primitives_round_trip_little_endian() {
    let mut buf: Vec<u8> = Vec::new();
    write_u32(&mut buf, 0x0403_0201);
    assert_eq!(buf, vec![0x01, 0x02, 0x03, 0x04]);
    write_i32(&mut buf, -2);
    write_u64(&mut buf, 0x1122_3344_5566_7788);
    write_bool(&mut buf, true);
    let mut rd = Buffer::new(buf);
    assert_eq!(try_read_u32(&mut rd).unwrap(), 0x0403_0201);
    assert_eq!(try_read_i32(&mut rd).unwrap(), -2);
    assert_eq!(try_read_u64(&mut rd).unwrap(), 0x1122_3344_5566_7788);
    assert!(try_read_bool(&mut rd).unwrap());
    assert_eq!(rd.len(), 0);
    assert_eq!(
        try_read_u32(&mut rd),
        Err(SerializationError::NotEnoughSpace)
    );
}

#[test]
fn buffer_reads_in_order() {
    let mut rd = Buffer::new(vec![9, 8, 7]);
    assert_eq!(rd.len(), 3);
    assert_eq!(rd.read_element(), 9);
    let two = rd.read_elements(2);
    assert_eq!(two, vec![8, 7]);
    assert!(rd.try_read_element().is_err());
    assert!(rd.try_read_elements(1).is_err());
}

#[test]
fn trap_tags_trap_structural_drift() {
    let mut buf: Vec<u8> = Vec::new();
    SerializationTrap::Vec.serialize(&mut buf);
    let mut rd = Buffer::new(buf);
    let r = SerializationTrap::String.try_deserialize(&mut rd);
    assert_eq!(
        r,
        Err(SerializationError::SerializeTrap {
            found: SerializationTrap::Vec,
            expected: SerializationTrap::String,
        })
    );
    assert_eq!(SerializationTrap::from_u8(2), SerializationTrap::Vec);
    assert_eq!(SerializationTrap::from_u8(0x7b), SerializationTrap::Unknown);
}

fn build_world(reg: &Registry) -> World {
    let mut world = World::new(2, 2);
    assert!(place_block_at(&mut world, Block::new_of_kind(BlockKind::ResourceNodeBrown), -3, 2, Direction::West));
    assert!(place_block_at(&mut world, Block::new_of_kind(BlockKind::Extractor), 4, 4, Direction::South));
    // A belt carrying one unit.
    let mut belt = Block::new_of_kind(BlockKind::Conveyor);
    assert!(belt.push(Direction::West, coal(reg, 1), factory_core::world::ChunkBlockMetadata::new(Direction::East, Vec2i::new(1, 1)), 7).is_none());
    assert!(place_block_at(&mut world, belt, 1, 1, Direction::East));
    // A container holding a stack.
    let mut container = Block::new_of_kind(BlockKind::StorageContainer);
    match &mut container {
        Block::StorageContainer { inv } => {
            assert!(inv.try_add_item(coal(reg, 12)).is_none());
        }
        _ => unreachable!(),
    }
    assert!(place_block_at(&mut world, container, -1, -1, Direction::North));
    // A linked tunnel pair.
    assert!(place_block_at(&mut world, Block::new_of_kind(BlockKind::Tunnel), 8, 2, Direction::North));
    assert!(place_block_at(&mut world, Block::new_of_kind(BlockKind::Splitter), 10, 3, Direction::West));
    let b = Vec2i::new(8, 2).add_directional(&Direction::North, 4);
    assert!(place_block_at(&mut world, Block::new_of_kind(BlockKind::Tunnel), b.x, b.y, Direction::North));
    world
}

#[test]
fn save_file_round_trips_whole_world() {
    let reg = standard_registry();
    let world = build_world(&reg);
    let mut player = Inventory::new(45, true);
    assert!(player.try_add_item(coal(&reg, 30)).is_none());
    let bytes = write_save(&world, &reg, &player, 123_456);
    let (loaded, inv2, secs) = read_save(&reg, bytes).expect("a fresh save must load");
    assert_eq!(secs, 123_456);
    assert!(inv2.is_player);
    assert_eq!(inv2.get_item(0).unwrap().metadata, 30);
    assert_eq!(loaded.w, world.w);
    assert_eq!(loaded.h, world.h);
    assert_eq!(loaded.startx, world.startx);
    assert_eq!(loaded.starty, world.starty);
    // Kind, facing and buffer contents survive for every placed block.
    for (x, y) in [(-3, 2), (4, 4), (1, 1), (-1, -1), (8, 2), (10, 3), (6, 6)] {
        let (b0, m0) = world.get_block_at(x, y).unwrap();
        let (b1, m1) = loaded.get_block_at(x, y).unwrap();
        assert_eq!(b0.kind(), b1.kind());
        assert_eq!(m0.direction, m1.direction);
        assert_eq!(m0.position, m1.position);
    }
    match loaded.get_block_at(1, 1).unwrap().0 {
        Block::Conveyor { inv, incoming, .. } => {
            assert_eq!(inv.get_item(0).unwrap().metadata, 1);
            assert_eq!(*incoming, Direction::East);
        }
        _ => unreachable!(),
    }
    match loaded.get_block_at(-1, -1).unwrap().0 {
        Block::StorageContainer { inv } => {
            assert_eq!(inv.get_item(0).unwrap().metadata, 12);
        }
        _ => unreachable!(),
    }
    let b = Vec2i::new(8, 2).add_directional(&Direction::North, 4);
    match loaded.get_block_at(b.x, b.y).unwrap().0 {
        Block::Tunnel { link, .. } => assert_eq!(*link, TunnelType::Pushing(Vec2i::new(8, 2))),
        _ => unreachable!(),
    }
    match loaded.get_block_at(8, 2).unwrap().0 {
        Block::Tunnel { link, .. } => assert_eq!(*link, TunnelType::Receiving(b)),
        _ => unreachable!(),
    }
}

#[test]
fn load_rejects_bad_signature_and_truncation() {
    let reg = standard_registry();
    let world = World::new(1, 1);
    let player = Inventory::new(45, true);
    let bytes = write_save(&world, &reg, &player, 1);
    // Too short.
    assert!(read_save(&reg, vec![1, 2, 3]).is_err());
    // Corrupt signature.
    let mut bad = bytes.clone();
    bad[0] = b'X';
    assert!(read_save(&reg, bad).is_err());
    // A wrong trap byte right after the signature and timestamp.
    let mut trapped = bytes.clone();
    trapped[17] = 0xff;
    assert!(read_save(&reg, trapped).is_err());
    // Truncated in the middle of the world.
    let mut cut = bytes.clone();
    cut.truncate(cut.len() / 2);
    assert!(read_save(&reg, cut).is_err());
    // The untouched save still loads.
    assert!(read_save(&reg, bytes).is_ok());
}

#[test]
fn unknown_identifier_is_a_registry_miss() {
    // A world serialized against a registry with an extra block kind cannot
    // be... every standard kind is known, so instead: decode against a fresh
    // registry missing the standard set.
    let reg = standard_registry();
    let world = build_world(&reg);
    let player = Inventory::new(45, true);
    let bytes = write_save(&world, &reg, &player, 1);
    let empty = Registry::new();
    assert!(read_save(&empty, bytes).is_err());
}

#[test]
fn registry_lookups_are_consistent() {
    let reg = standard_registry();
    for kind in [
        BlockKind::Empty,
        BlockKind::ResourceNodeBrown,
        BlockKind::StorageContainer,
        BlockKind::Extractor,
        BlockKind::Conveyor,
        BlockKind::Splitter,
        BlockKind::Tunnel,
    ] {
        let id = reg.block_id_of_kind(kind).unwrap();
        assert_eq!(reg.get_block_by_id(id), Some(kind));
        // Every block kind is also registered as a placeable item.
        let item_id = reg.item_id_of_kind(ItemKind::Building(kind)).unwrap();
        assert_eq!(reg.get_item_by_id(item_id), Some(ItemKind::Building(kind)));
    }
    let coal_id = reg.item_id_of_kind(ItemKind::Resource).unwrap();
    assert_eq!(reg.get_item_by_id(coal_id), Some(ItemKind::Resource));
    // Re-registering the same names is refused and changes nothing.
    let mut reg2 = standard_registry();
    assert!(!register_blocks(&mut reg2));
}
