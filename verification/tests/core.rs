//! End-to-end behavior of the simulation core: the push/pull protocol, the
//! stacking rules, splitter fairness, tunnel pairing and grid addressing.

use factory_core::blocks::{Block, TunnelType};
use factory_core::game::GameConfig;
use factory_core::inventory::{Inventory, MAX_ITEMS_PER_SLOT, NUM_SLOTS_PLAYER};
use factory_core::items::Item;
use factory_core::registry::{register_blocks, BlockKind, ItemKind, Registry};
use factory_core::scheduler::TaskQueue;
use factory_core::simulation::{
    dismantle_block_at, place_block_at, splitter_determine_direction, splitter_dispatch,
    tick_world, tunnel_update,
};
use factory_core::world::{ChunkBlockMetadata, Direction, Vec2i, World};

fn standard_registry() -> Registry {
    let mut reg = Registry::new();
    assert!(register_blocks(&mut reg));
    reg
}

fn coal(reg: &Registry, n: u32) -> Item {
    let id = reg.item_id_of_kind(ItemKind::Resource).unwrap();
    Item::new(id, ItemKind::Resource, n)
}

fn meta(x: i32, y: i32, d: Direction) -> ChunkBlockMetadata {
    ChunkBlockMetadata::new(d, Vec2i::new(x, y))
}

#[test]
fn directions_cycle_and_oppose() {
    assert_eq!(Direction::North.next(true), Direction::East);
    assert_eq!(Direction::East.next(true), Direction::South);
    assert_eq!(Direction::South.next(true), Direction::West);
    assert_eq!(Direction::West.next(true), Direction::North);
    assert_eq!(Direction::North.next(false), Direction::West);
    assert_eq!(Direction::North.opposite(), Direction::South);
    assert_eq!(Direction::East.opposite(), Direction::West);
    assert_eq!(Direction::East.combine(Direction::South), Direction::West);
    assert_eq!(Direction::from_u8(7), Direction::West);
}

#[test]
fn add_directional_uses_inverted_east_west() {
    let p = Vec2i::new(10, 10);
    assert_eq!(p.add_directional(&Direction::North, 3), Vec2i::new(10, 7));
    assert_eq!(p.add_directional(&Direction::South, 3), Vec2i::new(10, 13));
    // East decreases x and West increases it: the source convention.
    assert_eq!(p.add_directional(&Direction::East, 3), Vec2i::new(7, 10));
    assert_eq!(p.add_directional(&Direction::West, 3), Vec2i::new(13, 10));
}

#[test]
fn negative_coordinates_resolve_to_previous_chunk() {
    let world = World::new(2, 2);
    // The same query always resolves to the same chunk/offset pair.
    let first = world.locate(-1, -1).unwrap();
    let again = world.locate(-1, -1).unwrap();
    assert_eq!(first, again);
    // ... and to a different chunk than the origin's.
    let origin = world.locate(0, 0).unwrap();
    assert_ne!(first.0, origin.0);
    // In-chunk offset of (-1, -1) is the last cell; of (0, 0) the first.
    assert_eq!(first.1, 1023);
    assert_eq!(origin.1, 0);
}

#[test]
fn conveyor_retains_one_unit_and_returns_decremented_stack() {
    let reg = standard_registry();
    let mut belt = Block::Conveyor {
        last_reset: 0,
        inv: Inventory::new(1, false),
        incoming: Direction::North,
    };
    let item = coal(&reg, 5);
    // Pushed in through the West side of a belt facing East.
    let back = belt.push(Direction::West, item, meta(0, 0, Direction::East), 42);
    let back = back.expect("a stack of five must leave a remainder");
    assert_eq!(back.metadata, 4);
    assert_eq!(back.id, item.id);
    match &belt {
        Block::Conveyor { inv, last_reset, .. } => {
            let held = inv.get_item(0).expect("one unit must stay");
            assert_eq!(held.metadata, 1);
            assert_eq!(held.id, item.id);
            assert_eq!(*last_reset, 42);
        }
        _ => unreachable!(),
    }
}

#[test]
fn push_on_refusing_block_returns_item_unchanged() {
    let reg = standard_registry();
    let item = coal(&reg, 7);
    // A belt refuses an item entering through its own facing.
    let mut belt = Block::Conveyor {
        last_reset: 0,
        inv: Inventory::new(1, false),
        incoming: Direction::North,
    };
    assert!(!belt.can_push(Direction::East, &item, meta(0, 0, Direction::East)));
    let back = belt.push(Direction::East, item, meta(0, 0, Direction::East), 9).unwrap();
    assert_eq!(back, item);
    // A splitter only accepts through its back.
    let mut sp = Block::Splitter {
        last_reset: 0,
        inv: Inventory::new(1, false),
        last_output: 0,
        chosen: None,
    };
    assert!(!sp.can_push(Direction::North, &item, meta(0, 0, Direction::East)));
    let back = sp.push(Direction::North, item, meta(0, 0, Direction::East), 9).unwrap();
    assert_eq!(back, item);
    // An unlinked tunnel accepts nothing.
    let mut tn = Block::Tunnel {
        last_reset: 0,
        inv: Inventory::new(1, false),
        move_dir: Direction::North,
        link: TunnelType::Unlinked,
    };
    assert!(!tn.can_push(Direction::South, &item, meta(0, 0, Direction::North)));
    let back = tn.push(Direction::South, item, meta(0, 0, Direction::North), 9).unwrap();
    assert_eq!(back, item);
    // A full belt refuses too.
    let mut full = Block::Conveyor {
        last_reset: 0,
        inv: Inventory::new(1, false),
        incoming: Direction::North,
    };
    assert!(full.push(Direction::West, coal(&reg, 1), meta(0, 0, Direction::East), 0).is_none());
    let back = full.push(Direction::West, item, meta(0, 0, Direction::East), 9).unwrap();
    assert_eq!(back, item);
}

#[test]
fn inventory_caps_stacks_and_conserves_units() {
    let reg = standard_registry();
    let mut inv = Inventory::new(2, false);
    // 200 + 100 units: the first slot caps at 255, the rest moves on.
    assert!(inv.try_add_item(coal(&reg, 200)).is_none());
    assert!(inv.try_add_item(coal(&reg, 100)).is_none());
    assert_eq!(inv.get_item(0).unwrap().metadata, MAX_ITEMS_PER_SLOT);
    assert_eq!(inv.get_item(1).unwrap().metadata, 45);
    // Both slots full: everything comes back.
    assert!(inv.try_add_item(coal(&reg, 210)).is_none());
    assert_eq!(inv.get_item(1).unwrap().metadata, 255);
    let back = inv.try_add_item(coal(&reg, 50)).unwrap();
    assert_eq!(back.metadata, 50);
    // Conservation: 200 + 100 + 210 + 50 inserted, 50 rejected, 510 held.
    assert_eq!(
        inv.get_item(0).unwrap().metadata + inv.get_item(1).unwrap().metadata,
        510
    );
}

#[test]
fn add_item_merges_into_one_slot_and_returns_surplus() {
    let reg = standard_registry();
    let mut inv = Inventory::new(1, false);
    assert!(inv.add_item(coal(&reg, 250), 0).is_none());
    let back = inv.add_item(coal(&reg, 10), 0).unwrap();
    assert_eq!(back.metadata, 5);
    assert_eq!(inv.get_item(0).unwrap().metadata, 255);
    // A full slot returns the whole item.
    let back = inv.add_item(coal(&reg, 3), 0).unwrap();
    assert_eq!(back.metadata, 3);
    // Out of range returns the whole item.
    let back = inv.add_item(coal(&reg, 3), 9).unwrap();
    assert_eq!(back.metadata, 3);
}

#[test]
fn try_pull_splits_larger_stacks() {
    let reg = standard_registry();
    let mut inv = Inventory::new(2, false);
    assert!(inv.try_add_item(coal(&reg, 10)).is_none());
    let got = inv.try_pull(4).unwrap();
    assert_eq!(got.metadata, 4);
    assert_eq!(inv.get_item(0).unwrap().metadata, 6);
    // Pulling at least the whole stack takes the slot as-is.
    let got = inv.try_pull(99).unwrap();
    assert_eq!(got.metadata, 6);
    assert!(inv.get_item(0).is_none());
    assert!(inv.try_pull(1).is_none());
    assert!(!inv.can_pull());
}

#[test]
fn splitter_round_robins_three_accepting_outputs() {
    let reg = standard_registry();
    let mut world = World::new(2, 2);
    let pos = Vec2i::new(0, 0);
    let facing = Direction::North;
    // Splitter at the origin facing North; containers on its left, forward
    // and right outputs.
    assert!(place_block_at(&mut world, Block::new_of_kind(BlockKind::Splitter), 0, 0, facing));
    for side in [facing.next(false), facing, facing.next(true)] {
        let t = pos.add_directional(&side, 1);
        assert!(place_block_at(
            &mut world,
            Block::new_of_kind(BlockKind::StorageContainer),
            t.x,
            t.y,
            side,
        ));
    }
    let m = meta(0, 0, facing);
    let mut seen = Vec::new();
    let mut now = 1_000u64;
    for _ in 0..3 {
        // Feed the splitter through its back.
        match world.locate(0, 0).map(|(ci, bi)| (ci, bi)) {
            Some(_) => {}
            None => unreachable!(),
        }
        let fed = factory_core::simulation::push_into(
            &mut world,
            0,
            0,
            facing.opposite(),
            coal(&reg, 1),
            now,
        );
        assert!(fed.is_none(), "the splitter must accept through its back");
        splitter_determine_direction(&mut world, m);
        let (blk, _) = world.get_block_at(0, 0).unwrap();
        let chosen = match blk {
            Block::Splitter { chosen, .. } => chosen.expect("a direction must be chosen"),
            _ => unreachable!(),
        };
        seen.push(chosen);
        now += 1_000;
        splitter_dispatch(&mut world, m, now);
        let (blk, _) = world.get_block_at(0, 0).unwrap();
        match blk {
            Block::Splitter { inv, chosen, .. } => {
                assert!(inv.get_item(0).is_none(), "the item must leave");
                assert!(chosen.is_none(), "the cached choice must clear");
            }
            _ => unreachable!(),
        }
    }
    // Across three successful dispatches each output was chosen exactly once,
    // starting one after the last chosen index (initially the left output).
    assert_eq!(seen[0], facing.next(false));
    assert_eq!(seen[1], facing);
    assert_eq!(seen[2], facing.next(true));
}

#[test]
fn tunnels_pair_within_seven_tiles_and_unlink_on_dismantle() {
    let mut world = World::new(2, 2);
    let facing = Direction::North;
    // First end: no partner in range yet.
    assert!(place_block_at(&mut world, Block::new_of_kind(BlockKind::Tunnel), 0, 0, facing));
    match world.get_block_at(0, 0).unwrap().0 {
        Block::Tunnel { link, .. } => assert_eq!(*link, TunnelType::Unlinked),
        _ => unreachable!(),
    }
    // Second end three tiles ahead along the facing: both ends link.
    let b = Vec2i::new(0, 0).add_directional(&facing, 3);
    assert!(place_block_at(&mut world, Block::new_of_kind(BlockKind::Tunnel), b.x, b.y, facing));
    match world.get_block_at(b.x, b.y).unwrap().0 {
        Block::Tunnel { link, .. } => assert_eq!(*link, TunnelType::Pushing(Vec2i::new(0, 0))),
        _ => unreachable!(),
    }
    match world.get_block_at(0, 0).unwrap().0 {
        Block::Tunnel { link, .. } => assert_eq!(*link, TunnelType::Receiving(b)),
        _ => unreachable!(),
    }
    // Dismantling one end resets the other to unlinked.
    let (removed, removed_meta) = dismantle_block_at(&mut world, b.x, b.y).unwrap();
    assert!(matches!(removed, Block::Tunnel { .. }));
    assert_eq!(removed_meta.position, b);
    assert!(world.get_block_at(b.x, b.y).unwrap().0.is_none());
    match world.get_block_at(0, 0).unwrap().0 {
        Block::Tunnel { link, .. } => assert_eq!(*link, TunnelType::Unlinked),
        _ => unreachable!(),
    }
}

#[test]
fn tunnel_out_of_range_stays_unlinked() {
    let mut world = World::new(2, 2);
    let facing = Direction::East;
    assert!(place_block_at(&mut world, Block::new_of_kind(BlockKind::Tunnel), 0, 0, facing));
    // Eight tiles away is out of the seven-tile range.
    let far = Vec2i::new(0, 0).add_directional(&facing, 8);
    assert!(place_block_at(&mut world, Block::new_of_kind(BlockKind::Tunnel), far.x, far.y, facing));
    match world.get_block_at(far.x, far.y).unwrap().0 {
        Block::Tunnel { link, .. } => assert_eq!(*link, TunnelType::Unlinked),
        _ => unreachable!(),
    }
}

#[test]
fn tunnel_moves_item_to_receiving_end() {
    let reg = standard_registry();
    let mut world = World::new(2, 2);
    let facing = Direction::South;
    assert!(place_block_at(&mut world, Block::new_of_kind(BlockKind::Tunnel), 0, 0, facing));
    let b = Vec2i::new(0, 0).add_directional(&facing, 5);
    assert!(place_block_at(&mut world, Block::new_of_kind(BlockKind::Tunnel), b.x, b.y, facing));
    // The second end pushes toward the first; inject an item at it.
    let fed = factory_core::simulation::push_into(
        &mut world,
        b.x,
        b.y,
        facing.opposite(),
        coal(&reg, 1),
        1_000,
    );
    assert!(fed.is_none());
    // After its cooldown the pushing end hands the item over.
    tunnel_update(&mut world, meta(b.x, b.y, facing), 2_000);
    match world.get_block_at(b.x, b.y).unwrap().0 {
        Block::Tunnel { inv, .. } => assert!(inv.get_item(0).is_none()),
        _ => unreachable!(),
    }
    match world.get_block_at(0, 0).unwrap().0 {
        Block::Tunnel { inv, .. } => assert_eq!(inv.get_item(0).unwrap().metadata, 1),
        _ => unreachable!(),
    }
}

#[test]
fn extractor_pulls_from_node_and_pushes_to_container() {
    let reg = standard_registry();
    let mut world = World::new(2, 2);
    let facing = Direction::South;
    // Node behind, extractor in the middle, container ahead (its facing
    // toward the extractor so its push side lines up).
    let behind = Vec2i::new(0, 0).add_directional(&facing, -1);
    let ahead = Vec2i::new(0, 0).add_directional(&facing, 1);
    assert!(place_block_at(
        &mut world,
        Block::new_of_kind(BlockKind::ResourceNodeBrown),
        behind.x,
        behind.y,
        facing,
    ));
    assert!(place_block_at(&mut world, Block::new_of_kind(BlockKind::Extractor), 0, 0, facing));
    assert!(place_block_at(
        &mut world,
        Block::new_of_kind(BlockKind::StorageContainer),
        ahead.x,
        ahead.y,
        facing.opposite(),
    ));
    // First pass pulls one unit out of the node into the extractor.
    factory_core::simulation::extractor_update(&mut world, &reg, meta(0, 0, facing), 1_000);
    match world.get_block_at(0, 0).unwrap().0 {
        Block::Extractor { inv, .. } => assert_eq!(inv.get_item(0).unwrap().metadata, 1),
        _ => unreachable!(),
    }
    // After the cooldown the buffered unit moves on into the container.
    factory_core::simulation::extractor_update(&mut world, &reg, meta(0, 0, facing), 2_000);
    match world.get_block_at(ahead.x, ahead.y).unwrap().0 {
        Block::StorageContainer { inv } => {
            assert_eq!(inv.get_item(0).unwrap().metadata, 1);
        }
        _ => unreachable!(),
    }
}

#[test]
fn tick_world_runs_and_drains_the_queue() {
    let reg = standard_registry();
    let mut world = World::new(1, 1);
    assert!(place_block_at(&mut world, Block::new_of_kind(BlockKind::Conveyor), 10, 10, Direction::East));
    let mut queue = TaskQueue::new();
    tick_world(&mut world, &reg, &mut queue, 5_000);
    assert_eq!(queue.len(), 0);
}

#[test]
fn timers_gate_on_elapsed_time() {
    let belt = Block::Conveyor {
        last_reset: 1_000,
        inv: Inventory::new(1, false),
        incoming: Direction::North,
    };
    assert!(!belt.can_do_work(1_500));
    assert_eq!(belt.elapsed_capped(1_500), 500);
    assert!(belt.can_do_work(2_000));
    assert_eq!(belt.elapsed_capped(9_999), 1_000);
    // A clock that went backwards reads as no progress.
    assert_eq!(belt.elapsed_capped(500), 0);
    assert!(!belt.can_do_work(500));
}

#[test]
fn player_config_defaults() {
    let cfg = GameConfig::default();
    assert!(cfg.inventory.is_player);
    assert_eq!(cfg.inventory.size(), NUM_SLOTS_PLAYER);
    assert_eq!(cfg.player, Vec2i::new(0, 0));
}

#[test]
fn splitter_skips_refusing_outputs() {
    let reg = standard_registry();
    let mut world = World::new(2, 2);
    let facing = Direction::North;
    assert!(place_block_at(&mut world, Block::new_of_kind(BlockKind::Splitter), 0, 0, facing));
    // Only the right-hand output accepts.
    let right = facing.next(true);
    let t = Vec2i::new(0, 0).add_directional(&right, 1);
    assert!(place_block_at(
        &mut world,
        Block::new_of_kind(BlockKind::StorageContainer),
        t.x,
        t.y,
        right,
    ));
    let fed = factory_core::simulation::push_into(
        &mut world,
        0,
        0,
        facing.opposite(),
        coal(&reg, 1),
        500,
    );
    assert!(fed.is_none());
    splitter_determine_direction(&mut world, meta(0, 0, facing));
    match world.get_block_at(0, 0).unwrap().0 {
        Block::Splitter { chosen, last_output, .. } => {
            assert_eq!(chosen.unwrap(), right);
            // The next scan starts one after the chosen output.
            assert_eq!(*last_output, 0);
        }
        _ => unreachable!(),
    }
}

#[test]
fn tunnel_reverse_swaps_both_ends() {
    let mut world = World::new(2, 2);
    let facing = Direction::West;
    assert!(place_block_at(&mut world, Block::new_of_kind(BlockKind::Tunnel), 0, 0, facing));
    let b = Vec2i::new(0, 0).add_directional(&facing, 2);
    assert!(place_block_at(&mut world, Block::new_of_kind(BlockKind::Tunnel), b.x, b.y, facing));
    factory_core::simulation::tunnel_reverse_orientation(&mut world, meta(b.x, b.y, facing));
    match world.get_block_at(b.x, b.y).unwrap().0 {
        Block::Tunnel { link, .. } => assert_eq!(*link, TunnelType::Receiving(Vec2i::new(0, 0))),
        _ => unreachable!(),
    }
    match world.get_block_at(0, 0).unwrap().0 {
        Block::Tunnel { link, .. } => assert_eq!(*link, TunnelType::Pushing(b)),
        _ => unreachable!(),
    }
}

#[test]
fn container_capacity_probe_is_exact_count_or_empty_slot() {
    let reg = standard_registry();
    let mut inv = Inventory::new(1, false);
    assert!(inv.try_add_item(coal(&reg, 254)).is_none());
    // One unit of room: a five-unit stack does not hit the count exactly,
    // so the all-or-nothing probe refuses even though a unit would fit.
    assert!(!inv.can_push(&coal(&reg, 5)));
    assert!(inv.can_push(&coal(&reg, 1)));
    let mut empty = Inventory::new(1, false);
    assert!(empty.can_push(&coal(&reg, 5)));
    assert!(empty.try_add_item(coal(&reg, 5)).is_none());
}

#[test]
fn fresh_blocks_start_empty_and_unlinked() {
    match Block::new_of_kind(BlockKind::Tunnel) {
        Block::Tunnel { last_reset, inv, move_dir, link } => {
            assert_eq!(last_reset, 0);
            assert!(inv.get_item(0).is_none());
            assert_eq!(move_dir, Direction::North);
            assert_eq!(link, TunnelType::Unlinked);
        }
        _ => unreachable!(),
    }
    match Block::new_of_kind(BlockKind::Splitter) {
        Block::Splitter { inv, last_output, chosen, .. } => {
            assert!(inv.get_item(0).is_none());
            assert_eq!(last_output, 0);
            assert!(chosen.is_none());
        }
        _ => unreachable!(),
    }
}

#[test]
fn fresh_world_cells_are_empty_and_face_north() {
    let world = World::new(2, 2);
    for (x, y) in [(0, 0), (-1, -1), (17, -30)] {
        let (b, m) = world.get_block_at(x, y).unwrap();
        assert!(b.is_none());
        assert_eq!(m.direction, Direction::North);
        assert_eq!(m.position, Vec2i::new(x, y));
    }
}

