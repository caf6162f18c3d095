//! The per-tick machine logic: what each block kind does when its deferred
//! update task runs with exclusive access to the world.
//!
//! Transfers are always driven by the source block's update. The `side`
//! argument handed to a receiver is the face the item enters through: the
//! opposite of the mover's facing.

use vstd::prelude::*;
use crate::blocks::{
    spec_block_can_push, spec_block_push, spec_can_do_work, Block, BlockV, TunnelType,
};
use crate::items::Item;
use crate::registry::Registry;
use crate::world::{
    spec_add_directional, spec_chunk_coord, spec_next, spec_opposite, Chunk, ChunkBlockMetadata,
    Direction, Vec2i, World,
};

verus! {

/// Any loaded position is comfortably inside `i32`: there is room to step a
/// few tiles in any direction.
pub proof fn lemma_loaded_pos_bounds(w: World, x: int, y: int)
    requires
        w.wf(),
        w.spec_pos_loaded(x, y),
    ensures
        -0x4000_0000 <= x < 0x4000_0000,
        -0x4000_0000 <= y < 0x4000_0000,
{
    vstd::arithmetic::div_mod::lemma_fundamental_div_mod(x, 32);
    vstd::arithmetic::div_mod::lemma_mod_bound(x, 32);
    vstd::arithmetic::div_mod::lemma_fundamental_div_mod(y, 32);
    vstd::arithmetic::div_mod::lemma_mod_bound(y, 32);
}

/// A loaded cell's block is well-formed whenever the whole grid is.
pub proof fn lemma_spec_cell_wf(w: World, x: int, y: int)
    requires
        w.wf(),
        w.blocks_wf(),
        w.spec_pos_loaded(x, y),
    ensures
        w.spec_cell(x, y).inner.wf(),
{
    w.lemma_chunk_index_in_range(spec_chunk_coord(x), spec_chunk_coord(y));
    vstd::arithmetic::div_mod::lemma_mod_bound(x, 32);
    vstd::arithmetic::div_mod::lemma_mod_bound(y, 32);
}

/// Whether the neighbor one step along `s` from `from` currently accepts the
/// item pushed through its facing side.
pub open spec fn spec_accepts(w: World, from: Vec2i, s: Direction, item: Item) -> bool {
    let t = spec_add_directional(from, s, 1);
    &&& w.spec_pos_loaded(t.0, t.1)
    &&& spec_block_can_push(
        w.spec_cell(t.0, t.1).inner@,
        spec_opposite(s),
        item,
        w.spec_cell(t.0, t.1).data,
    )
}

/// Probe one neighbor without mutating anything.
pub fn neighbor_accepts(world: &World, from: Vec2i, s: Direction, item: &Item) -> (r: bool)
    requires
        world.wf(),
        world.blocks_wf(),
        -0x4000_0000 <= from.x && from.x < 0x4000_0000,
        -0x4000_0000 <= from.y && from.y < 0x4000_0000,
    ensures
        r == spec_accepts(*world, from, s, *item),
{
    let target = from.add_directional(&s, 1);
    match world.get_block_at(target.x, target.y) {
        Some((blk, bmeta)) => {
            proof {
                lemma_spec_cell_wf(*world, target.x as int, target.y as int);
            }
            blk.can_push(s.opposite(), item, bmeta)
        },
        None => false,
    }
}

/// The three candidate output sides of a splitter, in scan order: left of the
/// facing, the facing, right of the facing.
pub open spec fn spec_splitter_sides(facing: Direction) -> Seq<Direction> {
    seq![spec_next(facing, false), facing, spec_next(facing, true)]
}

/// Round-robin selection: scan the three outputs starting at `last` (which is
/// already one slot after the previously chosen output); pick the first that
/// accepts. Returns the chosen index and the next scan start.
pub open spec fn spec_choose_output(last: int, accepts: Seq<bool>) -> Option<(int, int)> {
    if accepts[last % 3] {
        Some((last % 3, (last + 1) % 3))
    } else if accepts[(last + 1) % 3] {
        Some(((last + 1) % 3, (last + 2) % 3))
    } else if accepts[(last + 2) % 3] {
        Some(((last + 2) % 3, last % 3))
    } else {
        None
    }
}

/// Splitter fairness: with all three outputs accepting, three consecutive
/// selections starting from any scan position visit the left, forward and
/// right outputs exactly once each, in cyclic order from the start.
pub proof fn lemma_splitter_fairness(last: int)
    requires
        0 <= last < 3,
    ensures
        ({
            let all = seq![true, true, true];
            let c1 = spec_choose_output(last, all);
            c1 matches Some((k1, n1)) && {
                let c2 = spec_choose_output(n1, all);
                c2 matches Some((k2, n2)) && {
                    let c3 = spec_choose_output(n2, all);
                    c3 matches Some((k3, n3)) && k1 == last && k2 == (last + 1) % 3 && k3 == (last
                        + 2) % 3 && k1 != k2 && k2 != k3 && k1 != k3 && n3 == last
                }
            }
        }),
{
}

/// The acceptance of the splitter's three candidate outputs for an item.
pub open spec fn spec_splitter_accepts(w: World, meta: ChunkBlockMetadata, item: Item) -> Seq<bool> {
    Seq::new(
        3,
        |i: int| spec_accepts(w, meta.position, spec_splitter_sides(meta.direction)[i], item),
    )
}

/// What a splitter's direction decision does, as a relation between the
/// world before and after.
pub open spec fn spec_splitter_determine_rel(a: World, b: World, meta: ChunkBlockMetadata) -> bool {
    &&& b.wf()
    &&& b.blocks_wf()
    &&& crate::world::spec_world_unchanged_except(
    a,
    b,
    meta.position.x as int,
    meta.position.y as int,
    )
    &&& !a.spec_pos_loaded(meta.position.x as int, meta.position.y as int)
    ==> b == a
    &&& a.spec_pos_loaded(meta.position.x as int, meta.position.y as int) ==> {
    let cell0 = a.spec_cell(meta.position.x as int, meta.position.y as int);
    let cell1 = b.spec_cell(meta.position.x as int, meta.position.y as int);
    &&& cell1.data == cell0.data
    &&& match cell0.inner@ {
        BlockV::Splitter { last_reset, slots, is_player, last_output, chosen } => {
            match slots[0] {
                Some(item) => match spec_choose_output(
                    last_output as int,
                    spec_splitter_accepts(a, meta, item),
                ) {
                    Some((k, nl)) => cell1.inner@ == (BlockV::Splitter {
                        last_reset,
                        slots,
                        is_player,
                        last_output: nl as usize,
                        chosen: Some(spec_splitter_sides(meta.direction)[k]),
                    }),
                    None => cell1.inner@ == cell0.inner@,
                },
                None => cell1.inner@ == cell0.inner@,
            }
        },
        _ => cell1.inner@ == cell0.inner@,
    }
    }
}

/// Decide, lazily, which output the splitter's buffered item will leave
/// through: scan the three neighbors starting one after the last chosen
/// output, cache the first that currently accepts, and remember where the
/// next scan starts. Dispatch happens separately, so a neighbor that only
/// just became free is still seen next tick rather than being missed.
pub fn splitter_determine_direction(world: &mut World, meta: ChunkBlockMetadata)
    requires
        old(world).wf(),
        old(world).blocks_wf(),
    ensures
        spec_splitter_determine_rel(*old(world), *final(world), meta),
{
    let x = meta.position.x;
    let y = meta.position.y;
    let (ci, bi) = match world.locate(x, y) {
        None => {
            return ;
        },
        Some(p) => p,
    };
    proof {
        lemma_loaded_pos_bounds(*world, x as int, y as int);
        lemma_spec_cell_wf(*world, x as int, y as int);
    }
    let (lo, item) = match &world.chunks[ci].blocks[bi].inner {
        Block::Splitter { inv, last_output, .. } => {
            match inv.get_item(0) {
                Some(item) => (*last_output, item),
                None => {
                    return ;
                },
            }
        },
        _ => {
            return ;
        },
    };
    proof {
        assert(lo < 3);
    }
    let sides: [Direction; 3] = [
        meta.direction.next(false),
        meta.direction,
        meta.direction.next(true),
    ];
    proof {
        assert(sides@ =~= spec_splitter_sides(meta.direction));
    }
    let pos = Vec2i::new(x, y);
    let k0 = lo % 3;
    let k1 = (lo + 1) % 3;
    let k2 = (lo + 2) % 3;
    let (side, next_last): (Direction, usize) = if neighbor_accepts(world, pos, sides[k0], &item) {
        (sides[k0], (lo + 1) % 3)
    } else if neighbor_accepts(world, pos, sides[k1], &item) {
        (sides[k1], (lo + 2) % 3)
    } else if neighbor_accepts(world, pos, sides[k2], &item) {
        (sides[k2], lo % 3)
    } else {
        return ;
    };
    let ghost w0 = *world;
    let chunk = &mut world.chunks[ci];
    let cb = &mut chunk.blocks[bi];
    match &mut cb.inner {
        Block::Splitter { last_output, chosen, .. } => {
            *last_output = next_last;
            *chosen = Some(side);
        },
        _ => {},
    }
    proof {
        assert(world.chunks@ =~= w0.chunks@.update(ci as int, world.chunks@[ci as int]));
        assert(world.chunks@[ci as int].blocks@ =~= w0.chunks@[ci as int].blocks@.update(
            bi as int,
            world.chunks@[ci as int].blocks@[bi as int],
        ));
        crate::world::lemma_world_cell_update(w0, *world, x as int, y as int);
    }
}


/// Every cell except the two given reads the same in both worlds.
pub open spec fn spec_unchanged_except2(a: World, b: World, p1: (int, int), p2: (int, int)) -> bool {
    &&& b.w == a.w
    &&& b.h == a.h
    &&& b.startx == a.startx
    &&& b.starty == a.starty
    &&& forall|px: int, py: int| a.spec_pos_loaded(px, py) && !(px == p1.0 && py == p1.1) && !(px
        == p2.0 && py == p2.1) ==> #[trigger] b.spec_cell(px, py) == a.spec_cell(px, py)
}

/// Every cell except the three given reads the same in both worlds.
pub open spec fn spec_unchanged_except3(
    a: World,
    b: World,
    p1: (int, int),
    p2: (int, int),
    p3: (int, int),
) -> bool {
    &&& b.w == a.w
    &&& b.h == a.h
    &&& b.startx == a.startx
    &&& b.starty == a.starty
    &&& forall|px: int, py: int| a.spec_pos_loaded(px, py) && !(px == p1.0 && py == p1.1) && !(px
        == p2.0 && py == p2.1) && !(px == p3.0 && py == p3.1) ==> #[trigger] b.spec_cell(px, py)
        == a.spec_cell(px, py)
}

/// A block with its first buffer slot replaced (bufferless kinds unchanged).
pub open spec fn spec_with_slot0(b: BlockV, v: Option<Item>) -> BlockV {
    match b {
        BlockV::Empty => b,
        BlockV::ResourceNodeBrown => b,
        BlockV::StorageContainer { slots, is_player } => BlockV::StorageContainer {
            slots: slots.update(0, v),
            is_player,
        },
        BlockV::Extractor { last_reset, slots, is_player } => BlockV::Extractor {
            last_reset,
            slots: slots.update(0, v),
            is_player,
        },
        BlockV::Conveyor { last_reset, slots, is_player, incoming } => BlockV::Conveyor {
            last_reset,
            slots: slots.update(0, v),
            is_player,
            incoming,
        },
        BlockV::Splitter { last_reset, slots, is_player, last_output, chosen } => BlockV::Splitter {
            last_reset,
            slots: slots.update(0, v),
            is_player,
            last_output,
            chosen,
        },
        BlockV::Tunnel { last_reset, slots, is_player, move_dir, link } => BlockV::Tunnel {
            last_reset,
            slots: slots.update(0, v),
            is_player,
            move_dir,
            link,
        },
    }
}

/// Whether the block currently exposes its buffer to the world-update pass:
/// the timed movers only once their cooldown elapsed, a container or splitter
/// always, everything else never.
pub open spec fn spec_buffer_ready(b: BlockV, now: u64) -> bool {
    match b {
        BlockV::Extractor { .. } => spec_can_do_work(b, now),
        BlockV::Conveyor { .. } => spec_can_do_work(b, now),
        BlockV::Splitter { .. } => true,
        BlockV::StorageContainer { .. } => true,
        _ => false,
    }
}

/// Whether the block has a first buffer slot at all.
pub open spec fn spec_has_slot0(b: BlockV) -> bool {
    crate::blocks::spec_block_slots(b).len() > 0
}

/// Push an item into the cell at `(tx, ty)`, entering through `side`. Outside
/// the loaded rectangle the whole item comes straight back.
pub fn push_into(world: &mut World, tx: i32, ty: i32, side: Direction, item: Item, now: u64) -> (r:
    Option<Item>)
    requires
        old(world).wf(),
        old(world).blocks_wf(),
    ensures
        final(world).wf(),
        final(world).blocks_wf(),
        crate::world::spec_world_unchanged_except(
            *old(world),
            *final(world),
            tx as int,
            ty as int,
        ),
        if old(world).spec_pos_loaded(tx as int, ty as int) {
            let cell0 = old(world).spec_cell(tx as int, ty as int);
            let cell1 = final(world).spec_cell(tx as int, ty as int);
            &&& cell1.data == cell0.data
            &&& cell1.inner@ == spec_block_push(cell0.inner@, side, item, cell0.data, now).0
            &&& r == spec_block_push(cell0.inner@, side, item, cell0.data, now).1
        } else {
            r == Some(item) && *final(world) == *old(world)
        },
{
    let (ci, bi) = match world.locate(tx, ty) {
        None => {
            return Some(item);
        },
        Some(p) => p,
    };
    proof {
        lemma_spec_cell_wf(*world, tx as int, ty as int);
    }
    let ghost w0 = *world;
    let chunk = &mut world.chunks[ci];
    let cb = &mut chunk.blocks[bi];
    let meta = cb.data;
    let r = cb.inner.push(side, item, meta, now);
    proof {
        assert(world.chunks@ =~= w0.chunks@.update(ci as int, world.chunks@[ci as int]));
        assert(world.chunks@[ci as int].blocks@ =~= w0.chunks@[ci as int].blocks@.update(
            bi as int,
            world.chunks@[ci as int].blocks@[bi as int],
        ));
        crate::world::lemma_world_cell_update(w0, *world, tx as int, ty as int);
    }
    r
}

/// Take the item of the first buffer slot, if the block is ready and holds
/// one.
pub fn take_ready_buffer(world: &mut World, x: i32, y: i32, now: u64) -> (r: Option<Item>)
    requires
        old(world).wf(),
        old(world).blocks_wf(),
    ensures
        final(world).wf(),
        final(world).blocks_wf(),
        crate::world::spec_world_unchanged_except(
            *old(world),
            *final(world),
            x as int,
            y as int,
        ),
        if old(world).spec_pos_loaded(x as int, y as int) {
            let cell0 = old(world).spec_cell(x as int, y as int);
            let cell1 = final(world).spec_cell(x as int, y as int);
            let b0 = cell0.inner@;
            &&& cell1.data == cell0.data
            &&& if spec_buffer_ready(b0, now) && spec_has_slot0(b0)
                && crate::blocks::spec_block_slots(b0)[0] is Some {
                r == crate::blocks::spec_block_slots(b0)[0] && cell1.inner@ == spec_with_slot0(
                    b0,
                    None,
                )
            } else {
                r is None && cell1.inner@ == b0
            }
        } else {
            r is None && *final(world) == *old(world)
        },
{
    let (ci, bi) = match world.locate(x, y) {
        None => {
            return None;
        },
        Some(p) => p,
    };
    proof {
        lemma_spec_cell_wf(*world, x as int, y as int);
    }
    let ghost w0 = *world;
    let chunk = &mut world.chunks[ci];
    let cb = &mut chunk.blocks[bi];
    let ready = match &cb.inner {
        Block::Extractor { .. } => cb.inner.can_do_work(now),
        Block::Conveyor { .. } => cb.inner.can_do_work(now),
        Block::Splitter { .. } => true,
        Block::StorageContainer { .. } => true,
        _ => false,
    };
    let r: Option<Item> = if ready {
        match &mut cb.inner {
            Block::StorageContainer { inv } => inv.take_item(0),
            Block::Extractor { inv, .. } => inv.take_item(0),
            Block::Conveyor { inv, .. } => inv.take_item(0),
            Block::Splitter { inv, .. } => inv.take_item(0),
            _ => None,
        }
    } else {
        None
    };
    proof {
        assert(world.chunks@ =~= w0.chunks@.update(ci as int, world.chunks@[ci as int]));
        assert(world.chunks@[ci as int].blocks@ =~= w0.chunks@[ci as int].blocks@.update(
            bi as int,
            world.chunks@[ci as int].blocks@[bi as int],
        ));
        crate::world::lemma_world_cell_update(w0, *world, x as int, y as int);
        let b0 = w0.spec_cell(x as int, y as int).inner@;
        if spec_has_slot0(b0) && crate::blocks::spec_block_slots(b0)[0] is None {
            assert(crate::blocks::spec_block_slots(b0).update(0, None::<Item>)
                =~= crate::blocks::spec_block_slots(b0));
        }
    }
    r
}

/// Deposit an item back into the first buffer slot under the one-slot stacking
/// rule, if the block is ready; the leftover comes back.
pub fn store_buffer(world: &mut World, x: i32, y: i32, item: Item, now: u64) -> (r: Option<Item>)
    requires
        old(world).wf(),
        old(world).blocks_wf(),
    ensures
        final(world).wf(),
        final(world).blocks_wf(),
        crate::world::spec_world_unchanged_except(
            *old(world),
            *final(world),
            x as int,
            y as int,
        ),
        if old(world).spec_pos_loaded(x as int, y as int) {
            let cell0 = old(world).spec_cell(x as int, y as int);
            let cell1 = final(world).spec_cell(x as int, y as int);
            let b0 = cell0.inner@;
            &&& cell1.data == cell0.data
            &&& if spec_buffer_ready(b0, now) && spec_has_slot0(b0) {
                let step = crate::inventory::spec_add_item(
                    crate::blocks::spec_block_slots(b0),
                    item,
                    0,
                );
                cell1.inner@ == spec_with_slot0(b0, step.0[0]) && r == step.1
            } else {
                r == Some(item) && cell1.inner@ == b0
            }
        } else {
            r == Some(item) && *final(world) == *old(world)
        },
{
    let (ci, bi) = match world.locate(x, y) {
        None => {
            return Some(item);
        },
        Some(p) => p,
    };
    proof {
        lemma_spec_cell_wf(*world, x as int, y as int);
    }
    let ghost w0 = *world;
    let chunk = &mut world.chunks[ci];
    let cb = &mut chunk.blocks[bi];
    let ready = match &cb.inner {
        Block::Extractor { .. } => cb.inner.can_do_work(now),
        Block::Conveyor { .. } => cb.inner.can_do_work(now),
        Block::Splitter { .. } => true,
        Block::StorageContainer { .. } => true,
        _ => false,
    };
    let r: Option<Item> = if ready {
        match &mut cb.inner {
            Block::StorageContainer { inv } => inv.add_item(item, 0),
            Block::Extractor { inv, .. } => inv.add_item(item, 0),
            Block::Conveyor { inv, .. } => inv.add_item(item, 0),
            Block::Splitter { inv, .. } => inv.add_item(item, 0),
            _ => Some(item),
        }
    } else {
        Some(item)
    };
    proof {
        assert(world.chunks@ =~= w0.chunks@.update(ci as int, world.chunks@[ci as int]));
        assert(world.chunks@[ci as int].blocks@ =~= w0.chunks@[ci as int].blocks@.update(
            bi as int,
            world.chunks@[ci as int].blocks@[bi as int],
        ));
        crate::world::lemma_world_cell_update(w0, *world, x as int, y as int);
        let b0 = w0.spec_cell(x as int, y as int).inner@;
        if spec_has_slot0(b0) {
            let step = crate::inventory::spec_add_item(
                crate::blocks::spec_block_slots(b0),
                item,
                0,
            );
            assert(step.0 =~= crate::blocks::spec_block_slots(b0).update(0, step.0[0]));
        }
    }
    r
}


/// The forward neighbor's push result for an item leaving `from` along `d`,
/// and what comes back to the mover: outside the loaded rectangle the whole
/// item returns.
pub open spec fn spec_forward_push(w: World, from: Vec2i, d: Direction, item: Item, now: u64) -> (
    BlockV,
    Option<Item>,
) {
    let t = spec_add_directional(from, d, 1);
    if w.spec_pos_loaded(t.0, t.1) {
        let pr = spec_block_push(
            w.spec_cell(t.0, t.1).inner@,
            spec_opposite(d),
            item,
            w.spec_cell(t.0, t.1).data,
            now,
        );
        (pr.0, pr.1)
    } else {
        (BlockV::Empty, Some(item))
    }
}

/// What a belt's deferred update does, as a relation between the world
/// before and after.
pub open spec fn spec_conveyor_update_rel(a: World, b: World, meta: ChunkBlockMetadata, now: u64) -> bool {
    &&& b.wf()
    &&& b.blocks_wf()
    &&& spec_unchanged_except2(
    a,
    b,
    (meta.position.x as int, meta.position.y as int),
    spec_add_directional(meta.position, meta.direction, 1),
    )
    &&& !a.spec_pos_loaded(meta.position.x as int, meta.position.y as int)
    ==> b == a
    &&& a.spec_pos_loaded(meta.position.x as int, meta.position.y as int) ==> {
    let x = meta.position.x as int;
    let y = meta.position.y as int;
    let cell0 = a.spec_cell(x, y);
    let cell1 = b.spec_cell(x, y);
    let b0 = cell0.inner@;
    &&& cell1.data == cell0.data
    &&& if spec_buffer_ready(b0, now) && spec_has_slot0(b0)
        && crate::blocks::spec_block_slots(b0)[0] is Some {
        let item = crate::blocks::spec_block_slots(b0)[0].unwrap();
        let t = spec_add_directional(meta.position, meta.direction, 1);
        if spec_accepts(a, meta.position, meta.direction, item)
            && spec_has_capability_forward(a, meta.position, meta.direction) {
            let pr = spec_forward_push(a, meta.position, meta.direction, item, now);
            &&& cell1.inner@ == spec_with_slot0(b0, pr.1)
            &&& b.spec_cell(t.0, t.1).inner@ == pr.0
            &&& b.spec_cell(t.0, t.1).data == a.spec_cell(
                t.0,
                t.1,
            ).data
        } else {
            &&& cell1.inner@ == b0
            &&& (a.spec_pos_loaded(t.0, t.1) ==> b.spec_cell(t.0, t.1)
                == a.spec_cell(t.0, t.1))
        }
    } else {
        cell1.inner@ == b0
    }
    }
}

/// A belt's deferred update: once its cooldown elapsed and it holds an item,
/// offer the item to the forward neighbor through the neighbor's facing side
/// (the opposite of the belt's own facing), but only if that neighbor has the
/// static capability and currently accepts; whatever comes back — the whole
/// item on refusal, or the surplus of a partial acceptance — stays in the
/// belt's buffer.
pub fn conveyor_update(world: &mut World, meta: ChunkBlockMetadata, now: u64)
    requires
        old(world).wf(),
        old(world).blocks_wf(),
    ensures
        spec_conveyor_update_rel(*old(world), *final(world), meta, now),
{
    let x = meta.position.x;
    let y = meta.position.y;
    match world.locate(x, y) {
        None => {
            return ;
        },
        Some(_) => {},
    }
    proof {
        lemma_loaded_pos_bounds(*world, x as int, y as int);
    }
    let ghost w0 = *world;
    let item = match take_ready_buffer(world, x, y, now) {
        None => {
            return ;
        },
        Some(it) => it,
    };
    let pos = Vec2i::new(x, y);
    let target = pos.add_directional(&meta.direction, 1);
    proof {
        assert(!(target.x == x && target.y == y));
        assert(world.spec_pos_loaded(target.x as int, target.y as int) == w0.spec_pos_loaded(
            target.x as int,
            target.y as int,
        ));
        if w0.spec_pos_loaded(target.x as int, target.y as int) {
            assert(world.spec_cell(target.x as int, target.y as int) == w0.spec_cell(
                target.x as int,
                target.y as int,
            ));
        }
    }
    let push_dir = meta.direction.opposite();
    let accepted = match world.get_block_at(target.x, target.y) {
        Some((blk, bmeta)) => {
            proof {
                lemma_spec_cell_wf(*world, target.x as int, target.y as int);
            }
            blk.has_capability_push(push_dir, bmeta) && blk.can_push(push_dir, &item, bmeta)
        },
        None => false,
    };
    let ghost w1 = *world;
    let back: Item;
    if accepted {
        match push_into(world, target.x, target.y, push_dir, item, now) {
            None => {
                return ;
            },
            Some(left) => {
                back = left;
            },
        }
    } else {
        back = item;
    }
    let ghost w2 = *world;
    proof {
        assert(w2.spec_cell(x as int, y as int) == w1.spec_cell(x as int, y as int));
        lemma_restore_ready(w0, w2, x as int, y as int, now);
    }
    let _ = store_buffer(world, x, y, back, now);
    proof {
        let b0 = w0.spec_cell(x as int, y as int).inner@;
        let b2 = w2.spec_cell(x as int, y as int).inner@;
        assert(b2 == spec_with_slot0(b0, None::<Item>));
        let slots2 = crate::blocks::spec_block_slots(b2);
        assert(slots2[0] is None);
        let step = crate::inventory::spec_add_item(slots2, back, 0);
        assert(step == (slots2.update(0, Some(back)), None::<Item>));
        assert(world.spec_cell(x as int, y as int).inner@ == spec_with_slot0(b2, Some(back)));
        assert(spec_with_slot0(b2, Some(back)) == spec_with_slot0(b0, Some(back))) by {
            assert(crate::blocks::spec_block_slots(b0).update(0, None::<Item>).update(
                0,
                Some(back),
            ) =~= crate::blocks::spec_block_slots(b0).update(0, Some(back)));
        }
        if !accepted {
            assert(crate::blocks::spec_block_slots(b0).update(
                0,
                crate::blocks::spec_block_slots(b0)[0],
            ) =~= crate::blocks::spec_block_slots(b0));
        }
    }
}

/// Whether the forward neighbor has the static capability to ever accept
/// through the mover's exit.
pub open spec fn spec_has_capability_forward(w: World, from: Vec2i, d: Direction) -> bool {
    let t = spec_add_directional(from, d, 1);
    &&& w.spec_pos_loaded(t.0, t.1)
    &&& crate::blocks::spec_has_capability_push(
        w.spec_cell(t.0, t.1).inner@,
        spec_opposite(d),
        w.spec_cell(t.0, t.1).data,
    )
}

/// The ready gate only reads the timer and kind, which taking or pushing a
/// buffered item never changes.
proof fn lemma_restore_ready(a: World, b: World, x: int, y: int, now: u64)
    requires
        a.wf(),
        b.wf(),
        a.spec_pos_loaded(x, y),
        b.spec_pos_loaded(x, y),
        a.w == b.w && a.h == b.h && a.startx == b.startx && a.starty == b.starty,
        b.spec_cell(x, y).inner@ == spec_with_slot0(a.spec_cell(x, y).inner@, None::<Item>),
        spec_buffer_ready(a.spec_cell(x, y).inner@, now),
        spec_has_slot0(a.spec_cell(x, y).inner@),
    ensures
        spec_buffer_ready(b.spec_cell(x, y).inner@, now),
        spec_has_slot0(b.spec_cell(x, y).inner@),
        crate::blocks::spec_block_slots(b.spec_cell(x, y).inner@)[0] is None,
{
}


/// What a splitter's dispatch does, as a relation between the world before
/// and after.
pub open spec fn spec_splitter_dispatch_rel(a: World, b: World, meta: ChunkBlockMetadata, now: u64) -> bool {
    &&& b.wf()
    &&& b.blocks_wf()
    &&& a.spec_pos_loaded(meta.position.x as int, meta.position.y as int) ==> {
    let x = meta.position.x as int;
    let y = meta.position.y as int;
    let cell0 = a.spec_cell(x, y);
    let cell1 = b.spec_cell(x, y);
    &&& cell1.data == cell0.data
    &&& match cell0.inner@ {
        BlockV::Splitter { last_reset, slots, is_player, last_output, chosen } => {
            match chosen {
                Some(d) => {
                    let t = spec_add_directional(meta.position, d, 1);
                    &&& spec_unchanged_except2(
                        a,
                        b,
                        (x, y),
                        t,
                    )
                    &&& match slots[0] {
                        Some(item) => {
                            let pr = spec_forward_push(
                                a,
                                meta.position,
                                d,
                                item,
                                now,
                            );
                            &&& cell1.inner@ == (BlockV::Splitter {
                                last_reset,
                                slots: slots.update(0, pr.1),
                                is_player,
                                last_output,
                                chosen: None,
                            })
                            &&& (a.spec_pos_loaded(t.0, t.1)
                                ==> b.spec_cell(t.0, t.1).inner@ == pr.0
                                    && b.spec_cell(t.0, t.1).data
                                    == a.spec_cell(t.0, t.1).data)
                        },
                        None => cell1.inner@ == cell0.inner@,
                    }
                },
                None => cell1.inner@ == cell0.inner@ && crate::world::spec_world_unchanged_except(
                    a,
                    b,
                    x,
                    y,
                ),
            }
        },
        _ => cell1.inner@ == cell0.inner@ && crate::world::spec_world_unchanged_except(
            a,
            b,
            x,
            y,
        ),
    }
    }
    &&& !a.spec_pos_loaded(meta.position.x as int, meta.position.y as int)
    ==> b == a
}

/// A splitter's dispatch: once its cooldown elapsed and a direction was
/// chosen, send the buffered item out through that side, forget the choice,
/// and keep whatever came back.
pub fn splitter_dispatch(world: &mut World, meta: ChunkBlockMetadata, now: u64)
    requires
        old(world).wf(),
        old(world).blocks_wf(),
    ensures
        spec_splitter_dispatch_rel(*old(world), *final(world), meta, now),
{
    let x = meta.position.x;
    let y = meta.position.y;
    let (ci, bi) = match world.locate(x, y) {
        None => {
            return ;
        },
        Some(p) => p,
    };
    proof {
        lemma_loaded_pos_bounds(*world, x as int, y as int);
        lemma_spec_cell_wf(*world, x as int, y as int);
    }
    let d = match &world.chunks[ci].blocks[bi].inner {
        Block::Splitter { chosen, .. } => {
            match chosen {
                Some(d) => *d,
                None => {
                    return ;
                },
            }
        },
        _ => {
            return ;
        },
    };
    let ghost w0 = *world;
    let item = match take_ready_buffer(world, x, y, now) {
        None => {
            return ;
        },
        Some(it) => it,
    };
    // Forget the cached choice before dispatching.
    let ghost w1 = *world;
    {
        let chunk = &mut world.chunks[ci];
        let cb = &mut chunk.blocks[bi];
        match &mut cb.inner {
            Block::Splitter { chosen, .. } => {
                *chosen = None;
            },
            _ => {},
        }
        proof {
            assert(world.chunks@ =~= w1.chunks@.update(ci as int, world.chunks@[ci as int]));
            assert(world.chunks@[ci as int].blocks@ =~= w1.chunks@[ci as int].blocks@.update(
                bi as int,
                world.chunks@[ci as int].blocks@[bi as int],
            ));
            crate::world::lemma_world_cell_update(w1, *world, x as int, y as int);
        }
    }
    let pos = Vec2i::new(x, y);
    let target = pos.add_directional(&d, 1);
    proof {
        assert(!(target.x == x && target.y == y));
        assert(world.spec_pos_loaded(target.x as int, target.y as int) == w0.spec_pos_loaded(
            target.x as int,
            target.y as int,
        ));
        if w0.spec_pos_loaded(target.x as int, target.y as int) {
            assert(world.spec_cell(target.x as int, target.y as int) == w0.spec_cell(
                target.x as int,
                target.y as int,
            ));
        }
    }
    let back: Item;
    match push_into(world, target.x, target.y, d.opposite(), item, now) {
        None => {
            return ;
        },
        Some(left) => {
            back = left;
        },
    }
    let ghost w2 = *world;
    let _ = store_buffer(world, x, y, back, now);
    proof {
        let b0 = w0.spec_cell(x as int, y as int).inner@;
        let b2 = w2.spec_cell(x as int, y as int).inner@;
        let slots2 = crate::blocks::spec_block_slots(b2);
        assert(slots2[0] is None);
        assert(world.spec_cell(x as int, y as int).inner@ == spec_with_slot0(b2, Some(back)));
        assert(crate::blocks::spec_block_slots(b0).update(0, None::<Item>).update(
            0,
            Some(back),
        ) =~= crate::blocks::spec_block_slots(b0).update(0, Some(back)));
    }
}


/// Pull up to `num` units out of the cell at `(x, y)` through `side`. Outside
/// the loaded rectangle nothing comes.
pub fn pull_from(
    world: &mut World,
    reg: &Registry,
    x: i32,
    y: i32,
    side: Direction,
    num: u32,
) -> (r: Option<Item>)
    requires
        old(world).wf(),
        old(world).blocks_wf(),
        reg.wf(),
    ensures
        final(world).wf(),
        final(world).blocks_wf(),
        crate::world::spec_world_unchanged_except(
            *old(world),
            *final(world),
            x as int,
            y as int,
        ),
        if old(world).spec_pos_loaded(x as int, y as int) {
            let cell0 = old(world).spec_cell(x as int, y as int);
            let cell1 = final(world).spec_cell(x as int, y as int);
            let pr = crate::blocks::spec_block_pull(cell0.inner@, reg@, side, cell0.data, num);
            &&& cell1.data == cell0.data
            &&& cell1.inner@ == pr.0
            &&& r == pr.1
        } else {
            r is None && *final(world) == *old(world)
        },
{
    let (ci, bi) = match world.locate(x, y) {
        None => {
            return None;
        },
        Some(p) => p,
    };
    proof {
        lemma_spec_cell_wf(*world, x as int, y as int);
    }
    let ghost w0 = *world;
    let chunk = &mut world.chunks[ci];
    let cb = &mut chunk.blocks[bi];
    let meta = cb.data;
    let r = cb.inner.pull(reg, side, meta, num);
    proof {
        assert(world.chunks@ =~= w0.chunks@.update(ci as int, world.chunks@[ci as int]));
        assert(world.chunks@[ci as int].blocks@ =~= w0.chunks@[ci as int].blocks@.update(
            bi as int,
            world.chunks@[ci as int].blocks@[bi as int],
        ));
        crate::world::lemma_world_cell_update(w0, *world, x as int, y as int);
    }
    r
}

/// An extractor's intake: once its cooldown elapsed and its single slot is
/// empty, pull one unit out of the block directly behind it (through that
/// block's side facing the extractor) and start a fresh cooldown.
pub fn extractor_update_pull(world: &mut World, reg: &Registry, meta: ChunkBlockMetadata, now: u64)
    requires
        old(world).wf(),
        old(world).blocks_wf(),
        reg.wf(),
    ensures
        final(world).wf(),
        final(world).blocks_wf(),
        spec_unchanged_except2(
            *old(world),
            *final(world),
            (meta.position.x as int, meta.position.y as int),
            spec_add_directional(meta.position, meta.direction, -1),
        ),
        old(world).spec_pos_loaded(meta.position.x as int, meta.position.y as int) ==> {
            let x = meta.position.x as int;
            let y = meta.position.y as int;
            let cell0 = old(world).spec_cell(x, y);
            let cell1 = final(world).spec_cell(x, y);
            let t = spec_add_directional(meta.position, meta.direction, -1);
            &&& cell1.data == cell0.data
            &&& match cell0.inner@ {
                BlockV::Extractor { last_reset, slots, is_player } => {
                    if spec_can_do_work(cell0.inner@, now) && slots[0] is None
                        && old(world).spec_pos_loaded(t.0, t.1)
                        && crate::blocks::spec_block_can_pull(
                        old(world).spec_cell(t.0, t.1).inner@,
                        spec_opposite(meta.direction),
                        old(world).spec_cell(t.0, t.1).data,
                    ) {
                        let pr = crate::blocks::spec_block_pull(
                            old(world).spec_cell(t.0, t.1).inner@,
                            reg@,
                            spec_opposite(meta.direction),
                            old(world).spec_cell(t.0, t.1).data,
                            1,
                        );
                        &&& final(world).spec_cell(t.0, t.1).inner@ == pr.0
                        &&& final(world).spec_cell(t.0, t.1).data == old(world).spec_cell(
                            t.0,
                            t.1,
                        ).data
                        &&& match pr.1 {
                            Some(item) => cell1.inner@ == (BlockV::Extractor {
                                last_reset: now,
                                slots: slots.update(0, Some(item)),
                                is_player,
                            }),
                            None => cell1.inner@ == cell0.inner@,
                        }
                    } else {
                        cell1.inner@ == cell0.inner@ && crate::world::spec_world_unchanged_except(
                            *old(world),
                            *final(world),
                            x,
                            y,
                        )
                    }
                },
                _ => cell1.inner@ == cell0.inner@ && crate::world::spec_world_unchanged_except(
                    *old(world),
                    *final(world),
                    x,
                    y,
                ),
            }
        },
        !old(world).spec_pos_loaded(meta.position.x as int, meta.position.y as int)
            ==> *final(world) == *old(world),
{
    let x = meta.position.x;
    let y = meta.position.y;
    let (ci, bi) = match world.locate(x, y) {
        None => {
            return ;
        },
        Some(p) => p,
    };
    proof {
        lemma_loaded_pos_bounds(*world, x as int, y as int);
        lemma_spec_cell_wf(*world, x as int, y as int);
    }
    let proceed = match &world.chunks[ci].blocks[bi].inner {
        Block::Extractor { inv, .. } => {
            world.chunks[ci].blocks[bi].inner.can_do_work(now) && inv.get_item(0).is_none()
        },
        _ => false,
    };
    if !proceed {
        return ;
    }
    let behind = Vec2i::new(x, y).add_directional(&meta.direction, -1);
    proof {
        assert(!(behind.x == x && behind.y == y));
    }
    let can = match world.get_block_at(behind.x, behind.y) {
        Some((blk, bmeta)) => blk.can_pull(meta.direction.opposite(), bmeta),
        None => false,
    };
    if !can {
        return ;
    }
    let ghost w0 = *world;
    let item = match pull_from(world, reg, behind.x, behind.y, meta.direction.opposite(), 1) {
        None => {
            return ;
        },
        Some(it) => it,
    };
    let ghost w1 = *world;
    let chunk = &mut world.chunks[ci];
    let cb = &mut chunk.blocks[bi];
    match &mut cb.inner {
        Block::Extractor { last_reset, inv } => {
            *last_reset = now;
            inv.set_item(0, Some(item));
        },
        _ => {},
    }
    proof {
        assert(world.chunks@ =~= w1.chunks@.update(ci as int, world.chunks@[ci as int]));
        assert(world.chunks@[ci as int].blocks@ =~= w1.chunks@[ci as int].blocks@.update(
            bi as int,
            world.chunks@[ci as int].blocks@[bi as int],
        ));
        crate::world::lemma_world_cell_update(w1, *world, x as int, y as int);
    }
}

/// An extractor's output: take the buffered item (only once the cooldown
/// elapsed) and offer it to the block ahead, through that block's side facing
/// the extractor; whatever comes back stays in the slot.
pub fn extractor_update_push(world: &mut World, meta: ChunkBlockMetadata, now: u64)
    requires
        old(world).wf(),
        old(world).blocks_wf(),
    ensures
        final(world).wf(),
        final(world).blocks_wf(),
        spec_unchanged_except2(
            *old(world),
            *final(world),
            (meta.position.x as int, meta.position.y as int),
            spec_add_directional(meta.position, meta.direction, 1),
        ),
        !old(world).spec_pos_loaded(meta.position.x as int, meta.position.y as int)
            ==> *final(world) == *old(world),
        old(world).spec_pos_loaded(meta.position.x as int, meta.position.y as int) ==> {
            let x = meta.position.x as int;
            let y = meta.position.y as int;
            let cell0 = old(world).spec_cell(x, y);
            let cell1 = final(world).spec_cell(x, y);
            let b0 = cell0.inner@;
            &&& cell1.data == cell0.data
            &&& if spec_buffer_ready(b0, now) && spec_has_slot0(b0)
                && crate::blocks::spec_block_slots(b0)[0] is Some {
                let item = crate::blocks::spec_block_slots(b0)[0].unwrap();
                let t = spec_add_directional(meta.position, meta.direction, 1);
                let pr = spec_forward_push(*old(world), meta.position, meta.direction, item, now);
                &&& cell1.inner@ == spec_with_slot0(b0, pr.1)
                &&& (old(world).spec_pos_loaded(t.0, t.1) ==> final(world).spec_cell(t.0, t.1).inner@
                    == pr.0 && final(world).spec_cell(t.0, t.1).data == old(world).spec_cell(
                    t.0,
                    t.1,
                ).data)
            } else {
                cell1.inner@ == b0
            }
        },
{
    let x = meta.position.x;
    let y = meta.position.y;
    match world.locate(x, y) {
        None => {
            return ;
        },
        Some(_) => {},
    }
    proof {
        lemma_loaded_pos_bounds(*world, x as int, y as int);
    }
    let ghost w0 = *world;
    let item = match take_ready_buffer(world, x, y, now) {
        None => {
            return ;
        },
        Some(it) => it,
    };
    let pos = Vec2i::new(x, y);
    let target = pos.add_directional(&meta.direction, 1);
    proof {
        assert(!(target.x == x && target.y == y));
        assert(world.spec_pos_loaded(target.x as int, target.y as int) == w0.spec_pos_loaded(
            target.x as int,
            target.y as int,
        ));
        if w0.spec_pos_loaded(target.x as int, target.y as int) {
            assert(world.spec_cell(target.x as int, target.y as int) == w0.spec_cell(
                target.x as int,
                target.y as int,
            ));
        }
    }
    let back: Item;
    match push_into(world, target.x, target.y, meta.direction.opposite(), item, now) {
        None => {
            return ;
        },
        Some(left) => {
            back = left;
        },
    }
    let ghost w2 = *world;
    proof {
        assert(w2.spec_cell(x as int, y as int) == *&world.spec_cell(x as int, y as int));
        lemma_restore_ready(w0, w2, x as int, y as int, now);
    }
    let _ = store_buffer(world, x, y, back, now);
    proof {
        let b0 = w0.spec_cell(x as int, y as int).inner@;
        let b2 = w2.spec_cell(x as int, y as int).inner@;
        assert(world.spec_cell(x as int, y as int).inner@ == spec_with_slot0(b2, Some(back)));
        assert(spec_with_slot0(b2, Some(back)) == spec_with_slot0(b0, Some(back))) by {
            assert(crate::blocks::spec_block_slots(b0).update(0, None::<Item>).update(
                0,
                Some(back),
            ) =~= crate::blocks::spec_block_slots(b0).update(0, Some(back)));
        }
    }
}

/// What an extractor tick does, as a relation between the world before and
/// after: the exact behavior of the two phases is stated on
/// `extractor_update_pull` and `extractor_update_push`.
pub open spec fn spec_extractor_update_rel(a: World, b: World, meta: ChunkBlockMetadata, now: u64) -> bool {
    &&& b.wf()
    &&& b.blocks_wf()
    &&& spec_unchanged_except3(
    a,
    b,
    (meta.position.x as int, meta.position.y as int),
    spec_add_directional(meta.position, meta.direction, -1),
    spec_add_directional(meta.position, meta.direction, 1),
    )
    &&& !a.spec_pos_loaded(meta.position.x as int, meta.position.y as int)
    ==> b == a
}

/// One extractor tick: pull from behind, then push ahead. Both phases touch
/// only the extractor and its two axis neighbors.
pub fn extractor_update(world: &mut World, reg: &Registry, meta: ChunkBlockMetadata, now: u64)
    requires
        old(world).wf(),
        old(world).blocks_wf(),
        reg.wf(),
    ensures
        spec_extractor_update_rel(*old(world), *final(world), meta, now),
{
    extractor_update_pull(world, reg, meta, now);
    extractor_update_push(world, meta, now);
}


/// What a tunnel hop does, as a relation between the world before and
/// after.
pub open spec fn spec_tunnel_update_rel(a: World, b: World, meta: ChunkBlockMetadata, now: u64) -> bool {
    &&& b.wf()
    &&& b.blocks_wf()
    &&& !a.spec_pos_loaded(meta.position.x as int, meta.position.y as int)
    ==> b == a
    &&& a.spec_pos_loaded(meta.position.x as int, meta.position.y as int) ==> {
    let x = meta.position.x as int;
    let y = meta.position.y as int;
    let cell0 = a.spec_cell(x, y);
    let cell1 = b.spec_cell(x, y);
    &&& cell1.data == cell0.data
    &&& match cell0.inner@ {
        BlockV::Tunnel { last_reset, slots, is_player, move_dir, link } => {
            if !spec_can_do_work(cell0.inner@, now) || slots[0] is None {
                cell1.inner@ == cell0.inner@ && crate::world::spec_world_unchanged_except(
                    a,
                    b,
                    x,
                    y,
                )
            } else {
                let item = slots[0].unwrap();
                match link {
                    TunnelType::Unlinked => cell1.inner@ == cell0.inner@
                        && crate::world::spec_world_unchanged_except(
                        a,
                        b,
                        x,
                        y,
                    ),
                    TunnelType::Pushing(v) => {
                        &&& spec_unchanged_except2(
                            a,
                            b,
                            (x, y),
                            (v.x as int, v.y as int),
                        )
                        &&& if v.x as int == x && v.y as int == y {
                            // A self-linked end sees its own slot,
                            // just emptied, accept the item back.
                            cell1.inner@ == (BlockV::Tunnel {
                                last_reset: now,
                                slots,
                                is_player,
                                move_dir,
                                link,
                            })
                        } else if a.spec_pos_loaded(v.x as int, v.y as int) && a.spec_cell(v.x as int, v.y as int).inner@ is Tunnel {
                            let other0 = a.spec_cell(v.x as int, v.y as int);
                            match other0.inner@ {
                                BlockV::Tunnel {
                                    last_reset: olr,
                                    slots: oslots,
                                    is_player: op,
                                    move_dir: omd,
                                    link: olink,
                                } => {
                                    if oslots[0] is None {
                                        &&& cell1.inner@ == spec_with_slot0(
                                            cell0.inner@,
                                            None,
                                        )
                                        &&& b.spec_cell(
                                            v.x as int,
                                            v.y as int,
                                        ).inner@ == (BlockV::Tunnel {
                                            last_reset: now,
                                            slots: oslots.update(0, Some(item)),
                                            is_player: op,
                                            move_dir: omd,
                                            link: olink,
                                        })
                                    } else {
                                        &&& cell1.inner@ == cell0.inner@
                                        &&& b.spec_cell(
                                            v.x as int,
                                            v.y as int,
                                        ).inner@ == other0.inner@
                                    }
                                },
                                _ => false,
                            }
                        } else {
                            cell1.inner@ == (BlockV::Tunnel {
                                last_reset,
                                slots,
                                is_player,
                                move_dir,
                                link: TunnelType::Unlinked,
                            })
                        }
                    },
                    TunnelType::Receiving(_) => {
                        let t = spec_add_directional(meta.position, meta.direction, 1);
                        let pr = spec_forward_push(
                            a,
                            meta.position,
                            meta.direction,
                            item,
                            now,
                        );
                        &&& spec_unchanged_except2(a, b, (x, y), t)
                        &&& cell1.inner@ == spec_with_slot0(cell0.inner@, pr.1)
                        &&& (a.spec_pos_loaded(t.0, t.1)
                            ==> b.spec_cell(t.0, t.1).inner@ == pr.0
                                && b.spec_cell(t.0, t.1).data
                                == a.spec_cell(t.0, t.1).data)
                    },
                }
            }
        },
        _ => cell1.inner@ == cell0.inner@ && crate::world::spec_world_unchanged_except(
            a,
            b,
            x,
            y,
        ),
    }
    }
}

/// A tunnel's deferred update, once its cooldown elapsed. A pushing end hands
/// its buffered item to the linked receiving end (which starts its own
/// cooldown); if the link no longer points at a tunnel the end reverts to
/// unlinked and keeps the item. A receiving end ejects its item forward like
/// a belt, keeping whatever comes back.
#[verifier::rlimit(100)]
pub fn tunnel_update(world: &mut World, meta: ChunkBlockMetadata, now: u64)
    requires
        old(world).wf(),
        old(world).blocks_wf(),
    ensures
        spec_tunnel_update_rel(*old(world), *final(world), meta, now),
{
    let x = meta.position.x;
    let y = meta.position.y;
    let (ci, bi) = match world.locate(x, y) {
        None => {
            return ;
        },
        Some(p) => p,
    };
    proof {
        lemma_loaded_pos_bounds(*world, x as int, y as int);
        lemma_spec_cell_wf(*world, x as int, y as int);
    }
    let (link, has_item) = match &world.chunks[ci].blocks[bi].inner {
        Block::Tunnel { link, inv, .. } => (*link, inv.get_item(0).is_some()),
        _ => {
            return ;
        },
    };
    if !world.chunks[ci].blocks[bi].inner.can_do_work(now) {
        return ;
    }
    if !has_item {
        return ;
    }
    match link {
        TunnelType::Unlinked => {
            return ;
        },
        TunnelType::Pushing(v) => {
            let ghost w0 = *world;
            // Take the item out of the pushing end.
            let item: Item;
            {
                let chunk = &mut world.chunks[ci];
                let cb = &mut chunk.blocks[bi];
                let taken = match &mut cb.inner {
                    Block::Tunnel { inv, .. } => inv.take_item(0),
                    _ => None,
                };
                item = match taken {
                    Some(it) => it,
                    None => {
                        return ;
                    },
                };
                proof {
                    assert(world.chunks@ =~= w0.chunks@.update(
                        ci as int,
                        world.chunks@[ci as int],
                    ));
                    assert(world.chunks@[ci as int].blocks@ =~= w0.chunks@[
                        ci as int
                    ].blocks@.update(bi as int, world.chunks@[ci as int].blocks@[bi as int]));
                    crate::world::lemma_world_cell_update(w0, *world, x as int, y as int);
                }
            }
            // Hand it to the linked end, if that is still a free tunnel.
            let other_state: u8 = match world.get_block_at(v.x, v.y) {
                Some((blk, _)) => match blk {
                    Block::Tunnel { inv, .. } => if inv.get_item(0).is_none() {
                        0
                    } else {
                        1
                    },
                    _ => 2,
                },
                None => 2,
            };
            if other_state == 0 {
                if v.x == x && v.y == y {
                    // A self-link cannot hold an item we just removed and
                    // accept it again; restore and bail out.
                    let ghost w1 = *world;
                    let chunk = &mut world.chunks[ci];
                    let cb = &mut chunk.blocks[bi];
                    match &mut cb.inner {
                        Block::Tunnel { last_reset, inv, .. } => {
                            *last_reset = now;
                            inv.set_item(0, Some(item));
                        },
                        _ => {},
                    }
                    proof {
                        assert(world.chunks@ =~= w1.chunks@.update(
                            ci as int,
                            world.chunks@[ci as int],
                        ));
                        assert(world.chunks@[ci as int].blocks@ =~= w1.chunks@[
                            ci as int
                        ].blocks@.update(bi as int, world.chunks@[ci as int].blocks@[bi as int]));
                        crate::world::lemma_world_cell_update(w1, *world, x as int, y as int);
                        let b0 = w0.spec_cell(x as int, y as int).inner@;
                        assert(crate::blocks::spec_block_slots(b0).update(0, None::<Item>).update(
                            0,
                            Some(item),
                        ) =~= crate::blocks::spec_block_slots(b0).update(0, Some(item)));
                        assert(crate::blocks::spec_block_slots(b0).update(
                            0,
                            crate::blocks::spec_block_slots(b0)[0],
                        ) =~= crate::blocks::spec_block_slots(b0));
                        assert forall|px: int, py: int|
                            w0.spec_pos_loaded(px, py) && !(px == x as int && py == y as int)
                            implies #[trigger] world.spec_cell(px, py) == w0.spec_cell(px, py) by {
                            assert(w1.spec_cell(px, py) == w0.spec_cell(px, py));
                            assert(world.spec_cell(px, py) == w1.spec_cell(px, py));
                        }
                    }
                    return ;
                }
                proof {
                    assert(world.spec_pos_loaded(v.x as int, v.y as int) == w0.spec_pos_loaded(
                        v.x as int,
                        v.y as int,
                    ));
                    if w0.spec_pos_loaded(v.x as int, v.y as int) {
                        assert(world.spec_cell(v.x as int, v.y as int) == w0.spec_cell(
                            v.x as int,
                            v.y as int,
                        ));
                    }
                }
                let ghost w1 = *world;
                let (oci, obi) = match world.locate(v.x, v.y) {
                    Some(p) => p,
                    None => {
                        return ;
                    },
                };
                let chunk = &mut world.chunks[oci];
                let cb = &mut chunk.blocks[obi];
                match &mut cb.inner {
                    Block::Tunnel { last_reset, inv, .. } => {
                        *last_reset = now;
                        inv.set_item(0, Some(item));
                    },
                    _ => {},
                }
                proof {
                    assert(world.chunks@ =~= w1.chunks@.update(
                        oci as int,
                        world.chunks@[oci as int],
                    ));
                    assert(world.chunks@[oci as int].blocks@ =~= w1.chunks@[
                        oci as int
                    ].blocks@.update(obi as int, world.chunks@[oci as int].blocks@[obi as int]));
                    crate::world::lemma_world_cell_update(w1, *world, v.x as int, v.y as int);
                    assert forall|px: int, py: int|
                        w0.spec_pos_loaded(px, py) && !(px == x as int && py == y as int) && !(px
                            == v.x as int && py == v.y as int) implies #[trigger] world.spec_cell(
                        px,
                        py,
                    ) == w0.spec_cell(px, py) by {
                        assert(w1.spec_cell(px, py) == w0.spec_cell(px, py));
                        assert(world.spec_cell(px, py) == w1.spec_cell(px, py));
                    }
                    assert(world.spec_cell(x as int, y as int) == w1.spec_cell(
                        x as int,
                        y as int,
                    ));
                }
            } else if other_state == 1 {
                // The far end is full: keep the item.
                let ghost w1 = *world;
                let chunk = &mut world.chunks[ci];
                let cb = &mut chunk.blocks[bi];
                match &mut cb.inner {
                    Block::Tunnel { inv, .. } => {
                        inv.set_item(0, Some(item));
                    },
                    _ => {},
                }
                proof {
                    assert(world.chunks@ =~= w1.chunks@.update(
                        ci as int,
                        world.chunks@[ci as int],
                    ));
                    assert(world.chunks@[ci as int].blocks@ =~= w1.chunks@[
                        ci as int
                    ].blocks@.update(bi as int, world.chunks@[ci as int].blocks@[bi as int]));
                    crate::world::lemma_world_cell_update(w1, *world, x as int, y as int);
                    let b0 = w0.spec_cell(x as int, y as int).inner@;
                    assert(crate::blocks::spec_block_slots(b0).update(0, None::<Item>).update(
                        0,
                        Some(item),
                    ) =~= crate::blocks::spec_block_slots(b0).update(0, Some(item)));
                    assert(crate::blocks::spec_block_slots(b0).update(
                        0,
                        crate::blocks::spec_block_slots(b0)[0],
                    ) =~= crate::blocks::spec_block_slots(b0));
                    assert forall|px: int, py: int|
                        w0.spec_pos_loaded(px, py) && !(px == x as int && py == y as int)
                        implies #[trigger] world.spec_cell(px, py) == w0.spec_cell(px, py) by {
                        assert(w1.spec_cell(px, py) == w0.spec_cell(px, py));
                        assert(world.spec_cell(px, py) == w1.spec_cell(px, py));
                    }
                }
            } else {
                // The link no longer points at a tunnel: unlink and keep the
                // item.
                let ghost w1 = *world;
                let chunk = &mut world.chunks[ci];
                let cb = &mut chunk.blocks[bi];
                match &mut cb.inner {
                    Block::Tunnel { inv, link, .. } => {
                        *link = TunnelType::Unlinked;
                        inv.set_item(0, Some(item));
                    },
                    _ => {},
                }
                proof {
                    assert(world.chunks@ =~= w1.chunks@.update(
                        ci as int,
                        world.chunks@[ci as int],
                    ));
                    assert(world.chunks@[ci as int].blocks@ =~= w1.chunks@[
                        ci as int
                    ].blocks@.update(bi as int, world.chunks@[ci as int].blocks@[bi as int]));
                    crate::world::lemma_world_cell_update(w1, *world, x as int, y as int);
                    let b0 = w0.spec_cell(x as int, y as int).inner@;
                    assert(crate::blocks::spec_block_slots(b0).update(0, None::<Item>).update(
                        0,
                        Some(item),
                    ) =~= crate::blocks::spec_block_slots(b0).update(0, Some(item)));
                    assert(crate::blocks::spec_block_slots(b0).update(
                        0,
                        crate::blocks::spec_block_slots(b0)[0],
                    ) =~= crate::blocks::spec_block_slots(b0));
                    assert forall|px: int, py: int|
                        w0.spec_pos_loaded(px, py) && !(px == x as int && py == y as int)
                        implies #[trigger] world.spec_cell(px, py) == w0.spec_cell(px, py) by {
                        assert(w1.spec_cell(px, py) == w0.spec_cell(px, py));
                        assert(world.spec_cell(px, py) == w1.spec_cell(px, py));
                    }
                }
            }
        },
        TunnelType::Receiving(_) => {
            let ghost w0 = *world;
            // Take the item out of the receiving end.
            let item: Item;
            {
                let chunk = &mut world.chunks[ci];
                let cb = &mut chunk.blocks[bi];
                let taken = match &mut cb.inner {
                    Block::Tunnel { inv, .. } => inv.take_item(0),
                    _ => None,
                };
                item = match taken {
                    Some(it) => it,
                    None => {
                        return ;
                    },
                };
                proof {
                    assert(world.chunks@ =~= w0.chunks@.update(
                        ci as int,
                        world.chunks@[ci as int],
                    ));
                    assert(world.chunks@[ci as int].blocks@ =~= w0.chunks@[
                        ci as int
                    ].blocks@.update(bi as int, world.chunks@[ci as int].blocks@[bi as int]));
                    crate::world::lemma_world_cell_update(w0, *world, x as int, y as int);
                }
            }
            let pos = Vec2i::new(x, y);
            let target = pos.add_directional(&meta.direction, 1);
            let ghost w1 = *world;
            proof {
                assert(!(target.x == x && target.y == y));
                assert(world.spec_pos_loaded(target.x as int, target.y as int)
                    == w0.spec_pos_loaded(target.x as int, target.y as int));
                if w0.spec_pos_loaded(target.x as int, target.y as int) {
                    assert(world.spec_cell(target.x as int, target.y as int) == w0.spec_cell(
                        target.x as int,
                        target.y as int,
                    ));
                }
            }
            let back: Item;
            match push_into(world, target.x, target.y, meta.direction.opposite(), item, now) {
                None => {
                    proof {
                        assert forall|px: int, py: int|
                            w0.spec_pos_loaded(px, py) && !(px == x as int && py == y as int) && !(
                            px == target.x as int && py == target.y as int)
                            implies #[trigger] world.spec_cell(px, py) == w0.spec_cell(px, py) by {
                            assert(w1.spec_cell(px, py) == w0.spec_cell(px, py));
                            assert(world.spec_cell(px, py) == w1.spec_cell(px, py));
                        }
                        assert(world.spec_cell(x as int, y as int) == w1.spec_cell(
                            x as int,
                            y as int,
                        ));
                    }
                    return ;
                },
                Some(left) => {
                    back = left;
                },
            }
            let ghost w2 = *world;
            let chunk = &mut world.chunks[ci];
            let cb = &mut chunk.blocks[bi];
            match &mut cb.inner {
                Block::Tunnel { inv, .. } => {
                    inv.set_item(0, Some(back));
                },
                _ => {},
            }
            proof {
                assert(world.chunks@ =~= w2.chunks@.update(ci as int, world.chunks@[ci as int]));
                assert(world.chunks@[ci as int].blocks@ =~= w2.chunks@[ci as int].blocks@.update(
                    bi as int,
                    world.chunks@[ci as int].blocks@[bi as int],
                ));
                crate::world::lemma_world_cell_update(w2, *world, x as int, y as int);
                let b0 = w0.spec_cell(x as int, y as int).inner@;
                assert(crate::blocks::spec_block_slots(b0).update(0, None::<Item>).update(
                    0,
                    Some(back),
                ) =~= crate::blocks::spec_block_slots(b0).update(0, Some(back)));
                let t = spec_add_directional(meta.position, meta.direction, 1);
                assert forall|px: int, py: int|
                    w0.spec_pos_loaded(px, py) && !(px == x as int && py == y as int) && !(px
                        == t.0 && py == t.1) implies #[trigger] world.spec_cell(px, py)
                    == w0.spec_cell(px, py) by {
                    assert(w1.spec_cell(px, py) == w0.spec_cell(px, py));
                    assert(w2.spec_cell(px, py) == w1.spec_cell(px, py));
                    assert(world.spec_cell(px, py) == w2.spec_cell(px, py));
                }
                if w0.spec_pos_loaded(t.0, t.1) {
                    assert(world.spec_cell(t.0, t.1) == w2.spec_cell(t.0, t.1));
                }
            }
        },
    }
}


/// A block with its tunnel link replaced (non-tunnels unchanged).
pub open spec fn spec_with_link(b: BlockV, l: TunnelType) -> BlockV {
    match b {
        BlockV::Tunnel { last_reset, slots, is_player, move_dir, link } => BlockV::Tunnel {
            last_reset,
            slots,
            is_player,
            move_dir,
            link: l,
        },
        _ => b,
    }
}

/// What reversing a tunnel pair's orientation does, as a relation between
/// the world before and after.
pub open spec fn spec_tunnel_reverse_rel(a: World, b: World, meta: ChunkBlockMetadata) -> bool {
    &&& b.wf()
    &&& b.blocks_wf()
    &&& !a.spec_pos_loaded(meta.position.x as int, meta.position.y as int)
    ==> b == a
    &&& a.spec_pos_loaded(meta.position.x as int, meta.position.y as int) ==> {
    let x = meta.position.x as int;
    let y = meta.position.y as int;
    let cell0 = a.spec_cell(x, y);
    let cell1 = b.spec_cell(x, y);
    &&& cell1.data == cell0.data
    &&& match cell0.inner@ {
        BlockV::Tunnel { link: TunnelType::Pushing(v), .. } => {
            &&& cell1.inner@ == spec_with_link(cell0.inner@, TunnelType::Receiving(v))
            &&& spec_unchanged_except2(
                a,
                b,
                (x, y),
                (v.x as int, v.y as int),
            )
        },
        BlockV::Tunnel { link: TunnelType::Receiving(v), .. } => {
            &&& cell1.inner@ == spec_with_link(cell0.inner@, TunnelType::Pushing(v))
            &&& spec_unchanged_except2(
                a,
                b,
                (x, y),
                (v.x as int, v.y as int),
            )
        },
        _ => cell1.inner@ == cell0.inner@ && crate::world::spec_world_unchanged_except(
            a,
            b,
            x,
            y,
        ),
    }
    }
}

/// Swap a tunnel end's role: pushing becomes receiving and back. Both ends of
/// a linked pair swap together.
#[verifier::rlimit(100)]
pub fn tunnel_reverse_orientation(world: &mut World, meta: ChunkBlockMetadata)
    requires
        old(world).wf(),
        old(world).blocks_wf(),
    ensures
        spec_tunnel_reverse_rel(*old(world), *final(world), meta),
{
    let x = meta.position.x;
    let y = meta.position.y;
    let (ci, bi) = match world.locate(x, y) {
        None => {
            return ;
        },
        Some(p) => p,
    };
    let v = match &world.chunks[ci].blocks[bi].inner {
        Block::Tunnel { link, .. } => {
            match link {
                TunnelType::Pushing(v) => *v,
                TunnelType::Receiving(v) => *v,
                TunnelType::Unlinked => {
                    return ;
                },
            }
        },
        _ => {
            return ;
        },
    };
    let ghost w0 = *world;
    {
        let chunk = &mut world.chunks[ci];
        let cb = &mut chunk.blocks[bi];
        match &mut cb.inner {
            Block::Tunnel { link, .. } => {
                let flipped = match link {
                    TunnelType::Pushing(p) => TunnelType::Receiving(*p),
                    TunnelType::Receiving(p) => TunnelType::Pushing(*p),
                    TunnelType::Unlinked => TunnelType::Unlinked,
                };
                *link = flipped;
            },
            _ => {},
        }
        proof {
            assert(world.chunks@ =~= w0.chunks@.update(ci as int, world.chunks@[ci as int]));
            assert(world.chunks@[ci as int].blocks@ =~= w0.chunks@[ci as int].blocks@.update(
                bi as int,
                world.chunks@[ci as int].blocks@[bi as int],
            ));
            crate::world::lemma_world_cell_update(w0, *world, x as int, y as int);
        }
    }
    if v.x == x && v.y == y {
        return ;
    }
    let ghost w1 = *world;
    let (oci, obi) = match world.locate(v.x, v.y) {
        None => {
            return ;
        },
        Some(p) => p,
    };
    {
        let chunk = &mut world.chunks[oci];
        let cb = &mut chunk.blocks[obi];
        match &mut cb.inner {
            Block::Tunnel { link, .. } => {
                let flipped = match link {
                    TunnelType::Pushing(p) => TunnelType::Receiving(*p),
                    TunnelType::Receiving(p) => TunnelType::Pushing(*p),
                    TunnelType::Unlinked => TunnelType::Unlinked,
                };
                match flipped {
                    TunnelType::Unlinked => {},
                    _ => {
                        *link = flipped;
                    },
                }
            },
            _ => {},
        }
        proof {
            assert(world.chunks@ =~= w1.chunks@.update(oci as int, world.chunks@[oci as int]));
            assert(world.chunks@[oci as int].blocks@ =~= w1.chunks@[oci as int].blocks@.update(
                obi as int,
                world.chunks@[oci as int].blocks@[obi as int],
            ));
            crate::world::lemma_world_cell_update(w1, *world, v.x as int, v.y as int);
            assert forall|px: int, py: int|
                w0.spec_pos_loaded(px, py) && !(px == x as int && py == y as int) && !(px
                    == v.x as int && py == v.y as int) implies #[trigger] world.spec_cell(px, py)
                == w0.spec_cell(px, py) by {
                assert(w1.spec_cell(px, py) == w0.spec_cell(px, py));
                assert(world.spec_cell(px, py) == w1.spec_cell(px, py));
            }
            assert(world.spec_cell(x as int, y as int) == w1.spec_cell(x as int, y as int));
        }
    }
}

/// Whether the cell at `t` is an unlinked tunnel placed with facing `dir`:
/// a pairing candidate.
pub open spec fn spec_tunnel_candidate(w: World, t: (int, int), dir: Direction) -> bool {
    &&& w.spec_pos_loaded(t.0, t.1)
    &&& (w.spec_cell(t.0, t.1).inner@ matches BlockV::Tunnel { link: TunnelType::Unlinked, .. })
    &&& w.spec_cell(t.0, t.1).data.direction == dir
}

/// Scan along the facing, nearest first (the tile ahead before the tile
/// behind at each distance), for a pairing candidate within seven tiles.
pub open spec fn spec_tunnel_scan_from(w: World, pos: Vec2i, dir: Direction, d: int) -> Option<
    (int, int),
>
    decreases 8 - d,
{
    if d > 7 || d < 1 {
        None
    } else {
        let f = spec_add_directional(pos, dir, d);
        let b = spec_add_directional(pos, dir, -d);
        if spec_tunnel_candidate(w, f, dir) {
            Some(f)
        } else if spec_tunnel_candidate(w, b, dir) {
            Some(b)
        } else {
            spec_tunnel_scan_from(w, pos, dir, d + 1)
        }
    }
}

/// The position of the nearest pairing candidate, if any is in range.
pub open spec fn spec_tunnel_scan(w: World, pos: Vec2i, dir: Direction) -> Option<(int, int)> {
    spec_tunnel_scan_from(w, pos, dir, 1)
}

/// Probe one scan position.
fn tunnel_candidate_at(world: &World, t: Vec2i, dir: Direction) -> (r: bool)
    requires
        world.wf(),
    ensures
        r == spec_tunnel_candidate(*world, (t.x as int, t.y as int), dir),
{
    match world.get_block_at(t.x, t.y) {
        Some((blk, bmeta)) => {
            let is_free_tunnel = match blk {
                Block::Tunnel { link, .. } => matches!(link, TunnelType::Unlinked),
                _ => false,
            };
            is_free_tunnel && bmeta.direction == dir
        },
        None => false,
    }
}


/// Place a block at `(x, y)` facing `dir`. A tunnel being placed first scans
/// along its facing for the nearest unlinked tunnel with the same facing
/// within seven tiles: if one is found, the new block becomes the pushing end
/// toward it and the found block becomes the receiving end. The block's
/// placement initialisation runs before it takes part in any update. False
/// (and no change) outside the loaded rectangle.
#[verifier::rlimit(100)]
pub fn place_block_at(world: &mut World, block: Block, x: i32, y: i32, dir: Direction) -> (r: bool)
    requires
        old(world).wf(),
        old(world).blocks_wf(),
    ensures
        final(world).wf(),
        final(world).blocks_wf(),
        !old(world).spec_pos_loaded(x as int, y as int) ==> !r && *final(world) == *old(world),
        old(world).spec_pos_loaded(x as int, y as int) ==> r && {
            let pos = Vec2i { x, y };
            let cell1 = final(world).spec_cell(x as int, y as int);
            let scan = if block@ is Tunnel {
                spec_tunnel_scan(*old(world), pos, dir)
            } else {
                None
            };
            &&& cell1.data == (ChunkBlockMetadata { position: pos, direction: dir })
            &&& match scan {
                Some(p) => {
                    &&& cell1.inner@ == crate::blocks::spec_init(
                        spec_with_link(block@, TunnelType::Pushing(Vec2i { x: p.0 as i32, y: p.1 as i32 })),
                    )
                    &&& final(world).spec_cell(p.0, p.1).inner@ == spec_with_link(
                        old(world).spec_cell(p.0, p.1).inner@,
                        TunnelType::Receiving(pos),
                    )
                    &&& final(world).spec_cell(p.0, p.1).data == old(world).spec_cell(
                        p.0,
                        p.1,
                    ).data
                    &&& spec_unchanged_except2(*old(world), *final(world), (x as int, y as int), p)
                },
                None => {
                    &&& cell1.inner@ == crate::blocks::spec_init(
                        if block@ is Tunnel {
                            spec_with_link(block@, TunnelType::Unlinked)
                        } else {
                            block@
                        },
                    )
                    &&& crate::world::spec_world_unchanged_except(
                        *old(world),
                        *final(world),
                        x as int,
                        y as int,
                    )
                },
            }
        },
{
    match world.locate(x, y) {
        None => {
            return false;
        },
        Some(_) => {},
    }
    proof {
        lemma_loaded_pos_bounds(*world, x as int, y as int);
    }
    let ghost w0 = *world;
    let pos = Vec2i::new(x, y);
    let mut blk = block;
    let is_tunnel = matches!(&blk, Block::Tunnel { .. });
    let mut found: Option<Vec2i> = None;
    if is_tunnel {
        let mut d: i32 = 1;
        while d <= 7
            invariant_except_break
                1 <= d <= 8,
                *world == w0,
                world.wf(),
                w0.spec_pos_loaded(x as int, y as int),
                -0x4000_0000 <= x && x < 0x4000_0000,
                -0x4000_0000 <= y && y < 0x4000_0000,
                pos == (Vec2i { x, y }),
                found is None,
                spec_tunnel_scan(w0, pos, dir) == spec_tunnel_scan_from(w0, pos, dir, d as int),
            ensures
                *world == w0,
                world.wf(),
                match found {
                    Some(p) => spec_tunnel_scan(w0, pos, dir) == Some((p.x as int, p.y as int)),
                    None => spec_tunnel_scan(w0, pos, dir) is None,
                },
            decreases 8 - d,
        {
            let f = pos.add_directional(&dir, d);
            if tunnel_candidate_at(world, f, dir) {
                found = Some(f);
                break ;
            }
            let b = pos.add_directional(&dir, -d);
            if tunnel_candidate_at(world, b, dir) {
                found = Some(b);
                break ;
            }
            d = d + 1;
        }
    }
    match found {
        Some(p) => {
            proof {
                lemma_tunnel_scan_found(w0, pos, dir, 1);
            }
            // Link the found end toward the new block.
            let (oci, obi) = match world.locate(p.x, p.y) {
                Some(q) => q,
                None => {
                    proof {
                        assert(false);
                    }
                    return false;
                },
            };
            {
                let chunk = &mut world.chunks[oci];
                let cb = &mut chunk.blocks[obi];
                match &mut cb.inner {
                    Block::Tunnel { link, .. } => {
                        *link = TunnelType::Receiving(pos);
                    },
                    _ => {},
                }
                proof {
                    assert(world.chunks@ =~= w0.chunks@.update(
                        oci as int,
                        world.chunks@[oci as int],
                    ));
                    assert(world.chunks@[oci as int].blocks@ =~= w0.chunks@[
                        oci as int
                    ].blocks@.update(obi as int, world.chunks@[oci as int].blocks@[obi as int]));
                    crate::world::lemma_world_cell_update(w0, *world, p.x as int, p.y as int);
                }
            }
            match &mut blk {
                Block::Tunnel { link, .. } => {
                    *link = TunnelType::Pushing(p);
                },
                _ => {},
            }
            let ghost w1 = *world;
            let ok = world.set_block_at(x, y, blk, dir);
            proof {
                assert(ok);
                assert(!(p.x == x && p.y == y));
                assert forall|px: int, py: int|
                    w0.spec_pos_loaded(px, py) && !(px == x as int && py == y as int) && !(px
                        == p.x as int && py == p.y as int) implies #[trigger] world.spec_cell(
                    px,
                    py,
                ) == w0.spec_cell(px, py) by {
                    assert(w1.spec_cell(px, py) == w0.spec_cell(px, py));
                    assert(world.spec_cell(px, py) == w1.spec_cell(px, py));
                }
                assert(world.spec_cell(p.x as int, p.y as int) == w1.spec_cell(
                    p.x as int,
                    p.y as int,
                ));
            }
            true
        },
        None => {
            if is_tunnel {
                match &mut blk {
                    Block::Tunnel { link, .. } => {
                        *link = TunnelType::Unlinked;
                    },
                    _ => {},
                }
            }
            let ok = world.set_block_at(x, y, blk, dir);
            proof {
                assert(ok);
            }
            true
        },
    }
}

/// Remove the block at `(x, y)`: the cell reverts to an empty block facing
/// North, and the removed block with its metadata comes back so its contents
/// can be recovered. Dismantling either end of a linked tunnel pair resets
/// the other end to unlinked. Nothing happens for an empty or unloaded cell.
#[verifier::rlimit(100)]
pub fn dismantle_block_at(world: &mut World, x: i32, y: i32) -> (r: Option<(
    Block,
    ChunkBlockMetadata,
)>)
    requires
        old(world).wf(),
        old(world).blocks_wf(),
    ensures
        final(world).wf(),
        final(world).blocks_wf(),
        !(old(world).spec_pos_loaded(x as int, y as int) && !(old(world).spec_cell(
            x as int,
            y as int,
        ).inner@ is Empty)) ==> r is None && *final(world) == *old(world),
        (old(world).spec_pos_loaded(x as int, y as int) && !(old(world).spec_cell(
            x as int,
            y as int,
        ).inner@ is Empty)) ==> {
            let cell0 = old(world).spec_cell(x as int, y as int);
            let cell1 = final(world).spec_cell(x as int, y as int);
            &&& r matches Some((b, m)) && b@ == cell0.inner@ && m == cell0.data
            &&& cell1.inner@ is Empty
            &&& cell1.data == (ChunkBlockMetadata {
                position: Vec2i { x, y },
                direction: Direction::North,
            })
            &&& match cell0.inner@ {
                BlockV::Tunnel { link: TunnelType::Pushing(v), .. }
                | BlockV::Tunnel { link: TunnelType::Receiving(v), .. } => {
                    &&& spec_unchanged_except2(
                        *old(world),
                        *final(world),
                        (x as int, y as int),
                        (v.x as int, v.y as int),
                    )
                    &&& (!(v.x == x && v.y == y) && old(world).spec_pos_loaded(
                        v.x as int,
                        v.y as int,
                    ) && old(world).spec_cell(v.x as int, v.y as int).inner@ is Tunnel
                        ==> final(world).spec_cell(v.x as int, v.y as int).inner@
                            == spec_with_link(
                            old(world).spec_cell(v.x as int, v.y as int).inner@,
                            TunnelType::Unlinked,
                        ) && final(world).spec_cell(v.x as int, v.y as int).data
                            == old(world).spec_cell(v.x as int, v.y as int).data)
                },
                _ => crate::world::spec_world_unchanged_except(
                    *old(world),
                    *final(world),
                    x as int,
                    y as int,
                ),
            }
        },
{
    let (ci, bi) = match world.locate(x, y) {
        None => {
            return None;
        },
        Some(p) => p,
    };
    let is_empty = match &world.chunks[ci].blocks[bi].inner {
        Block::Empty => true,
        _ => false,
    };
    if is_empty {
        return None;
    }
    let ghost w0 = *world;
    let meta = world.chunks[ci].blocks[bi].data;
    let mut out = Block::Empty;
    {
        let chunk = &mut world.chunks[ci];
        let cb = &mut chunk.blocks[bi];
        core::mem::swap(&mut cb.inner, &mut out);
        proof {
            assert(world.chunks@ =~= w0.chunks@.update(ci as int, world.chunks@[ci as int]));
            assert(world.chunks@[ci as int].blocks@ =~= w0.chunks@[ci as int].blocks@.update(
                bi as int,
                world.chunks@[ci as int].blocks@[bi as int],
            ));
            crate::world::lemma_world_cell_update(w0, *world, x as int, y as int);
        }
    }
    let ghost w1 = *world;
    let ok = world.set_block_at(x, y, Block::Empty, Direction::North);
    proof {
        assert(ok);
        assert forall|px: int, py: int|
            w0.spec_pos_loaded(px, py) && !(px == x as int && py == y as int)
            implies #[trigger] world.spec_cell(px, py) == w0.spec_cell(px, py) by {
            assert(w1.spec_cell(px, py) == w0.spec_cell(px, py));
            assert(world.spec_cell(px, py) == w1.spec_cell(px, py));
        }
    }
    let linked: Option<Vec2i> = match &out {
        Block::Tunnel { link, .. } => {
            match link {
                TunnelType::Pushing(v) => Some(*v),
                TunnelType::Receiving(v) => Some(*v),
                TunnelType::Unlinked => None,
            }
        },
        _ => None,
    };
    match linked {
        None => Some((out, meta)),
        Some(v) => {
            if v.x == x && v.y == y {
                return Some((out, meta));
            }
            let ghost w2 = *world;
            let (oci, obi) = match world.locate(v.x, v.y) {
                None => {
                    return Some((out, meta));
                },
                Some(p) => p,
            };
            let other_is_tunnel = match &world.chunks[oci].blocks[obi].inner {
                Block::Tunnel { .. } => true,
                _ => false,
            };
            if !other_is_tunnel {
                return Some((out, meta));
            }
            {
                let chunk = &mut world.chunks[oci];
                let cb = &mut chunk.blocks[obi];
                match &mut cb.inner {
                    Block::Tunnel { link, .. } => {
                        *link = TunnelType::Unlinked;
                    },
                    _ => {},
                }
                proof {
                    assert(world.chunks@ =~= w2.chunks@.update(
                        oci as int,
                        world.chunks@[oci as int],
                    ));
                    assert(world.chunks@[oci as int].blocks@ =~= w2.chunks@[
                        oci as int
                    ].blocks@.update(obi as int, world.chunks@[oci as int].blocks@[obi as int]));
                    crate::world::lemma_world_cell_update(w2, *world, v.x as int, v.y as int);
                    assert forall|px: int, py: int|
                        w0.spec_pos_loaded(px, py) && !(px == x as int && py == y as int) && !(px
                            == v.x as int && py == v.y as int) implies #[trigger] world.spec_cell(
                        px,
                        py,
                    ) == w0.spec_cell(px, py) by {
                        assert(w2.spec_cell(px, py) == w0.spec_cell(px, py));
                        assert(world.spec_cell(px, py) == w2.spec_cell(px, py));
                    }
                    assert(world.spec_cell(x as int, y as int) == w2.spec_cell(
                        x as int,
                        y as int,
                    ));
                    assert(w2.spec_cell(v.x as int, v.y as int) == w0.spec_cell(
                        v.x as int,
                        v.y as int,
                    ));
                }
            }
            Some((out, meta))
        },
    }
}


/// A successful scan result is a pairing candidate.
pub proof fn lemma_tunnel_scan_found(w: World, pos: Vec2i, dir: Direction, d: int)
    requires
        spec_tunnel_scan_from(w, pos, dir, d) is Some,
    ensures
        spec_tunnel_candidate(w, spec_tunnel_scan_from(w, pos, dir, d).unwrap(), dir),
        spec_tunnel_scan_from(w, pos, dir, d).unwrap() != (pos.x as int, pos.y as int),
    decreases 8 - d,
{
    if 1 <= d <= 7 {
        let f = spec_add_directional(pos, dir, d);
        let b = spec_add_directional(pos, dir, -d);
        if spec_tunnel_candidate(w, f, dir) {
        } else if spec_tunnel_candidate(w, b, dir) {
        } else {
            lemma_tunnel_scan_found(w, pos, dir, d + 1);
        }
    }
}


/// The tasks one block enqueues when its per-tick update runs: an extractor
/// always defers a world update; a belt or tunnel only once its cooldown
/// elapsed (a tunnel also only when linked); a splitter defers a dispatch
/// when a direction is cached and ready, and otherwise defers the direction
/// decision.
pub open spec fn spec_block_tasks(b: BlockV, meta: ChunkBlockMetadata, now: u64) -> Seq<
    crate::scheduler::Task,
> {
    match b {
        BlockV::Extractor { .. } => seq![
            crate::scheduler::Task::WorldUpdateBlock(
                crate::scheduler::BlockUpdateFn::ExtractorUpdate,
                meta,
            ),
        ],
        BlockV::Conveyor { .. } => if spec_can_do_work(b, now) {
            seq![
                crate::scheduler::Task::WorldUpdateBlock(
                    crate::scheduler::BlockUpdateFn::ConveyorUpdate,
                    meta,
                ),
            ]
        } else {
            Seq::empty()
        },
        BlockV::Splitter { chosen, .. } => if spec_can_do_work(b, now) && chosen is Some {
            seq![
                crate::scheduler::Task::WorldUpdateBlock(
                    crate::scheduler::BlockUpdateFn::SplitterDispatch,
                    meta,
                ),
            ]
        } else if chosen is None {
            seq![
                crate::scheduler::Task::WorldUpdateBlock(
                    crate::scheduler::BlockUpdateFn::SplitterDetermineDirection,
                    meta,
                ),
            ]
        } else {
            Seq::empty()
        },
        BlockV::Tunnel { link, .. } => if spec_can_do_work(b, now) && !(link
            is Unlinked) {
            seq![
                crate::scheduler::Task::WorldUpdateBlock(
                    crate::scheduler::BlockUpdateFn::TunnelUpdate,
                    meta,
                ),
            ]
        } else {
            Seq::empty()
        },
        _ => Seq::empty(),
    }
}

/// Enqueue whatever this block's update defers.
pub fn schedule_block_update(
    b: &Block,
    meta: ChunkBlockMetadata,
    queue: &mut crate::scheduler::TaskQueue,
    now: u64,
)
    ensures
        final(queue)@ == old(queue)@ + spec_block_tasks(b@, meta, now),
{
    let ghost q0 = queue@;
    match b {
        Block::Extractor { .. } => {
            queue.schedule_task(
                crate::scheduler::Task::WorldUpdateBlock(
                    crate::scheduler::BlockUpdateFn::ExtractorUpdate,
                    meta,
                ),
            );
        },
        Block::Conveyor { .. } => {
            if b.can_do_work(now) {
                queue.schedule_task(
                    crate::scheduler::Task::WorldUpdateBlock(
                        crate::scheduler::BlockUpdateFn::ConveyorUpdate,
                        meta,
                    ),
                );
            }
        },
        Block::Splitter { chosen, .. } => {
            if b.can_do_work(now) && chosen.is_some() {
                queue.schedule_task(
                    crate::scheduler::Task::WorldUpdateBlock(
                        crate::scheduler::BlockUpdateFn::SplitterDispatch,
                        meta,
                    ),
                );
            } else if chosen.is_none() {
                queue.schedule_task(
                    crate::scheduler::Task::WorldUpdateBlock(
                        crate::scheduler::BlockUpdateFn::SplitterDetermineDirection,
                        meta,
                    ),
                );
            }
        },
        Block::Tunnel { link, .. } => {
            let linked = !matches!(link, TunnelType::Unlinked);
            if b.can_do_work(now) && linked {
                queue.schedule_task(
                    crate::scheduler::Task::WorldUpdateBlock(
                        crate::scheduler::BlockUpdateFn::TunnelUpdate,
                        meta,
                    ),
                );
            }
        },
        _ => {},
    }
    proof {
        if spec_block_tasks(b@, meta, now).len() == 0 {
            assert(queue@ =~= q0 + spec_block_tasks(b@, meta, now));
        } else {
            assert(queue@ =~= q0 + spec_block_tasks(b@, meta, now));
        }
    }
}

/// The tasks the first `n` cells of a chunk enqueue, in cell order.
pub open spec fn spec_chunk_tasks_prefix(c: Chunk, n: int, now: u64) -> Seq<
    crate::scheduler::Task,
>
    decreases n,
{
    if n <= 0 {
        Seq::empty()
    } else {
        spec_chunk_tasks_prefix(c, n - 1, now) + spec_block_tasks(
            c.blocks@[n - 1].inner@,
            c.blocks@[n - 1].data,
            now,
        )
    }
}

/// The tasks the first `n` chunks of a world enqueue, in index order.
pub open spec fn spec_world_tasks_prefix(w: World, n: int, now: u64) -> Seq<
    crate::scheduler::Task,
>
    decreases n,
{
    if n <= 0 {
        Seq::empty()
    } else {
        spec_world_tasks_prefix(w, n - 1, now) + spec_chunk_tasks_prefix(
            w.chunks@[n - 1],
            1024,
            now,
        )
    }
}

/// The per-tick scheduling pass: every loaded cell, chunk by chunk in index
/// order and cell by cell within a chunk, enqueues its deferred update.
pub fn schedule_world_updates(
    world: &World,
    queue: &mut crate::scheduler::TaskQueue,
    now: u64,
)
    requires
        world.wf(),
    ensures
        final(queue)@ == old(queue)@ + spec_world_tasks_prefix(
            *world,
            world.chunks@.len() as int,
            now,
        ),
{
    let ghost q0 = queue@;
    let n = world.chunks.len();
    let mut ci: usize = 0;
    proof {
        assert(queue@ =~= q0 + spec_world_tasks_prefix(*world, 0, now));
    }
    while ci < n
        invariant
            ci <= n,
            world.wf(),
            world.chunks@.len() == n,
            queue@ == q0 + spec_world_tasks_prefix(*world, ci as int, now),
        decreases n - ci,
    {
        let chunk = &world.chunks[ci];
        let ghost q1 = queue@;
        let mut bi: usize = 0;
        proof {
            assert(queue@ =~= q1 + spec_chunk_tasks_prefix(*chunk, 0, now));
        }
        while bi < 1024
            invariant
                bi <= 1024,
                chunk.blocks@.len() == 1024,
                queue@ == q1 + spec_chunk_tasks_prefix(*chunk, bi as int, now),
            decreases 1024 - bi,
        {
            let cb = &chunk.blocks[bi];
            schedule_block_update(&cb.inner, cb.data, queue, now);
            bi = bi + 1;
            proof {
                assert(queue@ =~= q1 + spec_chunk_tasks_prefix(*chunk, bi as int, now));
            }
        }
        ci = ci + 1;
        proof {
            assert(queue@ =~= q0 + spec_world_tasks_prefix(*world, ci as int, now));
        }
    }
}

/// What running one drained task does to the world: the dispatched update's
/// full relation, per task; a no-op changes nothing.
pub open spec fn spec_task_step(a: World, b: World, task: crate::scheduler::Task, now: u64) -> bool {
    match task {
        crate::scheduler::Task::Noop => b == a,
        crate::scheduler::Task::WorldUpdateBlock(f, meta) => match f {
            crate::scheduler::BlockUpdateFn::ExtractorUpdate => spec_extractor_update_rel(
                a,
                b,
                meta,
                now,
            ),
            crate::scheduler::BlockUpdateFn::ConveyorUpdate => spec_conveyor_update_rel(
                a,
                b,
                meta,
                now,
            ),
            crate::scheduler::BlockUpdateFn::SplitterDetermineDirection
                => spec_splitter_determine_rel(a, b, meta),
            crate::scheduler::BlockUpdateFn::SplitterDispatch => spec_splitter_dispatch_rel(
                a,
                b,
                meta,
                now,
            ),
            crate::scheduler::BlockUpdateFn::TunnelUpdate => spec_tunnel_update_rel(
                a,
                b,
                meta,
                now,
            ),
            crate::scheduler::BlockUpdateFn::TunnelReverseOrientation => spec_tunnel_reverse_rel(
                a,
                b,
                meta,
            ),
        },
    }
}

/// Run one drained task with exclusive access to the world: the dispatched
/// update is performed, exactly as its own contract states.
pub fn run_task(
    world: &mut World,
    reg: &Registry,
    task: crate::scheduler::Task,
    now: u64,
)
    requires
        old(world).wf(),
        old(world).blocks_wf(),
        reg.wf(),
    ensures
        spec_task_step(*old(world), *final(world), task, now),
        final(world).wf(),
        final(world).blocks_wf(),
        final(world).w == old(world).w,
        final(world).h == old(world).h,
        final(world).startx == old(world).startx,
        final(world).starty == old(world).starty,
{
    match task {
        crate::scheduler::Task::Noop => {},
        crate::scheduler::Task::WorldUpdateBlock(f, meta) => {
            match f {
                crate::scheduler::BlockUpdateFn::ExtractorUpdate => {
                    extractor_update(world, reg, meta, now);
                },
                crate::scheduler::BlockUpdateFn::ConveyorUpdate => {
                    conveyor_update(world, meta, now);
                },
                crate::scheduler::BlockUpdateFn::SplitterDetermineDirection => {
                    splitter_determine_direction(world, meta);
                },
                crate::scheduler::BlockUpdateFn::SplitterDispatch => {
                    splitter_dispatch(world, meta, now);
                },
                crate::scheduler::BlockUpdateFn::TunnelUpdate => {
                    tunnel_update(world, meta, now);
                },
                crate::scheduler::BlockUpdateFn::TunnelReverseOrientation => {
                    tunnel_reverse_orientation(world, meta);
                },
            }
        },
    }
}

/// There is a chain of intermediate worlds stepping from `a` to `b`, one
/// `spec_task_step` per task, in order: `b` is the result of running the
/// tasks over `a` in FIFO order.
pub open spec fn spec_tick_trace(a: World, b: World, tasks: Seq<crate::scheduler::Task>, now: u64) -> bool {
    exists|ws: Seq<World>|
        {
            &&& #[trigger] ws.len() == tasks.len() + 1
            &&& ws[0] == a
            &&& ws[tasks.len() as int] == b
            &&& forall|i: int| 0 <= i < tasks.len() ==> spec_task_step(
                ws[i],
                ws[i + 1],
                #[trigger] tasks[i],
                now,
            )
        }
}

/// One full simulation tick. Every cell schedules its deferred update (the
/// queue gains exactly `spec_world_tasks_prefix` of the world), a harmless
/// no-op is appended (so a driver can detect the tick ran), and the whole
/// queue is drained: each drained task is run in FIFO order, each step
/// exactly as `spec_task_step` states.
pub fn tick_world(
    world: &mut World,
    reg: &Registry,
    queue: &mut crate::scheduler::TaskQueue,
    now: u64,
)
    requires
        old(world).wf(),
        old(world).blocks_wf(),
        reg.wf(),
    ensures
        final(world).wf(),
        final(world).blocks_wf(),
        final(world).w == old(world).w,
        final(world).h == old(world).h,
        final(world).startx == old(world).startx,
        final(world).starty == old(world).starty,
        final(queue)@ == Seq::<crate::scheduler::Task>::empty(),
        spec_tick_trace(
            *old(world),
            *final(world),
            old(queue)@ + spec_world_tasks_prefix(
                *old(world),
                old(world).chunks@.len() as int,
                now,
            ).push(crate::scheduler::Task::Noop),
            now,
        ),
{
    schedule_world_updates(world, queue, now);
    queue.schedule_task(crate::scheduler::Task::Noop);
    let tasks = queue.get_tasks();
    proof {
        assert(tasks@ =~= old(queue)@ + spec_world_tasks_prefix(
            *old(world),
            old(world).chunks@.len() as int,
            now,
        ).push(crate::scheduler::Task::Noop));
    }
    let n = tasks.len();
    let mut i: usize = 0;
    let ghost mut ws: Seq<World> = seq![*world];
    while i < n
        invariant
            i <= n,
            world.wf(),
            world.blocks_wf(),
            reg.wf(),
            world.w == old(world).w,
            world.h == old(world).h,
            world.startx == old(world).startx,
            world.starty == old(world).starty,
            tasks@.len() == n,
            ws.len() == i + 1,
            ws[0] == *old(world),
            ws[i as int] == *world,
            forall|j: int| 0 <= j < i ==> spec_task_step(
                ws[j],
                ws[j + 1],
                #[trigger] tasks@[j],
                now,
            ),
        decreases n - i,
    {
        run_task(world, reg, tasks[i], now);
        proof {
            ws = ws.push(*world);
        }
        i = i + 1;
    }
    proof {
        assert(ws.len() == tasks@.len() + 1);
        assert(spec_tick_trace(*old(world), *world, tasks@, now)) by {
            assert(ws[0] == *old(world) && ws[tasks@.len() as int] == *world);
        }
    }
}

} // verus!
