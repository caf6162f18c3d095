//! The block model: the push/pull capability protocol, per-block throughput
//! timers, and the concrete block kinds (belt, extractor, splitter, tunnel,
//! container, resource node).
//!
//! Blocks are a closed tagged enum rather than trait objects, so transfer
//! logic stays exhaustive and type-safe. A block never learns its own
//! position: every operation receives a `ChunkBlockMetadata`. The `side`
//! argument of the push protocol is always phrased from the receiver's
//! perspective: the face of the receiving block the item enters through.
//! Timers take the current time in milliseconds as an argument; the same
//! elapsed value gates transfers and drives animation.

use vstd::prelude::*;
use crate::inventory::{spec_can_push, spec_try_add, spec_try_pull, Inventory};
use crate::items::{spec_metadata_is_stack_size, Item};
use crate::registry::{table_contains_kind, table_id_of, BlockKind, ItemKind, Registry, RegistryV};
use crate::world::{
    spec_combine, spec_opposite, ChunkBlockMetadata, Direction, Vec2i,
};

verus! {

/// Milliseconds between two extractor actions.
pub const EXTRACTOR_COOLDOWN_MS: u64 = 250;

/// Milliseconds a belt holds an item before pushing on.
pub const CONVEYOR_COOLDOWN_MS: u64 = 1000;

/// Milliseconds between two splitter dispatches.
pub const SPLITTER_COOLDOWN_MS: u64 = 200;

/// Milliseconds between two tunnel hops.
pub const TUNNEL_COOLDOWN_MS: u64 = 500;

/// The container inventory's slot count (a 5 x 9 grid).
pub const CONTAINER_SLOTS: usize = 45;

/// A tunnel end's role in its pair: pushing toward the linked position,
/// receiving from it, or not linked yet.
#[derive(Clone, Copy, Debug, PartialEq, Eq, Structural)]
pub enum TunnelType {
    Receiving(Vec2i),
    Pushing(Vec2i),
    Unlinked,
}

/// One grid cell's behavior and state.
pub enum Block {
    Empty,
    ResourceNodeBrown,
    StorageContainer { inv: Inventory },
    Extractor { last_reset: u64, inv: Inventory },
    Conveyor { last_reset: u64, inv: Inventory, incoming: Direction },
    Splitter { last_reset: u64, inv: Inventory, last_output: usize, chosen: Option<Direction> },
    Tunnel { last_reset: u64, inv: Inventory, move_dir: Direction, link: TunnelType },
}

/// The mathematical content of a block.
pub ghost enum BlockV {
    Empty,
    ResourceNodeBrown,
    StorageContainer { slots: Seq<Option<Item>>, is_player: bool },
    Extractor { last_reset: u64, slots: Seq<Option<Item>>, is_player: bool },
    Conveyor { last_reset: u64, slots: Seq<Option<Item>>, is_player: bool, incoming: Direction },
    Splitter {
        last_reset: u64,
        slots: Seq<Option<Item>>,
        is_player: bool,
        last_output: usize,
        chosen: Option<Direction>,
    },
    Tunnel {
        last_reset: u64,
        slots: Seq<Option<Item>>,
        is_player: bool,
        move_dir: Direction,
        link: TunnelType,
    },
}

impl View for Block {
    type V = BlockV;

    open spec fn view(&self) -> BlockV {
        match self {
            Block::Empty => BlockV::Empty,
            Block::ResourceNodeBrown => BlockV::ResourceNodeBrown,
            Block::StorageContainer { inv } => BlockV::StorageContainer {
                slots: inv@,
                is_player: inv.is_player,
            },
            Block::Extractor { last_reset, inv } => BlockV::Extractor {
                last_reset: *last_reset,
                slots: inv@,
                is_player: inv.is_player,
            },
            Block::Conveyor { last_reset, inv, incoming } => BlockV::Conveyor {
                last_reset: *last_reset,
                slots: inv@,
                is_player: inv.is_player,
                incoming: *incoming,
            },
            Block::Splitter { last_reset, inv, last_output, chosen } => BlockV::Splitter {
                last_reset: *last_reset,
                slots: inv@,
                is_player: inv.is_player,
                last_output: *last_output,
                chosen: *chosen,
            },
            Block::Tunnel { last_reset, inv, move_dir, link } => BlockV::Tunnel {
                last_reset: *last_reset,
                slots: inv@,
                is_player: inv.is_player,
                move_dir: *move_dir,
                link: *link,
            },
        }
    }
}

/// The kind tag of a block's state.
pub open spec fn spec_block_kind(b: BlockV) -> BlockKind {
    match b {
        BlockV::Empty => BlockKind::Empty,
        BlockV::ResourceNodeBrown => BlockKind::ResourceNodeBrown,
        BlockV::StorageContainer { .. } => BlockKind::StorageContainer,
        BlockV::Extractor { .. } => BlockKind::Extractor,
        BlockV::Conveyor { .. } => BlockKind::Conveyor,
        BlockV::Splitter { .. } => BlockKind::Splitter,
        BlockV::Tunnel { .. } => BlockKind::Tunnel,
    }
}

/// The buffer slots of a block's state (empty for bufferless kinds).
pub open spec fn spec_block_slots(b: BlockV) -> Seq<Option<Item>> {
    match b {
        BlockV::Empty => Seq::empty(),
        BlockV::ResourceNodeBrown => Seq::empty(),
        BlockV::StorageContainer { slots, .. } => slots,
        BlockV::Extractor { slots, .. } => slots,
        BlockV::Conveyor { slots, .. } => slots,
        BlockV::Splitter { slots, .. } => slots,
        BlockV::Tunnel { slots, .. } => slots,
    }
}

/// The milliseconds a kind must wait between actions (zero: no timer).
pub open spec fn spec_duration_ms(kind: BlockKind) -> u64 {
    match kind {
        BlockKind::Extractor => EXTRACTOR_COOLDOWN_MS,
        BlockKind::Conveyor => CONVEYOR_COOLDOWN_MS,
        BlockKind::Splitter => SPLITTER_COOLDOWN_MS,
        BlockKind::Tunnel => TUNNEL_COOLDOWN_MS,
        _ => 0,
    }
}

/// The timer base of a block's state (zero for untimed kinds).
pub open spec fn spec_block_last_reset(b: BlockV) -> u64 {
    match b {
        BlockV::Extractor { last_reset, .. } => last_reset,
        BlockV::Conveyor { last_reset, .. } => last_reset,
        BlockV::Splitter { last_reset, .. } => last_reset,
        BlockV::Tunnel { last_reset, .. } => last_reset,
        _ => 0,
    }
}

/// Elapsed time since the last reset, saturating at zero for a clock that
/// went backwards.
pub open spec fn spec_elapsed_ms(last_reset: u64, now: u64) -> nat {
    if now >= last_reset {
        (now - last_reset) as nat
    } else {
        0
    }
}

/// The elapsed time capped at the kind's duration: the single 0..duration
/// progress value that both the work gate and an animation read.
pub open spec fn spec_elapsed_capped(b: BlockV, now: u64) -> nat {
    let e = spec_elapsed_ms(spec_block_last_reset(b), now);
    let d = spec_duration_ms(spec_block_kind(b)) as nat;
    if e >= d {
        d
    } else {
        e
    }
}

/// The throughput gate: true once a full duration has elapsed. Defined from
/// the same capped progress value the renderer animates with, so visual
/// progress and mechanical eligibility never disagree.
pub open spec fn spec_can_do_work(b: BlockV, now: u64) -> bool {
    spec_elapsed_capped(b, now) == spec_duration_ms(spec_block_kind(b))
}

/// Orientation-only push capability: can an item ever enter through `side`.
pub open spec fn spec_has_capability_push(b: BlockV, side: Direction, meta: ChunkBlockMetadata) -> bool {
    match b {
        BlockV::StorageContainer { .. } => side == meta.direction || spec_combine(
            side,
            Direction::South,
        ) == meta.direction,
        BlockV::Conveyor { .. } => side != meta.direction,
        BlockV::Splitter { .. } => side == spec_opposite(meta.direction),
        BlockV::Tunnel { link, .. } => (link matches TunnelType::Pushing(_)) && side
            == spec_opposite(meta.direction),
        _ => false,
    }
}

/// Orientation-only pull capability.
pub open spec fn spec_has_capability_pull(b: BlockV, side: Direction, meta: ChunkBlockMetadata) -> bool {
    match b {
        BlockV::ResourceNodeBrown => true,
        BlockV::StorageContainer { .. } => side == meta.direction || spec_combine(
            side,
            Direction::South,
        ) == meta.direction,
        _ => false,
    }
}

/// Dynamic push acceptance: capability plus current buffer room.
pub open spec fn spec_block_can_push(
    b: BlockV,
    side: Direction,
    item: Item,
    meta: ChunkBlockMetadata,
) -> bool {
    match b {
        BlockV::StorageContainer { slots, .. } => spec_has_capability_push(b, side, meta)
            && spec_can_push(
            slots,
            item.id,
            if spec_metadata_is_stack_size(item.kind) {
                item.metadata
            } else {
                1
            },
        ),
        BlockV::Conveyor { slots, .. } => slots[0] is None && spec_has_capability_push(
            b,
            side,
            meta,
        ),
        BlockV::Splitter { slots, .. } => slots[0] is None && spec_has_capability_push(
            b,
            side,
            meta,
        ),
        BlockV::Tunnel { slots, .. } => spec_has_capability_push(b, side, meta)
            && slots[0] is None,
        _ => false,
    }
}

/// Dynamic pull availability.
pub open spec fn spec_block_can_pull(b: BlockV, side: Direction, meta: ChunkBlockMetadata) -> bool {
    match b {
        BlockV::ResourceNodeBrown => true,
        BlockV::StorageContainer { slots, .. } => spec_has_capability_pull(b, side, meta)
            && exists|i: int| 0 <= i < slots.len() && slots[i] is Some,
        _ => false,
    }
}

/// What `push` does: the block afterwards and what comes back to the pusher.
/// On failure the entire original item comes back unchanged; on success
/// against a single-slot buffer, a stackable item of more than one unit
/// leaves exactly one unit behind and the remainder (metadata decremented)
/// returns.
pub open spec fn spec_block_push(
    b: BlockV,
    side: Direction,
    item: Item,
    meta: ChunkBlockMetadata,
    now: u64,
) -> (BlockV, Option<Item>) {
    match b {
        BlockV::StorageContainer { slots, is_player } => {
            let rec = spec_try_add(slots, item);
            (BlockV::StorageContainer { slots: rec.0, is_player }, rec.1)
        },
        BlockV::Conveyor { last_reset, slots, is_player, incoming } => {
            if side == meta.direction || slots[0] is Some {
                (b, Some(item))
            } else {
                let moved_in = spec_opposite(side);
                if spec_metadata_is_stack_size(item.kind) && item.metadata > 1 {
                    (
                        BlockV::Conveyor {
                            last_reset: now,
                            slots: slots.update(0, Some(Item { metadata: 1, ..item })),
                            is_player,
                            incoming: moved_in,
                        },
                        Some(Item { metadata: (item.metadata - 1) as u32, ..item }),
                    )
                } else {
                    (
                        BlockV::Conveyor {
                            last_reset: now,
                            slots: slots.update(0, Some(item)),
                            is_player,
                            incoming: moved_in,
                        },
                        None,
                    )
                }
            }
        },
        BlockV::Splitter { last_reset, slots, is_player, last_output, chosen } => {
            if !spec_block_can_push(b, side, item, meta) {
                (b, Some(item))
            } else {
                if spec_metadata_is_stack_size(item.kind) && item.metadata > 1 {
                    (
                        BlockV::Splitter {
                            last_reset: now,
                            slots: slots.update(0, Some(Item { metadata: 1, ..item })),
                            is_player,
                            last_output,
                            chosen,
                        },
                        Some(Item { metadata: (item.metadata - 1) as u32, ..item }),
                    )
                } else {
                    (
                        BlockV::Splitter {
                            last_reset: now,
                            slots: slots.update(0, Some(item)),
                            is_player,
                            last_output,
                            chosen,
                        },
                        None,
                    )
                }
            }
        },
        BlockV::Tunnel { last_reset, slots, is_player, move_dir, link } => {
            if !spec_block_can_push(b, side, item, meta) {
                (b, Some(item))
            } else {
                (
                    BlockV::Tunnel {
                        last_reset: now,
                        slots: slots.update(0, Some(item)),
                        is_player,
                        move_dir: meta.direction,
                        link,
                    },
                    None,
                )
            }
        },
        _ => (b, Some(item)),
    }
}

/// What `pull` does: the block afterwards and what leaves it. A resource node
/// yields a fresh single unit of its resource; a container gives up to
/// `num_items` units from its first occupied slot; everything else yields
/// nothing. Never partial: some item comes, or none.
pub open spec fn spec_block_pull(
    b: BlockV,
    reg: RegistryV,
    side: Direction,
    meta: ChunkBlockMetadata,
    num_items: u32,
) -> (BlockV, Option<Item>) {
    match b {
        BlockV::ResourceNodeBrown => {
            if table_contains_kind(reg.items, ItemKind::Resource) {
                (
                    b,
                    Some(
                        Item {
                            id: table_id_of(reg.items, ItemKind::Resource),
                            kind: ItemKind::Resource,
                            metadata: 1,
                        },
                    ),
                )
            } else {
                (b, None)
            }
        },
        BlockV::StorageContainer { slots, is_player } => {
            let rec = spec_try_pull(slots, num_items);
            (BlockV::StorageContainer { slots: rec.0, is_player }, rec.1)
        },
        _ => (b, None),
    }
}

/// Push idempotence under failure, for the single-buffer movers: a belt,
/// splitter or tunnel that cannot currently accept returns the pushed item
/// unchanged, identity and metadata included, and keeps its own state. (A
/// container's `push` is an unconditional inventory deposit and can absorb a
/// partial stack even when its all-or-nothing capacity probe said no, so it
/// is not covered here.)
pub proof fn lemma_push_failure_identity(
    b: BlockV,
    side: Direction,
    item: Item,
    meta: ChunkBlockMetadata,
    now: u64,
)
    requires
        !spec_block_can_push(b, side, item, meta),
        !(b is StorageContainer),
    ensures
        spec_block_push(b, side, item, meta, now) == (b, Some(item)),
{
}

/// What placement initialisation does: buffers take their working shape
/// (truncated or extended with empty slots) and a splitter's cached output
/// index is forced below three; everything else is untouched.
pub open spec fn spec_init(b: BlockV) -> BlockV {
    match b {
        BlockV::Empty => BlockV::Empty,
        BlockV::ResourceNodeBrown => BlockV::ResourceNodeBrown,
        BlockV::StorageContainer { slots, is_player } => BlockV::StorageContainer {
            slots: crate::inventory::spec_resize_slots(slots, CONTAINER_SLOTS as nat),
            is_player,
        },
        BlockV::Extractor { last_reset, slots, is_player } => BlockV::Extractor {
            last_reset,
            slots: crate::inventory::spec_resize_slots(slots, 1),
            is_player,
        },
        BlockV::Conveyor { last_reset, slots, is_player, incoming } => BlockV::Conveyor {
            last_reset,
            slots: crate::inventory::spec_resize_slots(slots, 1),
            is_player,
            incoming,
        },
        BlockV::Splitter { last_reset, slots, is_player, last_output, chosen } => BlockV::Splitter {
            last_reset,
            slots: crate::inventory::spec_resize_slots(slots, 1),
            is_player,
            last_output: if last_output < 3 {
                last_output
            } else {
                0
            },
            chosen,
        },
        BlockV::Tunnel { last_reset, slots, is_player, move_dir, link } => BlockV::Tunnel {
            last_reset,
            slots: crate::inventory::spec_resize_slots(slots, 1),
            is_player,
            move_dir,
            link,
        },
    }
}

/// The state a freshly built block of each kind starts in: empty buffers of
/// the working size, a zero timer base, North as the remembered direction,
/// no cached choice, no tunnel link.
pub open spec fn spec_fresh_block(kind: BlockKind) -> BlockV {
    match kind {
        BlockKind::Empty => BlockV::Empty,
        BlockKind::ResourceNodeBrown => BlockV::ResourceNodeBrown,
        BlockKind::StorageContainer => BlockV::StorageContainer {
            slots: Seq::new(CONTAINER_SLOTS as nat, |i: int| None::<Item>),
            is_player: false,
        },
        BlockKind::Extractor => BlockV::Extractor {
            last_reset: 0,
            slots: seq![None::<Item>],
            is_player: false,
        },
        BlockKind::Conveyor => BlockV::Conveyor {
            last_reset: 0,
            slots: seq![None::<Item>],
            is_player: false,
            incoming: Direction::North,
        },
        BlockKind::Splitter => BlockV::Splitter {
            last_reset: 0,
            slots: seq![None::<Item>],
            is_player: false,
            last_output: 0,
            chosen: None,
        },
        BlockKind::Tunnel => BlockV::Tunnel {
            last_reset: 0,
            slots: seq![None::<Item>],
            is_player: false,
            move_dir: Direction::North,
            link: TunnelType::Unlinked,
        },
    }
}

impl Block {
    /// A fresh, default-state block of a kind.
    pub fn new_of_kind(kind: BlockKind) -> (r: Self)
        ensures
            r@ == spec_fresh_block(kind),
            spec_block_kind(r@) == kind,
            r.wf(),
    {
        let r = match kind {
            BlockKind::Empty => Block::Empty,
            BlockKind::ResourceNodeBrown => Block::ResourceNodeBrown,
            BlockKind::StorageContainer => Block::StorageContainer {
                inv: Inventory::new(CONTAINER_SLOTS, false),
            },
            BlockKind::Extractor => Block::Extractor {
                last_reset: 0,
                inv: Inventory::new(1, false),
            },
            BlockKind::Conveyor => Block::Conveyor {
                last_reset: 0,
                inv: Inventory::new(1, false),
                incoming: Direction::North,
            },
            BlockKind::Splitter => Block::Splitter {
                last_reset: 0,
                inv: Inventory::new(1, false),
                last_output: 0,
                chosen: None,
            },
            BlockKind::Tunnel => Block::Tunnel {
                last_reset: 0,
                inv: Inventory::new(1, false),
                move_dir: Direction::North,
                link: TunnelType::Unlinked,
            },
        };
        proof {
            assert(spec_block_slots(r@) =~= spec_block_slots(spec_fresh_block(kind)));
        }
        r
    }

    /// The buffer sizes each kind maintains: one slot for the movers, the
    /// full grid for a container, and a splitter's cached output below three.
    pub open spec fn wf(self) -> bool {
        match self@ {
            BlockV::Empty => true,
            BlockV::ResourceNodeBrown => true,
            BlockV::StorageContainer { slots, .. } => slots.len() == CONTAINER_SLOTS,
            BlockV::Extractor { slots, .. } => slots.len() == 1,
            BlockV::Conveyor { slots, .. } => slots.len() == 1,
            BlockV::Splitter { slots, last_output, .. } => slots.len() == 1 && last_output < 3,
            BlockV::Tunnel { slots, .. } => slots.len() == 1,
        }
    }

    pub fn kind(&self) -> (r: BlockKind)
        ensures
            r == spec_block_kind(self@),
    {
        match self {
            Block::Empty => BlockKind::Empty,
            Block::ResourceNodeBrown => BlockKind::ResourceNodeBrown,
            Block::StorageContainer { .. } => BlockKind::StorageContainer,
            Block::Extractor { .. } => BlockKind::Extractor,
            Block::Conveyor { .. } => BlockKind::Conveyor,
            Block::Splitter { .. } => BlockKind::Splitter,
            Block::Tunnel { .. } => BlockKind::Tunnel,
        }
    }

    /// Whether this is the placeholder block of an empty cell.
    pub fn is_none(&self) -> (r: bool)
        ensures
            r == (self@ is Empty),
    {
        matches!(self, Block::Empty)
    }

    /// Whether this kind counts as a placed building.
    pub fn is_building(&self) -> (r: bool)
        ensures
            r == match spec_block_kind(self@) {
                BlockKind::StorageContainer | BlockKind::Splitter | BlockKind::Tunnel => true,
                _ => false,
            },
    {
        match self {
            Block::StorageContainer { .. } => true,
            Block::Splitter { .. } => true,
            Block::Tunnel { .. } => true,
            _ => false,
        }
    }

    /// Bring a just-placed or just-decoded block to its working shape: resize
    /// its inventory, before it ever takes part in an update or render pass.
    pub fn init(&mut self, meta: ChunkBlockMetadata)
        ensures
            final(self).wf(),
            final(self)@ == spec_init(old(self)@),
    {
        match self {
            Block::Empty => {},
            Block::ResourceNodeBrown => {},
            Block::StorageContainer { inv } => {
                inv.resize(CONTAINER_SLOTS);
            },
            Block::Extractor { inv, .. } => {
                inv.resize(1);
            },
            Block::Conveyor { inv, .. } => {
                inv.resize(1);
            },
            Block::Splitter { inv, last_output, .. } => {
                inv.resize(1);
                if *last_output >= 3 {
                    *last_output = 0;
                }
            },
            Block::Tunnel { inv, .. } => {
                inv.resize(1);
            },
        }
    }

    /// Elapsed milliseconds since the last reset, capped at this kind's
    /// duration: the 0..duration progress value.
    pub fn elapsed_capped(&self, now_ms: u64) -> (r: u64)
        ensures
            r == spec_elapsed_capped(self@, now_ms),
    {
        let last = match self {
            Block::Extractor { last_reset, .. } => *last_reset,
            Block::Conveyor { last_reset, .. } => *last_reset,
            Block::Splitter { last_reset, .. } => *last_reset,
            Block::Tunnel { last_reset, .. } => *last_reset,
            _ => 0,
        };
        let duration = match self.kind() {
            BlockKind::Extractor => EXTRACTOR_COOLDOWN_MS,
            BlockKind::Conveyor => CONVEYOR_COOLDOWN_MS,
            BlockKind::Splitter => SPLITTER_COOLDOWN_MS,
            BlockKind::Tunnel => TUNNEL_COOLDOWN_MS,
            _ => 0,
        };
        let elapsed = if now_ms >= last {
            now_ms - last
        } else {
            0
        };
        if elapsed >= duration {
            duration
        } else {
            elapsed
        }
    }

    /// The throughput gate: a full duration has elapsed since the last reset.
    pub fn can_do_work(&self, now_ms: u64) -> (r: bool)
        ensures
            r == spec_can_do_work(self@, now_ms),
    {
        let duration = match self.kind() {
            BlockKind::Extractor => EXTRACTOR_COOLDOWN_MS,
            BlockKind::Conveyor => CONVEYOR_COOLDOWN_MS,
            BlockKind::Splitter => SPLITTER_COOLDOWN_MS,
            BlockKind::Tunnel => TUNNEL_COOLDOWN_MS,
            _ => 0,
        };
        self.elapsed_capped(now_ms) == duration
    }

    /// Static capability: can anything ever flow in through `side`.
    pub fn has_capability_push(&self, side: Direction, meta: ChunkBlockMetadata) -> (r: bool)
        ensures
            r == spec_has_capability_push(self@, side, meta),
    {
        match self {
            Block::StorageContainer { .. } => side == meta.direction || side.combine(
                Direction::South,
            ) == meta.direction,
            Block::Conveyor { .. } => side != meta.direction,
            Block::Splitter { .. } => side == meta.direction.opposite(),
            Block::Tunnel { link, .. } => matches!(link, TunnelType::Pushing(_)) && side
                == meta.direction.opposite(),
            _ => false,
        }
    }

    /// Static capability: can anything ever be pulled out through `side`.
    pub fn has_capability_pull(&self, side: Direction, meta: ChunkBlockMetadata) -> (r: bool)
        ensures
            r == spec_has_capability_pull(self@, side, meta),
    {
        match self {
            Block::ResourceNodeBrown => true,
            Block::StorageContainer { .. } => side == meta.direction || side.combine(
                Direction::South,
            ) == meta.direction,
            _ => false,
        }
    }

    /// Dynamic acceptance: capability plus current buffer state.
    pub fn can_push(&self, side: Direction, item: &Item, meta: ChunkBlockMetadata) -> (r: bool)
        requires
            self.wf(),
        ensures
            r == spec_block_can_push(self@, side, *item, meta),
    {
        match self {
            Block::StorageContainer { inv } => {
                self.has_capability_push(side, meta) && inv.can_push(item)
            },
            Block::Conveyor { inv, .. } => {
                inv.get_item(0).is_none() && self.has_capability_push(side, meta)
            },
            Block::Splitter { inv, .. } => {
                inv.get_item(0).is_none() && self.has_capability_push(side, meta)
            },
            Block::Tunnel { inv, .. } => {
                self.has_capability_push(side, meta) && inv.get_item(0).is_none()
            },
            _ => false,
        }
    }

    /// Dynamic availability for pulling.
    pub fn can_pull(&self, side: Direction, meta: ChunkBlockMetadata) -> (r: bool)
        ensures
            r == spec_block_can_pull(self@, side, meta),
    {
        match self {
            Block::ResourceNodeBrown => true,
            Block::StorageContainer { inv } => {
                self.has_capability_pull(side, meta) && inv.can_pull()
            },
            _ => false,
        }
    }

    /// Attempt to deposit an item entering through `side`. What comes back is
    /// the part not accepted: the whole unchanged item on refusal, the
    /// decremented remainder when a single-slot buffer keeps one unit, or
    /// nothing.
    pub fn push(
        &mut self,
        side: Direction,
        item: Item,
        meta: ChunkBlockMetadata,
        now_ms: u64,
    ) -> (r: Option<Item>)
        requires
            old(self).wf(),
        ensures
            final(self).wf(),
            final(self)@ == spec_block_push(old(self)@, side, item, meta, now_ms).0,
            r == spec_block_push(old(self)@, side, item, meta, now_ms).1,
    {
        let ghost b0 = self@;
        proof {
            match b0 {
                BlockV::StorageContainer { slots, .. } => {
                    crate::inventory::lemma_try_add_len(slots, item);
                },
                _ => {},
            }
        }
        match self {
            Block::StorageContainer { inv } => inv.try_add_item(item),
            Block::Conveyor { last_reset, inv, incoming } => {
                if side == meta.direction {
                    return Some(item);
                }
                if inv.get_item(0).is_some() {
                    return Some(item);
                }
                *incoming = side.opposite();
                *last_reset = now_ms;
                if item.metadata_is_stack_size() && item.metadata() > 1 {
                    inv.set_item(0, Some(Item { metadata: 1, ..item }));
                    Some(Item { metadata: item.metadata - 1, ..item })
                } else {
                    inv.set_item(0, Some(item));
                    None
                }
            },
            Block::Splitter { last_reset, inv, last_output, chosen } => {
                if side != meta.direction.opposite() || inv.get_item(0).is_some() {
                    return Some(item);
                }
                *last_reset = now_ms;
                if item.metadata_is_stack_size() && item.metadata() > 1 {
                    inv.set_item(0, Some(Item { metadata: 1, ..item }));
                    Some(Item { metadata: item.metadata - 1, ..item })
                } else {
                    inv.set_item(0, Some(item));
                    None
                }
            },
            Block::Tunnel { last_reset, inv, move_dir, link } => {
                let pushing = matches!(link, TunnelType::Pushing(_));
                if !pushing || side != meta.direction.opposite() || inv.get_item(0).is_some() {
                    return Some(item);
                }
                *last_reset = now_ms;
                *move_dir = meta.direction;
                inv.set_item(0, Some(item));
                None
            },
            _ => Some(item),
        }
    }

    /// Remove up to `num_items` from the block through `side`; never partial.
    pub fn pull(
        &mut self,
        reg: &Registry,
        side: Direction,
        meta: ChunkBlockMetadata,
        num_items: u32,
    ) -> (r: Option<Item>)
        requires
            old(self).wf(),
            reg.wf(),
        ensures
            final(self).wf(),
            final(self)@ == spec_block_pull(old(self)@, reg@, side, meta, num_items).0,
            r == spec_block_pull(old(self)@, reg@, side, meta, num_items).1,
    {
        proof {
            match old(self)@ {
                BlockV::StorageContainer { slots, .. } => {
                    crate::inventory::lemma_try_pull_len(slots, num_items);
                },
                _ => {},
            }
        }
        match self {
            Block::ResourceNodeBrown => {
                match reg.item_id_of_kind(ItemKind::Resource) {
                    Some(id) => Some(Item { id, kind: ItemKind::Resource, metadata: 1 }),
                    None => None,
                }
            },
            Block::StorageContainer { inv } => inv.try_pull(num_items),
            _ => None,
        }
    }
}


/// A tunnel link on the wire: a one-byte role tag, then the linked position.
pub open spec fn enc_tunnel_type(t: TunnelType) -> Seq<u8> {
    match t {
        TunnelType::Pushing(v) => crate::serialization::enc_u8(0) + crate::world::enc_vec2i(v),
        TunnelType::Receiving(v) => crate::serialization::enc_u8(1) + crate::world::enc_vec2i(v),
        TunnelType::Unlinked => crate::serialization::enc_u8(2),
    }
}

pub open spec fn parse_tunnel_type(s: Seq<u8>) -> Option<(TunnelType, Seq<u8>)> {
    match crate::serialization::parse_u8(s) {
        None => None,
        Some((tag, s1)) => if tag == 0 {
            match crate::world::parse_vec2i(s1) {
                None => None,
                Some((v, s2)) => Some((TunnelType::Pushing(v), s2)),
            }
        } else if tag == 1 {
            match crate::world::parse_vec2i(s1) {
                None => None,
                Some((v, s2)) => Some((TunnelType::Receiving(v), s2)),
            }
        } else if tag == 2 {
            Some((TunnelType::Unlinked, s1))
        } else {
            None
        },
    }
}

pub proof fn lemma_parse_tunnel_type_enc(t: TunnelType, rest: Seq<u8>)
    ensures
        parse_tunnel_type(enc_tunnel_type(t) + rest) == Some((t, rest)),
{
    match t {
        TunnelType::Pushing(v) => {
            let s = enc_tunnel_type(t) + rest;
            assert(s.skip(1) =~= crate::world::enc_vec2i(v) + rest);
            crate::world::lemma_parse_vec2i_enc(v, rest);
        },
        TunnelType::Receiving(v) => {
            let s = enc_tunnel_type(t) + rest;
            assert(s.skip(1) =~= crate::world::enc_vec2i(v) + rest);
            crate::world::lemma_parse_vec2i_enc(v, rest);
        },
        TunnelType::Unlinked => {
            let s = enc_tunnel_type(t) + rest;
            assert(s.skip(1) =~= rest);
        },
    }
}

impl TunnelType {
    pub fn serialize(self, buf: &mut Vec<u8>)
        ensures
            final(buf)@ == old(buf)@ + enc_tunnel_type(self),
    {
        match self {
            TunnelType::Pushing(v) => {
                crate::serialization::write_u8(buf, 0);
                v.serialize(buf);
            },
            TunnelType::Receiving(v) => {
                crate::serialization::write_u8(buf, 1);
                v.serialize(buf);
            },
            TunnelType::Unlinked => {
                crate::serialization::write_u8(buf, 2);
            },
        }
        proof {
            assert(buf@ =~= old(buf)@ + enc_tunnel_type(self));
        }
    }

    pub fn try_deserialize(buf: &mut crate::serialization::Buffer) -> (r: Result<
        TunnelType,
        crate::serialization::SerializationError,
    >)
        requires
            old(buf).wf(),
        ensures
            final(buf).wf(),
            match parse_tunnel_type(old(buf).remaining()) {
                Some((t, rest)) => r == Ok::<TunnelType, crate::serialization::SerializationError>(
                    t,
                ) && final(buf).remaining() == rest,
                None => r is Err,
            },
    {
        let tag = match buf.try_read_element() {
            Err(e) => {
                return Err(e);
            },
            Ok(v) => v,
        };
        if tag == 0 {
            match Vec2i::try_deserialize(buf) {
                Err(e) => Err(e),
                Ok(v) => Ok(TunnelType::Pushing(v)),
            }
        } else if tag == 1 {
            match Vec2i::try_deserialize(buf) {
                Err(e) => Err(e),
                Ok(v) => Ok(TunnelType::Receiving(v)),
            }
        } else if tag == 2 {
            Ok(TunnelType::Unlinked)
        } else {
            Err(crate::serialization::SerializationError::InvalidData)
        }
    }
}

/// A block's kind-specific payload.
pub open spec fn enc_block_payload(reg: RegistryV, b: BlockV) -> Seq<u8> {
    match b {
        BlockV::Empty => Seq::empty(),
        BlockV::ResourceNodeBrown => Seq::empty(),
        BlockV::StorageContainer { slots, is_player } => crate::inventory::enc_inventory(
            reg.pool,
            slots,
            is_player,
        ),
        BlockV::Extractor { slots, .. } => crate::items::enc_opt_item(reg.pool, slots[0]),
        BlockV::Conveyor { slots, incoming, .. } => crate::items::enc_opt_item(reg.pool, slots[0])
            + crate::world::enc_dir(incoming),
        BlockV::Splitter { slots, .. } => crate::items::enc_opt_item(reg.pool, slots[0]),
        BlockV::Tunnel { slots, is_player, move_dir, link, .. } => crate::inventory::enc_inventory(
            reg.pool,
            slots,
            is_player,
        ) + crate::world::enc_dir(move_dir) + enc_tunnel_type(link),
    }
}

/// A block on the wire: block trap, is-empty flag, and for a non-empty block
/// its kind's identifier followed by the kind payload.
pub open spec fn enc_block(reg: RegistryV, b: BlockV) -> Seq<u8> {
    crate::serialization::enc_trap(crate::serialization::SerializationTrap::Block)
        + if b is Empty {
        crate::serialization::enc_bool(true)
    } else {
        crate::serialization::enc_bool(false) + crate::identifier::enc_ident(
            reg.pool,
            crate::registry::table_id_of(reg.blocks, spec_block_kind(b)),
        ) + enc_block_payload(reg, b)
    }
}

/// What decoding reconstructs from a block's encoding: run-time-only state
/// (timers, a splitter's cached choice, the single-slot movers' player flag)
/// reverts to its defaults; everything persisted survives.
pub open spec fn spec_persisted(b: BlockV) -> BlockV {
    match b {
        BlockV::Empty => BlockV::Empty,
        BlockV::ResourceNodeBrown => BlockV::ResourceNodeBrown,
        BlockV::StorageContainer { slots, is_player } => BlockV::StorageContainer {
            slots,
            is_player,
        },
        BlockV::Extractor { slots, .. } => BlockV::Extractor {
            last_reset: 0,
            slots: seq![slots[0]],
            is_player: false,
        },
        BlockV::Conveyor { slots, incoming, .. } => BlockV::Conveyor {
            last_reset: 0,
            slots: seq![slots[0]],
            is_player: false,
            incoming,
        },
        BlockV::Splitter { slots, .. } => BlockV::Splitter {
            last_reset: 0,
            slots: seq![slots[0]],
            is_player: false,
            last_output: 0,
            chosen: None,
        },
        BlockV::Tunnel { slots, is_player, move_dir, link, .. } => BlockV::Tunnel {
            last_reset: 0,
            slots,
            is_player,
            move_dir,
            link,
        },
    }
}

pub open spec fn parse_block(reg: RegistryV, s: Seq<u8>) -> Option<(BlockV, Seq<u8>)> {
    match crate::serialization::parse_trap(
        s,
        crate::serialization::SerializationTrap::Block,
    ) {
        None => None,
        Some(s1) => match crate::serialization::parse_bool(s1) {
            None => None,
            Some((is_empty, s2)) => if is_empty {
                Some((BlockV::Empty, s2))
            } else {
                match crate::identifier::parse_ident(reg.pool, s2) {
                    None => None,
                    Some((id, s3)) => if crate::registry::table_contains_id(reg.blocks, id) {
                        parse_block_payload(
                            reg,
                            crate::registry::table_kind_of(reg.blocks, id),
                            s3,
                        )
                    } else {
                        None
                    },
                }
            },
        },
    }
}

pub open spec fn parse_block_payload(reg: RegistryV, kind: BlockKind, s: Seq<u8>) -> Option<
    (BlockV, Seq<u8>),
> {
    match kind {
        BlockKind::Empty => Some((BlockV::Empty, s)),
        BlockKind::ResourceNodeBrown => Some((BlockV::ResourceNodeBrown, s)),
        BlockKind::StorageContainer => match crate::inventory::parse_inventory(reg, s) {
            None => None,
            Some(((slots, is_player), s1)) => Some(
                (BlockV::StorageContainer { slots, is_player }, s1),
            ),
        },
        BlockKind::Extractor => match crate::items::parse_opt_item(reg, s) {
            None => None,
            Some((slot, s1)) => Some(
                (
                    BlockV::Extractor { last_reset: 0, slots: seq![slot], is_player: false },
                    s1,
                ),
            ),
        },
        BlockKind::Conveyor => match crate::items::parse_opt_item(reg, s) {
            None => None,
            Some((slot, s1)) => match crate::world::parse_dir(s1) {
                None => None,
                Some((d, s2)) => Some(
                    (
                        BlockV::Conveyor {
                            last_reset: 0,
                            slots: seq![slot],
                            is_player: false,
                            incoming: d,
                        },
                        s2,
                    ),
                ),
            },
        },
        BlockKind::Splitter => match crate::items::parse_opt_item(reg, s) {
            None => None,
            Some((slot, s1)) => Some(
                (
                    BlockV::Splitter {
                        last_reset: 0,
                        slots: seq![slot],
                        is_player: false,
                        last_output: 0,
                        chosen: None,
                    },
                    s1,
                ),
            ),
        },
        BlockKind::Tunnel => match crate::inventory::parse_inventory(reg, s) {
            None => None,
            Some(((slots, is_player), s1)) => match crate::world::parse_dir(s1) {
                None => None,
                Some((d, s2)) => match parse_tunnel_type(s2) {
                    None => None,
                    Some((t, s3)) => Some(
                        (
                            BlockV::Tunnel {
                                last_reset: 0,
                                slots,
                                is_player,
                                move_dir: d,
                                link: t,
                            },
                            s3,
                        ),
                    ),
                },
            },
        },
    }
}

/// The block can be written and read back: its kind is registered, its held
/// items resolve in the item registry, and its buffers have their working
/// shape.
pub open spec fn block_serializable(reg: RegistryV, b: Block) -> bool {
    &&& b.wf()
    &&& (b@ is Empty || table_contains_kind(reg.blocks, spec_block_kind(b@)))
    &&& crate::inventory::slots_registered(reg, spec_block_slots(b@))
    &&& match b@ {
        BlockV::Extractor { is_player, .. } => !is_player,
        BlockV::Conveyor { is_player, .. } => !is_player,
        BlockV::Splitter { is_player, .. } => !is_player,
        _ => true,
    }
}

/// Round trip for one block: parsing its encoding yields its persisted
/// projection and leaves the rest.
pub proof fn lemma_parse_block_enc(reg: RegistryV, b: Block, rest: Seq<u8>)
    requires
        crate::identifier::pool_unique(reg.pool),
        crate::registry::table_wf(reg.blocks, reg.pool),
        crate::registry::table_wf(reg.items, reg.pool),
        block_serializable(reg, b),
    ensures
        parse_block(reg, enc_block(reg, b@) + rest) == Some((spec_persisted(b@), rest)),
{
    let s = enc_block(reg, b@) + rest;
    if b@ is Empty {
        let s1 = crate::serialization::enc_bool(true) + rest;
        assert(s.skip(1) =~= s1);
        assert(s1.skip(1) =~= rest);
    } else {
        let kind = spec_block_kind(b@);
        let id = crate::registry::table_id_of(reg.blocks, kind);
        let w = choose|w: int|
            0 <= w < reg.blocks.len() && reg.blocks[w].1 == kind;
        assert(reg.blocks[w].1 == kind);
        assert(id == reg.blocks[w].0);
        assert(id.valid(reg.pool));
        assert(id.names_ascii(reg.pool));
        let payload = enc_block_payload(reg, b@);
        let s1 = crate::serialization::enc_bool(false) + crate::identifier::enc_ident(
            reg.pool,
            id,
        ) + payload + rest;
        assert(s.skip(1) =~= s1);
        assert(s1.skip(1) =~= crate::identifier::enc_ident(reg.pool, id) + (payload + rest));
        crate::identifier::lemma_parse_ident_enc(reg.pool, id, payload + rest);
        assert(crate::registry::table_contains_id(reg.blocks, id));
        let w2 = choose|w2: int|
            0 <= w2 < reg.blocks.len() && reg.blocks[w2].0 == id;
        assert(reg.blocks[w2].0 == id);
        assert(w2 == w);
        assert(crate::registry::table_kind_of(reg.blocks, id) == kind);
        lemma_parse_block_payload_enc(reg, b, rest);
    }
}

#[verifier::rlimit(100)]
#[verifier::spinoff_prover]
proof fn lemma_parse_conveyor_payload_enc(reg: RegistryV, b: Block, rest: Seq<u8>)
    requires
        crate::identifier::pool_unique(reg.pool),
        crate::registry::table_wf(reg.items, reg.pool),
        block_serializable(reg, b),
        b@ is Conveyor,
    ensures
        parse_block_payload(
            reg,
            spec_block_kind(b@),
            enc_block_payload(reg, b@) + rest,
        ) == Some((spec_persisted(b@), rest)),
{
    match b@ {
        BlockV::Conveyor { slots, incoming, .. } => {
            let s = enc_block_payload(reg, b@) + rest;
            assert(s =~= crate::items::enc_opt_item(reg.pool, slots[0]) + (crate::world::enc_dir(
                incoming,
            ) + rest));
            crate::items::lemma_parse_opt_item_enc(
                reg,
                slots[0],
                crate::world::enc_dir(incoming) + rest,
            );
            crate::world::lemma_parse_dir_enc(incoming, rest);
            assert(seq![slots[0]] =~= slots);
        },
        _ => {},
    }
}

#[verifier::rlimit(100)]
#[verifier::spinoff_prover]
proof fn lemma_parse_tunnel_payload_enc(reg: RegistryV, b: Block, rest: Seq<u8>)
    requires
        crate::identifier::pool_unique(reg.pool),
        crate::registry::table_wf(reg.items, reg.pool),
        block_serializable(reg, b),
        b@ is Tunnel,
    ensures
        parse_block_payload(
            reg,
            spec_block_kind(b@),
            enc_block_payload(reg, b@) + rest,
        ) == Some((spec_persisted(b@), rest)),
{
    match b@ {
        BlockV::Tunnel { slots, is_player, move_dir, link, .. } => {
            let s = enc_block_payload(reg, b@) + rest;
            assert(s =~= crate::inventory::enc_inventory(reg.pool, slots, is_player) + (
            crate::world::enc_dir(move_dir) + (enc_tunnel_type(link) + rest)));
            crate::inventory::lemma_parse_inventory_enc(
                reg,
                slots,
                is_player,
                crate::world::enc_dir(move_dir) + (enc_tunnel_type(link) + rest),
            );
            crate::world::lemma_parse_dir_enc(move_dir, enc_tunnel_type(link) + rest);
            lemma_parse_tunnel_type_enc(link, rest);
        },
        _ => {},
    }
}

#[verifier::rlimit(100)]
#[verifier::spinoff_prover]
proof fn lemma_parse_block_payload_enc(reg: RegistryV, b: Block, rest: Seq<u8>)
    requires
        crate::identifier::pool_unique(reg.pool),
        crate::registry::table_wf(reg.items, reg.pool),
        block_serializable(reg, b),
        !(b@ is Empty),
    ensures
        parse_block_payload(
            reg,
            spec_block_kind(b@),
            enc_block_payload(reg, b@) + rest,
        ) == Some((spec_persisted(b@), rest)),
{
    match b@ {
        BlockV::Empty => {},
        BlockV::ResourceNodeBrown => {
            assert(enc_block_payload(reg, b@) + rest =~= rest);
        },
        BlockV::StorageContainer { slots, is_player } => {
            crate::inventory::lemma_parse_inventory_enc(reg, slots, is_player, rest);
        },
        BlockV::Extractor { slots, .. } => {
            crate::items::lemma_parse_opt_item_enc(reg, slots[0], rest);
            assert(seq![slots[0]] =~= slots);
        },
        BlockV::Conveyor { .. } => {
            lemma_parse_conveyor_payload_enc(reg, b, rest);
        },
        BlockV::Splitter { slots, .. } => {
            crate::items::lemma_parse_opt_item_enc(reg, slots[0], rest);
            assert(seq![slots[0]] =~= slots);
        },
        BlockV::Tunnel { .. } => {
            lemma_parse_tunnel_payload_enc(reg, b, rest);
        },
    }
}

impl Block {
    #[verifier::rlimit(100)]
    pub fn serialize(&self, reg: &Registry, buf: &mut Vec<u8>)
        requires
            block_serializable(reg@, *self),
            reg.wf(),
        ensures
            final(buf)@ == old(buf)@ + enc_block(reg@, self@),
    {
        crate::serialization::SerializationTrap::Block.serialize(buf);
        if self.is_none() {
            crate::serialization::write_bool(buf, true);
            proof {
                assert(buf@ =~= old(buf)@ + enc_block(reg@, self@));
            }
            return;
        }
        crate::serialization::write_bool(buf, false);
        let id = match reg.block_id_of_kind(self.kind()) {
            Some(id) => id,
            None => {
                proof {
                    assert(false);
                }
                return;
            },
        };
        crate::identifier::write_ident(reg.pool(), id, buf);
        match self {
            Block::Empty => {},
            Block::ResourceNodeBrown => {},
            Block::StorageContainer { inv } => {
                inv.serialize(reg, buf);
            },
            Block::Extractor { inv, .. } => {
                crate::items::write_opt_item(reg, &inv.get_item(0), buf);
            },
            Block::Conveyor { inv, incoming, .. } => {
                crate::items::write_opt_item(reg, &inv.get_item(0), buf);
                incoming.serialize(buf);
            },
            Block::Splitter { inv, .. } => {
                crate::items::write_opt_item(reg, &inv.get_item(0), buf);
            },
            Block::Tunnel { inv, move_dir, link, .. } => {
                inv.serialize(reg, buf);
                move_dir.serialize(buf);
                link.serialize(buf);
            },
        }
        proof {
            assert(buf@ =~= old(buf)@ + enc_block(reg@, self@));
        }
    }

    /// Read one block; its identifier must resolve in the block registry.
    pub fn try_deserialize(reg: &Registry, buf: &mut crate::serialization::Buffer) -> (r: Result<
        Block,
        crate::serialization::SerializationError,
    >)
        requires
            old(buf).wf(),
            reg.wf(),
        ensures
            final(buf).wf(),
            match parse_block(reg@, old(buf).remaining()) {
                Some((bv, rest)) => r matches Ok(b) && b@ == bv && final(buf).remaining() == rest,
                None => r is Err,
            },
    {
        match crate::serialization::SerializationTrap::Block.try_deserialize(buf) {
            Err(e) => {
                return Err(e);
            },
            Ok(()) => {},
        }
        let is_empty = match crate::serialization::try_read_bool(buf) {
            Err(e) => {
                return Err(e);
            },
            Ok(v) => v,
        };
        if is_empty {
            return Ok(Block::Empty);
        }
        let id = match crate::identifier::try_read_ident(reg.pool(), buf) {
            Err(e) => {
                return Err(e);
            },
            Ok(v) => v,
        };
        let kind = match reg.get_block_by_id(id) {
            None => {
                return Err(crate::serialization::SerializationError::InvalidData);
            },
            Some(k) => k,
        };
        match kind {
            BlockKind::Empty => Ok(Block::Empty),
            BlockKind::ResourceNodeBrown => Ok(Block::ResourceNodeBrown),
            BlockKind::StorageContainer => {
                match Inventory::try_deserialize(reg, buf) {
                    Err(e) => Err(e),
                    Ok(inv) => Ok(Block::StorageContainer { inv }),
                }
            },
            BlockKind::Extractor => {
                match crate::items::try_read_opt_item(reg, buf) {
                    Err(e) => Err(e),
                    Ok(slot) => {
                        let mut inv = Inventory::new(1, false);
                        inv.set_item(0, slot);
                        proof {
                            assert(inv@ =~= seq![slot]);
                        }
                        Ok(Block::Extractor { last_reset: 0, inv })
                    },
                }
            },
            BlockKind::Conveyor => {
                let slot = match crate::items::try_read_opt_item(reg, buf) {
                    Err(e) => {
                        return Err(e);
                    },
                    Ok(v) => v,
                };
                let d = match Direction::try_deserialize(buf) {
                    Err(e) => {
                        return Err(e);
                    },
                    Ok(v) => v,
                };
                let mut inv = Inventory::new(1, false);
                inv.set_item(0, slot);
                proof {
                    assert(inv@ =~= seq![slot]);
                }
                Ok(Block::Conveyor { last_reset: 0, inv, incoming: d })
            },
            BlockKind::Splitter => {
                match crate::items::try_read_opt_item(reg, buf) {
                    Err(e) => Err(e),
                    Ok(slot) => {
                        let mut inv = Inventory::new(1, false);
                        inv.set_item(0, slot);
                        proof {
                            assert(inv@ =~= seq![slot]);
                        }
                        Ok(Block::Splitter { last_reset: 0, inv, last_output: 0, chosen: None })
                    },
                }
            },
            BlockKind::Tunnel => {
                let inv = match Inventory::try_deserialize(reg, buf) {
                    Err(e) => {
                        return Err(e);
                    },
                    Ok(v) => v,
                };
                let d = match Direction::try_deserialize(buf) {
                    Err(e) => {
                        return Err(e);
                    },
                    Ok(v) => v,
                };
                let t = match TunnelType::try_deserialize(buf) {
                    Err(e) => {
                        return Err(e);
                    },
                    Ok(v) => v,
                };
                Ok(Block::Tunnel { last_reset: 0, inv, move_dir: d, link: t })
            },
        }
    }
}

} // verus!
