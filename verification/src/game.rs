//! Player-facing state and the save-file framing.
//!
//! A save file is the eight-byte signature, the save timestamp, the whole
//! world, and the player inventory, in that order. A decode failure aborts
//! the entire load with a typed error: never a partial or corrupt world.

use vstd::prelude::*;
use crate::inventory::{Inventory, NUM_SLOTS_PLAYER};
use crate::registry::{BlockKind, Registry, RegistryV};
use crate::serialization::{
    enc_trap, enc_u64, parse_trap, parse_u64, try_read_u64, write_u64, Buffer, SerializationError,
    SerializationTrap,
};
use crate::world::{Direction, Vec2i, World};

verus! {

/// What the renderer is currently painting; the core only hands this through.
#[derive(Clone, Copy, Debug, PartialEq, Eq, Structural)]
pub enum RenderLayer {
    Block,
    OverlayItems,
    Preview,
}

impl RenderLayer {
    /// The layer used for item and menu previews.
    pub fn default_preview() -> (r: Self)
        ensures
            r == RenderLayer::Preview,
    {
        RenderLayer::Preview
    }
}

/// What clicking the world currently does.
#[derive(Clone, Copy, Debug, PartialEq, Eq, Structural)]
pub enum InteractionMode {
    Idle,
    Building,
    Dismantling,
}

/// The player's session state: selected building, facing, inventory,
/// position and interaction mode. Only the position and inventory persist.
pub struct GameConfig {
    pub current_selected_block: BlockKind,
    pub direction: Direction,
    pub inventory: Inventory,
    pub player: Vec2i,
    pub interaction_mode: InteractionMode,
}

impl Default for GameConfig {
    fn default() -> (r: Self)
        ensures
            r.current_selected_block == BlockKind::Empty,
            r.direction == Direction::North,
            r.inventory@.len() == NUM_SLOTS_PLAYER,
            forall|i: int| 0 <= i < r.inventory@.len() ==> r.inventory@[i] is None,
            r.inventory.is_player,
            r.player == (Vec2i { x: 0, y: 0 }),
            r.interaction_mode == InteractionMode::Idle,
    {
        GameConfig {
            current_selected_block: BlockKind::Empty,
            direction: Direction::North,
            inventory: Inventory::new(NUM_SLOTS_PLAYER, true),
            player: Vec2i { x: 0, y: 0 },
            interaction_mode: InteractionMode::Idle,
        }
    }
}

/// The eight-byte save-file signature.
pub open spec fn spec_signature() -> Seq<u8> {
    seq![80u8, 78u8, 50u8, 83u8, 95u8, 83u8, 65u8, 86u8]
}

/// A timestamp on the wire: a time trap, then seconds since the epoch.
pub open spec fn enc_time(secs: u64) -> Seq<u8> {
    enc_trap(SerializationTrap::Time) + enc_u64(secs)
}

pub open spec fn parse_time(s: Seq<u8>) -> Option<(u64, Seq<u8>)> {
    match parse_trap(s, SerializationTrap::Time) {
        None => None,
        Some(s1) => parse_u64(s1),
    }
}

/// A whole save file: signature, timestamp, world, player inventory.
pub open spec fn enc_save(
    reg: RegistryV,
    wv: crate::world::WorldV,
    slots: Seq<Option<crate::items::Item>>,
    is_player: bool,
    secs: u64,
) -> Seq<u8> {
    spec_signature() + enc_time(secs) + crate::world::enc_world(reg, wv)
        + crate::inventory::enc_inventory(reg.pool, slots, is_player)
}

pub open spec fn parse_save(reg: RegistryV, s: Seq<u8>) -> Option<
    ((crate::world::WorldV, Seq<Option<crate::items::Item>>, bool, u64), Seq<u8>),
> {
    if s.len() >= 8 && s.take(8) == spec_signature() {
        match parse_time(s.skip(8)) {
            None => None,
            Some((secs, s1)) => match crate::world::parse_world(reg, s1) {
                None => None,
                Some((wv, s2)) => match crate::inventory::parse_inventory(reg, s2) {
                    None => None,
                    Some(((slots, is_player), s3)) => Some(((wv, slots, is_player, secs), s3)),
                },
            },
        }
    } else {
        None
    }
}

/// Round trip for a whole save file.
pub proof fn lemma_parse_save_enc(
    reg: RegistryV,
    w: World,
    inv: Inventory,
    secs: u64,
    rest: Seq<u8>,
)
    requires
        crate::identifier::pool_unique(reg.pool),
        crate::registry::table_wf(reg.blocks, reg.pool),
        crate::registry::table_wf(reg.items, reg.pool),
        w.wf(),
        crate::world::world_serializable(reg, w),
        crate::inventory::slots_registered(reg, inv@),
        inv@.len() < 0x1_0000_0000_0000_0000,
    ensures
        parse_save(reg, enc_save(reg, w@, inv@, inv.is_player, secs) + rest) == Some(
            ((crate::world::spec_persisted_world(w@), inv@, inv.is_player, secs), rest),
        ),
{
    let s = enc_save(reg, w@, inv@, inv.is_player, secs) + rest;
    let after_sig = enc_time(secs) + (crate::world::enc_world(reg, w@) + (
    crate::inventory::enc_inventory(reg.pool, inv@, inv.is_player) + rest));
    assert(s.take(8) =~= spec_signature());
    assert(s.skip(8) =~= after_sig);
    let after_time = crate::world::enc_world(reg, w@) + (crate::inventory::enc_inventory(
        reg.pool,
        inv@,
        inv.is_player,
    ) + rest);
    assert(after_sig.skip(1) =~= enc_u64(secs) + after_time);
    crate::serialization::lemma_parse_u64_enc(secs, after_time);
    crate::world::lemma_parse_world_enc(
        reg,
        w,
        crate::inventory::enc_inventory(reg.pool, inv@, inv.is_player) + rest,
    );
    crate::inventory::lemma_parse_inventory_enc(reg, inv@, inv.is_player, rest);
}

/// Encode a whole save file: signature, timestamp, world, player inventory.
pub fn write_save(world: &World, reg: &Registry, inventory: &Inventory, secs: u64) -> (r: Vec<u8>)
    requires
        world.wf(),
        crate::world::world_serializable(reg@, *world),
        crate::inventory::slots_ids_valid(reg@.pool, inventory@),
        reg.wf(),
    ensures
        r@ == enc_save(reg@, world@, inventory@, inventory.is_player, secs),
{
    let mut buf: Vec<u8> = Vec::new();
    buf.push(80);
    buf.push(78);
    buf.push(50);
    buf.push(83);
    buf.push(95);
    buf.push(83);
    buf.push(65);
    buf.push(86);
    proof {
        assert(buf@ =~= spec_signature());
    }
    SerializationTrap::Time.serialize(&mut buf);
    write_u64(&mut buf, secs);
    world.serialize(reg, &mut buf);
    inventory.serialize(reg, &mut buf);
    proof {
        assert(buf@ =~= enc_save(reg@, world@, inventory@, inventory.is_player, secs));
    }
    buf
}

/// Decode a whole save file; any structural problem aborts the load with a
/// typed error and no partial world.
pub fn read_save(reg: &Registry, bytes: Vec<u8>) -> (r: Result<
    (World, Inventory, u64),
    SerializationError,
>)
    requires
        reg.wf(),
    ensures
        match parse_save(reg@, bytes@) {
            Some(((wv, slots, is_player, secs), _)) => r matches Ok((w, inv, t)) && w@ == wv
                && w.wf() && inv@ == slots && inv.is_player == is_player && t == secs,
            None => r is Err,
        },
{
    let mut buf = Buffer::new(bytes);
    if buf.len() < 8 {
        return Err(SerializationError::InvalidData);
    }
    let sig = buf.read_elements(8);
    let good = sig[0] == 80 && sig[1] == 78 && sig[2] == 50 && sig[3] == 83 && sig[4] == 95
        && sig[5] == 83 && sig[6] == 65 && sig[7] == 86;
    if !good {
        proof {
            assert(sig@ != spec_signature());
        }
        return Err(SerializationError::InvalidData);
    }
    proof {
        assert(sig@ =~= spec_signature());
    }
    match SerializationTrap::Time.try_deserialize(&mut buf) {
        Err(e) => {
            return Err(e);
        },
        Ok(()) => {},
    }
    let secs = match try_read_u64(&mut buf) {
        Err(e) => {
            return Err(e);
        },
        Ok(v) => v,
    };
    let world = match World::try_deserialize(reg, &mut buf) {
        Err(e) => {
            return Err(e);
        },
        Ok(v) => v,
    };
    let inventory = match Inventory::try_deserialize(reg, &mut buf) {
        Err(e) => {
            return Err(e);
        },
        Ok(v) => v,
    };
    Ok((world, inventory, secs))
}

} // verus!
