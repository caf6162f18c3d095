//! Items: what blocks move and inventories hold.
//!
//! An item is its identifier (the registry type-key), its kind, and one `u32`
//! of metadata. The metadata is dual-purpose by design — a stack count or a
//! durability — and `metadata_is_stack_size` says which; every current kind
//! uses it as a stack count.

use vstd::prelude::*;
use crate::identifier::{enc_ident, parse_ident, Identifier};
use crate::registry::{
    table_contains_id, table_kind_of, table_wf, ItemKind, Registry, RegistryV,
};
use crate::serialization::{
    enc_bool, enc_trap, enc_u32, parse_bool, parse_trap, parse_u32, try_read_bool, try_read_u32,
    write_bool, write_u32, Buffer, SerializationError, SerializationTrap,
};

verus! {

/// One item: identity, behavior kind, and stack-or-durability metadata.
#[derive(Clone, Copy, Debug, PartialEq, Eq, Hash, Structural)]
pub struct Item {
    pub id: Identifier,
    pub kind: ItemKind,
    pub metadata: u32,
}

/// Whether this kind reads its metadata as a stack count (every current kind
/// does; a durability kind would never merge in an inventory).
pub open spec fn spec_metadata_is_stack_size(kind: ItemKind) -> bool {
    true
}

/// How many units an item stands for: its stack count, or one.
pub open spec fn spec_item_units(it: Item) -> nat {
    if spec_metadata_is_stack_size(it.kind) {
        it.metadata as nat
    } else {
        1
    }
}

/// The item's (identifier, kind) pair is exactly what the registry maps.
pub open spec fn item_registered(reg: RegistryV, it: Item) -> bool {
    table_contains_id(reg.items, it.id) && table_kind_of(reg.items, it.id) == it.kind
}

impl Item {
    pub fn new(id: Identifier, kind: ItemKind, metadata: u32) -> (r: Self)
        ensures
            r == (Item { id, kind, metadata }),
    {
        Item { id, kind, metadata }
    }

    pub fn identifier(&self) -> (r: Identifier)
        ensures
            r == self.id,
    {
        self.id
    }

    pub fn metadata(&self) -> (r: u32)
        ensures
            r == self.metadata,
    {
        self.metadata
    }

    pub fn metadata_is_stack_size(&self) -> (r: bool)
        ensures
            r == spec_metadata_is_stack_size(self.kind),
    {
        true
    }

    pub fn set_metadata(&mut self, new_data: u32)
        ensures
            *final(self) == (Item { metadata: new_data, ..*old(self) }),
    {
        self.metadata = new_data;
    }

    /// An identical item (items are plain values).
    pub fn clone_item(&self) -> (r: Item)
        ensures
            r == *self,
    {
        Item { id: self.id, kind: self.kind, metadata: self.metadata }
    }

    pub fn serialize(&self, reg: &Registry, buf: &mut Vec<u8>)
        requires
            self.id.valid(reg@.pool),
        ensures
            final(buf)@ == old(buf)@ + enc_item(reg@.pool, *self),
    {
        SerializationTrap::Item.serialize(buf);
        crate::identifier::write_ident(reg.pool(), self.id, buf);
        write_u32(buf, self.metadata);
        proof {
            assert(buf@ =~= old(buf)@ + enc_item(reg@.pool, *self));
        }
    }

    /// Read an item: its identifier must resolve in the item registry.
    pub fn try_deserialize(reg: &Registry, buf: &mut Buffer) -> (r: Result<
        Item,
        SerializationError,
    >)
        requires
            old(buf).wf(),
            reg.wf(),
        ensures
            final(buf).wf(),
            match parse_item(reg@, old(buf).remaining()) {
                Some((it, rest)) => r == Ok::<Item, SerializationError>(it)
                    && final(buf).remaining() == rest,
                None => r is Err,
            },
    {
        match SerializationTrap::Item.try_deserialize(buf) {
            Err(e) => {
                return Err(e);
            },
            Ok(()) => {},
        }
        let id = match crate::identifier::try_read_ident(reg.pool(), buf) {
            Err(e) => {
                return Err(e);
            },
            Ok(v) => v,
        };
        let kind = match reg.get_item_by_id(id) {
            None => {
                return Err(SerializationError::InvalidData);
            },
            Some(k) => k,
        };
        let metadata = match try_read_u32(buf) {
            Err(e) => {
                return Err(e);
            },
            Ok(v) => v,
        };
        Ok(Item { id, kind, metadata })
    }
}

/// An item on the wire: item trap, identifier, metadata. The kind is not
/// stored; decoding recovers it from the registry.
pub open spec fn enc_item(pool: Seq<Seq<u8>>, it: Item) -> Seq<u8> {
    enc_trap(SerializationTrap::Item) + enc_ident(pool, it.id) + enc_u32(it.metadata)
}

pub open spec fn parse_item(reg: RegistryV, s: Seq<u8>) -> Option<(Item, Seq<u8>)> {
    match parse_trap(s, SerializationTrap::Item) {
        None => None,
        Some(s1) => match parse_ident(reg.pool, s1) {
            None => None,
            Some((id, s2)) => if table_contains_id(reg.items, id) {
                match parse_u32(s2) {
                    None => None,
                    Some((m, s3)) => Some(
                        (Item { id, kind: table_kind_of(reg.items, id), metadata: m }, s3),
                    ),
                }
            } else {
                None
            },
        },
    }
}

/// Round trip for one registered item.
pub proof fn lemma_parse_item_enc(reg: RegistryV, it: Item, rest: Seq<u8>)
    requires
        crate::identifier::pool_unique(reg.pool),
        table_wf(reg.items, reg.pool),
        item_registered(reg, it),
    ensures
        parse_item(reg, enc_item(reg.pool, it) + rest) == Some((it, rest)),
{
    let s = enc_item(reg.pool, it) + rest;
    let s1 = enc_ident(reg.pool, it.id) + enc_u32(it.metadata) + rest;
    assert(s.skip(1) =~= s1);
    let w = choose|w: int| 0 <= w < reg.items.len() && reg.items[w].0 == it.id;
    assert(reg.items[w].0 == it.id);
    assert(it.id.valid(reg.pool));
    assert(it.id.names_ascii(reg.pool));
    assert(s1 =~= enc_ident(reg.pool, it.id) + (enc_u32(it.metadata) + rest));
    crate::identifier::lemma_parse_ident_enc(reg.pool, it.id, enc_u32(it.metadata) + rest);
    crate::serialization::lemma_parse_u32_enc(it.metadata, rest);
}

/// A nullable item slot on the wire: option trap, presence flag, payload.
pub open spec fn enc_opt_item(pool: Seq<Seq<u8>>, slot: Option<Item>) -> Seq<u8> {
    enc_trap(SerializationTrap::Option) + match slot {
        Some(it) => enc_bool(true) + enc_item(pool, it),
        None => enc_bool(false),
    }
}

pub open spec fn parse_opt_item(reg: RegistryV, s: Seq<u8>) -> Option<(Option<Item>, Seq<u8>)> {
    match parse_trap(s, SerializationTrap::Option) {
        None => None,
        Some(s1) => match parse_bool(s1) {
            None => None,
            Some((present, s2)) => if present {
                match parse_item(reg, s2) {
                    None => None,
                    Some((it, s3)) => Some((Some(it), s3)),
                }
            } else {
                Some((None, s2))
            },
        },
    }
}

pub proof fn lemma_parse_opt_item_enc(reg: RegistryV, slot: Option<Item>, rest: Seq<u8>)
    requires
        crate::identifier::pool_unique(reg.pool),
        table_wf(reg.items, reg.pool),
        slot matches Some(it) ==> item_registered(reg, it),
    ensures
        parse_opt_item(reg, enc_opt_item(reg.pool, slot) + rest) == Some((slot, rest)),
{
    let s = enc_opt_item(reg.pool, slot) + rest;
    match slot {
        Some(it) => {
            let s1 = enc_bool(true) + enc_item(reg.pool, it) + rest;
            assert(s.skip(1) =~= s1);
            assert(s1.skip(1) =~= enc_item(reg.pool, it) + rest);
            lemma_parse_item_enc(reg, it, rest);
        },
        None => {
            let s1 = enc_bool(false) + rest;
            assert(s.skip(1) =~= s1);
            assert(s1.skip(1) =~= rest);
        },
    }
}

/// Write one nullable slot.
pub fn write_opt_item(reg: &Registry, slot: &Option<Item>, buf: &mut Vec<u8>)
    requires
        slot matches Some(it) ==> it.id.valid(reg@.pool),
    ensures
        final(buf)@ == old(buf)@ + enc_opt_item(reg@.pool, *slot),
{
    SerializationTrap::Option.serialize(buf);
    match slot {
        Some(it) => {
            write_bool(buf, true);
            it.serialize(reg, buf);
        },
        None => {
            write_bool(buf, false);
        },
    }
    proof {
        assert(buf@ =~= old(buf)@ + enc_opt_item(reg@.pool, *slot));
    }
}

/// Read one nullable slot.
pub fn try_read_opt_item(reg: &Registry, buf: &mut Buffer) -> (r: Result<
    Option<Item>,
    SerializationError,
>)
    requires
        old(buf).wf(),
        reg.wf(),
    ensures
        final(buf).wf(),
        match parse_opt_item(reg@, old(buf).remaining()) {
            Some((slot, rest)) => r == Ok::<Option<Item>, SerializationError>(slot)
                && final(buf).remaining() == rest,
            None => r is Err,
        },
{
    match SerializationTrap::Option.try_deserialize(buf) {
        Err(e) => {
            return Err(e);
        },
        Ok(()) => {},
    }
    let present = match try_read_bool(buf) {
        Err(e) => {
            return Err(e);
        },
        Ok(v) => v,
    };
    if present {
        match Item::try_deserialize(reg, buf) {
            Err(e) => Err(e),
            Ok(it) => Ok(Some(it)),
        }
    } else {
        Ok(None)
    }
}

} // verus!
