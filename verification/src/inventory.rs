//! Fixed-size slotted item storage with stacking.
//!
//! Slots merge same-identity, stack-typed items up to `MAX_ITEMS_PER_SLOT`;
//! overflow beyond the cap is returned to the caller, never silently
//! discarded. The `is_player` flag marks the player's inventory (whose
//! mutations an interface layer may want to report); it changes no stacking
//! rule. Capacity probes (`can_push`, `can_pull`) never mutate.

use vstd::prelude::*;
use crate::items::{spec_item_units, spec_metadata_is_stack_size, Item};

verus! {

/// The stack cap of one slot.
pub const MAX_ITEMS_PER_SLOT: u32 = 255;

/// The player inventory's slot count (a 5 x 9 grid).
pub const NUM_SLOTS_PLAYER: usize = 45;

/// How many units a slot holds.
pub open spec fn slot_units(s: Option<Item>) -> nat {
    match s {
        Some(it) => spec_item_units(it),
        None => 0,
    }
}

/// Total units across all slots.
pub open spec fn total_units(slots: Seq<Option<Item>>) -> nat
    decreases slots.len(),
{
    if slots.len() == 0 {
        0
    } else {
        slot_units(slots[0]) + total_units(slots.skip(1))
    }
}

/// Units in a nullable return value.
pub open spec fn opt_units(r: Option<Item>) -> nat {
    slot_units(r)
}

/// No stack-typed slot exceeds the cap.
pub open spec fn inv_wf(slots: Seq<Option<Item>>) -> bool {
    forall|i: int| 0 <= i < slots.len() ==> match #[trigger] slots[i] {
        Some(it) => spec_metadata_is_stack_size(it.kind) ==> it.metadata <= MAX_ITEMS_PER_SLOT,
        None => true,
    }
}

pub proof fn lemma_total_units_update(slots: Seq<Option<Item>>, i: int, v: Option<Item>)
    requires
        0 <= i < slots.len(),
    ensures
        total_units(slots.update(i, v)) + slot_units(slots[i]) == total_units(slots) + slot_units(
            v,
        ),
    decreases i,
{
    let u = slots.update(i, v);
    if i == 0 {
        assert(u.skip(1) =~= slots.skip(1));
    } else {
        assert(u.skip(1) =~= slots.skip(1).update(i - 1, v));
        assert(slots.skip(1)[i - 1] == slots[i]);
        lemma_total_units_update(slots.skip(1), i - 1, v);
    }
}

/// A slot sequence truncated or extended with empty slots to exactly `n`.
pub open spec fn spec_resize_slots(slots: Seq<Option<Item>>, n: nat) -> Seq<Option<Item>> {
    if slots.len() >= n {
        slots.take(n as int)
    } else {
        slots + Seq::new((n - slots.len()) as nat, |i: int| None::<Item>)
    }
}

/// Ordered sequence of nullable item slots, fixed length, with a
/// player-ownership flag.
pub struct Inventory {
    pub items: Vec<Option<Item>>,
    pub is_player: bool,
}

impl View for Inventory {
    type V = Seq<Option<Item>>;

    open spec fn view(&self) -> Seq<Option<Item>> {
        self.items@
    }
}

impl Clone for Inventory {
    fn clone(&self) -> (r: Self)
        ensures
            r@ == self@,
            r.is_player == self.is_player,
    {
        let mut items: Vec<Option<Item>> = Vec::new();
        let n = self.items.len();
        let mut i: usize = 0;
        while i < n
            invariant
                i <= n,
                self.items@.len() == n,
                items@ == self.items@.take(i as int),
            decreases n - i,
        {
            items.push(self.items[i]);
            i = i + 1;
            proof {
                assert(items@ =~= self.items@.take(i as int));
            }
        }
        proof {
            assert(self.items@.take(n as int) =~= self.items@);
        }
        Inventory { items, is_player: self.is_player }
    }
}

impl Inventory {
    pub fn new(size: usize, is_player: bool) -> (r: Self)
        ensures
            r@.len() == size,
            forall|i: int| 0 <= i < size ==> r@[i] is None,
            r.is_player == is_player,
    {
        let mut items: Vec<Option<Item>> = Vec::new();
        let mut i: usize = 0;
        while i < size
            invariant
                i <= size,
                items@.len() == i,
                forall|j: int| 0 <= j < i ==> items@[j] is None,
            decreases size - i,
        {
            items.push(None);
            i = i + 1;
        }
        Inventory { items, is_player }
    }

    pub fn size(&self) -> (r: usize)
        ensures
            r == self@.len(),
    {
        self.items.len()
    }

    /// Truncate or extend (with empty slots) to exactly `new_size` slots.
    pub fn resize(&mut self, new_size: usize)
        ensures
            final(self)@ == spec_resize_slots(old(self)@, new_size as nat),
            final(self).is_player == old(self).is_player,
    {
        if new_size <= self.items.len() {
            self.items.truncate(new_size);
            proof {
                assert(self.items@ =~= spec_resize_slots(old(self)@, new_size as nat));
            }
        } else {
            let mut i = self.items.len();
            while i < new_size
                invariant
                    i <= new_size,
                    self.items@.len() == i,
                    old(self)@.len() <= i,
                    self.is_player == old(self).is_player,
                    forall|j: int| 0 <= j < old(self)@.len()
                        ==> self.items@[j] == old(self)@[j],
                    forall|j: int| old(self)@.len() <= j < i ==> self.items@[j] is None,
                decreases new_size - i,
            {
                self.items.push(None);
                i = i + 1;
            }
            proof {
                assert(self.items@ =~= spec_resize_slots(old(self)@, new_size as nat));
            }
        }
    }

    /// The item in a slot; an out-of-range slot reads as empty.
    pub fn get_item(&self, slot: usize) -> (r: Option<Item>)
        ensures
            r == if slot < self@.len() {
                self@[slot as int]
            } else {
                None::<Item>
            },
    {
        if slot >= self.items.len() {
            None
        } else {
            self.items[slot]
        }
    }

    /// Overwrite one slot.
    pub fn set_item(&mut self, slot: usize, value: Option<Item>)
        requires
            slot < old(self)@.len(),
        ensures
            final(self)@ == old(self)@.update(slot as int, value),
            final(self).is_player == old(self).is_player,
    {
        self.items.set(slot, value);
    }

    /// Swap two slots; false (and no change) when either is out of range.
    pub fn switch_items(&mut self, slot_a: usize, slot_b: usize) -> (r: bool)
        ensures
            final(self).is_player == old(self).is_player,
            if slot_a < old(self)@.len() && slot_b < old(self)@.len() {
                r && final(self)@ == old(self)@.update(
                    slot_a as int,
                    old(self)@[slot_b as int],
                ).update(slot_b as int, old(self)@[slot_a as int])
            } else {
                !r && final(self)@ == old(self)@
            },
    {
        if slot_a >= self.items.len() || slot_b >= self.items.len() {
            return false;
        }
        let val_a = self.items[slot_a];
        let val_b = self.items[slot_b];
        self.items.set(slot_a, val_b);
        self.items.set(slot_b, val_a);
        true
    }

    /// Remove and return the item of a slot; empty or out-of-range slots give
    /// nothing back.
    pub fn take_item(&mut self, slot: usize) -> (r: Option<Item>)
        ensures
            final(self).is_player == old(self).is_player,
            if slot < old(self)@.len() {
                r == old(self)@[slot as int] && final(self)@ == old(self)@.update(
                    slot as int,
                    None::<Item>,
                )
            } else {
                r is None && final(self)@ == old(self)@
            },
    {
        if slot >= self.items.len() {
            None
        } else {
            let item = self.items[slot];
            self.items.set(slot, None);
            item
        }
    }

    /// Whether anything at all can be pulled.
    pub fn can_pull(&self) -> (r: bool)
        ensures
            r == exists|i: int| 0 <= i < self@.len() && self@[i] is Some,
    {
        let n = self.items.len();
        let mut i: usize = 0;
        while i < n
            invariant
                i <= n,
                self.items@.len() == n,
                forall|j: int| 0 <= j < i ==> self.items@[j] is None,
            decreases n - i,
        {
            if self.items[i].is_some() {
                return true;
            }
            i = i + 1;
        }
        false
    }

    /// All items currently held, in slot order (for dismantling).
    pub fn destroy_items(&self) -> (r: Vec<Item>)
        ensures
            r@ == spec_contents(self@),
    {
        let mut out: Vec<Item> = Vec::new();
        let n = self.items.len();
        let mut i: usize = 0;
        while i < n
            invariant
                i <= n,
                self.items@.len() == n,
                out@ == spec_contents(self.items@.take(i as int)),
            decreases n - i,
        {
            proof {
                lemma_contents_snoc(self.items@, i as int);
            }
            match self.items[i] {
                Some(it) => {
                    out.push(it);
                },
                None => {},
            }
            i = i + 1;
        }
        proof {
            assert(self.items@.take(n as int) =~= self.items@);
        }
        out
    }
}

/// The items of the occupied slots, in order.
pub open spec fn spec_contents(slots: Seq<Option<Item>>) -> Seq<Item>
    decreases slots.len(),
{
    if slots.len() == 0 {
        Seq::empty()
    } else {
        match slots[0] {
            Some(it) => seq![it] + spec_contents(slots.skip(1)),
            None => spec_contents(slots.skip(1)),
        }
    }
}

proof fn lemma_contents_snoc(slots: Seq<Option<Item>>, i: int)
    requires
        0 <= i < slots.len(),
    ensures
        spec_contents(slots.take(i + 1)) == match slots[i] {
            Some(it) => spec_contents(slots.take(i)) + seq![it],
            None => spec_contents(slots.take(i)),
        },
    decreases i,
{
    let a = slots.take(i + 1);
    let b = slots.take(i);
    if i == 0 {
        assert(a.len() == 1);
        assert(a[0] == slots[0]);
        assert(b.len() == 0);
        assert(a.skip(1) =~= Seq::<Option<Item>>::empty());
        assert(spec_contents(a.skip(1)) =~= Seq::<Item>::empty());
        assert(spec_contents(b) =~= Seq::<Item>::empty());
        match slots[0] {
            Some(it) => {
                assert(spec_contents(a) == seq![it] + spec_contents(a.skip(1)));
                assert(seq![it] + Seq::<Item>::empty() =~= seq![it]);
            },
            None => {},
        }
    } else {
        assert(a.skip(1) =~= slots.skip(1).take(i));
        assert(b.skip(1) =~= slots.skip(1).take(i - 1));
        assert(slots.skip(1)[i - 1] == slots[i]);
        lemma_contents_snoc(slots.skip(1), i - 1);
        assert(a[0] == slots[0]);
        assert(b[0] == slots[0]);
    }
}


/// What `add_item` does: merge into one given slot under the stacking rule,
/// returning the slots afterwards and the leftover handed back to the caller.
/// Out of range, the whole item comes back. A same-identity stack-typed slot
/// merges up to the cap and returns the surplus; a full, different or
/// non-stack slot is replaced, handing its previous item back.
pub open spec fn spec_add_item(slots: Seq<Option<Item>>, item: Item, slot: int) -> (
    Seq<Option<Item>>,
    Option<Item>,
) {
    if !(0 <= slot < slots.len()) {
        (slots, Some(item))
    } else {
        match slots[slot] {
            None => (slots.update(slot, Some(item)), None),
            Some(si) => {
                if si.id == item.id && spec_metadata_is_stack_size(si.kind) {
                    if si.metadata >= MAX_ITEMS_PER_SLOT {
                        (slots, Some(item))
                    } else {
                        let new_sz = si.metadata + item.metadata;
                        if new_sz > MAX_ITEMS_PER_SLOT {
                            (
                                slots.update(
                                    slot,
                                    Some(Item { metadata: MAX_ITEMS_PER_SLOT, ..si }),
                                ),
                                Some(
                                    Item {
                                        metadata: (new_sz - MAX_ITEMS_PER_SLOT) as u32,
                                        ..item
                                    },
                                ),
                            )
                        } else {
                            (
                                slots.update(slot, Some(Item { metadata: new_sz as u32, ..si })),
                                None,
                            )
                        }
                    }
                } else {
                    (slots.update(slot, Some(item)), Some(si))
                }
            },
        }
    }
}

/// What `try_add_item` does: scan the slots in order, merging into
/// same-identity stack slots with room and dropping into the first empty
/// slot; whatever cannot be stored comes back.
pub open spec fn spec_try_add(slots: Seq<Option<Item>>, item: Item) -> (
    Seq<Option<Item>>,
    Option<Item>,
)
    decreases slots.len(),
{
    if slots.len() == 0 {
        (
            slots,
            if spec_metadata_is_stack_size(item.kind) && item.metadata > 0 {
                Some(item)
            } else {
                None
            },
        )
    } else {
        match slots[0] {
            None => (slots.update(0, Some(item)), None),
            Some(other) => {
                if other.id == item.id && spec_metadata_is_stack_size(item.kind)
                    && other.metadata < MAX_ITEMS_PER_SLOT {
                    let new_sz = other.metadata + item.metadata;
                    if new_sz > MAX_ITEMS_PER_SLOT {
                        let rec = spec_try_add(
                            slots.skip(1),
                            Item { metadata: (new_sz - MAX_ITEMS_PER_SLOT) as u32, ..item },
                        );
                        (seq![Some(Item { metadata: MAX_ITEMS_PER_SLOT, ..other })] + rec.0, rec.1)
                    } else {
                        (slots.update(0, Some(Item { metadata: new_sz as u32, ..other })), None)
                    }
                } else {
                    let rec = spec_try_add(slots.skip(1), item);
                    (seq![slots[0]] + rec.0, rec.1)
                }
            },
        }
    }
}

/// What `try_pull` does: the first occupied slot gives up to `num` units,
/// splitting its stack when it holds more.
pub open spec fn spec_try_pull(slots: Seq<Option<Item>>, num: u32) -> (
    Seq<Option<Item>>,
    Option<Item>,
)
    decreases slots.len(),
{
    if slots.len() == 0 {
        (slots, None)
    } else {
        match slots[0] {
            None => {
                let rec = spec_try_pull(slots.skip(1), num);
                (seq![None::<Item>] + rec.0, rec.1)
            },
            Some(it) => {
                if spec_metadata_is_stack_size(it.kind) && it.metadata > num {
                    (
                        slots.update(0, Some(Item { metadata: (it.metadata - num) as u32, ..it })),
                        Some(Item { metadata: num, ..it }),
                    )
                } else {
                    (slots.update(0, None::<Item>), Some(it))
                }
            },
        }
    }
}

/// 32-bit wrap-around subtraction, as the capacity probe computes with.
pub open spec fn wrap_sub_u32(a: u32, b: u32) -> u32 {
    if a >= b {
        (a - b) as u32
    } else {
        (a - b + 0x1_0000_0000) as u32
    }
}

/// What `can_push` answers: scanning in order, an empty slot accepts, and a
/// same-identity stack slot accepts when the remaining count, decreased by the
/// slot's wrap-around headroom, hits exactly zero.
pub open spec fn spec_can_push(slots: Seq<Option<Item>>, id: crate::identifier::Identifier, remaining: u32) -> bool
    decreases slots.len(),
{
    if slots.len() == 0 {
        false
    } else {
        match slots[0] {
            None => true,
            Some(inner) => {
                if inner.id != id {
                    spec_can_push(slots.skip(1), id, remaining)
                } else if spec_metadata_is_stack_size(inner.kind) {
                    let cr = wrap_sub_u32(
                        remaining,
                        wrap_sub_u32(MAX_ITEMS_PER_SLOT, inner.metadata),
                    );
                    if cr == 0 {
                        true
                    } else {
                        spec_can_push(slots.skip(1), id, cr)
                    }
                } else {
                    spec_can_push(slots.skip(1), id, remaining)
                }
            },
        }
    }
}

proof fn lemma_total_units_cons(x: Option<Item>, rest: Seq<Option<Item>>)
    ensures
        total_units(seq![x] + rest) == slot_units(x) + total_units(rest),
{
    let s = seq![x] + rest;
    assert(s.len() == 1 + rest.len());
    assert(s[0] == x);
    assert(s.skip(1) =~= rest);
}

/// Conservation under `add_item`: stored plus returned equals held plus
/// inserted.
pub proof fn lemma_add_item_conserves(slots: Seq<Option<Item>>, item: Item, slot: int)
    ensures
        total_units(spec_add_item(slots, item, slot).0) + opt_units(
            spec_add_item(slots, item, slot).1,
        ) == total_units(slots) + spec_item_units(item),
{
    if 0 <= slot < slots.len() {
        match slots[slot] {
            None => {
                lemma_total_units_update(slots, slot, Some(item));
            },
            Some(si) => {
                if si.id == item.id && spec_metadata_is_stack_size(si.kind) {
                    if si.metadata >= MAX_ITEMS_PER_SLOT {
                    } else {
                        let new_sz = si.metadata + item.metadata;
                        if new_sz > MAX_ITEMS_PER_SLOT {
                            lemma_total_units_update(
                                slots,
                                slot,
                                Some(Item { metadata: MAX_ITEMS_PER_SLOT, ..si }),
                            );
                        } else {
                            lemma_total_units_update(
                                slots,
                                slot,
                                Some(Item { metadata: new_sz as u32, ..si }),
                            );
                        }
                    }
                } else {
                    lemma_total_units_update(slots, slot, Some(item));
                }
            },
        }
    }
}

/// The cap invariant under `add_item`: starting under the cap and inserting
/// at most a cap's worth, no slot ends above the cap, nor does the leftover.
pub proof fn lemma_add_item_preserves_wf(slots: Seq<Option<Item>>, item: Item, slot: int)
    requires
        inv_wf(slots),
        item.metadata <= MAX_ITEMS_PER_SLOT,
    ensures
        inv_wf(spec_add_item(slots, item, slot).0),
        match spec_add_item(slots, item, slot).1 {
            Some(l) => l.metadata <= MAX_ITEMS_PER_SLOT,
            None => true,
        },
{
}

/// Conservation under `try_add_item`, for stack-typed items: stored plus
/// returned equals held plus inserted.
pub proof fn lemma_try_add_conserves(slots: Seq<Option<Item>>, item: Item)
    requires
        spec_metadata_is_stack_size(item.kind),
    ensures
        total_units(spec_try_add(slots, item).0) + opt_units(spec_try_add(slots, item).1)
            == total_units(slots) + spec_item_units(item),
    decreases slots.len(),
{
    if slots.len() == 0 {
    } else {
        match slots[0] {
            None => {
                lemma_total_units_update(slots, 0, Some(item));
            },
            Some(other) => {
                if other.id == item.id && spec_metadata_is_stack_size(item.kind)
                    && other.metadata < MAX_ITEMS_PER_SLOT {
                    let new_sz = other.metadata + item.metadata;
                    if new_sz > MAX_ITEMS_PER_SLOT {
                        let item2 = Item { metadata: (new_sz - MAX_ITEMS_PER_SLOT) as u32, ..item };
                        let rec = spec_try_add(slots.skip(1), item2);
                        lemma_try_add_conserves(slots.skip(1), item2);
                        lemma_total_units_cons(
                            Some(Item { metadata: MAX_ITEMS_PER_SLOT, ..other }),
                            rec.0,
                        );
                        assert(total_units(slots) == slot_units(slots[0]) + total_units(
                            slots.skip(1),
                        ));
                    } else {
                        lemma_total_units_update(
                            slots,
                            0,
                            Some(Item { metadata: new_sz as u32, ..other }),
                        );
                    }
                } else {
                    let rec = spec_try_add(slots.skip(1), item);
                    lemma_try_add_conserves(slots.skip(1), item);
                    lemma_total_units_cons(slots[0], rec.0);
                    assert(total_units(slots) == slot_units(slots[0]) + total_units(slots.skip(1)));
                }
            },
        }
    }
}

/// The cap invariant under `try_add_item`: no slot ever ends above the cap,
/// nor does the leftover.
pub proof fn lemma_try_add_preserves_wf(slots: Seq<Option<Item>>, item: Item)
    requires
        inv_wf(slots),
        item.metadata <= MAX_ITEMS_PER_SLOT,
    ensures
        inv_wf(spec_try_add(slots, item).0),
        match spec_try_add(slots, item).1 {
            Some(l) => l.metadata <= MAX_ITEMS_PER_SLOT,
            None => true,
        },
    decreases slots.len(),
{
    if slots.len() == 0 {
    } else {
        match slots[0] {
            None => {
            },
            Some(other) => {
                if other.id == item.id && spec_metadata_is_stack_size(item.kind)
                    && other.metadata < MAX_ITEMS_PER_SLOT {
                    let new_sz = other.metadata + item.metadata;
                    if new_sz > MAX_ITEMS_PER_SLOT {
                        let item2 = Item { metadata: (new_sz - MAX_ITEMS_PER_SLOT) as u32, ..item };
                        let rec = spec_try_add(slots.skip(1), item2);
                        assert(inv_wf(slots.skip(1))) by {
                            assert(forall|i: int| 0 <= i < slots.skip(1).len()
                                ==> slots.skip(1)[i] == slots[i + 1]);
                        }
                        lemma_try_add_preserves_wf(slots.skip(1), item2);
                        let out = seq![Some(Item { metadata: MAX_ITEMS_PER_SLOT, ..other })] + rec.0;
                        assert forall|i: int| 0 <= i < out.len() implies match #[trigger] out[i] {
                            Some(it) => spec_metadata_is_stack_size(it.kind)
                                ==> it.metadata <= MAX_ITEMS_PER_SLOT,
                            None => true,
                        } by {
                            if i > 0 {
                                assert(out[i] == rec.0[i - 1]);
                            }
                        }
                    } else {
                    }
                } else {
                    let rec = spec_try_add(slots.skip(1), item);
                    assert(inv_wf(slots.skip(1))) by {
                        assert(forall|i: int| 0 <= i < slots.skip(1).len()
                            ==> slots.skip(1)[i] == slots[i + 1]);
                    }
                    lemma_try_add_preserves_wf(slots.skip(1), item);
                    let out = seq![slots[0]] + rec.0;
                    assert forall|i: int| 0 <= i < out.len() implies match #[trigger] out[i] {
                        Some(it) => spec_metadata_is_stack_size(it.kind)
                            ==> it.metadata <= MAX_ITEMS_PER_SLOT,
                        None => true,
                    } by {
                        if i > 0 {
                            assert(out[i] == rec.0[i - 1]);
                        } else {
                            assert(out[0] == slots[0]);
                        }
                    }
                }
            },
        }
    }
}

/// 32-bit wrap-around subtraction.
fn wrap_sub(a: u32, b: u32) -> (r: u32)
    ensures
        r == wrap_sub_u32(a, b),
{
    if a >= b {
        a - b
    } else {
        ((a as u64 + 0x1_0000_0000) - b as u64) as u32
    }
}

impl Inventory {
    /// Deposit into one specific slot under the stacking rule; the leftover
    /// (or the displaced previous item) comes back.
    pub fn add_item(&mut self, item: Item, slot: usize) -> (r: Option<Item>)
        ensures
            final(self).is_player == old(self).is_player,
            final(self)@ == spec_add_item(old(self)@, item, slot as int).0,
            r == spec_add_item(old(self)@, item, slot as int).1,
            total_units(final(self)@) + opt_units(r) == total_units(old(self)@)
                + spec_item_units(item),
    {
        proof {
            lemma_add_item_conserves(old(self)@, item, slot as int);
        }
        if slot >= self.items.len() {
            return Some(item);
        }
        match self.items[slot] {
            None => {
                self.items.set(slot, Some(item));
                None
            },
            Some(si) => {
                if si.id == item.id && si.metadata_is_stack_size() {
                    if si.metadata >= MAX_ITEMS_PER_SLOT {
                        Some(item)
                    } else {
                        let new_sz: u64 = si.metadata as u64 + item.metadata as u64;
                        if new_sz > MAX_ITEMS_PER_SLOT as u64 {
                            self.items.set(
                                slot,
                                Some(Item { metadata: MAX_ITEMS_PER_SLOT, ..si }),
                            );
                            Some(
                                Item {
                                    metadata: (new_sz - MAX_ITEMS_PER_SLOT as u64) as u32,
                                    ..item
                                },
                            )
                        } else {
                            self.items.set(slot, Some(Item { metadata: new_sz as u32, ..si }));
                            None
                        }
                    }
                } else {
                    self.items.set(slot, Some(item));
                    Some(si)
                }
            },
        }
    }

    /// Deposit anywhere: merge into matching stack slots in order, then the
    /// first empty slot; the unstorable remainder comes back.
    pub fn try_add_item(&mut self, item: Item) -> (r: Option<Item>)
        ensures
            final(self).is_player == old(self).is_player,
            final(self)@ == spec_try_add(old(self)@, item).0,
            r == spec_try_add(old(self)@, item).1,
    {
        let ghost slots0 = self.items@;
        let ghost tgt = spec_try_add(slots0, item);
        let mut cur = item;
        let n = self.items.len();
        let mut i: usize = 0;
        proof {
            assert(slots0.skip(0) =~= slots0);
            assert(slots0.take(0) + spec_try_add(slots0, item).0 =~= spec_try_add(slots0, item).0);
        }
        while i < n
            invariant
                i <= n,
                self.items@.len() == n,
                self.is_player == old(self).is_player,
                cur.kind == item.kind,
                cur.id == item.id,
                tgt == spec_try_add(old(self)@, item),
                tgt.0 == self.items@.take(i as int) + spec_try_add(
                    self.items@.skip(i as int),
                    cur,
                ).0,
                tgt.1 == spec_try_add(self.items@.skip(i as int), cur).1,
            decreases n - i,
        {
            let ghost pre = self.items@;
            proof {
                assert(pre.skip(i as int)[0] == pre[i as int]);
                assert(pre.skip(i as int).skip(1) =~= pre.skip(i as int + 1));
            }
            match self.items[i] {
                None => {
                    self.items.set(i, Some(cur));
                    proof {
                        assert(pre.skip(i as int).update(0, Some(cur)) =~= self.items@.skip(
                            i as int,
                        ));
                        assert(pre.take(i as int) =~= self.items@.take(i as int));
                        assert(tgt.0 =~= self.items@);
                    }
                    return None;
                },
                Some(other) => {
                    if other.id == cur.id && cur.metadata_is_stack_size()
                        && other.metadata < MAX_ITEMS_PER_SLOT {
                        let new_sz: u64 = other.metadata as u64 + cur.metadata as u64;
                        if new_sz > MAX_ITEMS_PER_SLOT as u64 {
                            self.items.set(
                                i,
                                Some(Item { metadata: MAX_ITEMS_PER_SLOT, ..other }),
                            );
                            let ghost old_cur = cur;
                            cur = Item {
                                metadata: (new_sz - MAX_ITEMS_PER_SLOT as u64) as u32,
                                ..cur
                            };
                            proof {
                                let rec = spec_try_add(self.items@.skip(i as int + 1), cur);
                                assert(self.items@.skip(i as int + 1) =~= pre.skip(
                                    i as int,
                                ).skip(1));
                                assert(spec_try_add(pre.skip(i as int), old_cur).0 == seq![
                                    Some(Item { metadata: MAX_ITEMS_PER_SLOT, ..other }),
                                ] + rec.0);
                                assert(pre.take(i as int) =~= self.items@.take(i as int));
                                assert(self.items@.take(i as int + 1) =~= self.items@.take(
                                    i as int,
                                ) + seq![Some(Item { metadata: MAX_ITEMS_PER_SLOT, ..other })]);
                                assert(self.items@.take(i as int) + (seq![
                                    Some(Item { metadata: MAX_ITEMS_PER_SLOT, ..other }),
                                ] + rec.0) =~= self.items@.take(i as int + 1) + rec.0);
                            }
                        } else {
                            self.items.set(i, Some(Item { metadata: new_sz as u32, ..other }));
                            proof {
                                assert(pre.skip(i as int).update(
                                    0,
                                    Some(Item { metadata: new_sz as u32, ..other }),
                                ) =~= self.items@.skip(i as int));
                                assert(pre.take(i as int) =~= self.items@.take(i as int));
                                assert(tgt.0 =~= self.items@);
                            }
                            return None;
                        }
                    } else {
                        proof {
                            let rec = spec_try_add(pre.skip(i as int + 1), cur);
                            assert(spec_try_add(pre.skip(i as int), cur).0 == seq![pre[i as int]]
                                + rec.0);
                            assert(pre.take(i as int + 1) =~= pre.take(i as int) + seq![
                                pre[i as int],
                            ]);
                            assert(pre.take(i as int) + (seq![pre[i as int]] + rec.0) =~= pre.take(
                                i as int + 1,
                            ) + rec.0);
                        }
                    }
                },
            }
            i = i + 1;
        }
        proof {
            assert(self.items@.skip(n as int) =~= Seq::<Option<Item>>::empty());
            assert(self.items@.take(n as int) =~= self.items@);
            assert(tgt.0 =~= self.items@);
        }
        if cur.metadata_is_stack_size() && cur.metadata() > 0 {
            Some(cur)
        } else {
            None
        }
    }

    /// The non-mutating capacity probe: would `try_add_item` of this item find
    /// room, by the wrap-around count the probe keeps.
    pub fn can_push(&self, item: &Item) -> (r: bool)
        ensures
            r == spec_can_push(
                self@,
                item.id,
                if spec_metadata_is_stack_size(item.kind) {
                    item.metadata
                } else {
                    1
                },
            ),
    {
        let mut count_remaining: u32 = if item.metadata_is_stack_size() {
            item.metadata()
        } else {
            1
        };
        let ghost init = count_remaining;
        let n = self.items.len();
        let mut i: usize = 0;
        proof {
            assert(self.items@.skip(0) =~= self.items@);
        }
        while i < n
            invariant
                i <= n,
                self.items@.len() == n,
                init == if spec_metadata_is_stack_size(item.kind) {
                    item.metadata
                } else {
                    1u32
                },
                spec_can_push(self.items@, item.id, init) == spec_can_push(
                    self.items@.skip(i as int),
                    item.id,
                    count_remaining,
                ),
            decreases n - i,
        {
            proof {
                assert(self.items@.skip(i as int)[0] == self.items@[i as int]);
                assert(self.items@.skip(i as int).skip(1) =~= self.items@.skip(i as int + 1));
            }
            match self.items[i] {
                None => {
                    return true;
                },
                Some(inner) => {
                    if inner.id == item.id {
                        if inner.metadata_is_stack_size() {
                            count_remaining = wrap_sub(
                                count_remaining,
                                wrap_sub(MAX_ITEMS_PER_SLOT, inner.metadata),
                            );
                            if count_remaining == 0 {
                                return true;
                            }
                        }
                    }
                },
            }
            i = i + 1;
        }
        proof {
            assert(self.items@.skip(n as int) =~= Seq::<Option<Item>>::empty());
        }
        false
    }

    /// Remove up to `num` units from the first occupied slot: a larger stack
    /// splits (the slot keeps the difference), anything else leaves whole.
    pub fn try_pull(&mut self, num: u32) -> (r: Option<Item>)
        ensures
            final(self).is_player == old(self).is_player,
            final(self)@ == spec_try_pull(old(self)@, num).0,
            r == spec_try_pull(old(self)@, num).1,
    {
        let ghost slots0 = self.items@;
        let ghost tgt = spec_try_pull(slots0, num);
        let n = self.items.len();
        let mut i: usize = 0;
        proof {
            assert(slots0.skip(0) =~= slots0);
            assert(slots0.take(0) + spec_try_pull(slots0, num).0 =~= spec_try_pull(slots0, num).0);
        }
        while i < n
            invariant
                i <= n,
                self.items@.len() == n,
                self.items@ == slots0,
                slots0 == old(self)@,
                tgt == spec_try_pull(old(self)@, num),
                self.is_player == old(self).is_player,
                tgt.0 == slots0.take(i as int) + spec_try_pull(slots0.skip(i as int), num).0,
                tgt.1 == spec_try_pull(slots0.skip(i as int), num).1,
                forall|j: int| 0 <= j < i ==> slots0[j] is None,
            decreases n - i,
        {
            proof {
                assert(slots0.skip(i as int)[0] == slots0[i as int]);
                assert(slots0.skip(i as int).skip(1) =~= slots0.skip(i as int + 1));
            }
            match self.items[i] {
                None => {
                    proof {
                        let rec = spec_try_pull(slots0.skip(i as int + 1), num);
                        assert(spec_try_pull(slots0.skip(i as int), num).0 == seq![None::<Item>]
                            + rec.0);
                        assert(slots0.take(i as int + 1) =~= slots0.take(i as int) + seq![
                            None::<Item>,
                        ]);
                        assert(slots0.take(i as int) + (seq![None::<Item>] + rec.0) =~= slots0.take(
                            i as int + 1,
                        ) + rec.0);
                    }
                },
                Some(it) => {
                    if it.metadata_is_stack_size() && it.metadata > num {
                        self.items.set(
                            i,
                            Some(Item { metadata: it.metadata - num, ..it }),
                        );
                        proof {
                            assert(slots0.skip(i as int).update(
                                0,
                                Some(Item { metadata: (it.metadata - num) as u32, ..it }),
                            ) =~= self.items@.skip(i as int));
                            assert(slots0.take(i as int) =~= self.items@.take(i as int));
                            assert(tgt.0 =~= self.items@);
                        }
                        return Some(Item { metadata: num, ..it });
                    } else {
                        self.items.set(i, None);
                        proof {
                            assert(slots0.skip(i as int).update(0, None::<Item>) =~= self.items@
                                .skip(i as int));
                            assert(slots0.take(i as int) =~= self.items@.take(i as int));
                            assert(tgt.0 =~= self.items@);
                        }
                        return Some(it);
                    }
                },
            }
            i = i + 1;
        }
        proof {
            assert(slots0.skip(n as int) =~= Seq::<Option<Item>>::empty());
            assert(slots0.take(n as int) =~= slots0);
            assert(tgt.0 =~= slots0);
        }
        None
    }
}


/// Every held item's identifier is a valid pool handle (so it can be written).
pub open spec fn slots_ids_valid(pool: Seq<Seq<u8>>, slots: Seq<Option<Item>>) -> bool {
    forall|i: int| 0 <= i < slots.len() ==> match #[trigger] slots[i] {
        Some(it) => it.id.valid(pool),
        None => true,
    }
}

/// Every held item is what the registry maps its identifier to (so decoding
/// gives it back).
pub open spec fn slots_registered(reg: crate::registry::RegistryV, slots: Seq<Option<Item>>) -> bool {
    forall|i: int| 0 <= i < slots.len() ==> match #[trigger] slots[i] {
        Some(it) => crate::items::item_registered(reg, it),
        None => true,
    }
}

/// The slot payloads, one after another.
pub open spec fn enc_slots_payload(pool: Seq<Seq<u8>>, slots: Seq<Option<Item>>) -> Seq<u8>
    decreases slots.len(),
{
    if slots.len() == 0 {
        Seq::empty()
    } else {
        crate::items::enc_opt_item(pool, slots[0]) + enc_slots_payload(pool, slots.skip(1))
    }
}

proof fn lemma_enc_slots_snoc(pool: Seq<Seq<u8>>, slots: Seq<Option<Item>>, i: int)
    requires
        0 <= i < slots.len(),
    ensures
        enc_slots_payload(pool, slots.take(i + 1)) == enc_slots_payload(pool, slots.take(i))
            + crate::items::enc_opt_item(pool, slots[i]),
    decreases i,
{
    let a = slots.take(i + 1);
    let b = slots.take(i);
    if i == 0 {
        assert(a.skip(1) =~= Seq::<Option<Item>>::empty());
        assert(enc_slots_payload(pool, a.skip(1)) =~= Seq::<u8>::empty());
        assert(a[0] == slots[0]);
        assert(enc_slots_payload(pool, b) =~= Seq::<u8>::empty());
        assert(enc_slots_payload(pool, a) =~= crate::items::enc_opt_item(pool, slots[0]));
    } else {
        assert(a.skip(1) =~= slots.skip(1).take(i));
        assert(b.skip(1) =~= slots.skip(1).take(i - 1));
        assert(slots.skip(1)[i - 1] == slots[i]);
        lemma_enc_slots_snoc(pool, slots.skip(1), i - 1);
        assert(a[0] == slots[0]);
        assert(b[0] == slots[0]);
        assert(enc_slots_payload(pool, b) + crate::items::enc_opt_item(pool, slots[i])
            =~= crate::items::enc_opt_item(pool, slots[0]) + (enc_slots_payload(
            pool,
            slots.skip(1).take(i - 1),
        ) + crate::items::enc_opt_item(pool, slots[i])));
    }
}

/// Parse exactly `n` slot payloads.
pub open spec fn parse_slots(
    reg: crate::registry::RegistryV,
    s: Seq<u8>,
    n: nat,
) -> Option<(Seq<Option<Item>>, Seq<u8>)>
    decreases n,
{
    if n == 0 {
        Some((Seq::empty(), s))
    } else {
        match crate::items::parse_opt_item(reg, s) {
            None => None,
            Some((slot, s1)) => match parse_slots(reg, s1, (n - 1) as nat) {
                None => None,
                Some((v, s2)) => Some((seq![slot] + v, s2)),
            },
        }
    }
}

/// Round trip for a slot sequence of registered items.
pub proof fn lemma_parse_slots_enc(
    reg: crate::registry::RegistryV,
    slots: Seq<Option<Item>>,
    rest: Seq<u8>,
)
    requires
        crate::identifier::pool_unique(reg.pool),
        crate::registry::table_wf(reg.items, reg.pool),
        slots_registered(reg, slots),
    ensures
        parse_slots(reg, enc_slots_payload(reg.pool, slots) + rest, slots.len()) == Some(
            (slots, rest),
        ),
    decreases slots.len(),
{
    if slots.len() == 0 {
        assert(enc_slots_payload(reg.pool, slots) + rest =~= rest);
        assert(Seq::<Option<Item>>::empty() =~= slots);
    } else {
        let s = enc_slots_payload(reg.pool, slots) + rest;
        let tail_enc = enc_slots_payload(reg.pool, slots.skip(1)) + rest;
        assert(s =~= crate::items::enc_opt_item(reg.pool, slots[0]) + tail_enc);
        crate::items::lemma_parse_opt_item_enc(reg, slots[0], tail_enc);
        assert(slots_registered(reg, slots.skip(1))) by {
            assert(forall|i: int| 0 <= i < slots.skip(1).len()
                ==> slots.skip(1)[i] == slots[i + 1]);
        }
        lemma_parse_slots_enc(reg, slots.skip(1), rest);
        assert(seq![slots[0]] + slots.skip(1) =~= slots);
    }
}

/// An inventory on the wire: its slots as a tagged, length-prefixed vector,
/// then the player flag.
pub open spec fn enc_inventory(
    pool: Seq<Seq<u8>>,
    slots: Seq<Option<Item>>,
    is_player: bool,
) -> Seq<u8> {
    crate::serialization::enc_trap(crate::serialization::SerializationTrap::Vec)
        + crate::serialization::enc_len(slots.len()) + enc_slots_payload(pool, slots)
        + crate::serialization::enc_bool(is_player)
}

pub open spec fn parse_inventory(
    reg: crate::registry::RegistryV,
    s: Seq<u8>,
) -> Option<((Seq<Option<Item>>, bool), Seq<u8>)> {
    match crate::serialization::parse_trap(s, crate::serialization::SerializationTrap::Vec) {
        None => None,
        Some(s1) => match crate::serialization::parse_len(s1) {
            None => None,
            Some((n, s2)) => match parse_slots(reg, s2, n) {
                None => None,
                Some((v, s3)) => match crate::serialization::parse_bool(s3) {
                    None => None,
                    Some((p, s4)) => Some(((v, p), s4)),
                },
            },
        },
    }
}

/// Round trip for a whole inventory of registered items.
pub proof fn lemma_parse_inventory_enc(
    reg: crate::registry::RegistryV,
    slots: Seq<Option<Item>>,
    is_player: bool,
    rest: Seq<u8>,
)
    requires
        crate::identifier::pool_unique(reg.pool),
        crate::registry::table_wf(reg.items, reg.pool),
        slots_registered(reg, slots),
        slots.len() < 0x1_0000_0000_0000_0000,
    ensures
        parse_inventory(reg, enc_inventory(reg.pool, slots, is_player) + rest) == Some(
            ((slots, is_player), rest),
        ),
{
    let s = enc_inventory(reg.pool, slots, is_player) + rest;
    let s1 = crate::serialization::enc_len(slots.len()) + enc_slots_payload(reg.pool, slots)
        + crate::serialization::enc_bool(is_player) + rest;
    assert(s.skip(1) =~= s1);
    let s2 = enc_slots_payload(reg.pool, slots) + (crate::serialization::enc_bool(is_player)
        + rest);
    assert(s1 =~= crate::serialization::enc_len(slots.len()) + s2);
    crate::serialization::lemma_parse_len_enc(slots.len(), s2);
    lemma_parse_slots_enc(reg, slots, crate::serialization::enc_bool(is_player) + rest);
    crate::serialization::lemma_parse_bool_enc(is_player, rest);
}

impl Inventory {
    pub fn serialize(&self, reg: &crate::registry::Registry, buf: &mut Vec<u8>)
        requires
            slots_ids_valid(reg@.pool, self@),
        ensures
            final(buf)@ == old(buf)@ + enc_inventory(reg@.pool, self@, self.is_player),
    {
        crate::serialization::SerializationTrap::Vec.serialize(buf);
        crate::serialization::write_len(buf, self.items.len());
        let ghost mid = buf@;
        let n = self.items.len();
        let mut i: usize = 0;
        proof {
            assert(enc_slots_payload(reg@.pool, self@.take(0)) =~= Seq::<u8>::empty());
            assert(buf@ =~= mid + enc_slots_payload(reg@.pool, self@.take(0)));
        }
        while i < n
            invariant
                i <= n,
                self.items@.len() == n,
                slots_ids_valid(reg@.pool, self.items@),
                buf@ == mid + enc_slots_payload(reg@.pool, self.items@.take(i as int)),
            decreases n - i,
        {
            proof {
                lemma_enc_slots_snoc(reg@.pool, self.items@, i as int);
                assert(self.items@[i as int] matches Some(it) ==> it.id.valid(reg@.pool));
            }
            crate::items::write_opt_item(reg, &self.items[i], buf);
            i = i + 1;
        }
        proof {
            assert(self.items@.take(n as int) =~= self.items@);
        }
        crate::serialization::write_bool(buf, self.is_player);
        proof {
            assert(buf@ =~= old(buf)@ + enc_inventory(reg@.pool, self@, self.is_player));
        }
    }

    /// Read an inventory back; every stored item must resolve in the registry.
    pub fn try_deserialize(
        reg: &crate::registry::Registry,
        buf: &mut crate::serialization::Buffer,
    ) -> (r: Result<Inventory, crate::serialization::SerializationError>)
        requires
            old(buf).wf(),
            reg.wf(),
        ensures
            final(buf).wf(),
            match parse_inventory(reg@, old(buf).remaining()) {
                Some(((slots, is_player), rest)) => r matches Ok(inv) && inv@ == slots
                    && inv.is_player == is_player && final(buf).remaining() == rest,
                None => r is Err,
            },
    {
        match crate::serialization::SerializationTrap::Vec.try_deserialize(buf) {
            Err(e) => {
                return Err(e);
            },
            Ok(()) => {},
        }
        let n = match crate::serialization::try_read_len(buf) {
            Err(e) => {
                return Err(e);
            },
            Ok(v) => v,
        };
        let ghost rem0 = buf.remaining();
        let mut items: Vec<Option<Item>> = Vec::new();
        let mut i: u64 = 0;
        proof {
            assert(Seq::<Option<Item>>::empty() + items@ =~= items@);
        }
        while i < n
            invariant
                i <= n,
                buf.wf(),
                reg.wf(),
                items@.len() == i,
                parse_inventory(reg@, old(buf).remaining()) == match parse_slots(
                    reg@,
                    rem0,
                    n as nat,
                ) {
                    Some((v, rest)) => match crate::serialization::parse_bool(rest) {
                        Some((p, r2)) => Some::<((Seq<Option<Item>>, bool), Seq<u8>)>(
                            ((v, p), r2),
                        ),
                        None => None::<((Seq<Option<Item>>, bool), Seq<u8>)>,
                    },
                    None => None::<((Seq<Option<Item>>, bool), Seq<u8>)>,
                },
                parse_slots(reg@, rem0, n as nat) == match parse_slots(
                    reg@,
                    buf.remaining(),
                    (n - i) as nat,
                ) {
                    Some((v, rest)) => Some::<(Seq<Option<Item>>, Seq<u8>)>((items@ + v, rest)),
                    None => None::<(Seq<Option<Item>>, Seq<u8>)>,
                },
            decreases n - i,
        {
            let slot = match crate::items::try_read_opt_item(reg, buf) {
                Err(e) => {
                    return Err(e);
                },
                Ok(v) => v,
            };
            items.push(slot);
            i = i + 1;
            proof {
                match parse_slots(reg@, buf.remaining(), (n - i) as nat) {
                    Some((v, rest)) => {
                        assert(items@ + v =~= items@.take(items@.len() - 1) + (seq![slot] + v));
                    },
                    None => {},
                }
            }
        }
        proof {
            assert(parse_slots(reg@, buf.remaining(), 0) == Some::<(Seq<Option<Item>>, Seq<u8>)>(
                (Seq::empty(), buf.remaining()),
            ));
            assert(items@ + Seq::<Option<Item>>::empty() =~= items@);
        }
        let is_player = match crate::serialization::try_read_bool(buf) {
            Err(e) => {
                return Err(e);
            },
            Ok(v) => v,
        };
        Ok(Inventory { items, is_player })
    }
}


/// `try_add_item` keeps the slot count.
pub proof fn lemma_try_add_len(slots: Seq<Option<Item>>, item: Item)
    ensures
        spec_try_add(slots, item).0.len() == slots.len(),
    decreases slots.len(),
{
    if slots.len() > 0 {
        match slots[0] {
            None => {},
            Some(other) => {
                if other.id == item.id && spec_metadata_is_stack_size(item.kind)
                    && other.metadata < MAX_ITEMS_PER_SLOT {
                    let new_sz = other.metadata + item.metadata;
                    if new_sz > MAX_ITEMS_PER_SLOT {
                        lemma_try_add_len(
                            slots.skip(1),
                            Item { metadata: (new_sz - MAX_ITEMS_PER_SLOT) as u32, ..item },
                        );
                    }
                } else {
                    lemma_try_add_len(slots.skip(1), item);
                }
            },
        }
    }
}

/// `try_pull` keeps the slot count.
pub proof fn lemma_try_pull_len(slots: Seq<Option<Item>>, num: u32)
    ensures
        spec_try_pull(slots, num).0.len() == slots.len(),
    decreases slots.len(),
{
    if slots.len() > 0 {
        match slots[0] {
            None => {
                lemma_try_pull_len(slots.skip(1), num);
            },
            Some(_) => {},
        }
    }
}

} // verus!
