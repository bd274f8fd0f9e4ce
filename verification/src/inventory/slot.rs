//! Addresses of inventory and equipment slots.
use vstd::prelude::*;

use super::item::{ArmorKind, ItemKind};

verus! {

#[derive(Clone, Copy, Debug, PartialEq, Eq, Structural)]
pub enum SlotError {
    InventoryFull,
}

#[derive(Clone, Copy, Debug, PartialEq, Eq, Structural)]
pub enum ArmorSlot {
    Head,
    Neck,
    Shoulders,
    Chest,
    Hands,
    Ring1,
    Ring2,
    Back,
    Belt,
    Legs,
    Feet,
    Tabard,
    Bag1,
    Bag2,
    Bag3,
    Bag4,
}

#[derive(Clone, Copy, Debug, PartialEq, Eq, Structural)]
pub enum EquipSlot {
    Armor(ArmorSlot),
    Mainhand,
    Offhand,
    Lantern,
    Glider,
}

/// Either an inventory slot or an equipment slot.
#[derive(Clone, Copy, Debug, PartialEq, Eq, Structural)]
pub enum Slot {
    Inventory(InvSlotId),
    Equip(EquipSlot),
}

pub open spec fn armor_slot_holds(slot: ArmorSlot, kind: ArmorKind) -> bool {
    match (slot, kind) {
        (ArmorSlot::Head, ArmorKind::Head) => true,
        (ArmorSlot::Neck, ArmorKind::Neck) => true,
        (ArmorSlot::Shoulders, ArmorKind::Shoulder) => true,
        (ArmorSlot::Chest, ArmorKind::Chest) => true,
        (ArmorSlot::Hands, ArmorKind::Hand) => true,
        (ArmorSlot::Ring1, ArmorKind::Ring) => true,
        (ArmorSlot::Ring2, ArmorKind::Ring) => true,
        (ArmorSlot::Back, ArmorKind::Back) => true,
        (ArmorSlot::Belt, ArmorKind::Belt) => true,
        (ArmorSlot::Legs, ArmorKind::Pants) => true,
        (ArmorSlot::Feet, ArmorKind::Foot) => true,
        (ArmorSlot::Tabard, ArmorKind::Tabard) => true,
        (ArmorSlot::Bag1, ArmorKind::Bag) => true,
        (ArmorSlot::Bag2, ArmorKind::Bag) => true,
        (ArmorSlot::Bag3, ArmorKind::Bag) => true,
        (ArmorSlot::Bag4, ArmorKind::Bag) => true,
        _ => false,
    }
}

/// Whether an equipment slot accepts an item of the given kind.
pub open spec fn slot_holds(slot: EquipSlot, kind: ItemKind) -> bool {
    match (slot, kind) {
        (EquipSlot::Armor(a), ItemKind::Armor(k)) => armor_slot_holds(a, k),
        (EquipSlot::Mainhand, ItemKind::Tool(_)) => true,
        (EquipSlot::Offhand, ItemKind::Tool(_)) => true,
        (EquipSlot::Lantern, ItemKind::Lantern) => true,
        (EquipSlot::Glider, ItemKind::Glider) => true,
        _ => false,
    }
}

impl ArmorSlot {
    pub fn can_hold(self, kind: &ArmorKind) -> (b: bool)
        ensures
            b == armor_slot_holds(self, *kind),
    {
        match (self, *kind) {
            (ArmorSlot::Head, ArmorKind::Head) => true,
            (ArmorSlot::Neck, ArmorKind::Neck) => true,
            (ArmorSlot::Shoulders, ArmorKind::Shoulder) => true,
            (ArmorSlot::Chest, ArmorKind::Chest) => true,
            (ArmorSlot::Hands, ArmorKind::Hand) => true,
            (ArmorSlot::Ring1, ArmorKind::Ring) => true,
            (ArmorSlot::Ring2, ArmorKind::Ring) => true,
            (ArmorSlot::Back, ArmorKind::Back) => true,
            (ArmorSlot::Belt, ArmorKind::Belt) => true,
            (ArmorSlot::Legs, ArmorKind::Pants) => true,
            (ArmorSlot::Feet, ArmorKind::Foot) => true,
            (ArmorSlot::Tabard, ArmorKind::Tabard) => true,
            (ArmorSlot::Bag1, ArmorKind::Bag) => true,
            (ArmorSlot::Bag2, ArmorKind::Bag) => true,
            (ArmorSlot::Bag3, ArmorKind::Bag) => true,
            (ArmorSlot::Bag4, ArmorKind::Bag) => true,
            _ => false,
        }
    }
}

impl EquipSlot {
    pub fn can_hold(self, item_kind: &ItemKind) -> (b: bool)
        ensures
            b == slot_holds(self, *item_kind),
    {
        match (self, *item_kind) {
            (EquipSlot::Armor(slot), ItemKind::Armor(kind)) => slot.can_hold(&kind),
            (EquipSlot::Mainhand, ItemKind::Tool(_)) => true,
            (EquipSlot::Offhand, ItemKind::Tool(_)) => true,
            (EquipSlot::Lantern, ItemKind::Lantern) => true,
            (EquipSlot::Glider, ItemKind::Glider) => true,
            _ => false,
        }
    }
}

/// Address of an inventory slot: `loadout_idx` 0 is the inventory's own
/// slots, `loadout_idx` k + 1 the slots of the item in loadout entry k.
#[derive(Clone, Copy, Debug, PartialEq, Eq, Hash, Structural)]
pub struct InvSlotId {
    loadout_idx: u16,
    slot_idx: u16,
}

impl InvSlotId {
    pub closed spec fn spec_loadout_idx(self) -> u16 {
        self.loadout_idx
    }

    pub closed spec fn spec_slot_idx(self) -> u16 {
        self.slot_idx
    }

    pub fn new(loadout_idx: u16, slot_idx: u16) -> (r: InvSlotId)
        ensures
            r.spec_loadout_idx() == loadout_idx,
            r.spec_slot_idx() == slot_idx,
    {
        InvSlotId { loadout_idx, slot_idx }
    }

    pub fn loadout_idx(&self) -> (r: usize)
        ensures
            r == self.spec_loadout_idx(),
    {
        self.loadout_idx as usize
    }

    pub fn slot_idx(&self) -> (r: usize)
        ensures
            r == self.spec_slot_idx(),
    {
        self.slot_idx as usize
    }

    pub broadcast proof fn lemma_id_eq(a: InvSlotId, b: InvSlotId)
        ensures
            #![trigger a.spec_loadout_idx(), b.spec_loadout_idx(), a.spec_slot_idx(), b.spec_slot_idx()]
            (a == b) <==> (a.spec_loadout_idx() == b.spec_loadout_idx() && a.spec_slot_idx()
                == b.spec_slot_idx()),
    {
    }
}

/// Address of a slot provided by an equipped item.
#[derive(Clone, Copy, Debug, PartialEq, Eq, Hash, Structural)]
pub struct LoadoutSlotId {
    /// Index of the loadout entry holding the item.
    pub loadout_idx: usize,
    /// Index of the slot within that item.
    pub slot_idx: usize,
}

#[derive(Clone, Copy, Debug, PartialEq, Eq, Structural)]
pub enum SlotId {
    Inventory(usize),
    Loadout(LoadoutSlotId),
}

impl SlotId {
    /// Splits an inventory slot address into the inventory's own slots and
    /// the slots of equipped items.
    pub fn from_inv_slot_id(id: InvSlotId) -> (r: SlotId)
        ensures
            id.spec_loadout_idx() == 0 ==> r == SlotId::Inventory(id.spec_slot_idx() as usize),
            id.spec_loadout_idx() != 0 ==> r == SlotId::Loadout(
                LoadoutSlotId {
                    loadout_idx: (id.spec_loadout_idx() - 1) as usize,
                    slot_idx: id.spec_slot_idx() as usize,
                },
            ),
    {
        if id.loadout_idx == 0 {
            SlotId::Inventory(id.slot_idx as usize)
        } else {
            SlotId::Loadout(
                LoadoutSlotId {
                    loadout_idx: (id.loadout_idx - 1) as usize,
                    slot_idx: id.slot_idx as usize,
                },
            )
        }
    }
}

impl LoadoutSlotId {
    /// The inventory slot address of this loadout slot.
    pub fn to_inv_slot_id(self) -> (r: InvSlotId)
        requires
            self.loadout_idx < u16::MAX,
            self.slot_idx <= u16::MAX,
        ensures
            r.spec_loadout_idx() == self.loadout_idx + 1,
            r.spec_slot_idx() == self.slot_idx,
    {
        InvSlotId::new((self.loadout_idx + 1) as u16, self.slot_idx as u16)
    }
}

/// Each item fits exactly the equipment slots of its kind: rings either
/// ring slot, bags any of the four bag slots, every other piece of armour
/// the one slot for it (shoulder pads the shoulders, hand armour the hands,
/// pants the legs, foot armour the feet, and head, neck, chest, back, belt
/// and tabard their namesakes), tools either hand, lanterns the lantern slot
/// and gliders the glider slot; consumables, throwables, utilities and
/// ingredients fit no slot.
pub proof fn items_fit_the_slots_of_their_kind(slot: EquipSlot, kind: ItemKind)
    ensures
        kind == ItemKind::Armor(ArmorKind::Ring) ==> (slot_holds(slot, kind) <==> (slot == EquipSlot::Armor(
            ArmorSlot::Ring1,
        ) || slot == EquipSlot::Armor(ArmorSlot::Ring2))),
        kind == ItemKind::Armor(ArmorKind::Bag) ==> (slot_holds(slot, kind) <==> (slot == EquipSlot::Armor(
            ArmorSlot::Bag1,
        ) || slot == EquipSlot::Armor(ArmorSlot::Bag2) || slot == EquipSlot::Armor(ArmorSlot::Bag3) || slot
            == EquipSlot::Armor(ArmorSlot::Bag4))),
        kind == ItemKind::Armor(ArmorKind::Head) ==> (slot_holds(slot, kind) <==> slot == EquipSlot::Armor(ArmorSlot::Head)),
        kind == ItemKind::Armor(ArmorKind::Neck) ==> (slot_holds(slot, kind) <==> slot == EquipSlot::Armor(ArmorSlot::Neck)),
        kind == ItemKind::Armor(ArmorKind::Shoulder) ==> (slot_holds(slot, kind) <==> slot == EquipSlot::Armor(
            ArmorSlot::Shoulders,
        )),
        kind == ItemKind::Armor(ArmorKind::Chest) ==> (slot_holds(slot, kind) <==> slot == EquipSlot::Armor(
            ArmorSlot::Chest,
        )),
        kind == ItemKind::Armor(ArmorKind::Hand) ==> (slot_holds(slot, kind) <==> slot == EquipSlot::Armor(ArmorSlot::Hands)),
        kind == ItemKind::Armor(ArmorKind::Back) ==> (slot_holds(slot, kind) <==> slot == EquipSlot::Armor(ArmorSlot::Back)),
        kind == ItemKind::Armor(ArmorKind::Belt) ==> (slot_holds(slot, kind) <==> slot == EquipSlot::Armor(ArmorSlot::Belt)),
        kind == ItemKind::Armor(ArmorKind::Pants) ==> (slot_holds(slot, kind) <==> slot == EquipSlot::Armor(ArmorSlot::Legs)),
        kind == ItemKind::Armor(ArmorKind::Foot) ==> (slot_holds(slot, kind) <==> slot == EquipSlot::Armor(ArmorSlot::Feet)),
        kind == ItemKind::Armor(ArmorKind::Tabard) ==> (slot_holds(slot, kind) <==> slot == EquipSlot::Armor(
            ArmorSlot::Tabard,
        )),
        kind is Tool ==> (slot_holds(slot, kind) <==> (slot == EquipSlot::Mainhand || slot == EquipSlot::Offhand)),
        kind == ItemKind::Lantern ==> (slot_holds(slot, kind) <==> slot == EquipSlot::Lantern),
        kind == ItemKind::Glider ==> (slot_holds(slot, kind) <==> slot == EquipSlot::Glider),
        (kind == ItemKind::Consumable || kind == ItemKind::Throwable || kind == ItemKind::Utility || kind
            == ItemKind::Ingredient) ==> !slot_holds(slot, kind),
{
}
} // verus!
