//! The equipment a character wears: one entry per equipment slot, in a fixed
//! order. Equipped items (bags) may provide inventory slots of their own.
use vstd::prelude::*;

use super::item::{opt_ref, ArmorKind, Item, ItemKind};
use super::seqs::{flat, lemma_flat_take_succ, offset};
use super::slot::{slot_holds, ArmorSlot, EquipSlot, LoadoutSlotId};

verus! {

/// Number of entries in a loadout.
pub const LOADOUT_LEN: usize = 20;

/// Largest number of slots one section (the inventory's own, or one
/// equipped item's) may have, so that every slot has an `InvSlotId`.
pub const MAX_SECTION_LEN: usize = 65536;

/// One entry of a loadout.
#[derive(Debug)]
pub struct LoadoutSlot {
    pub equip_slot: EquipSlot,
    pub slot: Option<Item>,
}

#[derive(Debug)]
pub struct Loadout {
    slots: Vec<LoadoutSlot>,
}

/// The equipment slot of loadout entry `k`.
pub open spec fn layout(k: int) -> EquipSlot {
    if k == 0 {
        EquipSlot::Lantern
    } else if k == 1 {
        EquipSlot::Glider
    } else if k == 2 {
        EquipSlot::Armor(ArmorSlot::Shoulders)
    } else if k == 3 {
        EquipSlot::Armor(ArmorSlot::Chest)
    } else if k == 4 {
        EquipSlot::Armor(ArmorSlot::Belt)
    } else if k == 5 {
        EquipSlot::Armor(ArmorSlot::Hands)
    } else if k == 6 {
        EquipSlot::Armor(ArmorSlot::Legs)
    } else if k == 7 {
        EquipSlot::Armor(ArmorSlot::Feet)
    } else if k == 8 {
        EquipSlot::Armor(ArmorSlot::Back)
    } else if k == 9 {
        EquipSlot::Armor(ArmorSlot::Ring1)
    } else if k == 10 {
        EquipSlot::Armor(ArmorSlot::Ring2)
    } else if k == 11 {
        EquipSlot::Armor(ArmorSlot::Neck)
    } else if k == 12 {
        EquipSlot::Armor(ArmorSlot::Head)
    } else if k == 13 {
        EquipSlot::Armor(ArmorSlot::Tabard)
    } else if k == 14 {
        EquipSlot::Armor(ArmorSlot::Bag1)
    } else if k == 15 {
        EquipSlot::Armor(ArmorSlot::Bag2)
    } else if k == 16 {
        EquipSlot::Armor(ArmorSlot::Bag3)
    } else if k == 17 {
        EquipSlot::Armor(ArmorSlot::Bag4)
    } else if k == 18 {
        EquipSlot::Mainhand
    } else {
        EquipSlot::Offhand
    }
}

/// The loadout entry of an equipment slot.
pub open spec fn layout_index(e: EquipSlot) -> int {
    match e {
        EquipSlot::Lantern => 0,
        EquipSlot::Glider => 1,
        EquipSlot::Armor(ArmorSlot::Shoulders) => 2,
        EquipSlot::Armor(ArmorSlot::Chest) => 3,
        EquipSlot::Armor(ArmorSlot::Belt) => 4,
        EquipSlot::Armor(ArmorSlot::Hands) => 5,
        EquipSlot::Armor(ArmorSlot::Legs) => 6,
        EquipSlot::Armor(ArmorSlot::Feet) => 7,
        EquipSlot::Armor(ArmorSlot::Back) => 8,
        EquipSlot::Armor(ArmorSlot::Ring1) => 9,
        EquipSlot::Armor(ArmorSlot::Ring2) => 10,
        EquipSlot::Armor(ArmorSlot::Neck) => 11,
        EquipSlot::Armor(ArmorSlot::Head) => 12,
        EquipSlot::Armor(ArmorSlot::Tabard) => 13,
        EquipSlot::Armor(ArmorSlot::Bag1) => 14,
        EquipSlot::Armor(ArmorSlot::Bag2) => 15,
        EquipSlot::Armor(ArmorSlot::Bag3) => 16,
        EquipSlot::Armor(ArmorSlot::Bag4) => 17,
        EquipSlot::Mainhand => 18,
        EquipSlot::Offhand => 19,
    }
}

pub broadcast proof fn lemma_layout_index(e: EquipSlot)
    ensures
        0 <= #[trigger] layout_index(e) < LOADOUT_LEN,
        layout(layout_index(e)) == e,
{
}

pub broadcast proof fn lemma_layout(k: int)
    requires
        0 <= k < LOADOUT_LEN,
    ensures
        layout_index(#[trigger] layout(k)) == k,
{
}

/// The key under which the item of an equipment slot is stored.
pub open spec fn persistence_key_spec(e: EquipSlot) -> Seq<char> {
    match e {
        EquipSlot::Lantern => "lantern"@,
        EquipSlot::Glider => "glider"@,
        EquipSlot::Armor(ArmorSlot::Shoulders) => "shoulder"@,
        EquipSlot::Armor(ArmorSlot::Chest) => "chest"@,
        EquipSlot::Armor(ArmorSlot::Belt) => "belt"@,
        EquipSlot::Armor(ArmorSlot::Hands) => "hand"@,
        EquipSlot::Armor(ArmorSlot::Legs) => "pants"@,
        EquipSlot::Armor(ArmorSlot::Feet) => "foot"@,
        EquipSlot::Armor(ArmorSlot::Back) => "back"@,
        EquipSlot::Armor(ArmorSlot::Ring1) => "ring1"@,
        EquipSlot::Armor(ArmorSlot::Ring2) => "ring2"@,
        EquipSlot::Armor(ArmorSlot::Neck) => "neck"@,
        EquipSlot::Armor(ArmorSlot::Head) => "head"@,
        EquipSlot::Armor(ArmorSlot::Tabard) => "tabard"@,
        EquipSlot::Armor(ArmorSlot::Bag1) => "bag1"@,
        EquipSlot::Armor(ArmorSlot::Bag2) => "bag2"@,
        EquipSlot::Armor(ArmorSlot::Bag3) => "bag3"@,
        EquipSlot::Armor(ArmorSlot::Bag4) => "bag4"@,
        EquipSlot::Mainhand => "active_item"@,
        EquipSlot::Offhand => "second_item"@,
    }
}

/// The slots an optional item provides.
pub open spec fn opt_slots(o: Option<Item>) -> Seq<Option<Item>> {
    match o {
        Some(it) => it.slots@,
        None => Seq::empty(),
    }
}

/// For each loadout entry, the inventory slots its item provides.
pub open spec fn sections_of(v: Seq<LoadoutSlot>) -> Seq<Seq<Option<Item>>> {
    Seq::new(v.len(), |k: int| opt_slots(v[k].slot))
}

/// Entries in the fixed order, each equipped item with an addressable
/// number of slots.
pub open spec fn loadout_wf(v: Seq<LoadoutSlot>) -> bool {
    &&& v.len() == LOADOUT_LEN
    &&& forall|k: int| 0 <= k < LOADOUT_LEN ==> #[trigger] v[k].equip_slot == layout(k)
    &&& forall|k: int|
        0 <= k < LOADOUT_LEN ==> #[trigger] opt_slots(v[k].slot).len() <= MAX_SECTION_LEN
}

/// The entries after exchanging the items of two equipment slots when each
/// fits the other slot; the same slot named twice stays as it is.
pub open spec fn swap_entries_spec(v: Seq<LoadoutSlot>, a: EquipSlot, b: EquipSlot) -> Seq<LoadoutSlot> {
    let ka = layout_index(a);
    let kb = layout_index(b);
    let ia = v[ka].slot;
    let ib = v[kb].slot;
    if a == b {
        v
    } else if (ia is None || slot_holds(b, ia.unwrap().item_def.kind)) && (ib is None || slot_holds(
        a,
        ib.unwrap().item_def.kind,
    )) {
        v.update(ka, LoadoutSlot { equip_slot: a, slot: ib }).update(
            kb,
            LoadoutSlot { equip_slot: b, slot: ia },
        )
    } else {
        v
    }
}

/// Whether entry `k` could take an item of `kind`.
pub open spec fn suitable(kind: ItemKind, k: int) -> bool {
    slot_holds(layout(k), kind)
}

/// The equipment slot an item of `kind` goes into: the first suitable empty
/// one, otherwise the first suitable one.
pub open spec fn equip_target(v: Seq<LoadoutSlot>, kind: ItemKind, r: Option<EquipSlot>) -> bool {
    match r {
        Some(e) => {
            let k = layout_index(e);
            &&& suitable(kind, k)
            &&& ((v[k].slot is None && forall|q: int|
                0 <= q < k && suitable(kind, q) ==> (#[trigger] v[q].slot) is Some) || ((forall|q: int|
                0 <= q < LOADOUT_LEN && suitable(kind, q) ==> (#[trigger] v[q].slot) is Some)
                && forall|q: int| 0 <= q < k ==> !(#[trigger] suitable(kind, q))))
        },
        None => forall|q: int| 0 <= q < LOADOUT_LEN ==> !(#[trigger] suitable(kind, q)),
    }
}

fn layout_exec(k: usize) -> (e: EquipSlot)
    requires
        k < LOADOUT_LEN,
    ensures
        e == layout(k as int),
{
    match k {
        0 => EquipSlot::Lantern,
        1 => EquipSlot::Glider,
        2 => EquipSlot::Armor(ArmorSlot::Shoulders),
        3 => EquipSlot::Armor(ArmorSlot::Chest),
        4 => EquipSlot::Armor(ArmorSlot::Belt),
        5 => EquipSlot::Armor(ArmorSlot::Hands),
        6 => EquipSlot::Armor(ArmorSlot::Legs),
        7 => EquipSlot::Armor(ArmorSlot::Feet),
        8 => EquipSlot::Armor(ArmorSlot::Back),
        9 => EquipSlot::Armor(ArmorSlot::Ring1),
        10 => EquipSlot::Armor(ArmorSlot::Ring2),
        11 => EquipSlot::Armor(ArmorSlot::Neck),
        12 => EquipSlot::Armor(ArmorSlot::Head),
        13 => EquipSlot::Armor(ArmorSlot::Tabard),
        14 => EquipSlot::Armor(ArmorSlot::Bag1),
        15 => EquipSlot::Armor(ArmorSlot::Bag2),
        16 => EquipSlot::Armor(ArmorSlot::Bag3),
        17 => EquipSlot::Armor(ArmorSlot::Bag4),
        18 => EquipSlot::Mainhand,
        _ => EquipSlot::Offhand,
    }
}

fn layout_index_exec(e: EquipSlot) -> (k: usize)
    ensures
        k == layout_index(e),
{
    match e {
        EquipSlot::Lantern => 0,
        EquipSlot::Glider => 1,
        EquipSlot::Armor(ArmorSlot::Shoulders) => 2,
        EquipSlot::Armor(ArmorSlot::Chest) => 3,
        EquipSlot::Armor(ArmorSlot::Belt) => 4,
        EquipSlot::Armor(ArmorSlot::Hands) => 5,
        EquipSlot::Armor(ArmorSlot::Legs) => 6,
        EquipSlot::Armor(ArmorSlot::Feet) => 7,
        EquipSlot::Armor(ArmorSlot::Back) => 8,
        EquipSlot::Armor(ArmorSlot::Ring1) => 9,
        EquipSlot::Armor(ArmorSlot::Ring2) => 10,
        EquipSlot::Armor(ArmorSlot::Neck) => 11,
        EquipSlot::Armor(ArmorSlot::Head) => 12,
        EquipSlot::Armor(ArmorSlot::Tabard) => 13,
        EquipSlot::Armor(ArmorSlot::Bag1) => 14,
        EquipSlot::Armor(ArmorSlot::Bag2) => 15,
        EquipSlot::Armor(ArmorSlot::Bag3) => 16,
        EquipSlot::Armor(ArmorSlot::Bag4) => 17,
        EquipSlot::Mainhand => 18,
        EquipSlot::Offhand => 19,
    }
}

/// The key under which the item of an equipment slot is stored.
pub fn persistence_key(e: EquipSlot) -> (s: &'static str)
    ensures
        s@ == persistence_key_spec(e),
{
    match e {
        EquipSlot::Lantern => "lantern",
        EquipSlot::Glider => "glider",
        EquipSlot::Armor(ArmorSlot::Shoulders) => "shoulder",
        EquipSlot::Armor(ArmorSlot::Chest) => "chest",
        EquipSlot::Armor(ArmorSlot::Belt) => "belt",
        EquipSlot::Armor(ArmorSlot::Hands) => "hand",
        EquipSlot::Armor(ArmorSlot::Legs) => "pants",
        EquipSlot::Armor(ArmorSlot::Feet) => "foot",
        EquipSlot::Armor(ArmorSlot::Back) => "back",
        EquipSlot::Armor(ArmorSlot::Ring1) => "ring1",
        EquipSlot::Armor(ArmorSlot::Ring2) => "ring2",
        EquipSlot::Armor(ArmorSlot::Neck) => "neck",
        EquipSlot::Armor(ArmorSlot::Head) => "head",
        EquipSlot::Armor(ArmorSlot::Tabard) => "tabard",
        EquipSlot::Armor(ArmorSlot::Bag1) => "bag1",
        EquipSlot::Armor(ArmorSlot::Bag2) => "bag2",
        EquipSlot::Armor(ArmorSlot::Bag3) => "bag3",
        EquipSlot::Armor(ArmorSlot::Bag4) => "bag4",
        EquipSlot::Mainhand => "active_item",
        EquipSlot::Offhand => "second_item",
    }
}

impl View for Loadout {
    type V = Seq<LoadoutSlot>;

    closed spec fn view(&self) -> Seq<LoadoutSlot> {
        self.slots@
    }
}

impl Loadout {
    /// A loadout with nothing equipped.
    pub fn new_empty() -> (r: Loadout)
        ensures
            loadout_wf(r@),
            forall|k: int| 0 <= k < LOADOUT_LEN ==> (#[trigger] r@[k]).slot is None,
    {
        let mut slots: Vec<LoadoutSlot> = Vec::new();
        let mut k: usize = 0;
        while k < LOADOUT_LEN
            invariant
                k <= LOADOUT_LEN,
                slots@.len() == k,
                forall|q: int| 0 <= q < k ==> (#[trigger] slots@[q]).equip_slot == layout(q),
                forall|q: int| 0 <= q < k ==> (#[trigger] slots@[q]).slot is None,
            decreases LOADOUT_LEN - k,
        {
            slots.push(LoadoutSlot { equip_slot: layout_exec(k), slot: None });
            k += 1;
        }
        Loadout { slots }
    }

    /// Puts `item` into the equipment slot, returning what was there.
    pub fn swap(&mut self, equip_slot: EquipSlot, item: Option<Item>) -> (r: Option<Item>)
        requires
            loadout_wf(old(self)@),
            opt_slots(item).len() <= MAX_SECTION_LEN,
        ensures
            final(self)@ == old(self)@.update(
                layout_index(equip_slot),
                LoadoutSlot { equip_slot, slot: item },
            ),
            r == old(self)@[layout_index(equip_slot)].slot,
            loadout_wf(final(self)@),
    {
        let k = layout_index_exec(equip_slot);
        let mut item = item;
        let entry = &mut self.slots[k];
        std::mem::swap(&mut entry.slot, &mut item);
        proof {
            lemma_layout_index(equip_slot);
        }
        item
    }

    /// The item in an equipment slot.
    pub fn equipped(&self, equip_slot: EquipSlot) -> (r: Option<&Item>)
        requires
            loadout_wf(self@),
        ensures
            opt_ref(r, self@[layout_index(equip_slot)].slot),
    {
        let k = layout_index_exec(equip_slot);
        self.slots[k].slot.as_ref()
    }

    /// The items equipped, in loadout order.
    pub fn items(&self) -> (r: Vec<&Item>)
        ensures
            r@.len() == crate::inventory::item::somes(self@.map_values(|s: LoadoutSlot| s.slot)).len(),
            forall|i: int| 0 <= i < r@.len() ==> *r@[i] == crate::inventory::item::somes(
                self@.map_values(|s: LoadoutSlot| s.slot),
            )[i],
    {
        let ghost items = self@.map_values(|s: LoadoutSlot| s.slot);
        let mut out: Vec<&Item> = Vec::new();
        let mut k: usize = 0;
        while k < self.slots.len()
            invariant
                k <= self@.len(),
                items == self@.map_values(|s: LoadoutSlot| s.slot),
                out@.len() == crate::inventory::item::somes(items.take(k as int)).len(),
                forall|i: int|
                    0 <= i < out@.len() ==> *out@[i] == crate::inventory::item::somes(
                        items.take(k as int),
                    )[i],
            decreases self@.len() - k,
        {
            proof {
                assert(items.take(k + 1).drop_last() =~= items.take(k as int));
            }
            match &self.slots[k].slot {
                Some(it) => {
                    out.push(it);
                },
                None => {},
            }
            k += 1;
        }
        assert(items.take(k as int) =~= items);
        out
    }

    /// Every entry's persistence key with the item equipped there.
    pub fn items_with_persistence_key(&self) -> (r: Vec<(&str, Option<&Item>)>)
        requires
            loadout_wf(self@),
        ensures
            r@.len() == LOADOUT_LEN,
            forall|k: int|
                0 <= k < LOADOUT_LEN ==> (#[trigger] r@[k]).0@ == persistence_key_spec(layout(k))
                    && opt_ref(r@[k].1, self@[k].slot),
    {
        let mut out: Vec<(&str, Option<&Item>)> = Vec::new();
        let mut k: usize = 0;
        while k < self.slots.len()
            invariant
                k <= self@.len(),
                loadout_wf(self@),
                out@.len() == k,
                forall|q: int|
                    0 <= q < k ==> (#[trigger] out@[q]).0@ == persistence_key_spec(layout(q))
                        && opt_ref(out@[q].1, self@[q].slot),
            decreases self@.len() - k,
        {
            let entry = &self.slots[k];
            out.push((persistence_key(entry.equip_slot), entry.slot.as_ref()));
            k += 1;
        }
        out
    }

    /// Number of inventory slots provided by the item of entry `k`.
    pub fn section_len(&self, k: usize) -> (n: usize)
        requires
            k < self@.len(),
        ensures
            n == opt_slots(self@[k as int].slot).len(),
    {
        match &self.slots[k].slot {
            Some(it) => it.slots.len(),
            None => 0,
        }
    }

    /// Slot `j` of the item in entry `k`.
    pub fn section_slot(&self, k: usize, j: usize) -> (r: &Option<Item>)
        requires
            k < self@.len(),
            j < opt_slots(self@[k as int].slot).len(),
        ensures
            *r == opt_slots(self@[k as int].slot)[j as int],
    {
        match &self.slots[k].slot {
            Some(it) => &it.slots[j],
            None => {
                assert(false);
                &self.slots[k].slot
            },
        }
    }

    /// Replaces slot `j` of the item in entry `k`; only that slot changes.
    pub fn replace_section_slot(&mut self, k: usize, j: usize, v: Option<Item>) -> (r: Option<Item>)
        requires
            k < old(self)@.len(),
            j < opt_slots(old(self)@[k as int].slot).len(),
        ensures
            r == opt_slots(old(self)@[k as int].slot)[j as int],
            final(self)@.len() == old(self)@.len(),
            forall|q: int|
                0 <= q < old(self)@.len() && q != k ==> #[trigger] final(self)@[q] == old(self)@[q],
            final(self)@[k as int].equip_slot == old(self)@[k as int].equip_slot,
            final(self)@[k as int].slot is Some,
            final(self)@[k as int].slot.unwrap().item_def == old(self)@[k as int].slot.unwrap().item_def,
            final(self)@[k as int].slot.unwrap().amount == old(self)@[k as int].slot.unwrap().amount,
            final(self)@[k as int].slot.unwrap().slots@ == old(self)@[k as int].slot.unwrap().slots@.update(
                j as int,
                v,
            ),
    {
        let mut v = v;
        let entry = &mut self.slots[k];
        match &mut entry.slot {
            Some(it) => {
                std::mem::swap(&mut it.slots[j], &mut v);
            },
            None => {},
        }
        v
    }

    /// The inventory slot a loadout slot address points at, if it exists.
    pub fn inv_slot(&self, id: LoadoutSlotId) -> (r: Option<&Option<Item>>)
        ensures
            r is Some <==> (id.loadout_idx < self@.len() && id.slot_idx < opt_slots(
                self@[id.loadout_idx as int].slot,
            ).len()),
            r is Some ==> *r.unwrap() == opt_slots(self@[id.loadout_idx as int].slot)[id.slot_idx as int],
    {
        if id.loadout_idx < self.slots.len() && id.slot_idx < self.section_len(id.loadout_idx) {
            Some(self.section_slot(id.loadout_idx, id.slot_idx))
        } else {
            None
        }
    }

    /// Mutable access to the inventory slot a loadout slot address points at,
    /// if it exists.
    pub fn inv_slot_mut(&mut self, id: LoadoutSlotId) -> (r: Option<&mut Option<Item>>)
        ensures
            r is Some <==> (id.loadout_idx < old(self)@.len() && id.slot_idx < opt_slots(
                old(self)@[id.loadout_idx as int].slot,
            ).len()),
            r is Some ==> {
                let k = id.loadout_idx as int;
                &&& *r.unwrap() == opt_slots(old(self)@[k].slot)[id.slot_idx as int]
                &&& final(self)@.len() == old(self)@.len()
                &&& forall|q: int| 0 <= q < old(self)@.len() && q != k ==> #[trigger] final(self)@[q] == old(self)@[q]
                &&& final(self)@[k].equip_slot == old(self)@[k].equip_slot
                &&& final(self)@[k].slot is Some
                &&& final(self)@[k].slot.unwrap().item_def == old(self)@[k].slot.unwrap().item_def
                &&& final(self)@[k].slot.unwrap().amount == old(self)@[k].slot.unwrap().amount
                &&& final(self)@[k].slot.unwrap().slots@ == old(self)@[k].slot.unwrap().slots@.update(
                    id.slot_idx as int,
                    *final(r.unwrap()),
                )
            },
            r is None ==> final(self)@ == old(self)@,
    {
        if id.loadout_idx < self.slots.len() {
            let entry = &mut self.slots[id.loadout_idx];
            match &mut entry.slot {
                Some(item) => {
                    if id.slot_idx < item.slots.len() {
                        Some(&mut item.slots[id.slot_idx])
                    } else {
                        None
                    }
                },
                None => None,
            }
        } else {
            None
        }
    }

    /// The loadout entry of an equipment slot.
    pub fn loadout_idx_for_equip_slot(&self, equip_slot: EquipSlot) -> (r: Option<usize>)
        requires
            loadout_wf(self@),
        ensures
            r == Some(layout_index(equip_slot) as usize),
    {
        let k = layout_index_exec(equip_slot);
        proof {
            lemma_layout_index(equip_slot);
        }
        Some(k)
    }

    /// The range, within the slots provided by equipped items, that the item
    /// in `equip_slot` provides; `None` when that item provides none.
    pub fn slot_range_for_equip_slot(&self, equip_slot: EquipSlot) -> (r: Option<
        std::ops::Range<usize>,
    >)
        requires
            loadout_wf(self@),
        ensures
            ({
                let k = layout_index(equip_slot);
                let len = opt_slots(self@[k].slot).len();
                if len > 0 {
                    r == Some(
                        std::ops::Range {
                            start: offset(sections_of(self@), k) as usize,
                            end: (offset(sections_of(self@), k) + len) as usize,
                        },
                    )
                } else {
                    r is None
                }
            }),
    {
        let ghost secs = sections_of(self@);
        let target = layout_index_exec(equip_slot);
        proof {
            lemma_layout_index(equip_slot);
        }
        let mut acc: usize = 0;
        let mut k: usize = 0;
        while k < target
            invariant
                loadout_wf(self@),
                secs == sections_of(self@),
                k <= target < LOADOUT_LEN,
                acc == offset(secs, k as int),
                acc <= k * MAX_SECTION_LEN,
            decreases target - k,
        {
            proof {
                lemma_flat_take_succ(secs, k as int);
            }
            acc = acc + self.section_len(k);
            k += 1;
        }
        let len = self.section_len(target);
        if len > 0 {
            Some(std::ops::Range { start: acc, end: acc + len })
        } else {
            None
        }
    }

    /// The equipment slot an item of `item_kind` would be equipped into.
    pub fn get_slot_to_equip_into(&self, item_kind: &ItemKind) -> (r: Option<EquipSlot>)
        requires
            loadout_wf(self@),
        ensures
            equip_target(self@, *item_kind, r),
    {
        let mut first: Option<usize> = None;
        let mut k: usize = 0;
        while k < LOADOUT_LEN
            invariant
                loadout_wf(self@),
                k <= LOADOUT_LEN,
                forall|q: int| 0 <= q < k && suitable(*item_kind, q) ==> (#[trigger] self@[q]).slot is Some,
                match first {
                    Some(f) => f < k && suitable(*item_kind, f as int) && forall|q: int|
                        0 <= q < f ==> !(#[trigger] suitable(*item_kind, q)),
                    None => forall|q: int| 0 <= q < k ==> !(#[trigger] suitable(*item_kind, q)),
                },
            decreases LOADOUT_LEN - k,
        {
            let entry = &self.slots[k];
            if entry.equip_slot.can_hold(item_kind) {
                if entry.slot.is_none() {
                    proof {
                        lemma_layout(k as int);
                    }
                    return Some(entry.equip_slot);
                }
                if first.is_none() {
                    first = Some(k);
                }
            }
            k += 1;
        }
        match first {
            Some(f) => {
                proof {
                    lemma_layout(f as int);
                }
                Some(layout_exec(f))
            },
            None => None,
        }
    }

    /// Equips `item` into the first empty slot that accepts it.
    pub fn try_equip(&mut self, item: Item) -> (r: Result<(), Item>)
        requires
            loadout_wf(old(self)@),
            item.slots@.len() <= MAX_SECTION_LEN,
        ensures
            loadout_wf(final(self)@),
            match r {
                Ok(()) => exists|k: int|
                    0 <= k < LOADOUT_LEN && suitable(item.item_def.kind, k) && (#[trigger] old(
                        self,
                    )@[k]).slot is None && (forall|q: int|
                        0 <= q < k && suitable(item.item_def.kind, q) ==> (#[trigger] old(self)@[q]).slot is Some)
                        && final(self)@ == old(self)@.update(
                        k,
                        LoadoutSlot { equip_slot: layout(k), slot: Some(item) },
                    ),
                Err(back) => back == item && final(self)@ == old(self)@ && forall|q: int|
                    0 <= q < LOADOUT_LEN && suitable(item.item_def.kind, q) ==> (#[trigger] old(
                        self,
                    )@[q]).slot is Some,
            },
    {
        let mut k: usize = 0;
        while k < LOADOUT_LEN
            invariant
                loadout_wf(self@),
                self@ == old(self)@,
                item.slots@.len() <= MAX_SECTION_LEN,
                k <= LOADOUT_LEN,
                forall|q: int|
                    0 <= q < k && suitable(item.item_def.kind, q) ==> (#[trigger] self@[q]).slot is Some,
            decreases LOADOUT_LEN - k,
        {
            if self.slots[k].slot.is_none() && self.slots[k].equip_slot.can_hold(&item.item_def.kind) {
                let e = self.slots[k].equip_slot;
                let old_item = self.swap(e, Some(item));
                proof {
                    lemma_layout(k as int);
                }
                return Ok(());
            }
            k += 1;
        }
        Err(item)
    }

    /// Exchanges the items of two equipment slots when each fits the other
    /// slot; otherwise leaves both in place. Naming one slot twice changes
    /// nothing.
    pub fn swap_slots(&mut self, equip_slot_a: EquipSlot, equip_slot_b: EquipSlot)
        requires
            loadout_wf(old(self)@),
        ensures
            loadout_wf(final(self)@),
            final(self)@ == swap_entries_spec(old(self)@, equip_slot_a, equip_slot_b),
    {
        proof {
            lemma_layout_index(equip_slot_a);
            lemma_layout_index(equip_slot_b);
        }
        if equip_slot_a == equip_slot_b {
            return;
        }
        let item_a = self.swap(equip_slot_a, None);
        let item_b = self.swap(equip_slot_b, None);
        let fits_b = match &item_a {
            Some(i) => equip_slot_b.can_hold(&i.item_def.kind),
            None => true,
        };
        let fits_a = match &item_b {
            Some(i) => equip_slot_a.can_hold(&i.item_def.kind),
            None => true,
        };
        if fits_b && fits_a {
            let _ = self.swap(equip_slot_b, item_a);
            let _ = self.swap(equip_slot_a, item_b);
            assert(self@ =~= old(self)@.update(
                layout_index(equip_slot_a),
                LoadoutSlot { equip_slot: equip_slot_a, slot: old(self)@[layout_index(equip_slot_b)].slot },
            ).update(
                layout_index(equip_slot_b),
                LoadoutSlot { equip_slot: equip_slot_b, slot: old(self)@[layout_index(equip_slot_a)].slot },
            ));
        } else {
            let _ = self.swap(equip_slot_a, item_a);
            let _ = self.swap(equip_slot_b, item_b);
            assert(old(self)@[layout_index(equip_slot_a)].equip_slot == equip_slot_a);
            assert(old(self)@[layout_index(equip_slot_b)].equip_slot == equip_slot_b);
            assert(old(self)@[layout_index(equip_slot_a)] == LoadoutSlot {
                equip_slot: equip_slot_a,
                slot: old(self)@[layout_index(equip_slot_a)].slot,
            });
            assert(old(self)@[layout_index(equip_slot_b)] == LoadoutSlot {
                equip_slot: equip_slot_b,
                slot: old(self)@[layout_index(equip_slot_b)].slot,
            });
            assert(self@ =~= old(self)@);
        }
    }
}

/// Where an item is equipped: a tool goes to the main hand when that is
/// free, otherwise to the off hand when that is free, otherwise to the main
/// hand; a ring likewise to the first ring slot, then the second; a piece of
/// armour with a single slot goes to that slot.
pub proof fn items_go_to_a_free_slot_of_their_kind(v: Seq<LoadoutSlot>, kind: ItemKind, r: Option<EquipSlot>)
    requires
        loadout_wf(v),
        equip_target(v, kind, r),
    ensures
        kind is Tool ==> r == Some(
            if v[layout_index(EquipSlot::Mainhand)].slot is None {
                EquipSlot::Mainhand
            } else if v[layout_index(EquipSlot::Offhand)].slot is None {
                EquipSlot::Offhand
            } else {
                EquipSlot::Mainhand
            },
        ),
        kind == ItemKind::Armor(ArmorKind::Ring) ==> r == Some(
            if v[layout_index(EquipSlot::Armor(ArmorSlot::Ring1))].slot is None {
                EquipSlot::Armor(ArmorSlot::Ring1)
            } else if v[layout_index(EquipSlot::Armor(ArmorSlot::Ring2))].slot is None {
                EquipSlot::Armor(ArmorSlot::Ring2)
            } else {
                EquipSlot::Armor(ArmorSlot::Ring1)
            },
        ),
        kind == ItemKind::Armor(ArmorKind::Head) ==> r == Some(EquipSlot::Armor(ArmorSlot::Head)),
        kind == ItemKind::Armor(ArmorKind::Chest) ==> r == Some(EquipSlot::Armor(ArmorSlot::Chest)),
        kind == ItemKind::Armor(ArmorKind::Pants) ==> r == Some(EquipSlot::Armor(ArmorSlot::Legs)),
        kind == ItemKind::Armor(ArmorKind::Foot) ==> r == Some(EquipSlot::Armor(ArmorSlot::Feet)),
        kind == ItemKind::Lantern ==> r == Some(EquipSlot::Lantern),
        kind == ItemKind::Glider ==> r == Some(EquipSlot::Glider),
        (kind == ItemKind::Consumable || kind == ItemKind::Ingredient) ==> r is None,
{
    assert forall|q: int| 0 <= q < LOADOUT_LEN implies (#[trigger] suitable(kind, q)) == slot_holds(layout(q), kind) by {}
    if kind is Tool {
        assert(suitable(kind, 18) && suitable(kind, 19));
        assert(forall|q: int| 0 <= q < 18 ==> !#[trigger] suitable(kind, q));
    }
    if kind == ItemKind::Armor(ArmorKind::Ring) {
        assert(suitable(kind, 9) && suitable(kind, 10));
        assert(forall|q: int| 0 <= q < 9 ==> !#[trigger] suitable(kind, q));
        assert(forall|q: int| 10 < q < LOADOUT_LEN ==> !#[trigger] suitable(kind, q));
    }
    if kind == ItemKind::Armor(ArmorKind::Head) {
        assert(suitable(kind, 12));
    }
    if kind == ItemKind::Armor(ArmorKind::Chest) {
        assert(suitable(kind, 3));
    }
    if kind == ItemKind::Armor(ArmorKind::Pants) {
        assert(suitable(kind, 6));
    }
    if kind == ItemKind::Armor(ArmorKind::Foot) {
        assert(suitable(kind, 7));
    }
    if kind == ItemKind::Lantern {
        assert(suitable(kind, 0));
    }
    if kind == ItemKind::Glider {
        assert(suitable(kind, 1));
    }
    match r {
        Some(e) => {
            lemma_layout_index(e);
        },
        None => {},
    }
}

} // verus!
