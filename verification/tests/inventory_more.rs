use veloren_logic::inventory::item::{ArmorKind, Item, ItemDef, ItemKind, ItemTag, MaterialStatManifest, ToolKind};
use veloren_logic::inventory::loadout::Loadout;
use veloren_logic::inventory::recipe::{Recipe, RecipeInput};
use veloren_logic::inventory::slot::{ArmorSlot, EquipSlot, InvSlotId, Slot, SlotError};
use veloren_logic::inventory::{Error, Inventory, InventoryUpdate, InventoryUpdateEvent};

fn def(id: &str, kind: ItemKind, slots: u16, tags: Vec<ItemTag>) -> ItemDef {
    ItemDef {
        item_definition_id: id.to_string(),
        kind,
        slots,
        tags,
    }
}

fn item_of(id: &str, kind: ItemKind, slots: u16) -> Item {
    Item::new_from_item_def(def(id, kind, slots, Vec::new()))
}

fn potion(amount: u32) -> Item {
    let mut it = item_of("common.items.consumable.potion_minor", ItemKind::Consumable, 0);
    it.set_amount(amount).unwrap();
    it
}

fn ingot(amount: u32) -> Item {
    let mut it = Item::new_from_item_def(def(
        "common.items.crafting_ing.iron_ingot",
        ItemKind::Ingredient,
        0,
        vec![ItemTag::MetalIngot],
    ));
    it.set_amount(amount).unwrap();
    it
}

fn boots() -> Item {
    item_of("common.items.testing.test_boots", ItemKind::Armor(ArmorKind::Foot), 0)
}

fn bag(slots: u16) -> Item {
    item_of("common.items.testing.test_bag", ItemKind::Armor(ArmorKind::Bag), slots)
}

fn sword() -> Item {
    item_of("common.items.weapons.sword.steel-8", ItemKind::Tool(ToolKind::Sword), 0)
}

#[test]
fn capacity_is_populated_plus_free_example() {
    let mut inv = Inventory::new_empty();
    inv.replace_loadout_item(EquipSlot::Armor(ArmorSlot::Bag1), Some(bag(4)));
    inv.push(boots());
    inv.push(sword());
    assert_eq!(inv.capacity(), 22);
    assert_eq!(inv.populated_slots(), 2);
    assert_eq!(inv.free_slots(), 20);
    assert_eq!(inv.capacity(), inv.populated_slots() + inv.free_slots());
}

#[test]
fn push_stacks_onto_existing_stack_and_keeps_amounts() {
    let mut inv = Inventory::from_parts(vec![None, Some(potion(3)), None], Loadout::new_empty());
    assert!(inv.push(potion(4)).is_none());
    assert_eq!(inv.get(InvSlotId::new(0, 1)).unwrap().amount(), 7);
    assert!(inv.get(InvSlotId::new(0, 0)).is_none());
    assert_eq!(inv.item_count(&potion(1).item_def), 7);
}

#[test]
fn push_stack_overflow_is_refused_unchanged() {
    let mut inv = Inventory::from_parts(vec![Some(potion(u32::MAX))], Loadout::new_empty());
    let back = inv.push(potion(1)).unwrap();
    assert_eq!(back.amount(), 1);
    assert_eq!(inv.get(InvSlotId::new(0, 0)).unwrap().amount(), u32::MAX);
}

#[test]
fn push_all_returns_leftovers_in_order() {
    let mut inv = Inventory::from_parts(vec![None], Loadout::new_empty());
    let Error::Full(left) = inv.push_all(vec![boots(), sword(), bag(2)]).unwrap_err();
    assert_eq!(left.len(), 2);
    assert_eq!(left[0].item_definition_id(), "common.items.weapons.sword.steel-8");
    assert_eq!(left[1].item_definition_id(), "common.items.testing.test_bag");
    assert_eq!(inv.get(InvSlotId::new(0, 0)).unwrap().item_definition_id(), "common.items.testing.test_boots");
}

#[test]
fn push_all_matches_pushing_one_at_a_time() {
    let start = || Inventory::from_parts(vec![None, Some(potion(u32::MAX - 1)), None], Loadout::new_empty());
    let items = || vec![potion(1), boots(), potion(1), sword(), bag(2)];
    let mut all_at_once = start();
    let Error::Full(left) = all_at_once.push_all(items()).unwrap_err();
    let mut one_by_one = start();
    let back: Vec<Item> = items().into_iter().filter_map(|it| one_by_one.push(it)).collect();
    assert_eq!(left.len(), 2);
    assert_eq!(back.len(), left.len());
    for (a, b) in left.iter().zip(back.iter()) {
        assert_eq!(a.item_definition_id(), b.item_definition_id());
        assert_eq!(a.amount(), b.amount());
    }
    for i in 0..3 {
        let a = all_at_once.get(InvSlotId::new(0, i));
        let b = one_by_one.get(InvSlotId::new(0, i));
        assert_eq!(a.map(|x| x.item_definition_id()), b.map(|x| x.item_definition_id()));
        assert_eq!(a.map(|x| x.amount()), b.map(|x| x.amount()));
    }
    assert_eq!(all_at_once.get(InvSlotId::new(0, 1)).unwrap().amount(), u32::MAX);
}

#[test]
fn push_all_unique_skips_present_definitions() {
    let mut inv = Inventory::from_parts(vec![Some(boots()), None], Loadout::new_empty());
    inv.push_all_unique(vec![boots(), sword()]).unwrap();
    assert_eq!(inv.populated_slots(), 2);
    assert_eq!(inv.get(InvSlotId::new(0, 1)).unwrap().item_definition_id(), "common.items.weapons.sword.steel-8");
}

#[test]
fn insert_at_then_get_reads_back() {
    let mut inv = Inventory::new_empty();
    let old = inv.insert_at(InvSlotId::new(0, 5), sword()).unwrap();
    assert!(old.is_none());
    assert_eq!(inv.get(InvSlotId::new(0, 5)), Some(&sword()));
    assert!(inv.get(InvSlotId::new(0, 4)).is_none());
    let again = inv.insert_at(InvSlotId::new(0, 5), boots()).unwrap();
    assert_eq!(again, Some(sword()));
    let refused = inv.insert_at(InvSlotId::new(0, 40), boots()).unwrap_err();
    assert_eq!(refused, boots());
}

#[test]
fn remove_returns_item_and_empties_slot() {
    let mut inv = Inventory::new_empty();
    inv.push(sword());
    assert_eq!(inv.remove(InvSlotId::new(0, 0)), Some(sword()));
    assert!(inv.get(InvSlotId::new(0, 0)).is_none());
    assert_eq!(inv.remove(InvSlotId::new(0, 0)), None);
}

#[test]
fn swap_slots_twice_restores() {
    let mut inv = Inventory::new_empty();
    inv.push(sword());
    inv.push(boots());
    inv.swap_slots(InvSlotId::new(0, 0), InvSlotId::new(0, 7));
    assert!(inv.get(InvSlotId::new(0, 0)).is_none());
    assert_eq!(inv.get(InvSlotId::new(0, 7)), Some(&sword()));
    inv.swap_slots(InvSlotId::new(0, 0), InvSlotId::new(0, 7));
    assert_eq!(inv.get(InvSlotId::new(0, 0)), Some(&sword()));
    assert!(inv.get(InvSlotId::new(0, 7)).is_none());
    assert_eq!(inv.get(InvSlotId::new(0, 1)), Some(&boots()));
}

#[test]
fn merge_stack_into_moves_whole_stack() {
    let mut inv = Inventory::from_parts(vec![Some(potion(2)), Some(potion(5)), Some(boots())], Loadout::new_empty());
    assert!(inv.merge_stack_into(InvSlotId::new(0, 0), InvSlotId::new(0, 1)));
    assert!(inv.get(InvSlotId::new(0, 0)).is_none());
    assert_eq!(inv.get(InvSlotId::new(0, 1)).unwrap().amount(), 7);
    assert!(!inv.merge_stack_into(InvSlotId::new(0, 1), InvSlotId::new(0, 2)));
}

#[test]
fn merge_stack_into_itself_or_past_the_limit_changes_nothing() {
    let mut inv = Inventory::from_parts(vec![Some(potion(5)), Some(potion(u32::MAX - 2))], Loadout::new_empty());
    assert!(!inv.merge_stack_into(InvSlotId::new(0, 0), InvSlotId::new(0, 0)));
    assert_eq!(inv.get(InvSlotId::new(0, 0)).unwrap().amount(), 5);
    assert!(!inv.merge_stack_into(InvSlotId::new(0, 0), InvSlotId::new(0, 1)));
    assert_eq!(inv.get(InvSlotId::new(0, 0)).unwrap().amount(), 5);
    assert_eq!(inv.get(InvSlotId::new(0, 1)).unwrap().amount(), u32::MAX - 2);
}

#[test]
fn insert_or_stack_at_stacks_or_replaces() {
    let mut inv = Inventory::from_parts(vec![Some(potion(2)), Some(boots()), None], Loadout::new_empty());
    assert!(inv.insert_or_stack_at(InvSlotId::new(0, 0), potion(3)).unwrap().is_none());
    assert_eq!(inv.get(InvSlotId::new(0, 0)).unwrap().amount(), 5);
    let replaced = inv.insert_or_stack_at(InvSlotId::new(0, 1), potion(1)).unwrap();
    assert_eq!(replaced, Some(boots()));
    assert!(inv.insert_or_stack_at(InvSlotId::new(0, 9), potion(1)).is_err());
}

#[test]
fn take_and_take_half_split_stacks() {
    let msm = MaterialStatManifest;
    let mut inv = Inventory::from_parts(vec![Some(potion(9)), Some(sword())], Loadout::new_empty());
    let one = inv.take(InvSlotId::new(0, 0), &msm).unwrap();
    assert_eq!(one.amount(), 1);
    assert_eq!(inv.get(InvSlotId::new(0, 0)).unwrap().amount(), 8);
    let half = inv.take_half(InvSlotId::new(0, 0), &msm).unwrap();
    assert_eq!(half.amount(), 4);
    assert_eq!(inv.get(InvSlotId::new(0, 0)).unwrap().amount(), 4);
    let whole = inv.take(InvSlotId::new(0, 1), &msm).unwrap();
    assert_eq!(whole, sword());
    assert!(inv.get(InvSlotId::new(0, 1)).is_none());
}

#[test]
fn drain_empties_every_slot() {
    let mut inv = Inventory::new_empty();
    inv.replace_loadout_item(EquipSlot::Armor(ArmorSlot::Bag1), Some(bag(2)));
    inv.insert_at(InvSlotId::new(15, 1), boots()).unwrap();
    inv.push(sword());
    let drained = inv.drain();
    assert_eq!(drained.len(), 2);
    assert_eq!(drained[0], sword());
    assert_eq!(drained[1], boots());
    assert_eq!(inv.populated_slots(), 0);
}

#[test]
fn contains_and_item_count() {
    let mut inv = Inventory::new_empty();
    inv.push(potion(2));
    inv.insert_at(InvSlotId::new(0, 3), potion(5)).unwrap();
    assert!(inv.contains(&potion(1)));
    assert!(!inv.contains(&sword()));
    assert_eq!(inv.item_count(&potion(1).item_def), 7);
}

#[test]
fn contains_ingredients_claims_in_slot_order() {
    let mut inv = Inventory::new_empty();
    inv.insert_at(InvSlotId::new(0, 1), ingot(2)).unwrap();
    inv.insert_at(InvSlotId::new(0, 4), ingot(5)).unwrap();
    let recipe = Recipe {
        output: (sword().item_def, 1),
        inputs: vec![(RecipeInput::Tag(ItemTag::MetalIngot), 4)],
    };
    let claims = inv.contains_ingredients(&recipe).unwrap();
    assert_eq!(claims, vec![(InvSlotId::new(0, 1), 2), (InvSlotId::new(0, 4), 2)]);
}

#[test]
fn contains_ingredients_claims_add_up_to_what_is_needed() {
    let mut inv = Inventory::new_empty();
    inv.insert_at(InvSlotId::new(0, 0), ingot(3)).unwrap();
    inv.insert_at(InvSlotId::new(0, 2), ingot(4)).unwrap();
    let recipe = Recipe {
        output: (sword().item_def, 1),
        inputs: vec![
            (RecipeInput::Item(ingot(1).item_def), 2),
            (RecipeInput::Tag(ItemTag::MetalIngot), 4),
        ],
    };
    let claims = inv.contains_ingredients(&recipe).unwrap();
    assert_eq!(claims, vec![(InvSlotId::new(0, 0), 3), (InvSlotId::new(0, 2), 3)]);
    assert_eq!(claims.iter().map(|c| c.1).sum::<u32>(), 6);
}

#[test]
fn contains_ingredients_reports_missing() {
    let mut inv = Inventory::new_empty();
    inv.insert_at(InvSlotId::new(0, 1), ingot(2)).unwrap();
    let recipe = Recipe {
        output: (sword().item_def, 1),
        inputs: vec![
            (RecipeInput::Item(ingot(1).item_def), 3),
            (RecipeInput::Item(boots().item_def), 1),
        ],
    };
    let missing = inv.contains_ingredients(&recipe).unwrap_err();
    assert_eq!(missing.len(), 2);
    assert_eq!(missing[0].1, 1);
    assert_eq!(missing[1].1, 1);
}

#[test]
fn unequip_full_inventory_is_refused() {
    let mut inv = Inventory::from_parts(vec![Some(boots())], Loadout::new_empty());
    inv.replace_loadout_item(EquipSlot::Mainhand, Some(sword()));
    assert_eq!(inv.unequip(EquipSlot::Mainhand).unwrap_err(), SlotError::InventoryFull);
    assert_eq!(inv.equipped(EquipSlot::Mainhand), Some(&sword()));
}

#[test]
fn unequip_bag_unloads_its_items() {
    let mut inv = Inventory::from_parts(vec![None, None, None], Loadout::new_empty());
    inv.replace_loadout_item(EquipSlot::Armor(ArmorSlot::Bag1), Some(bag(2)));
    inv.insert_at(InvSlotId::new(15, 0), boots()).unwrap();
    inv.insert_at(InvSlotId::new(15, 1), sword()).unwrap();
    let left = inv.unequip(EquipSlot::Armor(ArmorSlot::Bag1)).unwrap();
    assert!(left.is_none());
    assert!(inv.equipped(EquipSlot::Armor(ArmorSlot::Bag1)).is_none());
    assert_eq!(inv.get(InvSlotId::new(0, 0)).unwrap().item_definition_id(), "common.items.testing.test_bag");
    assert_eq!(inv.get(InvSlotId::new(0, 1)), Some(&boots()));
    assert_eq!(inv.get(InvSlotId::new(0, 2)), Some(&sword()));
    assert_eq!(inv.get(InvSlotId::new(0, 0)).unwrap().slots().iter().filter(|s| s.is_some()).count(), 0);
}

#[test]
fn unequip_bag_hands_back_what_does_not_fit() {
    let mut inv = Inventory::from_parts(vec![None], Loadout::new_empty());
    inv.replace_loadout_item(EquipSlot::Armor(ArmorSlot::Bag1), Some(bag(2)));
    inv.insert_at(InvSlotId::new(15, 0), boots()).unwrap();
    let left = inv.unequip(EquipSlot::Armor(ArmorSlot::Bag1)).unwrap().unwrap();
    assert_eq!(left, vec![boots()]);
}

#[test]
fn pickup_item_unloads_contents() {
    let mut inv = Inventory::new_empty();
    let mut picked = bag(3);
    picked.slots = vec![Some(boots()), None, Some(sword())];
    inv.pickup_item(picked).unwrap();
    assert_eq!(inv.get(InvSlotId::new(0, 0)), Some(&boots()));
    assert_eq!(inv.get(InvSlotId::new(0, 1)), Some(&sword()));
    let stored = inv.get(InvSlotId::new(0, 2)).unwrap();
    assert_eq!(stored.item_definition_id(), "common.items.testing.test_bag");
    assert!(stored.slots().iter().all(|s| s.is_none()));
}

#[test]
fn pickup_item_without_room_is_refused() {
    let mut inv = Inventory::from_parts(vec![None], Loadout::new_empty());
    let mut picked = bag(1);
    picked.slots = vec![Some(boots())];
    let back = inv.pickup_item(picked).unwrap_err();
    assert_eq!(back.item_definition_id(), "common.items.testing.test_bag");
    assert!(inv.get(InvSlotId::new(0, 0)).is_none());
}

#[test]
fn swap_equip_slots_and_mismatch() {
    let mut inv = Inventory::new_empty();
    inv.replace_loadout_item(EquipSlot::Armor(ArmorSlot::Ring1), Some(item_of("ring", ItemKind::Armor(ArmorKind::Ring), 0)));
    let r = inv.swap(Slot::Equip(EquipSlot::Armor(ArmorSlot::Ring1)), Slot::Equip(EquipSlot::Armor(ArmorSlot::Ring2)));
    assert!(r.is_empty());
    assert!(inv.equipped(EquipSlot::Armor(ArmorSlot::Ring1)).is_none());
    assert!(inv.equipped(EquipSlot::Armor(ArmorSlot::Ring2)).is_some());
    let r = inv.swap(Slot::Equip(EquipSlot::Armor(ArmorSlot::Ring2)), Slot::Equip(EquipSlot::Armor(ArmorSlot::Head)));
    assert!(r.is_empty());
    assert!(inv.equipped(EquipSlot::Armor(ArmorSlot::Ring2)).is_some());
    let r = inv.swap(Slot::Equip(EquipSlot::Armor(ArmorSlot::Ring2)), Slot::Equip(EquipSlot::Armor(ArmorSlot::Ring2)));
    assert!(r.is_empty());
    assert_eq!(inv.equipped(EquipSlot::Armor(ArmorSlot::Ring2)).unwrap().item_definition_id(), "ring");
}

#[test]
fn equip_tool_goes_to_free_hand() {
    let mut inv = Inventory::new_empty();
    inv.replace_loadout_item(EquipSlot::Mainhand, Some(item_of("axe", ItemKind::Tool(ToolKind::Axe), 0)));
    inv.push(sword());
    let r = inv.equip(InvSlotId::new(0, 0));
    assert!(r.is_empty());
    assert_eq!(inv.equipped(EquipSlot::Mainhand).unwrap().item_definition_id(), "axe");
    assert_eq!(inv.equipped(EquipSlot::Offhand), Some(&sword()));
    assert!(inv.get(InvSlotId::new(0, 0)).is_none());
}

#[test]
fn equip_with_both_hands_full_moves_mainhand_to_offhand() {
    let mut inv = Inventory::new_empty();
    inv.replace_loadout_item(EquipSlot::Mainhand, Some(item_of("axe", ItemKind::Tool(ToolKind::Axe), 0)));
    inv.replace_loadout_item(EquipSlot::Offhand, Some(item_of("shield", ItemKind::Tool(ToolKind::Shield), 0)));
    inv.push(sword());
    let r = inv.equip(InvSlotId::new(0, 0));
    assert!(r.is_empty());
    assert_eq!(inv.equipped(EquipSlot::Mainhand), Some(&sword()));
    assert_eq!(inv.equipped(EquipSlot::Offhand).unwrap().item_definition_id(), "axe");
    assert_eq!(inv.get(InvSlotId::new(0, 0)).unwrap().item_definition_id(), "shield");
}

#[test]
fn try_equip_fills_first_free_suitable_slot() {
    let mut inv = Inventory::new_empty();
    let ring = item_of("ring", ItemKind::Armor(ArmorKind::Ring), 0);
    assert!(inv.try_equip(item_of("ring", ItemKind::Armor(ArmorKind::Ring), 0)).is_ok());
    assert!(inv.try_equip(item_of("ring", ItemKind::Armor(ArmorKind::Ring), 0)).is_ok());
    let back = inv.try_equip(item_of("ring", ItemKind::Armor(ArmorKind::Ring), 0)).unwrap_err();
    assert_eq!(back, ring);
    assert!(inv.equipped(EquipSlot::Armor(ArmorSlot::Ring1)).is_some());
    assert!(inv.equipped(EquipSlot::Armor(ArmorSlot::Ring2)).is_some());
}

#[test]
fn free_after_equip_and_unequip_values() {
    let mut inv = Inventory::new_empty();
    inv.replace_loadout_item(EquipSlot::Armor(ArmorSlot::Bag1), Some(bag(9)));
    inv.push(bag(4));
    // 27 slots, one used; equipping the small bag into the second bag slot
    // adds its 4 slots and frees its own slot.
    assert_eq!(inv.free_after_equip(InvSlotId::new(0, 0)), 27 + 4 - 1 + 1);
    // Unequipping the big bag loses its 9 slots and uses one slot.
    assert_eq!(inv.free_after_unequip(EquipSlot::Armor(ArmorSlot::Bag1)), 27 - 9 - 1 - 1);
    assert_eq!(inv.free_after_unequip(EquipSlot::Armor(ArmorSlot::Bag3)), 27 - 1);
}

#[test]
fn slot_mut_writes_through() {
    let mut inv = Inventory::new_empty();
    inv.replace_loadout_item(EquipSlot::Armor(ArmorSlot::Bag1), Some(bag(2)));
    *inv.slot_mut(InvSlotId::new(15, 1)).unwrap() = Some(sword());
    assert_eq!(inv.get(InvSlotId::new(15, 1)), Some(&sword()));
    assert!(inv.slot_mut(InvSlotId::new(15, 2)).is_none());
    assert!(inv.slot_mut(InvSlotId::new(16, 0)).is_none());
}

#[test]
fn slots_with_id_walks_in_order() {
    let mut inv = Inventory::new_empty();
    inv.replace_loadout_item(EquipSlot::Armor(ArmorSlot::Bag2), Some(bag(2)));
    let ids: Vec<InvSlotId> = inv.slots_with_id().into_iter().map(|(id, _)| id).collect();
    assert_eq!(ids.len(), 20);
    assert_eq!(ids[17], InvSlotId::new(0, 17));
    assert_eq!(ids[18], InvSlotId::new(16, 0));
    assert_eq!(ids[19], InvSlotId::new(16, 1));
}

#[test]
fn loadout_items_with_persistence_keys() {
    let mut inv = Inventory::new_empty();
    inv.replace_loadout_item(EquipSlot::Mainhand, Some(sword()));
    let keyed = inv.loadout_items_with_persistence_key();
    assert_eq!(keyed.len(), 20);
    let main = keyed.iter().find(|(k, _)| *k == "active_item").unwrap();
    assert_eq!(main.1, Some(&sword()));
    assert_eq!(inv.equipped_items().len(), 1);
}

#[test]
fn inventory_update_event_copies() {
    let upd = InventoryUpdate::new(InventoryUpdateEvent::Collected(potion(3)));
    match upd.event() {
        InventoryUpdateEvent::Collected(it) => {
            assert_eq!(it.amount(), 3);
            assert_eq!(it.item_definition_id(), "common.items.consumable.potion_minor");
        },
        _ => panic!("wrong event"),
    }
    let consumed = InventoryUpdate::new(InventoryUpdateEvent::Consumed("apple".to_string()));
    assert_eq!(consumed.event(), InventoryUpdateEvent::Consumed("apple".to_string()));
    assert_eq!(InventoryUpdate::default().event(), InventoryUpdateEvent::Init);
    assert_eq!(InventoryUpdateEvent::default(), InventoryUpdateEvent::Init);
}

#[test]
fn item_amount_changes_are_checked() {
    let mut it = potion(5);
    assert!(it.decrease_amount(6).is_err());
    assert!(it.decrease_amount(5).is_err());
    assert!(it.decrease_amount(4).is_ok());
    assert_eq!(it.amount(), 1);
    assert!(it.increase_amount(u32::MAX).is_err());
    let mut s = sword();
    assert!(s.set_amount(2).is_err());
    assert!(s.set_amount(1).is_ok());
}

#[test]
fn unequip_frees_as_foretold_example() {
    let mut inv = Inventory::new_empty();
    inv.replace_loadout_item(EquipSlot::Armor(ArmorSlot::Bag1), Some(bag(9)));
    // A sword inside the bag and boots in the built-in slots.
    *inv.slot_mut(InvSlotId::new(15, 3)).unwrap() = Some(sword());
    inv.push(boots());
    let foretold = inv.free_after_unequip(EquipSlot::Armor(ArmorSlot::Bag1));
    assert!(inv.unequip(EquipSlot::Armor(ArmorSlot::Bag1)).unwrap().is_none());
    assert_eq!(inv.free_slots() as i32, foretold);
    assert_eq!(foretold, 18 - 3);
}

#[test]
fn swap_frees_as_foretold_example() {
    let mut inv = Inventory::new_empty();
    inv.replace_loadout_item(EquipSlot::Armor(ArmorSlot::Bag1), Some(bag(9)));
    *inv.slot_mut(InvSlotId::new(15, 0)).unwrap() = Some(sword());
    inv.push(bag(4));
    let foretold = inv.free_after_swap(EquipSlot::Armor(ArmorSlot::Bag1), InvSlotId::new(0, 0));
    let left = inv.swap(Slot::Inventory(InvSlotId::new(0, 0)), Slot::Equip(EquipSlot::Armor(ArmorSlot::Bag1)));
    assert!(left.is_empty());
    assert_eq!(inv.free_slots() as i32, foretold);
    // 18 + 4 slots; the big bag and the sword take two of them.
    assert_eq!(foretold, 20);
}

#[test]
fn equip_frees_as_foretold_example() {
    let mut inv = Inventory::new_empty();
    inv.replace_loadout_item(EquipSlot::Armor(ArmorSlot::Feet), Some(boots()));
    inv.push(sword());
    inv.push(item_of("common.items.testing.other_boots", ItemKind::Armor(ArmorKind::Foot), 0));
    let foretold = inv.free_after_equip(InvSlotId::new(0, 1));
    assert!(inv.equip(InvSlotId::new(0, 1)).is_empty());
    assert_eq!(inv.free_slots() as i32, foretold);
    assert_eq!(foretold, 16);
}

#[test]
fn swap_conserves_amounts_example() {
    let mut inv = Inventory::new_empty();
    inv.replace_loadout_item(EquipSlot::Armor(ArmorSlot::Bag1), Some(bag(2)));
    *inv.slot_mut(InvSlotId::new(15, 0)).unwrap() = Some(sword());
    *inv.slot_mut(InvSlotId::new(15, 1)).unwrap() = Some(potion(4));
    inv.push(bag(3));
    let left = inv.swap_inventory_loadout(InvSlotId::new(0, 0), EquipSlot::Armor(ArmorSlot::Bag1));
    assert!(left.is_empty());
    // The sword and the potions left the old bag's slots for the inventory.
    assert_eq!(inv.item_count(&sword().item_def), 1);
    assert_eq!(inv.item_count(&potion(1).item_def), 4);
    // One bag is equipped, the other lies in the inventory.
    assert_eq!(inv.equipped(EquipSlot::Armor(ArmorSlot::Bag1)).unwrap().slots().len(), 3);
    assert_eq!(inv.item_count(&bag(2).item_def), 1);
}
