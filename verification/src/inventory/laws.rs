//! What holds of the inventory across its operations.
use vstd::prelude::*;

use super::item::{emptied, kind_is_stackable, same_def, somes, with_amount, Item};
use super::loadout::layout_index;
use super::seqs::{count_none, count_some, flat};
use super::slot::{EquipSlot, InvSlotId};
use super::{
    amount_of, first_match_at, first_match_pos, first_none_at, first_none_pos, has_match, has_none, lemma_first_match,
    lemma_first_none, lemma_push_count, opt_seq, push_all_spec, push_all_unique_spec, push_spec, Inventory,
};

verus! {

/// What one item adds to the amount of the definition `d`.
pub open spec fn amount_in(it: Item, d: Seq<char>) -> nat {
    if it.item_def.item_definition_id@ == d {
        it.amount as nat
    } else {
        0
    }
}

/// What one slot adds to the amount of the definition `d`.
pub open spec fn slot_amount(o: Option<Item>, d: Seq<char>) -> nat {
    match o {
        Some(it) => amount_in(it, d),
        None => 0,
    }
}

/// Total amount of the definition `d` among `items`.
pub open spec fn amount_of_items(items: Seq<Item>, d: Seq<char>) -> nat
    decreases items.len(),
{
    if items.len() == 0 {
        0
    } else {
        amount_of_items(items.drop_last(), d) + amount_in(items.last(), d)
    }
}

proof fn lemma_amount_update(s: Seq<Option<Item>>, p: int, v: Option<Item>, d: Seq<char>)
    requires
        0 <= p < s.len(),
    ensures
        amount_of(s.update(p, v), d) + slot_amount(s[p], d) == amount_of(s, d) + slot_amount(v, d),
    decreases s.len(),
{
    let t = s.update(p, v);
    assert(t.drop_last() =~= if p < s.len() - 1 {
        s.drop_last().update(p, v)
    } else {
        s.drop_last()
    });
    if p < s.len() - 1 {
        lemma_amount_update(s.drop_last(), p, v, d);
    }
}

proof fn lemma_amount_items_concat(a: Seq<Item>, b: Seq<Item>, d: Seq<char>)
    ensures
        amount_of_items(a + b, d) == amount_of_items(a, d) + amount_of_items(b, d),
    decreases b.len(),
{
    if b.len() > 0 {
        assert((a + b).drop_last() =~= a + b.drop_last());
        lemma_amount_items_concat(a, b.drop_last(), d);
    } else {
        assert(a + b =~= a);
    }
}

/// Every slot is either empty or holds an item: the capacity is the number
/// of populated slots plus the number of free ones.
pub proof fn capacity_is_populated_plus_free(inv: &Inventory)
    ensures
        inv.all().len() == count_some(inv.all()) + count_none(inv.all()),
{
    super::seqs::lemma_count_total(inv.all());
}

/// Pushing an item that neither joins a stack already there nor finds an
/// empty slot hands the same item back and leaves the slots as they were.
pub proof fn push_into_full_returns_item(s: Seq<Option<Item>>, item: Item)
    requires
        !has_none(s),
        !(kind_is_stackable(item.item_def.kind) && has_match(s, item)),
    ensures
        push_spec(s, item, item) == (s, Some(item)),
{
}

/// Pushing a series of items into a full inventory, none of which joins a
/// stack already there, hands them all back in order.
pub proof fn push_all_into_full_returns_all(s: Seq<Option<Item>>, items: Seq<Item>)
    requires
        !has_none(s),
        forall|i: int|
            0 <= i < items.len() ==> !(kind_is_stackable((#[trigger] items[i]).item_def.kind) && has_match(s, items[i])),
    ensures
        push_all_spec(s, items) == (s, items),
    decreases items.len(),
{
    if items.len() > 0 {
        push_all_into_full_returns_all(s, items.drop_last());
        assert(items.drop_last() + opt_seq(Some(items.last())) =~= items);
    } else {
        assert(push_all_spec(s, items).1 =~= items);
    }
}

/// Pushing items uniquely into an inventory that already holds an item of
/// each of their definitions changes nothing and refuses nothing.
pub proof fn push_all_unique_when_all_present(s: Seq<Option<Item>>, items: Seq<Item>)
    requires
        forall|i: int| 0 <= i < items.len() ==> has_match(s, #[trigger] items[i]),
    ensures
        push_all_unique_spec(s, items) == (s, Seq::<Item>::empty()),
    decreases items.len(),
{
    if items.len() > 0 {
        push_all_unique_when_all_present(s, items.drop_last());
        assert(has_match(s, items[items.len() - 1]));
    }
}

/// Items that do not stack all find a place when there are at least as many
/// empty slots as items, and each takes one empty slot.
pub proof fn push_all_into_room(s: Seq<Option<Item>>, items: Seq<Item>)
    requires
        count_none(s) >= items.len(),
        forall|i: int| 0 <= i < items.len() ==> !kind_is_stackable((#[trigger] items[i]).item_def.kind),
    ensures
        push_all_spec(s, items).1.len() == 0,
        count_none(push_all_spec(s, items).0) == count_none(s) - items.len(),
    decreases items.len(),
{
    if items.len() > 0 {
        push_all_into_room(s, items.drop_last());
        let s1 = push_all_spec(s, items.drop_last()).0;
        assert(!kind_is_stackable(items[items.len() - 1].item_def.kind));
        lemma_push_count(s1, items.last(), items.last());
    }
}

/// Pushing neither loses nor duplicates anything: for every definition, what
/// the slots hold afterwards plus what is handed back equals what they held
/// before plus what was pushed.
pub proof fn push_conserves_amounts(s: Seq<Option<Item>>, item: Item, d: Seq<char>)
    ensures
        amount_of(push_spec(s, item, item).0, d) + amount_of_items(opt_seq(push_spec(s, item, item).1), d)
            == amount_of(s, d) + amount_in(item, d),
{
    let r = push_spec(s, item, item);
    assert(amount_of_items(opt_seq(Some(item)), d) == amount_in(item, d)) by {
        let one = opt_seq(Some(item));
        assert(one.len() == 1);
        assert(one.last() == item);
        assert(one.drop_last() =~= Seq::<Item>::empty());
        assert(amount_of_items(one.drop_last(), d) == 0);
    }
    if kind_is_stackable(item.item_def.kind) && has_match(s, item) {
        lemma_first_match(s, item);
        let p = first_match_pos(s, item);
        let x = s[p].unwrap();
        if x.amount + item.amount <= u32::MAX {
            let y = with_amount(x, (x.amount + item.amount) as u32);
            lemma_amount_update(s, p, Some(y), d);
            assert(same_def(x, item));
        }
    } else if has_none(s) {
        lemma_first_none(s);
        lemma_amount_update(s, first_none_pos(s), Some(item), d);
    }
}

/// Pushing a series neither loses nor duplicates anything: for every
/// definition, what the slots hold afterwards plus what is handed back equals
/// what they held before plus what was pushed.
pub proof fn push_all_conserves_amounts(s: Seq<Option<Item>>, items: Seq<Item>, d: Seq<char>)
    ensures
        amount_of(push_all_spec(s, items).0, d) + amount_of_items(push_all_spec(s, items).1, d) == amount_of(s, d)
            + amount_of_items(items, d),
    decreases items.len(),
{
    if items.len() > 0 {
        push_all_conserves_amounts(s, items.drop_last(), d);
        let prev = push_all_spec(s, items.drop_last());
        push_conserves_amounts(prev.0, items.last(), d);
        lemma_amount_items_concat(prev.1, opt_seq(push_spec(prev.0, items.last(), items.last()).1), d);
    }
}

/// Where a pushed item goes: an item that does not stack with anything
/// present takes the first empty slot, every other slot left as it was; a
/// stackable item joins the first stack of its definition, which keeps
/// everything but its amount, grown by the item's amount when the sum fits;
/// when the sum does not fit, the item comes back and nothing changes.
pub proof fn push_places_items(s: Seq<Option<Item>>, item: Item, p: int)
    ensures
        !(kind_is_stackable(item.item_def.kind) && has_match(s, item)) && first_none_at(s, p) ==> push_spec(
            s,
            item,
            item,
        ) == (s.update(p, Some(item)), None::<Item>),
        kind_is_stackable(item.item_def.kind) && first_match_at(s, item, p) && s[p].unwrap().amount + item.amount
            <= u32::MAX ==> push_spec(s, item, item) == (
            s.update(p, Some(Item { amount: (s[p].unwrap().amount + item.amount) as u32, ..s[p].unwrap() })),
            None::<Item>,
        ),
        kind_is_stackable(item.item_def.kind) && first_match_at(s, item, p) && s[p].unwrap().amount + item.amount
            > u32::MAX ==> push_spec(s, item, item) == (s, Some(item)),
{
    if first_none_at(s, p) {
        assert(has_none(s));
        lemma_first_none(s);
    }
    if first_match_at(s, item, p) {
        assert(has_match(s, item));
        lemma_first_match(s, item);
    }
}

/// Pushing a series is pushing its items one at a time, in order: one item
/// alone is one `push`, whose refusal is the whole of what comes back; and
/// pushing `a` then `b` leaves the slots that pushing `a + b` at once leaves,
/// handing back what the first refused followed by what the second refused.
pub proof fn push_all_is_pushes_in_order(s: Seq<Option<Item>>, a: Seq<Item>, b: Seq<Item>, x: Item)
    ensures
        push_all_spec(s, seq![x]) == (push_spec(s, x, x).0, opt_seq(push_spec(s, x, x).1)),
        push_all_spec(s, a + b) == (
            push_all_spec(push_all_spec(s, a).0, b).0,
            push_all_spec(s, a).1 + push_all_spec(push_all_spec(s, a).0, b).1,
        ),
    decreases b.len(),
{
    let one = seq![x];
    assert(one.drop_last() =~= Seq::<Item>::empty());
    assert(one.last() == x);
    assert(push_all_spec(s, one.drop_last()) == (s, Seq::<Item>::empty()));
    assert(Seq::<Item>::empty() + opt_seq(push_spec(s, x, x).1) =~= opt_seq(push_spec(s, x, x).1));
    let first = push_all_spec(s, a);
    if b.len() == 0 {
        assert(a + b =~= a);
        assert(first.1 + Seq::<Item>::empty() =~= first.1);
    } else {
        push_all_is_pushes_in_order(s, a, b.drop_last(), x);
        assert((a + b).drop_last() =~= a + b.drop_last());
        assert((a + b).last() == b.last());
        let mid = push_all_spec(first.0, b.drop_last());
        let step = push_spec(mid.0, b.last(), b.last());
        assert(first.1 + mid.1 + opt_seq(step.1) =~= first.1 + (mid.1 + opt_seq(step.1)));
    }
}

proof fn lemma_amount_concat(a: Seq<Option<Item>>, b: Seq<Option<Item>>, d: Seq<char>)
    ensures
        amount_of(a + b, d) == amount_of(a, d) + amount_of(b, d),
    decreases b.len(),
{
    if b.len() > 0 {
        assert((a + b).drop_last() =~= a + b.drop_last());
        lemma_amount_concat(a, b.drop_last(), d);
    } else {
        assert(a + b =~= a);
    }
}

proof fn lemma_amount_somes(s: Seq<Option<Item>>, d: Seq<char>)
    ensures
        amount_of_items(somes(s), d) == amount_of(s, d),
    decreases s.len(),
{
    if s.len() > 0 {
        lemma_amount_somes(s.drop_last(), d);
        let rest = somes(s.drop_last());
        match s.last() {
            Some(it) => {
                lemma_amount_items_concat(rest, seq![it], d);
                let one = seq![it];
                assert(one.len() == 1);
                assert(one.drop_last() =~= Seq::<Item>::empty());
                assert(one.last() == it);
                assert(amount_of_items(one.drop_last(), d) == 0);
                assert(amount_of_items(one, d) == amount_in(it, d));
                assert(somes(s) == rest + seq![it]);
            },
            None => {
                assert(rest + Seq::<Item>::empty() =~= rest);
                assert(somes(s) == rest + Seq::<Item>::empty());
            },
        }
    }
}

/// Whether pushing an item is refused depends only on its definition and
/// amount, not on what it holds.
proof fn lemma_push_refusal_same(s: Seq<Option<Item>>, x: Item, y: Item)
    requires
        x.item_def == y.item_def,
        x.amount == y.amount,
    ensures
        push_spec(s, x, x).1 is None <==> push_spec(s, y, y).1 is None,
{
    assert(has_match(s, x) == has_match(s, y)) by {
        if has_match(s, x) {
            let q = choose|q: int| 0 <= q < s.len() && (#[trigger] s[q]) is Some && same_def(s[q].unwrap(), x);
            assert(same_def(s[q].unwrap(), y));
        }
        if has_match(s, y) {
            let q = choose|q: int| 0 <= q < s.len() && (#[trigger] s[q]) is Some && same_def(s[q].unwrap(), y);
            assert(same_def(s[q].unwrap(), x));
        }
    }
    if kind_is_stackable(x.item_def.kind) && has_match(s, x) {
        lemma_first_match(s, x);
        lemma_first_match(s, y);
        let px = first_match_pos(s, x);
        assert(first_match_at(s, y, px));
    }
}

/// Unequipping neither loses nor duplicates anything: for every definition,
/// what the inventory's slots hold afterwards plus what is handed back
/// equals what they held before plus the item taken off.
pub proof fn unequip_conserves_amounts(
    inv: &Inventory,
    post: &Inventory,
    equip_slot: EquipSlot,
    drained: Item,
    left: Seq<Item>,
    d: Seq<char>,
)
    requires
        inv.wf(),
        inv.unequip_fits(equip_slot),
        inv.unequip_room(equip_slot),
        inv.equipment()[layout_index(equip_slot)].slot is Some,
        emptied(inv.equipment()[layout_index(equip_slot)].slot.unwrap(), drained),
        ({
            let k = layout_index(equip_slot);
            let s3 = push_spec(flat(inv.unequipped_sections(equip_slot)), drained, drained).0;
            let out = push_all_spec(s3, somes(inv.sections()[k + 1]));
            post.all() == out.0 && left == out.1
        }),
    ensures
        amount_of(post.all(), d) + amount_of_items(left, d) == amount_of(inv.all(), d) + amount_in(
            inv.equipment()[layout_index(equip_slot)].slot.unwrap(),
            d,
        ),
{
    super::loadout::lemma_layout_index(equip_slot);
    let k = layout_index(equip_slot);
    let b = inv.equipment()[k].slot.unwrap();
    let secs = inv.sections();
    let sec = secs[k + 1];
    let s0 = flat(inv.unequipped_sections(equip_slot));
    inv.lemma_sections();
    lemma_push_refusal_same(s0, b, drained);
    push_conserves_amounts(s0, drained, d);
    let s1 = push_spec(s0, drained, drained).0;
    assert(opt_seq(push_spec(s0, drained, drained).1) =~= Seq::<Item>::empty());
    push_all_conserves_amounts(s1, somes(sec), d);
    lemma_amount_somes(sec, d);
    super::seqs::lemma_flat_replace(secs, k + 1, Seq::empty());
    super::seqs::lemma_flat_split(secs, k + 1);
    let pre = flat(secs.take(k + 1));
    let suf = flat(secs.skip(k + 2));
    assert(pre + Seq::<Option<Item>>::empty() + suf =~= pre + suf);
    lemma_amount_concat(pre, suf, d);
    lemma_amount_concat(pre, sec, d);
    lemma_amount_concat(pre + sec, suf, d);
}

/// Reading a slot after writing it gives what was written; every other slot
/// reads as before.
pub proof fn read_after_write(inv: &Inventory, post: &Inventory, id: InvSlotId, other: InvSlotId, v: Option<Item>)
    requires
        inv.valid_id(id),
        inv.valid_id(other),
        post.sections() == inv.written(id.spec_loadout_idx() as int, id.spec_slot_idx() as int, v),
    ensures
        post.valid_id(id),
        post.at(id) == v,
        post.valid_id(other),
        other != id ==> post.at(other) == inv.at(other),
{
    InvSlotId::lemma_id_eq(id, other);
}

/// Swapping the contents of two slots twice puts everything back.
pub proof fn swap_slots_twice_restores(inv: &Inventory, mid: &Inventory, post: &Inventory, a: InvSlotId, b: InvSlotId)
    requires
        inv.valid_id(a),
        inv.valid_id(b),
        mid.sections() == inv.slots_swapped(a, b),
        post.sections() == mid.slots_swapped(a, b),
    ensures
        post.sections() == inv.sections(),
{
    InvSlotId::lemma_id_eq(a, b);
    let ka = a.spec_loadout_idx() as int;
    let kb = b.spec_loadout_idx() as int;
    assert(post.sections() =~= inv.sections()) by {
        assert forall|k: int| 0 <= k < inv.sections().len() implies #[trigger] post.sections()[k] == inv.sections()[k] by {
            if k == ka || k == kb {
                assert(post.sections()[k] =~= inv.sections()[k]);
            }
        }
    }
}

/// The items held in slots none of which holds a stackable item: as many as
/// there are populated slots, and none stackable.
proof fn lemma_somes_unstackable(s: Seq<Option<Item>>)
    requires
        forall|q: int| 0 <= q < s.len() && (#[trigger] s[q]) is Some ==> !kind_is_stackable(s[q].unwrap().item_def.kind),
    ensures
        somes(s).len() == count_some(s),
        forall|i: int| 0 <= i < somes(s).len() ==> !kind_is_stackable((#[trigger] somes(s)[i]).item_def.kind),
    decreases s.len(),
{
    if s.len() > 0 {
        let rest = s.drop_last();
        assert forall|q: int| 0 <= q < rest.len() && (#[trigger] rest[q]) is Some implies !kind_is_stackable(
            rest[q].unwrap().item_def.kind,
        ) by {
            assert(rest[q] == s[q]);
        }
        lemma_somes_unstackable(rest);
        match s.last() {
            Some(it) => {
                assert(s[s.len() - 1] is Some);
                assert forall|i: int| 0 <= i < somes(s).len() implies !kind_is_stackable(
                    (#[trigger] somes(s)[i]).item_def.kind,
                ) by {
                    if i < somes(rest).len() {
                        assert(somes(s)[i] == somes(rest)[i]);
                    } else {
                        assert(somes(s)[i] == it);
                    }
                }
            },
            None => {
                assert(somes(s) =~= somes(rest));
            },
        }
    }
}

/// When neither the unequipped item nor anything it held stacks, an
/// unequip that succeeds and hands nothing back (`Ok(None)`) leaves as many
/// free slots as `free_after_unequip` foretold.
pub proof fn unequip_frees_as_foretold(inv: &Inventory, post: &Inventory, equip_slot: EquipSlot, drained: Item)
    requires
        inv.wf(),
        inv.equipment()[layout_index(equip_slot)].slot is Some,
        emptied(inv.equipment()[layout_index(equip_slot)].slot.unwrap(), drained),
        !kind_is_stackable(drained.item_def.kind),
        ({
            let sec = inv.sections()[layout_index(equip_slot) + 1];
            let out = push_all_spec(push_spec(flat(inv.unequipped_sections(equip_slot)), drained, drained).0, somes(sec));
            &&& forall|q: int|
                0 <= q < sec.len() && (#[trigger] sec[q]) is Some ==> !kind_is_stackable(sec[q].unwrap().item_def.kind)
            &&& inv.unequip_room(equip_slot)
            &&& post.all() == out.0
            &&& out.1.len() == 0
        }),
    ensures
        count_none(post.all()) == inv.free_after_unequip_spec(equip_slot),
{
    super::loadout::lemma_layout_index(equip_slot);
    inv.lemma_sections();
    let k = layout_index(equip_slot);
    let secs = inv.sections();
    let sec = secs[k + 1];
    let b = inv.equipment()[k].slot;
    assert(sec == super::opt_slots(b));
    // The slots left once the item's own are gone.
    super::seqs::lemma_flat_replace(secs, k + 1, Seq::empty());
    super::seqs::lemma_flat_split(secs, k + 1);
    let pre = flat(secs.take(k + 1));
    let suf = flat(secs.skip(k + 2));
    let s0 = flat(inv.unequipped_sections(equip_slot));
    assert(pre + Seq::<Option<Item>>::empty() + suf =~= pre + suf);
    super::seqs::lemma_count_concat(pre, suf);
    super::seqs::lemma_count_concat(pre, sec);
    super::seqs::lemma_count_concat(pre + sec, suf);
    assert(count_none(s0) == count_none(inv.all()) - count_none(sec));
    // The item takes one empty slot, and each thing it held another.
    lemma_push_count(s0, drained, drained);
    let s1 = push_spec(s0, drained, drained).0;
    lemma_somes_unstackable(sec);
    lemma_unstackable_all_taken(s1, somes(sec));
    super::seqs::lemma_count_total(sec);
    super::seqs::lemma_count_total(inv.all());
}

/// Unstackable items that were all taken in each took an empty slot of
/// their own.
proof fn lemma_unstackable_all_taken(s: Seq<Option<Item>>, items: Seq<Item>)
    requires
        forall|i: int| 0 <= i < items.len() ==> !kind_is_stackable((#[trigger] items[i]).item_def.kind),
        push_all_spec(s, items).1.len() == 0,
    ensures
        count_none(s) >= items.len(),
        count_none(push_all_spec(s, items).0) == count_none(s) - items.len(),
    decreases items.len(),
{
    if items.len() > 0 {
        let init = items.drop_last();
        let x = items.last();
        let prev = push_all_spec(s, init);
        let step = push_spec(prev.0, x, x);
        assert(!kind_is_stackable(items[items.len() - 1].item_def.kind));
        assert forall|i: int| 0 <= i < init.len() implies !kind_is_stackable((#[trigger] init[i]).item_def.kind) by {
            assert(init[i] == items[i]);
        }
        assert((prev.1 + opt_seq(step.1)).len() == prev.1.len() + opt_seq(step.1).len());
        lemma_unstackable_all_taken(s, init);
        assert(step.1 is None);
        assert(has_none(prev.0));
        lemma_first_none(prev.0);
        super::seqs::lemma_count_update(prev.0, first_none_pos(prev.0), Some(x));
    }
}

/// Replacing a whole section changes the count of empty slots by the
/// difference of the two sections' counts.
proof fn lemma_count_none_replace(s: Seq<Seq<Option<Item>>>, k: int, x: Seq<Option<Item>>)
    requires
        0 <= k < s.len(),
    ensures
        count_none(flat(s.update(k, x))) + count_none(s[k]) == count_none(flat(s)) + count_none(x),
{
    super::seqs::lemma_flat_replace(s, k, x);
    super::seqs::lemma_flat_split(s, k);
    let pre = flat(s.take(k));
    let suf = flat(s.skip(k + 1));
    super::seqs::lemma_count_concat(pre, x);
    super::seqs::lemma_count_concat(pre + x, suf);
    super::seqs::lemma_count_concat(pre, s[k]);
    super::seqs::lemma_count_concat(pre + s[k], suf);
}

/// Writing one slot of a section changes the count of empty slots as writing
/// the same slot of the flat sequence does.
proof fn lemma_count_none_write(s: Seq<Seq<Option<Item>>>, k: int, j: int, v: Option<Item>)
    requires
        0 <= k < s.len(),
        0 <= j < s[k].len(),
    ensures
        count_none(flat(s.update(k, s[k].update(j, v)))) + (if s[k][j] is None { 1int } else { 0int })
            == count_none(flat(s)) + (if v is None { 1int } else { 0int }),
{
    super::seqs::lemma_flat_update(s, k, j, v);
    super::seqs::lemma_flat_index(s, k, j);
    super::seqs::lemma_count_update(flat(s), super::seqs::offset(s, k) + j, v);
}

/// When the inventory item comes from a slot that the equipped item does not
/// provide and holds nothing itself, and the equipped item's contents do not
/// stack and find room, swapping the two leaves as many free slots as
/// `free_after_swap` foretold.
pub proof fn swap_frees_as_foretold(
    inv: &Inventory,
    post: &Inventory,
    inv_slot: InvSlotId,
    equip_slot: EquipSlot,
    drained: Item,
)
    requires
        inv.wf(),
        inv.valid_id(inv_slot),
        inv_slot.spec_loadout_idx() != layout_index(equip_slot) + 1,
        inv.at(inv_slot) is Some ==> forall|j: int|
            0 <= j < inv.at(inv_slot).unwrap().slots@.len() ==> (#[trigger] inv.at(inv_slot).unwrap().slots@[j]) is None,
        ({
            let b = inv.equipment()[layout_index(equip_slot)].slot;
            let sec = inv.sections()[layout_index(equip_slot) + 1];
            let freed: int = if inv.at(inv_slot) is Some { 1 } else { 0 };
            &&& b is None ==> post.all() == flat(inv.swapped_sections(inv_slot, equip_slot))
            &&& b is Some ==> {
                &&& emptied(b.unwrap(), drained)
                &&& post.all() == inv.swap_result(inv_slot, equip_slot, drained).0
                &&& forall|q: int|
                    0 <= q < sec.len() && (#[trigger] sec[q]) is Some ==> !kind_is_stackable(
                        sec[q].unwrap().item_def.kind,
                    )
                &&& count_none(inv.all()) - count_none(sec) + Inventory::slots_of(inv.at(inv_slot)) + freed - 1
                    >= count_some(sec)
            }
        }),
    ensures
        count_none(post.all()) == inv.free_after_swap_spec(equip_slot, inv_slot),
{
    super::loadout::lemma_layout_index(equip_slot);
    inv.lemma_sections();
    let k1 = layout_index(equip_slot) + 1;
    let li = inv_slot.spec_loadout_idx() as int;
    let si = inv_slot.spec_slot_idx() as int;
    let secs = inv.sections();
    let sec = secs[k1];
    let b = inv.equipment()[k1 - 1].slot;
    let x = inv.at(inv_slot);
    assert(sec == super::opt_slots(b));
    // Taking the item out of its slot.
    let s1 = inv.written(li, si, None);
    lemma_count_none_write(secs, li, si, None);
    // Its slots replace those of the equipped item.
    let xs = super::opt_slots(x);
    assert(forall|j: int| 0 <= j < xs.len() ==> #[trigger] xs[j] is None);
    super::seqs::lemma_count_none_all(xs);
    assert(s1[k1] == sec);
    let s2 = s1.update(k1, xs);
    assert(s2 == inv.swapped_sections(inv_slot, equip_slot));
    lemma_count_none_replace(s1, k1, xs);
    super::seqs::lemma_count_total(inv.all());
    super::seqs::lemma_count_total(sec);
    if b is Some {
        // The previously equipped item goes back into the emptied slot.
        assert(s2[li] == s1[li]);
        assert(s2[li][si] is None);
        lemma_count_none_write(s2, li, si, Some(drained));
        let all3 = flat(s2.update(li, s2[li].update(si, Some(drained))));
        // What it held each takes one more empty slot.
        lemma_somes_unstackable(sec);
        push_all_into_room(all3, somes(s1[k1]));
    } else {
        assert(sec.len() == 0);
        super::seqs::lemma_count_none_all(sec);
    }
}

/// An item goes into one equipment slot at most.
proof fn lemma_equip_target_unique(
    v: Seq<super::loadout::LoadoutSlot>,
    kind: super::item::ItemKind,
    t1: Option<EquipSlot>,
    t2: Option<EquipSlot>,
)
    requires
        super::loadout::equip_target(v, kind, t1),
        super::loadout::equip_target(v, kind, t2),
    ensures
        t1 == t2,
{
    match (t1, t2) {
        (Some(e1), Some(e2)) => {
            super::loadout::lemma_layout_index(e1);
            super::loadout::lemma_layout_index(e2);
            let k1 = layout_index(e1);
            let k2 = layout_index(e2);
            if k1 < k2 {
                assert(super::loadout::suitable(kind, k1));
                assert(v[k1].slot is Some || !super::loadout::suitable(kind, k1));
            } else if k2 < k1 {
                assert(super::loadout::suitable(kind, k2));
                assert(v[k2].slot is Some || !super::loadout::suitable(kind, k2));
            }
        },
        (Some(e1), None) => {
            super::loadout::lemma_layout_index(e1);
            assert(super::loadout::suitable(kind, layout_index(e1)));
        },
        (None, Some(e2)) => {
            super::loadout::lemma_layout_index(e2);
            assert(super::loadout::suitable(kind, layout_index(e2)));
        },
        (None, None) => {},
    }
}

/// Equipping an item into a slot other than the main hand swaps it with
/// what is equipped there; under the conditions of `swap_frees_as_foretold`
/// it leaves as many free slots as `free_after_equip` foretold.
pub proof fn equip_frees_as_foretold(inv: &Inventory, post: &Inventory, inv_slot: InvSlotId, target: EquipSlot, r: Seq<Item>)
    requires
        inv.wf(),
        inv.equip_post(inv_slot, post, r),
        inv.equip_target_of(inv_slot, Some(target)),
        target != EquipSlot::Mainhand,
        inv_slot.spec_loadout_idx() != layout_index(target) + 1,
        inv.valid_id(inv_slot) && inv.at(inv_slot) is Some ==> forall|j: int|
            0 <= j < inv.at(inv_slot).unwrap().slots@.len() ==> (#[trigger] inv.at(inv_slot).unwrap().slots@[j]) is None,
        ({
            let b = inv.equipment()[layout_index(target)].slot;
            let sec = inv.sections()[layout_index(target) + 1];
            let freed: int = if inv.at(inv_slot) is Some { 1 } else { 0 };
            b is Some ==> {
                &&& forall|q: int|
                    0 <= q < sec.len() && (#[trigger] sec[q]) is Some ==> !kind_is_stackable(
                        sec[q].unwrap().item_def.kind,
                    )
                &&& count_none(inv.all()) - count_none(sec) + Inventory::slots_of(inv.at(inv_slot)) + freed - 1
                    >= count_some(sec)
            }
        }),
    ensures
        count_none(post.all()) == inv.free_after_equip_with(inv_slot, Some(target)),
{
    let t = choose|t: Option<EquipSlot>|
        #[trigger] inv.equip_target_of(inv_slot, t) && match t {
            None => post.base() == inv.base() && post.equipment() == inv.equipment() && r.len() == 0,
            Some(target) => exists|mid: Inventory|
                #[trigger] inv.equip_stage(target, &mid) && mid.swap_post(inv_slot, target, post, r),
        };
    assert(inv.valid_id(inv_slot) && inv.at(inv_slot) is Some);
    lemma_equip_target_unique(inv.equipment(), inv.at(inv_slot).unwrap().item_def.kind, t, Some(target));
    let mid = choose|mid: Inventory| #[trigger] inv.equip_stage(target, &mid) && mid.swap_post(inv_slot, target, post, r);
    assert(mid.sections() == inv.sections());
    assert(mid.can_swap_spec(inv_slot, target)) by {
        super::loadout::lemma_layout_index(target);
        assert(inv.equipment()[layout_index(target)].equip_slot == target) by {
            inv.lemma_sections();
        }
    }
    if inv.equipment()[layout_index(target)].slot is Some {
        let drained = choose|drained: Item|
            emptied(inv.equipment()[layout_index(target)].slot.unwrap(), drained) && (post.all(), r)
                == mid.swap_result(inv_slot, target, drained);
        swap_frees_as_foretold(inv, post, inv_slot, target, drained);
    } else {
        swap_frees_as_foretold(inv, post, inv_slot, target, inv.at(inv_slot).unwrap());
    }
}

/// Total amount of the definition `d` among the items equipped in a
/// loadout (not counting what they hold, which the inventory's slots show).
pub open spec fn equipped_amount(v: Seq<super::loadout::LoadoutSlot>, d: Seq<char>) -> nat
    decreases v.len(),
{
    if v.len() == 0 {
        0
    } else {
        equipped_amount(v.drop_last(), d) + slot_amount(v.last().slot, d)
    }
}

/// Changing the item of one loadout entry changes the equipped amount by
/// the difference of the two items.
proof fn lemma_equipped_amount_frame(
    pre: Seq<super::loadout::LoadoutSlot>,
    post: Seq<super::loadout::LoadoutSlot>,
    k: int,
    d: Seq<char>,
)
    requires
        pre.len() == post.len(),
        0 <= k < pre.len(),
        forall|q: int| 0 <= q < pre.len() && q != k ==> slot_amount(#[trigger] post[q].slot, d) == slot_amount(pre[q].slot, d),
    ensures
        equipped_amount(post, d) + slot_amount(pre[k].slot, d) == equipped_amount(pre, d) + slot_amount(post[k].slot, d),
    decreases pre.len(),
{
    let n = pre.len() - 1;
    if k < n {
        assert(slot_amount(post[n].slot, d) == slot_amount(pre[n].slot, d));
        assert forall|q: int|
            0 <= q < pre.drop_last().len() && q != k implies slot_amount(#[trigger] post.drop_last()[q].slot, d)
            == slot_amount(pre.drop_last()[q].slot, d) by {
            assert(post.drop_last()[q] == post[q]);
            assert(pre.drop_last()[q] == pre[q]);
        }
        lemma_equipped_amount_frame(pre.drop_last(), post.drop_last(), k, d);
    } else {
        lemma_equipped_amount_same(pre.drop_last(), post.drop_last(), d);
    }
}

/// Loadouts that hold the same amounts entry by entry hold the same total.
proof fn lemma_equipped_amount_same(
    pre: Seq<super::loadout::LoadoutSlot>,
    post: Seq<super::loadout::LoadoutSlot>,
    d: Seq<char>,
)
    requires
        pre.len() == post.len(),
        forall|q: int| 0 <= q < pre.len() ==> slot_amount(#[trigger] post[q].slot, d) == slot_amount(pre[q].slot, d),
    ensures
        equipped_amount(post, d) == equipped_amount(pre, d),
    decreases pre.len(),
{
    if pre.len() > 0 {
        let n = pre.len() - 1;
        assert(slot_amount(post[n].slot, d) == slot_amount(pre[n].slot, d));
        assert forall|q: int| 0 <= q < pre.drop_last().len() implies slot_amount(
            #[trigger] post.drop_last()[q].slot,
            d,
        ) == slot_amount(pre.drop_last()[q].slot, d) by {
            assert(post.drop_last()[q] == post[q]);
            assert(pre.drop_last()[q] == pre[q]);
        }
        lemma_equipped_amount_same(pre.drop_last(), post.drop_last(), d);
    }
}

/// Replacing a whole section changes the amount held by the difference of
/// the two sections' amounts.
proof fn lemma_amount_replace(s: Seq<Seq<Option<Item>>>, k: int, x: Seq<Option<Item>>, d: Seq<char>)
    requires
        0 <= k < s.len(),
    ensures
        amount_of(flat(s.update(k, x)), d) + amount_of(s[k], d) == amount_of(flat(s), d) + amount_of(x, d),
{
    super::seqs::lemma_flat_replace(s, k, x);
    super::seqs::lemma_flat_split(s, k);
    let pre = flat(s.take(k));
    let suf = flat(s.skip(k + 1));
    lemma_amount_concat(pre, x, d);
    lemma_amount_concat(pre + x, suf, d);
    lemma_amount_concat(pre, s[k], d);
    lemma_amount_concat(pre + s[k], suf, d);
}

/// Writing one slot of a section changes the amount held as writing the same
/// slot of the flat sequence does.
proof fn lemma_amount_write(s: Seq<Seq<Option<Item>>>, k: int, j: int, v: Option<Item>, d: Seq<char>)
    requires
        0 <= k < s.len(),
        0 <= j < s[k].len(),
    ensures
        amount_of(flat(s.update(k, s[k].update(j, v))), d) + slot_amount(s[k][j], d) == amount_of(flat(s), d)
            + slot_amount(v, d),
{
    super::seqs::lemma_flat_update(s, k, j, v);
    super::seqs::lemma_flat_index(s, k, j);
    lemma_amount_update(flat(s), super::seqs::offset(s, k) + j, v, d);
}

/// Swapping an inventory slot with an equipment slot neither loses nor
/// duplicates anything: for every definition, what the inventory's slots
/// hold plus what is equipped plus what is handed back afterwards equals
/// what the slots held plus what was equipped before, plus what the item
/// taken from the inventory held (its slots now show it). This fails only
/// when the slot the item came from lies among its own slots and holds
/// something there: the previously equipped item is put back over it.
pub proof fn swap_conserves_amounts(
    inv: &Inventory,
    post: &Inventory,
    inv_slot: InvSlotId,
    equip_slot: EquipSlot,
    r: Seq<Item>,
    d: Seq<char>,
)
    requires
        inv.wf(),
        inv.swap_fits(inv_slot, equip_slot),
        inv.swap_post(inv_slot, equip_slot, post, r),
        !(inv.valid_id(inv_slot) && inv_slot.spec_loadout_idx() == layout_index(equip_slot) + 1 && inv_slot.spec_slot_idx()
            < super::opt_slots(inv.at(inv_slot)).len() && super::opt_slots(inv.at(inv_slot))[inv_slot.spec_slot_idx() as int] is Some),
    ensures
        amount_of(post.all(), d) + equipped_amount(post.equipment(), d) + amount_of_items(r, d) == amount_of(
            inv.all(),
            d,
        ) + equipped_amount(inv.equipment(), d) + (if inv.can_swap_spec(inv_slot, equip_slot) {
            amount_of(super::opt_slots(inv.at(inv_slot)), d)
        } else {
            0
        }),
{
    if !inv.can_swap_spec(inv_slot, equip_slot) {
        assert(post.sections() == inv.sections());
        assert(r =~= Seq::<Item>::empty());
    } else {
        swap_conserves_when_swapped(inv, post, inv_slot, equip_slot, r, d);
    }
}

/// `swap_conserves_amounts` where the swap takes place.
proof fn swap_conserves_when_swapped(
    inv: &Inventory,
    post: &Inventory,
    inv_slot: InvSlotId,
    equip_slot: EquipSlot,
    r: Seq<Item>,
    d: Seq<char>,
)
    requires
        inv.wf(),
        inv.swap_fits(inv_slot, equip_slot),
        inv.swap_post(inv_slot, equip_slot, post, r),
        inv.can_swap_spec(inv_slot, equip_slot),
        !(inv.valid_id(inv_slot) && inv_slot.spec_loadout_idx() == layout_index(equip_slot) + 1 && inv_slot.spec_slot_idx()
            < super::opt_slots(inv.at(inv_slot)).len() && super::opt_slots(inv.at(inv_slot))[inv_slot.spec_slot_idx() as int] is Some),
    ensures
        amount_of(post.all(), d) + equipped_amount(post.equipment(), d) + amount_of_items(r, d) == amount_of(
            inv.all(),
            d,
        ) + equipped_amount(inv.equipment(), d) + amount_of(super::opt_slots(inv.at(inv_slot)), d),
{
    super::loadout::lemma_layout_index(equip_slot);
    inv.lemma_sections();
    let k = layout_index(equip_slot);
    let k1 = k + 1;
    let li = inv_slot.spec_loadout_idx() as int;
    let si = inv_slot.spec_slot_idx() as int;
    let secs = inv.sections();
    let x = inv.at(inv_slot);
    let xs = super::opt_slots(x);
    let b = inv.equipment()[k].slot;
    // The equipped items: the moved item takes the place of the one there.
    assert forall|q: int| 0 <= q < inv.equipment().len() && q != k implies slot_amount(
        #[trigger] post.equipment()[q].slot,
        d,
    ) == slot_amount(inv.equipment()[q].slot, d) by {
        assert(post.equipment()[q].slot is Some <==> inv.equipment()[q].slot is Some);
    }
    assert(slot_amount(post.equipment()[k].slot, d) == slot_amount(x, d));
    lemma_equipped_amount_frame(inv.equipment(), post.equipment(), k, d);
    // Taking the item out of its slot.
    let s1 = inv.written(li, si, None);
    lemma_amount_write(secs, li, si, None, d);
    // Its slots replace those of the equipped item.
    let s2 = s1.update(k1, xs);
    assert(s2 == inv.swapped_sections(inv_slot, equip_slot));
    lemma_amount_replace(s1, k1, xs, d);
    if b is None {
        assert(secs[k1] == super::opt_slots(b));
        assert(s1[k1].len() == 0);
        assert(amount_of(s1[k1], d) == 0);
        assert(r.len() == 0);
        assert(r =~= Seq::<Item>::empty());
    } else {
        let drained = choose|drained: Item|
            emptied(b.unwrap(), drained) && (post.all(), r) == inv.swap_result(inv_slot, equip_slot, drained);
        assert(amount_in(drained, d) == slot_amount(b, d));
        let all3 = if li < s2.len() && si < s2[li].len() {
            flat(s2.update(li, s2[li].update(si, Some(drained))))
        } else {
            push_spec(flat(s2), drained, drained).0
        };
        if li < s2.len() && si < s2[li].len() {
            assert(s2[li][si] is None);
            lemma_amount_write(s2, li, si, Some(drained), d);
        } else {
            lemma_push_refusal_same(flat(s2), b.unwrap(), drained);
            push_conserves_amounts(flat(s2), drained, d);
            assert(opt_seq(push_spec(flat(s2), drained, drained).1) =~= Seq::<Item>::empty());
        }
        push_all_conserves_amounts(all3, somes(s1[k1]), d);
        lemma_amount_somes(s1[k1], d);
    }
}

} // verus!
